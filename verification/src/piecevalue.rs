use vstd::prelude::*;
use crate::types::{Piece, PieceType, Value};

verus! {

/// The material values: nine tenths of 100 for a pawn, 350 for a lance, 450 for a knight,
/// 550 for a silver, 950 for a bishop, 1100 for a rook, 600 for a gold and each promoted
/// minor piece, 1050 for a horse and 1550 for a dragon.
pub const PAWN_VALUE: i32 = 90;
pub const LANCE_VALUE: i32 = 315;
pub const KNIGHT_VALUE: i32 = 405;
pub const SILVER_VALUE: i32 = 495;
pub const BISHOP_VALUE: i32 = 855;
pub const ROOK_VALUE: i32 = 990;
pub const GOLD_VALUE: i32 = 540;
pub const PRO_PAWN_VALUE: i32 = 540;
pub const PRO_LANCE_VALUE: i32 = 540;
pub const PRO_KNIGHT_VALUE: i32 = 540;
pub const PRO_SILVER_VALUE: i32 = 540;
pub const HORSE_VALUE: i32 = 945;
pub const DRAGON_VALUE: i32 = 1395;
/// The king counts for nothing, which the static exchange evaluation relies on.
pub const KING_VALUE: i32 = 0;

/// The material value of the piece type numbered `pt` (zero for the empty type).
pub open spec fn material(pt: int) -> int {
    if pt == 1 { PAWN_VALUE as int }
    else if pt == 2 { LANCE_VALUE as int }
    else if pt == 3 { KNIGHT_VALUE as int }
    else if pt == 4 { SILVER_VALUE as int }
    else if pt == 5 { BISHOP_VALUE as int }
    else if pt == 6 { ROOK_VALUE as int }
    else if pt == 7 { GOLD_VALUE as int }
    else if pt == 8 { KING_VALUE as int }
    else if pt == 9 { PRO_PAWN_VALUE as int }
    else if pt == 10 { PRO_LANCE_VALUE as int }
    else if pt == 11 { PRO_KNIGHT_VALUE as int }
    else if pt == 12 { PRO_SILVER_VALUE as int }
    else if pt == 13 { HORSE_VALUE as int }
    else if pt == 14 { DRAGON_VALUE as int }
    else { 0 }
}

/// The material value of the unpromoted form of the piece type numbered `pt` (a promoted
/// piece goes back to its owner's hand unpromoted; a gold or king stays as it is).
pub open spec fn unpromoted_material(pt: int) -> int {
    if pt == 13 { BISHOP_VALUE as int }
    else if pt == 14 { ROOK_VALUE as int }
    else if 9 <= pt <= 12 { material(pt - 8) }
    else { material(pt) }
}

/// What a capture of the piece type numbered `pt` gains: the piece leaves the board and
/// its unpromoted form enters the capturer's hand.
pub open spec fn capture_material(pt: int) -> int {
    material(pt) + unpromoted_material(pt)
}

/// What promoting the piece type numbered `pt` (pawn to rook) gains.
pub open spec fn promote_material(pt: int) -> int {
    if 1 <= pt <= 4 { material(pt + 8) - material(pt) }
    else if pt == 5 || pt == 6 { material(pt + 8) - material(pt) }
    else { 0 }
}

fn material_of(pt: PieceType) -> (r: i32)
    ensures r == material(pt.val()),
{
    match pt {
        PieceType::OCCUPIED => 0,
        PieceType::PAWN => PAWN_VALUE,
        PieceType::LANCE => LANCE_VALUE,
        PieceType::KNIGHT => KNIGHT_VALUE,
        PieceType::SILVER => SILVER_VALUE,
        PieceType::BISHOP => BISHOP_VALUE,
        PieceType::ROOK => ROOK_VALUE,
        PieceType::GOLD => GOLD_VALUE,
        PieceType::KING => KING_VALUE,
        PieceType::PRO_PAWN => PRO_PAWN_VALUE,
        PieceType::PRO_LANCE => PRO_LANCE_VALUE,
        PieceType::PRO_KNIGHT => PRO_KNIGHT_VALUE,
        PieceType::PRO_SILVER => PRO_SILVER_VALUE,
        PieceType::HORSE => HORSE_VALUE,
        PieceType::DRAGON => DRAGON_VALUE,
    }
}

fn capture_material_of(pt: PieceType) -> (r: i32)
    ensures r == capture_material(pt.val()),
{
    match pt {
        PieceType::OCCUPIED => 0,
        PieceType::PAWN => PAWN_VALUE * 2,
        PieceType::LANCE => LANCE_VALUE * 2,
        PieceType::KNIGHT => KNIGHT_VALUE * 2,
        PieceType::SILVER => SILVER_VALUE * 2,
        PieceType::BISHOP => BISHOP_VALUE * 2,
        PieceType::ROOK => ROOK_VALUE * 2,
        PieceType::GOLD => GOLD_VALUE * 2,
        PieceType::KING => KING_VALUE * 2,
        PieceType::PRO_PAWN => PRO_PAWN_VALUE + PAWN_VALUE,
        PieceType::PRO_LANCE => PRO_LANCE_VALUE + LANCE_VALUE,
        PieceType::PRO_KNIGHT => PRO_KNIGHT_VALUE + KNIGHT_VALUE,
        PieceType::PRO_SILVER => PRO_SILVER_VALUE + SILVER_VALUE,
        PieceType::HORSE => HORSE_VALUE + BISHOP_VALUE,
        PieceType::DRAGON => DRAGON_VALUE + ROOK_VALUE,
    }
}

/// The material value of a piece on the board (zero for the empty square).
pub fn piece_value(pc: Piece) -> (r: Value)
    ensures r.0 == material(pc.val() % 16),
{
    Value(material_of(PieceType::new(pc)))
}

/// The material value of a piece type.
pub fn piece_type_value(pt: PieceType) -> (r: Value)
    ensures r.0 == material(pt.val()),
{
    Value(material_of(pt))
}

/// What capturing a piece gains: its value on the board and the value of its unpromoted
/// form in hand.
pub fn capture_piece_value(pc: Piece) -> (r: Value)
    ensures r.0 == capture_material(pc.val() % 16),
{
    Value(capture_material_of(PieceType::new(pc)))
}

/// What capturing a piece of type `pt` gains.
pub fn capture_piece_type_value(pt: PieceType) -> (r: Value)
    ensures r.0 == capture_material(pt.val()),
{
    Value(capture_material_of(pt))
}

/// What promoting a piece of type `pt` gains; defined for the types up to the rook, which
/// are the ones that promote or none at all.
pub fn promote_piece_type_value(pt: PieceType) -> (r: Value)
    requires pt.val() < 7,
    ensures r.0 == promote_material(pt.val()),
{
    match pt {
        PieceType::PAWN => Value(PRO_PAWN_VALUE - PAWN_VALUE),
        PieceType::LANCE => Value(PRO_LANCE_VALUE - LANCE_VALUE),
        PieceType::KNIGHT => Value(PRO_KNIGHT_VALUE - KNIGHT_VALUE),
        PieceType::SILVER => Value(PRO_SILVER_VALUE - SILVER_VALUE),
        PieceType::BISHOP => Value(HORSE_VALUE - BISHOP_VALUE),
        PieceType::ROOK => Value(DRAGON_VALUE - ROOK_VALUE),
        _ => Value(0),
    }
}

/// The rank of a piece type as the least valuable attacker: pawn 1 up to dragon 10, the
/// king last at 10000.
pub open spec fn lva_rank(pt: int) -> int {
    if pt == 1 { 1 }
    else if pt == 2 { 2 }
    else if pt == 3 { 3 }
    else if pt == 4 { 4 }
    else if 9 <= pt <= 12 { 5 }
    else if pt == 7 { 6 }
    else if pt == 5 { 7 }
    else if pt == 13 { 8 }
    else if pt == 6 { 9 }
    else if pt == 14 { 10 }
    else { 10000 }
}

/// The least-valuable-attacker rank of a piece type on the board.
pub fn lva_value(pt: PieceType) -> (r: Value)
    requires pt != PieceType::OCCUPIED,
    ensures r.0 == lva_rank(pt.val()),
{
    match pt {
        PieceType::PAWN => Value(1),
        PieceType::LANCE => Value(2),
        PieceType::KNIGHT => Value(3),
        PieceType::SILVER => Value(4),
        PieceType::PRO_SILVER => Value(5),
        PieceType::PRO_KNIGHT => Value(5),
        PieceType::PRO_LANCE => Value(5),
        PieceType::PRO_PAWN => Value(5),
        PieceType::GOLD => Value(6),
        PieceType::BISHOP => Value(7),
        PieceType::HORSE => Value(8),
        PieceType::ROOK => Value(9),
        PieceType::DRAGON => Value(10),
        _ => Value(10000),
    }
}

} // verus!
