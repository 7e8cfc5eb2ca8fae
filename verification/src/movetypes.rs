use vstd::prelude::*;
use crate::strings::push_char;
use crate::types::{Piece, PieceType, Square};

verus! {

/// A move in USI notation, such as `7g7f`, `2b8h+` or `P*5e`.
#[derive(Hash, PartialEq, Eq, PartialOrd, Ord, Debug)]
pub struct UsiMove(pub String);

impl UsiMove {
    pub fn as_str(&self) -> (r: &str)
        ensures r@ == self.0@,
    {
        self.0.as_str()
    }
}

/// A move in CSA notation, such as `7776FU`.
#[derive(Debug)]
pub struct CsaMove(pub String);

// Bit layout of a move:
// xxxxxxxx xxxxxxxx xxxxxxxx x1111111  to
// xxxxxxxx xxxxxxxx xxxxxxxx 1xxxxxxx  promote flag
// xxxxxxxx xxxxxxxx xxxxxxx1 xxxxxxxx  drop flag
// xxxxxxxx xxxxxxxx 1111111x xxxxxxxx  from or piece_dropped
// xxxxxxxx xxx11111 xxxxxxxx xxxxxxxx  moved piece (If this move is promotion. moved piece is unpromoted piece. If drop, it's 0.)
/// A move packed into a non-zero word.
#[derive(Debug, Copy, Clone, PartialEq, Eq, Structural)]
pub struct Move(pub u32);

/// The word of a board move from `from` to `to` of piece `pc` (codes as in `Square::val`
/// and `Piece::val`), promoting or not.
pub open spec fn board_move_word(from: int, to: int, pc: int, promote: bool) -> int {
    pc * 0x1_0000 + from * 0x200 + (if promote { 0x80int } else { 0int }) + to
}

/// The word of a drop of piece `pc` on `to`.
pub open spec fn drop_move_word(pc: int, to: int) -> int {
    0x100 + pc * 0x200 + to
}

pub proof fn lemma_board_word_bits(f: u32, t: u32, p: u32, pr: u32)
    by (bit_vector)
    requires
        f < 81,
        t < 81,
        p < 31,
        pr == 0 || pr == 0x80,
    ensures
        ({
            let m = (p * 0x1_0000 + f * 0x200 + pr + t) as u32;
            &&& (p << 16u32) | (f << 9u32) | t == (p * 0x1_0000 + f * 0x200 + t) as u32
            &&& 0x80u32 | ((p * 0x1_0000 + f * 0x200 + t) as u32) == (p * 0x1_0000 + f * 0x200 + 0x80 + t) as u32
            &&& m & 0x7fu32 == t
            &&& (m & 0xfe00u32) >> 9u32 == f
            &&& m & 0x100u32 == 0u32
            &&& (m & 0x80u32 != 0u32) == (pr == 0x80)
            &&& (m & 0x1f_0000u32) >> 16u32 == p
            &&& ((m & 0x1f_0000u32) >> 16u32) | ((m & 0x80u32) >> 4u32) == p | (if pr == 0x80 { 8u32 } else { 0u32 })
            &&& (m & 0x1ffu32) == pr + t
            &&& m >> 9u32 == p * 0x80 + f
            &&& (f != t ==> (m & 0x1ffu32) != m >> 9u32)
        }),
        p | 0u32 == p,
        ((p < 7 && 1 <= p) || (17 <= p && p < 23)) ==> p | 8u32 == p + 8,
{
}

pub proof fn lemma_drop_word_bits(p: u32, t: u32)
    by (bit_vector)
    requires
        t < 81,
        p < 31,
    ensures
        ({
            let m = (0x100 + p * 0x200 + t) as u32;
            &&& 0x100u32 | (p << 9u32) | t == m
            &&& m & 0x7fu32 == t
            &&& m & 0x100u32 != 0u32
            &&& m & 0x80u32 == 0u32
            &&& (m & 0x3e00u32) >> 9u32 == p
            &&& (m & 0x1e00u32) >> 9u32 == p % 16
            &&& (m & 0x1ffu32) == 0x100 + t
            &&& m >> 9u32 == p
            &&& (m & 0x1ffu32) != m >> 9u32
        }),
{
}

/// The words of the null, win and resign moves, and their equal halves at bit 9.
proof fn lemma_special_words()
    by (bit_vector)
    ensures
        1u32 | (1u32 << 9u32) == 0x201u32,
        2u32 | (2u32 << 9u32) == 0x402u32,
        3u32 | (3u32 << 9u32) == 0x603u32,
        (0u32 & 0x1ffu32) == 0u32 >> 9u32,
        (0x201u32 & 0x1ffu32) == 0x201u32 >> 9u32,
        (0x402u32 & 0x1ffu32) == 0x402u32 >> 9u32,
        (0x603u32 & 0x1ffu32) == 0x603u32 >> 9u32,
{
}

impl Move {
    pub const TO_MASK: u32 = 0x0000_007f;
    pub const FROM_MASK: u32 = 0x0000_fe00;
    pub const PIECE_TYPE_DROPPED_MASK: u32 = 0x0000_1e00;
    pub const PIECE_DROPPED_MASK: u32 = 0x0000_3e00;
    pub const MOVED_PIECE_MASK: u32 = 0x001f_0000;
    pub const PROMOTE_FLAG: u32 = 0x80;
    pub const DROP_FLAG: u32 = 0x100;
    pub const FROM_SHIFT: u32 = 9;
    pub const PIECE_TYPE_DROPPED_SHIFT: u32 = 9;
    pub const PIECE_DROPPED_SHIFT: u32 = 9;
    pub const MOVED_PIECE_SHIFT: u32 = 16;

    /// The destination field.
    pub open spec fn to_field(self) -> u32 {
        self.0 & 0x7f
    }

    /// The origin field (the dropped piece for a drop).
    pub open spec fn from_field(self) -> u32 {
        (self.0 & 0xfe00) >> 9
    }

    /// The dropped piece field.
    pub open spec fn dropped_field(self) -> u32 {
        (self.0 & 0x3e00) >> 9
    }

    /// The kind of the dropped piece.
    pub open spec fn dropped_type_field(self) -> u32 {
        (self.0 & 0x1e00) >> 9
    }

    /// The moved piece field (before promotion).
    pub open spec fn moved_field(self) -> u32 {
        (self.0 & 0x1f_0000) >> 16
    }

    pub open spec fn spec_is_drop(self) -> bool {
        self.0 & 0x100 != 0
    }

    pub open spec fn spec_is_promotion(self) -> bool {
        self.0 & 0x80 != 0
    }

    /// The null move: a move from and to the first square that is no promotion.
    #[allow(non_snake_case)]
    pub fn NULL() -> (r: Move)
        ensures r.0 == 0x201,
    {
        proof { lemma_special_words(); }
        Move(1 | (1 << Move::FROM_SHIFT))
    }

    /// The move that declares a win.
    #[allow(non_snake_case)]
    pub fn WIN() -> (r: Move)
        ensures r.0 == 0x402,
    {
        proof { lemma_special_words(); }
        Move(2 | (2 << Move::FROM_SHIFT))
    }

    /// The move that resigns.
    #[allow(non_snake_case)]
    pub fn RESIGN() -> (r: Move)
        ensures r.0 == 0x603,
    {
        proof { lemma_special_words(); }
        Move(3 | (3 << Move::FROM_SHIFT))
    }

    /// The move of `pc` from `from` to `to`, without promotion.
    pub fn new_unpromote(from: Square, to: Square, pc: Piece) -> (r: Move)
        requires board_move_word(from.val(), to.val(), pc.val(), false) != 0,
        ensures r.0 == board_move_word(from.val(), to.val(), pc.val(), false),
    {
        let f = from.to_i32() as u32;
        let t = to.to_i32() as u32;
        let p = pc.to_i32() as u32;
        proof { lemma_board_word_bits(f, t, p, 0); }
        Move((p << Move::MOVED_PIECE_SHIFT) | (f << Move::FROM_SHIFT) | t)
    }

    /// The move of `pc` from `from` to `to`, promoting.
    pub fn new_promote(from: Square, to: Square, pc: Piece) -> (r: Move)
        requires board_move_word(from.val(), to.val(), pc.val(), false) != 0,
        ensures r.0 == board_move_word(from.val(), to.val(), pc.val(), true),
    {
        let f = from.to_i32() as u32;
        let t = to.to_i32() as u32;
        let p = pc.to_i32() as u32;
        proof { lemma_board_word_bits(f, t, p, 0); }
        Move(Move::PROMOTE_FLAG | Move::new_unpromote(from, to, pc).0)
    }

    /// The drop of `pc` on `to`.
    pub fn new_drop(pc: Piece, to: Square) -> (r: Move)
        ensures r.0 == drop_move_word(pc.val(), to.val()),
    {
        let t = to.to_i32() as u32;
        let p = pc.to_i32() as u32;
        proof { lemma_drop_word_bits(p, t); }
        Move(Move::DROP_FLAG | (p << Move::PIECE_DROPPED_SHIFT) | t)
    }

    /// The move of the moved piece from the destination to itself.
    pub fn reverse(self) -> (r: Move)
        requires
            self.to_field() < 81,
            self.moved_field() <= 14 || 17 <= self.moved_field() <= 30,
            board_move_word(self.to_field() as int, self.to_field() as int, self.moved_field() as int, false) != 0,
        ensures r.0 == board_move_word(self.to_field() as int, self.to_field() as int, self.moved_field() as int, false),
    {
        let pc = Piece::from_i32(((self.0 & Move::MOVED_PIECE_MASK) >> Move::MOVED_PIECE_SHIFT) as i32);
        Move::new_unpromote(self.to(), self.to(), pc)
    }

    pub fn to(self) -> (r: Square)
        requires self.to_field() < 81,
        ensures r.val() == self.to_field(),
    {
        Square((self.0 & Move::TO_MASK) as i32)
    }

    pub fn from(self) -> (r: Square)
        requires self.from_field() < 81,
        ensures r.val() == self.from_field(),
    {
        Square(((self.0 & Move::FROM_MASK) >> Move::FROM_SHIFT) as i32)
    }

    pub fn piece_dropped(self) -> (r: Piece)
        requires self.dropped_field() <= 14 || 17 <= self.dropped_field() <= 30,
        ensures r.val() == self.dropped_field(),
    {
        Piece::from_i32(((self.0 & Move::PIECE_DROPPED_MASK) >> Move::PIECE_DROPPED_SHIFT) as i32)
    }

    pub fn piece_type_dropped(self) -> (r: PieceType)
        requires self.dropped_type_field() < 15,
        ensures r.val() == self.dropped_type_field(),
    {
        PieceType::from_i32(((self.0 & Move::PIECE_TYPE_DROPPED_MASK) >> Move::PIECE_TYPE_DROPPED_SHIFT) as i32)
    }

    /// The piece as it stood before the move (the dropped piece for a drop).
    pub fn piece_moved_before_move(self) -> (r: Piece)
        requires
            self.spec_is_drop() ==> (self.dropped_field() <= 14 || 17 <= self.dropped_field() <= 30),
            !self.spec_is_drop() ==> (self.moved_field() <= 14 || 17 <= self.moved_field() <= 30),
        ensures r.val() == if self.spec_is_drop() { self.dropped_field() } else { self.moved_field() },
    {
        if self.is_drop() {
            self.piece_dropped()
        } else {
            Piece::from_i32(((self.0 & Move::MOVED_PIECE_MASK) >> Move::MOVED_PIECE_SHIFT) as i32)
        }
    }

    /// The piece as it stands after the move: promoted if the move promotes.
    pub fn piece_moved_after_move(self) -> (r: Piece)
        requires
            self.spec_is_drop() ==> (self.dropped_field() <= 14 || 17 <= self.dropped_field() <= 30),
            !self.spec_is_drop() ==> ({
                let x = self.moved_field() | ((self.0 & 0x80) >> 4);
                x <= 14 || 17 <= x <= 30
            }),
        ensures
            r.val() == if self.spec_is_drop() { self.dropped_field() } else { self.moved_field() | ((self.0 & 0x80) >> 4) },
    {
        if self.is_drop() {
            self.piece_dropped()
        } else {
            Piece::from_i32(
                (((self.0 & Move::MOVED_PIECE_MASK) >> Move::MOVED_PIECE_SHIFT) | ((self.0 & Move::PROMOTE_FLAG) >> 4u32)) as i32,
            )
        }
    }

    pub fn is_drop(self) -> (r: bool)
        ensures r == self.spec_is_drop(),
    {
        (self.0 & Move::DROP_FLAG) != 0
    }

    pub fn is_promotion(self) -> (r: bool)
        ensures r == self.spec_is_promotion(),
    {
        (self.0 & Move::PROMOTE_FLAG) != 0
    }

    /// Whether the move promotes a pawn.
    pub fn is_pawn_promotion(self) -> (r: bool)
        requires
            self.spec_is_drop() ==> (self.dropped_field() <= 14 || 17 <= self.dropped_field() <= 30),
            !self.spec_is_drop() ==> (self.moved_field() <= 14 || 17 <= self.moved_field() <= 30),
        ensures
            r == (self.spec_is_promotion() && (if self.spec_is_drop() { self.dropped_field() } else { self.moved_field() }) % 16 == 1),
    {
        self.is_promotion() && PieceType::new(self.piece_moved_before_move()) == PieceType::PAWN
    }
}


/// A square in USI notation: the file digit, then the rank letter.
pub open spec fn square_usi_chars(sq: int) -> Seq<char> {
    seq![('1' as int + sq / 9) as char, ('a' as int + sq % 9) as char]
}

impl Move {
    /// The move in USI notation.
    pub open spec fn spec_usi(self) -> Seq<char> {
        if self.spec_is_drop() {
            PieceType::from_val(self.dropped_type_field() as int).usi_chars() + seq!['*'] + square_usi_chars(self.to_field() as int)
        } else {
            square_usi_chars(self.from_field() as int) + square_usi_chars(self.to_field() as int)
                + if self.spec_is_promotion() { seq!['+'] } else { Seq::empty() }
        }
    }

    pub fn to_usi(self) -> (r: UsiMove)
        requires
            self.to_field() < 81,
            self.spec_is_drop() ==> 1 <= self.dropped_type_field() < 15,
            !self.spec_is_drop() ==> self.from_field() < 81,
        ensures r.0@ == self.spec_usi(),
    {
        let mut s = String::new();
        if self.is_drop() {
            let pt = self.piece_type_dropped();
            proof { PieceType::lemma_from_val(pt); }
            s.append(pt.to_usi_str());
            push_char(&mut s, '*');
            let to = self.to().to_usi_string();
            s.append(to.as_str());
        } else {
            let from = self.from().to_usi_string();
            s.append(from.as_str());
            let to = self.to().to_usi_string();
            s.append(to.as_str());
            if self.is_promotion() {
                push_char(&mut s, '+');
            }
        }
        assert(s@ =~= self.spec_usi());
        UsiMove(s)
    }

    pub fn to_usi_string(self) -> (r: String)
        requires
            self.to_field() < 81,
            self.spec_is_drop() ==> 1 <= self.dropped_type_field() < 15,
            !self.spec_is_drop() ==> self.from_field() < 81,
        ensures r@ == self.spec_usi(),
    {
        self.to_usi().0
    }
}

/// Reads an optional move as its word, `0` standing for no move.
pub trait NonZeroUnwrapUnchecked {
    fn non_zero_unwrap_unchecked(self) -> Move;
}

impl NonZeroUnwrapUnchecked for Option<Move> {
    fn non_zero_unwrap_unchecked(self) -> (r: Move)
        ensures r == match self { Some(m) => m, None => Move(0) },
    {
        match self {
            Some(m) => m,
            None => Move(0),
        }
    }
}

/// Whether an optional move is a real move: present, and not the null, win or resign move.
pub trait IsNormalMove {
    fn is_normal_move(&self) -> bool;
}

/// The word of an optional move (`0` for none) does not have equal low and high halves at
/// bit 9, the mark of the null, win and resign moves.
pub open spec fn spec_is_normal_move(m: Option<Move>) -> bool {
    let val = match m { Some(x) => x.0, None => 0u32 };
    (val & 0x1ff) != (val >> 9)
}

impl IsNormalMove for Option<Move> {
    fn is_normal_move(&self) -> (r: bool)
        ensures r == spec_is_normal_move(*self),
    {
        let val = self.non_zero_unwrap_unchecked().0;
        (val & 0x1ff) != (val >> 9)
    }
}

/// A move with a score for ordering.
#[derive(Clone, Copy, Debug)]
pub struct ExtMove {
    pub mv: Move,
    pub score: i32,
}

impl ExtMove {
    pub const MAX_LEGAL_MOVES: usize = 594;
}

impl PartialEq for ExtMove {
    fn eq(&self, other: &ExtMove) -> (r: bool) {
        self.score == other.score
    }
}

impl vstd::std_specs::cmp::PartialEqSpecImpl for ExtMove {
    open spec fn obeys_eq_spec() -> bool {
        true
    }

    open spec fn eq_spec(&self, other: &ExtMove) -> bool {
        self.score == other.score
    }
}

impl Eq for ExtMove {
}

/// A board move reads back as written: its destination, origin and moved piece are the
/// ones it was made from, it is no drop, it promotes exactly when made by `new_promote`, the
/// piece after a promoting move is the promoted piece, and it is a normal move when it
/// changes square.
pub proof fn lemma_board_move_fields(from: Square, to: Square, pc: Piece, promote: bool)
    ensures
        ({
            let m = Move(board_move_word(from.val(), to.val(), pc.val(), promote) as u32);
            &&& m.to_field() == to.val()
            &&& m.from_field() == from.val()
            &&& m.moved_field() == pc.val()
            &&& !m.spec_is_drop()
            &&& m.spec_is_promotion() == promote
            &&& (m.moved_field() | ((m.0 & 0x80) >> 4)) == if promote && pc.spec_is_promotable() { pc.val() + 8 } else if promote { ((pc.val() as u32) | 8u32) as int } else { pc.val() }
            &&& (from != to ==> spec_is_normal_move(Some(m)))
        }),
{
    broadcast use Square::lemma_val_range, Piece::lemma_val_range, Square::lemma_from_val;
    let f = from.val() as u32;
    let t = to.val() as u32;
    let p = pc.val() as u32;
    let pr: u32 = if promote { 0x80 } else { 0 };
    lemma_board_word_bits(f, t, p, pr);
    let m = (p * 0x1_0000 + f * 0x200 + pr + t) as u32;
    assert(m as int == board_move_word(from.val(), to.val(), pc.val(), promote));
    let mm = Move(m);
    assert(mm.to_field() == to.val());
    assert(mm.from_field() == from.val());
    assert(mm.moved_field() == pc.val());
    assert(!mm.spec_is_drop());
    assert(mm.spec_is_promotion() == promote);
}

/// A drop reads back as written: its destination and dropped piece are the ones it was
/// made from, the kind dropped is the piece's kind, it is a drop, it does not promote, and it
/// is a normal move.
pub proof fn lemma_drop_move_fields(pc: Piece, to: Square)
    ensures
        ({
            let m = Move(drop_move_word(pc.val(), to.val()) as u32);
            &&& m.to_field() == to.val()
            &&& m.dropped_field() == pc.val()
            &&& m.dropped_type_field() == pc.val() % 16
            &&& m.spec_is_drop()
            &&& !m.spec_is_promotion()
            &&& spec_is_normal_move(Some(m))
        }),
{
    broadcast use Square::lemma_val_range, Piece::lemma_val_range;
    let t = to.val() as u32;
    let p = pc.val() as u32;
    lemma_drop_word_bits(p, t);
    let m = (0x100 + p * 0x200 + t) as u32;
    assert(m as int == drop_move_word(pc.val(), to.val()));
}

/// No move, the null move, the win move and the resign move are not normal moves.
pub proof fn lemma_special_moves_not_normal()
    ensures
        !spec_is_normal_move(None),
        !spec_is_normal_move(Some(Move(0x201))),
        !spec_is_normal_move(Some(Move(0x402))),
        !spec_is_normal_move(Some(Move(0x603))),
{
    lemma_special_words();
}
} // verus!
