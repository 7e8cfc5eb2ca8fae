use apery::kppt::position_material;
use apery::piecevalue::{DRAGON_VALUE, PAWN_VALUE, ROOK_VALUE};
use apery::movetypes::Move;
use apery::position::moves::Position;
use apery::position::PositionBase;
use apery::sfen::START_SFEN;
use apery::types::{Color, Piece, Square};

fn parse(sfen: &str) -> PositionBase {
    let args: Vec<&str> = sfen.split_whitespace().collect();
    PositionBase::new_from_sfen_args(args.as_slice()).unwrap()
}

#[test]
fn do_and_undo_a_pawn_move() {
    let mut pos = Position::new(parse(START_SFEN));
    let m = Move::new_unpromote(Square::SQ77, Square::SQ76, Piece::B_PAWN);
    pos.do_move(m);
    assert_eq!(pos.base.to_sfen(), "lnsgkgsnl/1r5b1/ppppppppp/9/9/2P6/PP1PPPPPP/1B5R1/LNSGKGSNL w - 2");
    assert_eq!(pos.states.len(), 2);
    pos.undo_move(m);
    assert_eq!(pos.base.to_sfen(), START_SFEN);
    assert_eq!(pos.states.len(), 1);
}

#[test]
fn do_and_undo_a_capture_with_promotion() {
    let sfen = "4k4/9/4p4/9/9/9/9/9/4R3K b - 1";
    let mut pos = Position::new(parse(sfen));
    let m = Move::new_promote(Square::SQ59, Square::SQ53, Piece::B_ROOK);
    pos.do_move(m);
    assert_eq!(pos.base.to_sfen(), "4k4/9/4+R4/9/9/9/9/9/8K w P 2");
    assert_eq!(pos.states[1].captured_piece, Piece::W_PAWN);
    pos.undo_move(m);
    assert_eq!(pos.base.to_sfen(), sfen);
}

#[test]
fn do_and_undo_a_drop() {
    let sfen = "4k4/9/9/9/9/9/9/9/4K4 b G 1";
    let mut pos = Position::new(parse(sfen));
    let m = Move::new_drop(Piece::B_GOLD, Square::SQ58);
    pos.do_move(m);
    assert_eq!(pos.base.to_sfen(), "4k4/9/9/9/9/9/9/4G4/4K4 w - 2");
    pos.undo_move(m);
    assert_eq!(pos.base.to_sfen(), sfen);
}

#[test]
fn a_king_move_moves_the_king_square() {
    let sfen = "4k4/9/9/9/9/9/9/9/4K4 b - 1";
    let mut pos = Position::new(parse(sfen));
    let m = Move::new_unpromote(Square::SQ59, Square::SQ48, Piece::B_KING);
    pos.do_move(m);
    assert_eq!(pos.base.king_square(Color::BLACK), Square::SQ48);
    assert_eq!(pos.base.side_to_move(), Color::WHITE);
    pos.undo_move(m);
    assert_eq!(pos.base.king_square(Color::BLACK), Square::SQ59);
    assert_eq!(pos.base.to_sfen(), sfen);
}

#[test]
fn move_applies_says_which_moves_can_be_made() {
    let pos = parse(START_SFEN);
    assert!(pos.move_applies(Move::new_unpromote(Square::SQ77, Square::SQ76, Piece::B_PAWN)));
    // No piece of the side to move on 5e.
    assert!(!pos.move_applies(Move::new_unpromote(Square::SQ55, Square::SQ54, Piece::B_PAWN)));
    // Onto a piece of its own.
    assert!(!pos.move_applies(Move::new_unpromote(Square::SQ99, Square::SQ97, Piece::B_LANCE)));
    // A drop with an empty hand.
    assert!(!pos.move_applies(Move::new_drop(Piece::B_GOLD, Square::SQ55)));
    let pos = parse("4k4/9/9/9/9/9/9/9/4K4 b G 1");
    assert!(pos.move_applies(Move::new_drop(Piece::B_GOLD, Square::SQ55)));
    assert!(!pos.move_applies(Move::new_drop(Piece::B_GOLD, Square::SQ51)));
    // A king cannot be taken.
    let pos = parse("9/9/9/9/4k4/4R4/9/9/4K4 b - 1");
    assert!(!pos.move_applies(Move::new_unpromote(Square::SQ56, Square::SQ55, Piece::B_ROOK)));
}

#[test]
fn a_captured_promoted_piece_goes_to_hand_unpromoted() {
    let sfen = "4k4/9/9/9/4+p4/9/9/9/4R3K b - 1";
    let mut pos = Position::new(parse(sfen));
    let m = Move::new_unpromote(Square::SQ59, Square::SQ55, Piece::B_ROOK);
    assert!(pos.base.move_applies(m));
    pos.do_move(m);
    assert_eq!(pos.base.to_sfen(), "4k4/9/9/9/4R4/9/9/9/8K w P 2");
    assert_eq!(pos.states[1].captured_piece, Piece::W_PRO_PAWN);
    pos.undo_move(m);
    assert_eq!(pos.base.to_sfen(), sfen);
}

#[test]
fn material_follows_a_capture_with_promotion() {
    let sfen = "4k4/9/4p4/9/9/9/9/9/4R3K b - 1";
    let mut pos = Position::new(parse(sfen));
    assert_eq!(position_material(&pos.base).0, ROOK_VALUE - PAWN_VALUE);
    let m = Move::new_promote(Square::SQ59, Square::SQ53, Piece::B_ROOK);
    pos.do_move(m);
    // The rook became a dragon, the pawn left White's side and is in Black's hand.
    assert_eq!(position_material(&pos.base).0, DRAGON_VALUE + PAWN_VALUE);
    pos.undo_move(m);
    assert_eq!(position_material(&pos.base).0, ROOK_VALUE - PAWN_VALUE);
}
