use apery::movetypes::{IsNormalMove, Move};
use apery::types::{Piece, PieceType, Square};

#[test]
fn board_move_reads_back_its_fields() {
    let m = Move::new_unpromote(Square::SQ77, Square::SQ76, Piece::B_PAWN);
    assert_eq!(m.from(), Square::SQ77);
    assert_eq!(m.to(), Square::SQ76);
    assert_eq!(m.piece_moved_before_move(), Piece::B_PAWN);
    assert_eq!(m.piece_moved_after_move(), Piece::B_PAWN);
    assert!(!m.is_drop());
    assert!(!m.is_promotion());
    assert!(Some(m).is_normal_move());
    assert_eq!(m.to_usi_string(), "7g7f");
    let p = Move::new_promote(Square::SQ23, Square::SQ22, Piece::B_PAWN);
    assert!(p.is_promotion());
    assert!(p.is_pawn_promotion());
    assert_eq!(p.piece_moved_after_move(), Piece::B_PRO_PAWN);
    assert_eq!(p.to_usi_string(), "2c2b+");
}

#[test]
fn drop_move_reads_back_its_fields() {
    let m = Move::new_drop(Piece::W_GOLD, Square::SQ55);
    assert!(m.is_drop());
    assert_eq!(m.to(), Square::SQ55);
    assert_eq!(m.piece_dropped(), Piece::W_GOLD);
    assert_eq!(m.piece_type_dropped(), PieceType::GOLD);
    assert!(Some(m).is_normal_move());
    assert_eq!(m.to_usi_string(), "G*5e");
}

#[test]
fn special_moves_are_not_normal() {
    assert!(!None::<Move>.is_normal_move());
    assert!(!Some(Move::NULL()).is_normal_move());
    assert!(!Some(Move::WIN()).is_normal_move());
    assert!(!Some(Move::RESIGN()).is_normal_move());
}
