use apery::hand::Hand;
use apery::types::PieceType;

#[test]
fn test_hand_shift_bits() {
    assert_eq!(Hand::PAWN_SHIFT_BITS, 0);
    assert_eq!(Hand::BISHOP_SHIFT_BITS, 18);
    assert_eq!(Hand::ROOK_SHIFT_BITS, 21);
}

#[test]
fn test_hand_num() {
    let hand = Hand(3 << Hand::LANCE_SHIFT_BITS);
    assert_eq!(hand.num(PieceType::PAWN), 0);
    assert_eq!(hand.num(PieceType::LANCE), 3);
    assert_eq!(hand.num(PieceType::KNIGHT), 0);
}

#[test]
fn test_hand_set() {
    let mut hand = Hand(0);
    hand.set(PieceType::LANCE, 2);
    hand.set(PieceType::GOLD, 4);
    hand.set(PieceType::BISHOP, 1);
    hand.minus_one(PieceType::GOLD);
    hand.plus_one(PieceType::BISHOP);
    assert_eq!(hand.num(PieceType::LANCE), 2);
    assert_eq!(hand.num(PieceType::GOLD), 3);
    assert_eq!(hand.num(PieceType::BISHOP), 2);

    let mut hand2: Hand = hand;
    assert_eq!(hand, hand2);
    assert_eq!(hand2.num(PieceType::LANCE), 2);
    assert_eq!(hand2.num(PieceType::GOLD), 3);
    assert_eq!(hand2.num(PieceType::BISHOP), 2);
    hand2.minus_one(PieceType::LANCE);
    assert!(hand != hand2);
}

#[test]
fn test_hand_is_equal_or_superior() {
    let mut hand = Hand(0);
    hand.set(PieceType::PAWN, 17);
    hand.set(PieceType::SILVER, 3);
    hand.set(PieceType::ROOK, 2);
    let mut hand2 = hand;
    assert_eq!(hand.is_equal_or_superior(hand2), true);
    assert_eq!(hand2.is_equal_or_superior(hand), true);
    hand2.minus_one(PieceType::PAWN);
    assert_eq!(hand.is_equal_or_superior(hand2), true);
    assert_eq!(hand2.is_equal_or_superior(hand), false);
    hand2.plus_one(PieceType::BISHOP);
    assert_eq!(hand.is_equal_or_superior(hand2), false);
    assert_eq!(hand2.is_equal_or_superior(hand), false);
}

#[test]
fn hand_plus_then_minus_gives_back_the_hand() {
    let mut hand = Hand(0);
    hand.set(PieceType::KNIGHT, 2);
    let before = hand;
    hand.plus_one(PieceType::KNIGHT);
    assert_eq!(hand.num(PieceType::KNIGHT), 3);
    hand.minus_one(PieceType::KNIGHT);
    assert_eq!(hand, before);
}

#[test]
fn hand_promoted_piece_counts_as_its_base() {
    let mut hand = Hand(0);
    hand.plus_one(PieceType::DRAGON);
    assert_eq!(hand.num(PieceType::ROOK), 1);
    assert!(hand.exist(PieceType::ROOK));
    assert!(hand.except_pawn_exist());
    let mut pawns = Hand(0);
    pawns.plus_one(PieceType::PAWN);
    assert_eq!(pawns.num(PieceType::PAWN), 1);
    assert!(!pawns.except_pawn_exist());
    let mut golds = Hand(0);
    golds.plus_one(PieceType::PRO_SILVER);
    assert_eq!(golds.num(PieceType::GOLD), 1);
}
