use apery::bitboard::{sliding_attacks, AttackTable, BetweenTable, Bitboard, KingAttackTable, LanceAttackTable, PieceAttackTable, ProximityCheckTable};
use apery::types::{Color, Piece, PieceType, Relation, Square};

fn bb_of(squares: &[Square]) -> Bitboard {
    let mut bb = Bitboard::ZERO();
    for sq in squares {
        bb.set(*sq);
    }
    bb
}

#[test]
fn test_lance_attack() {
    let table = LanceAttackTable::new();
    let mut occupied = Bitboard::ZERO();
    occupied.set(Square::SQ52);
    let attack = table.attack(Color::BLACK, Square::SQ55, &occupied);
    assert_eq!(attack.is_set(Square::SQ55), false);
    assert_eq!(attack.is_set(Square::SQ54), true);
    assert_eq!(attack.is_set(Square::SQ52), true);
    assert_eq!(attack.is_set(Square::SQ51), false);

    let mut occupied = Bitboard::ZERO();
    occupied.set(Square::SQ58);
    let attack = table.attack(Color::WHITE, Square::SQ55, &occupied);
    assert_eq!(attack.is_set(Square::SQ55), false);
    assert_eq!(attack.is_set(Square::SQ56), true);
    assert_eq!(attack.is_set(Square::SQ58), true);
    assert_eq!(attack.is_set(Square::SQ59), false);
}

#[test]
fn test_king_attack() {
    let table = KingAttackTable::new();
    assert_eq!(table.attack(Square::SQ11), bb_of(&[Square::SQ12, Square::SQ21, Square::SQ22]));
    assert_eq!(
        table.attack(Square::SQ88),
        bb_of(&[
            Square::SQ77,
            Square::SQ78,
            Square::SQ79,
            Square::SQ87,
            Square::SQ89,
            Square::SQ97,
            Square::SQ98,
            Square::SQ99
        ])
    );
}

#[test]
fn test_piece_attack() {
    let pawn = PieceAttackTable::new(&[&PieceAttackTable::BLACK_PAWN_DELTAS, &PieceAttackTable::WHITE_PAWN_DELTAS]);
    let knight = PieceAttackTable::new(&[&PieceAttackTable::BLACK_KNIGHT_DELTAS, &PieceAttackTable::WHITE_KNIGHT_DELTAS]);
    let silver = PieceAttackTable::new(&[&PieceAttackTable::BLACK_SILVER_DELTAS, &PieceAttackTable::WHITE_SILVER_DELTAS]);
    let gold = PieceAttackTable::new(&[&PieceAttackTable::BLACK_GOLD_DELTAS, &PieceAttackTable::WHITE_GOLD_DELTAS]);
    assert_eq!(pawn.attack(Color::BLACK, Square::SQ11), Bitboard::ZERO());
    assert_eq!(pawn.attack(Color::WHITE, Square::SQ11), bb_of(&[Square::SQ12]));
    assert_eq!(
        gold.attack(Color::BLACK, Square::SQ88),
        bb_of(&[Square::SQ77, Square::SQ78, Square::SQ87, Square::SQ89, Square::SQ97, Square::SQ98])
    );
    assert_eq!(
        silver.attack(Color::BLACK, Square::SQ88),
        bb_of(&[Square::SQ77, Square::SQ79, Square::SQ87, Square::SQ97, Square::SQ99])
    );
    assert_eq!(knight.attack(Color::BLACK, Square::SQ88), bb_of(&[Square::SQ76, Square::SQ96]));
    assert_eq!(knight.attack(Color::WHITE, Square::SQ88), Bitboard::ZERO());
}

#[test]
fn lance_table_matches_sliding_attacks_everywhere() {
    let table = LanceAttackTable::new();
    let mut occupied = Bitboard::ZERO();
    for sq in [Square::SQ13, Square::SQ17, Square::SQ55, Square::SQ52, Square::SQ58, Square::SQ92, Square::SQ98, Square::SQ81] {
        occupied.set(sq);
    }
    for sq in Square::ALL.iter() {
        assert_eq!(table.attack(Color::BLACK, *sq, &occupied), sliding_attacks(&[Square::DELTA_N], *sq, &occupied));
        assert_eq!(table.attack(Color::WHITE, *sq, &occupied), sliding_attacks(&[Square::DELTA_S], *sq, &occupied));
        assert_eq!(table.attack(Color::BLACK, *sq, &Bitboard::ZERO()), table.pseudo_attack(Color::BLACK, *sq));
        assert_eq!(table.attack(Color::WHITE, *sq, &Bitboard::ZERO()), table.pseudo_attack(Color::WHITE, *sq));
    }
}

#[test]
fn king_attacks_are_the_adjacent_squares() {
    let table = KingAttackTable::new();
    for sq in Square::ALL.iter() {
        let a = sq.to_i32();
        for t in Square::ALL.iter() {
            let b = t.to_i32();
            let adjacent = a != b && (a / 9 - b / 9).abs() <= 1 && (a % 9 - b % 9).abs() <= 1;
            assert_eq!(table.attack(*sq).is_set(*t), adjacent);
        }
    }
}

#[test]
fn test_bishop_magic() {
    let table = AttackTable::new();
    let mut occupied = Bitboard::ZERO();
    occupied.set(Square::SQ66);
    occupied.set(Square::SQ33);
    occupied.set(Square::SQ22);
    occupied.set(Square::SQ82);
    occupied.set(Square::SQ28);
    assert_eq!(
        table.bishop.magic(Square::SQ55).attack(&occupied),
        sliding_attacks(&AttackTable::BISHOP_DELTAS, Square::SQ55, &occupied)
    );
}

#[test]
fn test_rook_magic() {
    let table = AttackTable::new();
    let mut occupied = Bitboard::ZERO();
    occupied.set(Square::SQ65);
    occupied.set(Square::SQ35);
    occupied.set(Square::SQ25);
    occupied.set(Square::SQ52);
    occupied.set(Square::SQ58);
    assert_eq!(
        table.rook.magic(Square::SQ55).attack(&occupied),
        sliding_attacks(&AttackTable::ROOK_DELTAS, Square::SQ55, &occupied)
    );
}

#[test]
fn test_pseudo_attack() {
    let table = AttackTable::new();
    for sq in Square::ALL.iter() {
        assert_eq!(table.bishop.magic(*sq).attack(&Bitboard::ZERO()), table.bishop.magic(*sq).pseudo_attack());
        assert_eq!(table.rook.magic(*sq).attack(&Bitboard::ZERO()), table.rook.magic(*sq).pseudo_attack());
    }
    for c in Color::ALL.iter() {
        for sq in Square::ALL.iter() {
            assert_eq!(table.lance.attack(*c, *sq, &Bitboard::ZERO()), table.lance.pseudo_attack(*c, *sq));
        }
    }
}

#[test]
fn magic_lookups_match_sliding_attacks_on_many_boards() {
    let table = AttackTable::new();
    let mut occupied = Bitboard::ZERO();
    let mut seed: u64 = 0x2545_f491_4f6c_dd1d;
    for round in 0..40 {
        for sq in Square::ALL.iter() {
            seed ^= seed << 13;
            seed ^= seed >> 7;
            seed ^= seed << 17;
            if seed % 3 == 0 {
                occupied.set(*sq);
            } else if round % 2 == 0 {
                occupied.clear(*sq);
            }
        }
        for sq in Square::ALL.iter() {
            assert_eq!(
                table.bishop.magic(*sq).attack(&occupied),
                sliding_attacks(&AttackTable::BISHOP_DELTAS, *sq, &occupied)
            );
            assert_eq!(table.rook.magic(*sq).attack(&occupied), sliding_attacks(&AttackTable::ROOK_DELTAS, *sq, &occupied));
        }
    }
}

#[test]
fn attack_table_dispatches_by_piece_type() {
    let table = AttackTable::new();
    let mut occupied = Bitboard::ZERO();
    occupied.set(Square::SQ53);
    let horse = table.attack(PieceType::HORSE, Color::BLACK, Square::SQ55, &occupied);
    assert!(horse.is_set(Square::SQ54));
    assert!(horse.is_set(Square::SQ44));
    assert!(!horse.is_set(Square::SQ53));
    let dragon = table.attack(PieceType::DRAGON, Color::WHITE, Square::SQ55, &occupied);
    assert!(dragon.is_set(Square::SQ53));
    assert!(!dragon.is_set(Square::SQ52));
    assert!(dragon.is_set(Square::SQ44));
    let gold = table.attack(PieceType::PRO_PAWN, Color::WHITE, Square::SQ55, &occupied);
    assert_eq!(gold, table.gold.attack(Color::WHITE, Square::SQ55));
    let lance = table.attack(PieceType::LANCE, Color::BLACK, Square::SQ55, &occupied);
    assert_eq!(lance.count_ones(), 2);
    assert_eq!(table.attack(PieceType::KING, Color::BLACK, Square::SQ11, &occupied).count_ones(), 3);
}

#[test]
fn test_between_mask() {
    let table = AttackTable::new();
    let between = BetweenTable::new();
    for a in 0..81 {
        for b in 0..81 {
            let sq0 = Square(a);
            let sq1 = Square(b);
            let relation = Relation::new(sq0, sq1);
            if relation == Relation::MISC {
                assert_eq!(between.between_mask(sq0, sq1).count_ones(), 0);
            } else {
                let occupied = Bitboard::square_mask(sq0).or(Bitboard::square_mask(sq1));
                let attack;
                if relation.is_cross() {
                    attack = table.rook.magic(sq0).attack(&occupied).and(table.rook.magic(sq1).attack(&occupied));
                } else if relation.is_diag() {
                    attack = table.bishop.magic(sq0).attack(&occupied).and(table.bishop.magic(sq1).attack(&occupied));
                } else {
                    unreachable!();
                }
                assert_eq!(between.between_mask(sq0, sq1), attack);
            }
        }
    }
}

#[test]
fn test_proximity_check_mask() {
    let tables = AttackTable::new();
    let proximity = ProximityCheckTable::new(&tables);
    let check_candidates = proximity.proximity_check_mask(Piece::B_PAWN, Square::SQ53);
    assert_eq!(check_candidates.count_ones(), 3);
    assert!(check_candidates.is_set(Square::SQ44));
    assert!(check_candidates.is_set(Square::SQ55));
    assert!(check_candidates.is_set(Square::SQ64));

    let check_candidates = proximity.proximity_check_mask(Piece::B_BISHOP, Square::SQ53);
    assert!(check_candidates.is_set(Square::SQ55));
    assert!(!check_candidates.is_set(Square::SQ12));
    assert!(!check_candidates.is_set(Square::SQ57)); // not proximity.
}

#[test]
fn test_proximity_check_mask_kings_and_empty() {
    let tables = AttackTable::new();
    let proximity = ProximityCheckTable::new(&tables);
    assert_eq!(proximity.proximity_check_mask(Piece::B_KING, Square::SQ55).count_ones(), 0);
    assert_eq!(proximity.proximity_check_mask(Piece::EMPTY, Square::SQ55).count_ones(), 0);
    // A white gold checks a king on 5e from every square around it but right behind, and from
    // the squares two ranks above it.
    let golds = proximity.proximity_check_mask(Piece::W_GOLD, Square::SQ55);
    assert!(golds.is_set(Square::SQ54));
    assert!(golds.is_set(Square::SQ53));
    assert!(!golds.is_set(Square::SQ55));
    assert!(!golds.is_set(Square::SQ59));
}
