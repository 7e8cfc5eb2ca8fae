use apery::bitboard::{sliding_attacks, Bitboard};
use apery::types::{Color, File, Rank, RankAsBlack, Square};

#[test]
fn test_bitboard_eq() {
    let bb0 = Bitboard::ZERO();
    let mut bb1 = Bitboard::ZERO();
    assert_eq!(bb0 == bb1, true);
    assert_eq!(bb0 != bb1, false);
    bb1.set(Square::SQ13);
    assert_eq!(bb0 == bb1, false);
    assert_eq!(bb0 != bb1, true);
}

#[test]
fn test_bitboard_part() {
    assert_eq!(Bitboard::part(Square::SQ11), 0);
    assert_eq!(Bitboard::part(Square::SQ79), 0);
    assert_eq!(Bitboard::part(Square::SQ81), 1);
    assert_eq!(Bitboard::part(Square::SQ99), 1);
}

#[test]
fn test_sliding_attacks() {
    let v = vec![Square::DELTA_N, Square::DELTA_E, Square::DELTA_S, Square::DELTA_W];
    let mut occupied = Bitboard::ZERO();
    occupied.set(Square::SQ46);
    let bb = sliding_attacks(&v, Square::SQ44, &occupied);
    assert_eq!(bb.is_set(Square::SQ46), true);
    assert_eq!(bb.is_set(Square::SQ47), false);
    assert_eq!(bb.is_set(Square::SQ44), false);
    assert_eq!(bb.is_set(Square::SQ14), true);
    assert_eq!(bb.is_set(Square::SQ94), true);
    assert_eq!(bb.is_set(Square::SQ41), true);
    assert_eq!(bb.is_set(Square::SQ22), false);
    assert_eq!(bb.is_set(Square::SQ71), false);
    assert_eq!(bb.is_set(Square::SQ17), false);

    let v = vec![Square::DELTA_NE, Square::DELTA_SE, Square::DELTA_SW, Square::DELTA_NW];
    let mut occupied = Bitboard::ZERO();
    occupied.set(Square::SQ66);
    let bb = sliding_attacks(&v, Square::SQ44, &occupied);
    assert_eq!(bb.is_set(Square::SQ66), true);
    assert_eq!(bb.is_set(Square::SQ77), false);
    assert_eq!(bb.is_set(Square::SQ44), false);
    assert_eq!(bb.is_set(Square::SQ22), true);
    assert_eq!(bb.is_set(Square::SQ71), true);
    assert_eq!(bb.is_set(Square::SQ17), true);
    assert_eq!(bb.is_set(Square::SQ14), false);
    assert_eq!(bb.is_set(Square::SQ94), false);
    assert_eq!(bb.is_set(Square::SQ41), false);
}

#[test]
fn test_clone() {
    let bb = Bitboard::ZERO();
    let bb2 = bb;
    assert_eq!(bb, bb2);
}

#[test]
fn test_opponent_field_mask() {
    for us in Color::ALL.iter() {
        for sq in Square::ALL.iter() {
            let rank = Rank::new(*sq);
            assert_eq!(rank.is_opponent_field(*us), Bitboard::opponent_field_mask(*us).is_set(*sq));
        }
    }
}

#[test]
fn test_block_bits() {
    let v = vec![Square::DELTA_N, Square::DELTA_E, Square::DELTA_S, Square::DELTA_W];
    let mut occupied = Bitboard::ZERO();
    occupied.set(Square::SQ46);
    let bb = sliding_attacks(&v, Square::SQ11, &occupied);
    let bits = bb.count_ones();
    assert_eq!(bits, 16);
}

#[test]
fn bitboard_set_clear_xor_round_trip() {
    let mut bb = Bitboard::ZERO();
    bb.set(Square::SQ55);
    bb.set(Square::SQ99);
    assert!(bb.is_set(Square::SQ55));
    assert!(bb.is_set(Square::SQ99));
    assert_eq!(bb.count_ones(), 2);
    bb.clear(Square::SQ55);
    assert!(!bb.is_set(Square::SQ55));
    bb.xor(Square::SQ99);
    assert_eq!(bb, Bitboard::ZERO());
    assert!(!bb.to_bool());
}

#[test]
fn bitboard_pop_lsb_walks_squares_in_order() {
    let mut bb = Bitboard::ZERO();
    bb.set(Square::SQ91);
    bb.set(Square::SQ12);
    bb.set(Square::SQ79);
    assert_eq!(bb.pop_lsb(), Some(Square::SQ12));
    assert_eq!(bb.pop_lsb(), Some(Square::SQ79));
    assert_eq!(bb.pop_lsb(), Some(Square::SQ91));
    assert_eq!(bb.pop_lsb(), None);
}

#[test]
fn bitboard_all_has_every_square() {
    let all = Bitboard::ALL();
    assert_eq!(all.count_ones(), 81);
    for sq in Square::ALL.iter() {
        assert!(all.is_set(*sq));
    }
}

#[test]
fn bitboard_file_and_rank_masks() {
    let f = Bitboard::file_mask(File::FILE8);
    assert_eq!(f.count_ones(), 9);
    assert!(f.is_set(Square::SQ81));
    assert!(f.is_set(Square::SQ89));
    assert!(!f.is_set(Square::SQ79));
    let r = Bitboard::rank_mask(Rank::RANK3);
    assert_eq!(r.count_ones(), 9);
    assert!(r.is_set(Square::SQ13));
    assert!(r.is_set(Square::SQ93));
    assert!(!r.is_set(Square::SQ14));
}

#[test]
fn test_in_front_mask() {
    for sq in Square::ALL.iter() {
        let rank = Rank::new(*sq);
        for c in Color::ALL.iter() {
            let rab = RankAsBlack::new(*c, rank);
            for sq_tmp in Square::ALL.iter() {
                let rank_tmp = Rank::new(*sq_tmp);
                assert_eq!(rank_tmp.is_in_front_of(*c, rab), Bitboard::in_front_mask(*c, rank).is_set(*sq_tmp));
            }
        }
    }
}
