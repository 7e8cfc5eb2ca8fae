use apery::kppt::{
    position_material, ChangedEvalIndex, EvalHash, EvalIndex, EvalList, EvalSum, Evaluator, MovedPosition, KKP_LEN, KPP_LEN, LIST_NUM,
};
use apery::position::PositionBase;
use apery::sfen::START_SFEN;
use apery::types::{Color, KeyExcludedTurn, Piece, Square, Value};

#[test]
fn test_eval_index_new() {
    assert_eq!(EvalIndex(EvalIndex::F_PAWN), EvalIndex::new_board(Piece::B_PAWN));
    assert_eq!(EvalIndex(EvalIndex::F_LANCE), EvalIndex::new_board(Piece::B_LANCE));
    assert_eq!(EvalIndex(EvalIndex::F_KNIGHT), EvalIndex::new_board(Piece::B_KNIGHT));
    assert_eq!(EvalIndex(EvalIndex::F_SILVER), EvalIndex::new_board(Piece::B_SILVER));
    assert_eq!(EvalIndex(EvalIndex::F_BISHOP), EvalIndex::new_board(Piece::B_BISHOP));
    assert_eq!(EvalIndex(EvalIndex::F_ROOK), EvalIndex::new_board(Piece::B_ROOK));
    assert_eq!(EvalIndex(EvalIndex::F_GOLD), EvalIndex::new_board(Piece::B_GOLD));
    assert_eq!(EvalIndex(EvalIndex::F_GOLD), EvalIndex::new_board(Piece::B_PRO_PAWN));
    assert_eq!(EvalIndex(EvalIndex::F_GOLD), EvalIndex::new_board(Piece::B_PRO_LANCE));
    assert_eq!(EvalIndex(EvalIndex::F_GOLD), EvalIndex::new_board(Piece::B_PRO_KNIGHT));
    assert_eq!(EvalIndex(EvalIndex::F_GOLD), EvalIndex::new_board(Piece::B_PRO_SILVER));
    assert_eq!(EvalIndex(EvalIndex::F_HORSE), EvalIndex::new_board(Piece::B_HORSE));
    assert_eq!(EvalIndex(EvalIndex::F_DRAGON), EvalIndex::new_board(Piece::B_DRAGON));
    assert_eq!(EvalIndex(EvalIndex::E_PAWN), EvalIndex::new_board(Piece::W_PAWN));
    assert_eq!(EvalIndex(EvalIndex::E_LANCE), EvalIndex::new_board(Piece::W_LANCE));
    assert_eq!(EvalIndex(EvalIndex::E_KNIGHT), EvalIndex::new_board(Piece::W_KNIGHT));
    assert_eq!(EvalIndex(EvalIndex::E_SILVER), EvalIndex::new_board(Piece::W_SILVER));
    assert_eq!(EvalIndex(EvalIndex::E_BISHOP), EvalIndex::new_board(Piece::W_BISHOP));
    assert_eq!(EvalIndex(EvalIndex::E_ROOK), EvalIndex::new_board(Piece::W_ROOK));
    assert_eq!(EvalIndex(EvalIndex::E_GOLD), EvalIndex::new_board(Piece::W_GOLD));
    assert_eq!(EvalIndex(EvalIndex::E_GOLD), EvalIndex::new_board(Piece::W_PRO_PAWN));
    assert_eq!(EvalIndex(EvalIndex::E_GOLD), EvalIndex::new_board(Piece::W_PRO_LANCE));
    assert_eq!(EvalIndex(EvalIndex::E_GOLD), EvalIndex::new_board(Piece::W_PRO_KNIGHT));
    assert_eq!(EvalIndex(EvalIndex::E_GOLD), EvalIndex::new_board(Piece::W_PRO_SILVER));
    assert_eq!(EvalIndex(EvalIndex::E_HORSE), EvalIndex::new_board(Piece::W_HORSE));
    assert_eq!(EvalIndex(EvalIndex::E_DRAGON), EvalIndex::new_board(Piece::W_DRAGON));

    assert_eq!(EvalIndex(EvalIndex::F_HAND_PAWN), EvalIndex::new_hand(Piece::B_PAWN));
    assert_eq!(EvalIndex(EvalIndex::F_HAND_LANCE), EvalIndex::new_hand(Piece::B_LANCE));
    assert_eq!(EvalIndex(EvalIndex::F_HAND_KNIGHT), EvalIndex::new_hand(Piece::B_KNIGHT));
    assert_eq!(EvalIndex(EvalIndex::F_HAND_SILVER), EvalIndex::new_hand(Piece::B_SILVER));
    assert_eq!(EvalIndex(EvalIndex::F_HAND_BISHOP), EvalIndex::new_hand(Piece::B_BISHOP));
    assert_eq!(EvalIndex(EvalIndex::F_HAND_ROOK), EvalIndex::new_hand(Piece::B_ROOK));
    assert_eq!(EvalIndex(EvalIndex::F_HAND_GOLD), EvalIndex::new_hand(Piece::B_GOLD));
    assert_eq!(EvalIndex(EvalIndex::E_HAND_PAWN), EvalIndex::new_hand(Piece::W_PAWN));
    assert_eq!(EvalIndex(EvalIndex::E_HAND_LANCE), EvalIndex::new_hand(Piece::W_LANCE));
    assert_eq!(EvalIndex(EvalIndex::E_HAND_KNIGHT), EvalIndex::new_hand(Piece::W_KNIGHT));
    assert_eq!(EvalIndex(EvalIndex::E_HAND_SILVER), EvalIndex::new_hand(Piece::W_SILVER));
    assert_eq!(EvalIndex(EvalIndex::E_HAND_BISHOP), EvalIndex::new_hand(Piece::W_BISHOP));
    assert_eq!(EvalIndex(EvalIndex::E_HAND_ROOK), EvalIndex::new_hand(Piece::W_ROOK));
    assert_eq!(EvalIndex(EvalIndex::E_HAND_GOLD), EvalIndex::new_hand(Piece::W_GOLD));
}

#[test]
fn test_eval_index_inverse() {
    assert_eq!(EvalIndex(EvalIndex::F_HAND_PAWN + 1).inverse(), EvalIndex(EvalIndex::E_HAND_PAWN + 1));
    assert_eq!(EvalIndex(EvalIndex::E_HAND_PAWN + 1).inverse(), EvalIndex(EvalIndex::F_HAND_PAWN + 1));
    assert_eq!(EvalIndex(EvalIndex::F_HAND_LANCE + 1).inverse(), EvalIndex(EvalIndex::E_HAND_LANCE + 1));
    assert_eq!(EvalIndex(EvalIndex::E_HAND_LANCE + 1).inverse(), EvalIndex(EvalIndex::F_HAND_LANCE + 1));
    assert_eq!(EvalIndex(EvalIndex::F_HAND_KNIGHT + 1).inverse(), EvalIndex(EvalIndex::E_HAND_KNIGHT + 1));
    assert_eq!(EvalIndex(EvalIndex::E_HAND_KNIGHT + 1).inverse(), EvalIndex(EvalIndex::F_HAND_KNIGHT + 1));
    assert_eq!(EvalIndex(EvalIndex::F_HAND_SILVER + 1).inverse(), EvalIndex(EvalIndex::E_HAND_SILVER + 1));
    assert_eq!(EvalIndex(EvalIndex::E_HAND_SILVER + 1).inverse(), EvalIndex(EvalIndex::F_HAND_SILVER + 1));
    assert_eq!(EvalIndex(EvalIndex::F_HAND_GOLD + 1).inverse(), EvalIndex(EvalIndex::E_HAND_GOLD + 1));
    assert_eq!(EvalIndex(EvalIndex::E_HAND_GOLD + 1).inverse(), EvalIndex(EvalIndex::F_HAND_GOLD + 1));
    assert_eq!(EvalIndex(EvalIndex::F_HAND_BISHOP + 1).inverse(), EvalIndex(EvalIndex::E_HAND_BISHOP + 1));
    assert_eq!(EvalIndex(EvalIndex::E_HAND_BISHOP + 1).inverse(), EvalIndex(EvalIndex::F_HAND_BISHOP + 1));
    assert_eq!(EvalIndex(EvalIndex::F_HAND_ROOK + 1).inverse(), EvalIndex(EvalIndex::E_HAND_ROOK + 1));
    assert_eq!(EvalIndex(EvalIndex::E_HAND_ROOK + 1).inverse(), EvalIndex(EvalIndex::F_HAND_ROOK + 1));
    assert_eq!(
        EvalIndex(EvalIndex::F_PAWN + Square::SQ12.to_i32() as usize).inverse(),
        EvalIndex(EvalIndex::E_PAWN + Square::SQ98.to_i32() as usize)
    );
    assert_eq!(
        EvalIndex(EvalIndex::E_PAWN + Square::SQ12.to_i32() as usize).inverse(),
        EvalIndex(EvalIndex::F_PAWN + Square::SQ98.to_i32() as usize)
    );
    assert_eq!(
        EvalIndex(EvalIndex::F_LANCE + Square::SQ12.to_i32() as usize).inverse(),
        EvalIndex(EvalIndex::E_LANCE + Square::SQ98.to_i32() as usize)
    );
    assert_eq!(
        EvalIndex(EvalIndex::E_LANCE + Square::SQ12.to_i32() as usize).inverse(),
        EvalIndex(EvalIndex::F_LANCE + Square::SQ98.to_i32() as usize)
    );
    assert_eq!(
        EvalIndex(EvalIndex::F_KNIGHT + Square::SQ12.to_i32() as usize).inverse(),
        EvalIndex(EvalIndex::E_KNIGHT + Square::SQ98.to_i32() as usize)
    );
    assert_eq!(
        EvalIndex(EvalIndex::E_KNIGHT + Square::SQ12.to_i32() as usize).inverse(),
        EvalIndex(EvalIndex::F_KNIGHT + Square::SQ98.to_i32() as usize)
    );
    assert_eq!(
        EvalIndex(EvalIndex::F_SILVER + Square::SQ12.to_i32() as usize).inverse(),
        EvalIndex(EvalIndex::E_SILVER + Square::SQ98.to_i32() as usize)
    );
    assert_eq!(
        EvalIndex(EvalIndex::E_SILVER + Square::SQ12.to_i32() as usize).inverse(),
        EvalIndex(EvalIndex::F_SILVER + Square::SQ98.to_i32() as usize)
    );
    assert_eq!(
        EvalIndex(EvalIndex::F_GOLD + Square::SQ12.to_i32() as usize).inverse(),
        EvalIndex(EvalIndex::E_GOLD + Square::SQ98.to_i32() as usize)
    );
    assert_eq!(
        EvalIndex(EvalIndex::E_GOLD + Square::SQ12.to_i32() as usize).inverse(),
        EvalIndex(EvalIndex::F_GOLD + Square::SQ98.to_i32() as usize)
    );
    assert_eq!(
        EvalIndex(EvalIndex::F_BISHOP + Square::SQ12.to_i32() as usize).inverse(),
        EvalIndex(EvalIndex::E_BISHOP + Square::SQ98.to_i32() as usize)
    );
    assert_eq!(
        EvalIndex(EvalIndex::E_BISHOP + Square::SQ12.to_i32() as usize).inverse(),
        EvalIndex(EvalIndex::F_BISHOP + Square::SQ98.to_i32() as usize)
    );
    assert_eq!(
        EvalIndex(EvalIndex::F_ROOK + Square::SQ12.to_i32() as usize).inverse(),
        EvalIndex(EvalIndex::E_ROOK + Square::SQ98.to_i32() as usize)
    );
    assert_eq!(
        EvalIndex(EvalIndex::E_ROOK + Square::SQ12.to_i32() as usize).inverse(),
        EvalIndex(EvalIndex::F_ROOK + Square::SQ98.to_i32() as usize)
    );
    assert_eq!(
        EvalIndex(EvalIndex::F_HORSE + Square::SQ12.to_i32() as usize).inverse(),
        EvalIndex(EvalIndex::E_HORSE + Square::SQ98.to_i32() as usize)
    );
    assert_eq!(
        EvalIndex(EvalIndex::E_HORSE + Square::SQ12.to_i32() as usize).inverse(),
        EvalIndex(EvalIndex::F_HORSE + Square::SQ98.to_i32() as usize)
    );
    assert_eq!(
        EvalIndex(EvalIndex::F_DRAGON + Square::SQ12.to_i32() as usize).inverse(),
        EvalIndex(EvalIndex::E_DRAGON + Square::SQ98.to_i32() as usize)
    );
    assert_eq!(
        EvalIndex(EvalIndex::E_DRAGON + Square::SQ12.to_i32() as usize).inverse(),
        EvalIndex(EvalIndex::F_DRAGON + Square::SQ98.to_i32() as usize)
    );
}

#[test]
fn test_eval_index_inverse_is_involution() {
    for i in 0..EvalIndex::FE_END {
        let e = EvalIndex(i);
        assert!(e.inverse().0 < EvalIndex::FE_END);
        assert_eq!(e.inverse().inverse(), e);
    }
    assert_eq!(EvalIndex(EvalIndex::F_PAWN).inverse(), EvalIndex(EvalIndex::E_PAWN + 80));
}

fn kpp_pos(sq: usize, i: usize, j: usize) -> usize {
    ((sq * 1548 + i) * 1548 + j) * 2
}

fn kkp_pos(sq0: usize, sq1: usize, i: usize) -> usize {
    ((sq0 * 81 + sq1) * 1548 + i) * 2
}

// Tables that are symmetric in the two features, zero on the diagonal, and whose KKP
// part for White's view is Black's view turned round, over the features `features`.
fn make_evaluator(features: &[usize], king_squares: &[(usize, usize)]) -> Evaluator {
    let mut kpp = vec![0i16; KPP_LEN];
    let mut kkp = vec![0i16; KKP_LEN];
    let mut all: Vec<usize> = Vec::new();
    for &f in features {
        all.push(f);
        all.push(EvalIndex(f).inverse().0);
    }
    for &(bk, wk) in king_squares {
        for &sq in &[bk, 80 - wk] {
            for &a in &all {
                for &b in &all {
                    if a != b {
                        let v0 = (((a + b) * 7) % 13) as i16 - 6;
                        let v1 = (((a * b) % 11) as i16) - 5;
                        kpp[kpp_pos(sq, a, b)] = v0;
                        kpp[kpp_pos(sq, a, b) + 1] = v1;
                    }
                }
            }
        }
        for &f in features {
            let v0 = ((f * 3) % 17) as i16 - 8;
            let v1 = ((f * 5) % 7) as i16 - 3;
            kkp[kkp_pos(bk, wk, f)] = v0;
            kkp[kkp_pos(bk, wk, f) + 1] = v1;
            let inv = EvalIndex(f).inverse().0;
            kkp[kkp_pos(80 - wk, 80 - bk, inv)] = -v0;
            kkp[kkp_pos(80 - wk, 80 - bk, inv) + 1] = v1;
        }
    }
    Evaluator { kpp, kkp }
}

fn make_list(features: &[usize]) -> EvalList {
    let mut list = EvalList::new_zero();
    for k in 0..LIST_NUM {
        list.set(k, Color::BLACK, EvalIndex(features[k]));
        list.set(k, Color::WHITE, EvalIndex(features[k]).inverse());
    }
    list
}

fn base_features() -> Vec<usize> {
    (0..LIST_NUM).map(|k| EvalIndex::F_PAWN + 2 * k).collect()
}

fn moved(key: u64, stm: Color, bk: Square, wk: Square) -> MovedPosition {
    MovedPosition {
        key: KeyExcludedTurn(key),
        side_to_move: stm,
        sq_bk: bk,
        sq_wk: wk,
        material: Value(100),
        material_diff: Value(0),
        king_moved: false,
        captured: false,
        changed: ChangedEvalIndex::zero(),
        changed_captured: ChangedEvalIndex::zero(),
        list_index: 0,
        list_index_captured: 0,
    }
}

#[test]
fn test_evaluate_at_root_sums() {
    let features = base_features();
    let ev = make_evaluator(&features, &[(Square::SQ59.to_i32() as usize, Square::SQ51.to_i32() as usize)]);
    let list = make_list(&features);
    let mut sum = EvalSum::new();
    let r = ev.evaluate_at_root(Square::SQ59, Square::SQ51, &list, Value(100), Color::BLACK, &mut sum);
    let total = ev.evaluate_debug(Square::SQ59, Square::SQ51, &list, Value(100), Color::BLACK);
    assert_eq!(r.0, total.0 / 32);
    // KKP board part holds the material times the scale.
    let mut kkp0: i32 = 0;
    for &f in &features {
        kkp0 += ((f * 3) % 17) as i32 - 8;
    }
    assert_eq!(sum.kkp.0, kkp0 + 100 * 32);
    assert_eq!(sum.key.0, 0);
    // White to move sees the board part negated.
    let total_w = ev.evaluate_debug(Square::SQ59, Square::SQ51, &list, Value(100), Color::WHITE);
    let board = sum.black.0 - sum.white.0 + sum.kkp.0;
    let turn = sum.black.1 + sum.white.1 + sum.kkp.1;
    assert_eq!(total.0, board + turn);
    assert_eq!(total_w.0, -board + turn);
}

#[test]
fn test_difference_quiet_move_matches_full_evaluation() {
    let bk = Square::SQ59;
    let wk = Square::SQ51;
    let old_features = base_features();
    let new_feature = EvalIndex::F_PAWN + 79;
    let mut new_features = old_features.clone();
    new_features[5] = new_feature;
    let mut all = old_features.clone();
    all.push(new_feature);
    let ev = make_evaluator(&all, &[(bk.to_i32() as usize, wk.to_i32() as usize)]);

    let old_list = make_list(&old_features);
    let mut prev = EvalSum::new();
    ev.evaluate_at_root(bk, wk, &old_list, Value(100), Color::BLACK, &mut prev);

    let mut list = make_list(&new_features);
    let mut p = moved(12345, Color::WHITE, bk, wk);
    p.changed = ChangedEvalIndex { new_index: EvalIndex(new_feature), old_index: EvalIndex(old_features[5]) };
    p.list_index = 5;
    let mut cur = EvalSum::new();
    cur.set_not_evaluated();
    let mut ehash = EvalHash::new();
    ehash.resize(1);
    let r = ev.evaluate_difference_calc(&p, &mut list, &prev, &mut cur, &mut ehash);

    let mut full = EvalSum::new();
    let expected = ev.evaluate_at_root(bk, wk, &list, Value(100), Color::WHITE, &mut full);
    assert_eq!(r, expected);
    assert_eq!(cur.black, full.black);
    assert_eq!(cur.white, full.white);
    assert_eq!(cur.kkp, full.kkp);
    // The list is restored and the stored key is encoded.
    assert_eq!(list.black[5], EvalIndex(new_feature));
    let mut decoded = cur;
    decoded.decode();
    assert_eq!(decoded.key, KeyExcludedTurn(12345));
    // An evaluated slot is scored as it stands.
    let again = ev.evaluate_difference_calc(&p, &mut list, &prev, &mut cur, &mut ehash);
    assert_eq!(again, r);
}

#[test]
fn test_difference_capture_matches_full_evaluation() {
    let bk = Square::SQ59;
    let wk = Square::SQ51;
    let old_features = base_features();
    let moved_to = EvalIndex::F_PAWN + 79;
    let captured_in_hand = EvalIndex::F_HAND_PAWN + 1;
    let mut new_features = old_features.clone();
    new_features[5] = moved_to;
    new_features[7] = captured_in_hand;
    let mut all = old_features.clone();
    all.push(moved_to);
    all.push(captured_in_hand);
    let ev = make_evaluator(&all, &[(bk.to_i32() as usize, wk.to_i32() as usize)]);

    let old_list = make_list(&old_features);
    let mut prev = EvalSum::new();
    ev.evaluate_at_root(bk, wk, &old_list, Value(100), Color::BLACK, &mut prev);

    let mut list = make_list(&new_features);
    let mut p = moved(777, Color::WHITE, bk, wk);
    p.captured = true;
    p.material = Value(300);
    p.material_diff = Value(200);
    p.changed = ChangedEvalIndex { new_index: EvalIndex(moved_to), old_index: EvalIndex(old_features[5]) };
    p.changed_captured = ChangedEvalIndex { new_index: EvalIndex(captured_in_hand), old_index: EvalIndex(old_features[7]) };
    p.list_index = 5;
    p.list_index_captured = 7;
    let mut cur = EvalSum::new();
    cur.set_not_evaluated();
    let mut ehash = EvalHash::new();
    ehash.resize(1);
    let r = ev.evaluate_difference_calc(&p, &mut list, &prev, &mut cur, &mut ehash);

    let mut full = EvalSum::new();
    let expected = ev.evaluate_at_root(bk, wk, &list, Value(300), Color::WHITE, &mut full);
    assert_eq!(r, expected);
    assert_eq!(cur.black, full.black);
    assert_eq!(cur.white, full.white);
    assert_eq!(cur.kkp, full.kkp);
}

#[test]
fn test_difference_king_move_matches_full_evaluation_and_is_cached() {
    let bk = Square::SQ59;
    let wk_before = Square::SQ51;
    let wk_after = Square::SQ41;
    let features = base_features();
    let ev = make_evaluator(
        &features,
        &[(bk.to_i32() as usize, wk_before.to_i32() as usize), (bk.to_i32() as usize, wk_after.to_i32() as usize)],
    );
    let mut list = make_list(&features);
    let mut prev = EvalSum::new();
    ev.evaluate_at_root(bk, wk_before, &list, Value(100), Color::WHITE, &mut prev);

    let mut p = moved(4242, Color::BLACK, bk, wk_after);
    p.king_moved = true;
    let mut cur = EvalSum::new();
    cur.set_not_evaluated();
    let mut ehash = EvalHash::new();
    ehash.resize(1);
    let r = ev.evaluate_difference_calc(&p, &mut list, &prev, &mut cur, &mut ehash);

    let mut full = EvalSum::new();
    let expected = ev.evaluate_at_root(bk, wk_after, &list, Value(100), Color::BLACK, &mut full);
    assert_eq!(r, expected);
    assert_eq!(cur.black, full.black);
    assert_eq!(cur.white, full.white);
    assert_eq!(cur.kkp, full.kkp);

    // A second evaluation of the same position from an empty slot hits the cache.
    let mut cur2 = EvalSum::new();
    cur2.set_not_evaluated();
    let bogus_prev = EvalSum::new();
    let r2 = ev.evaluate_difference_calc(&p, &mut list, &bogus_prev, &mut cur2, &mut ehash);
    assert_eq!(r2, r);
    assert_eq!(cur2.key, KeyExcludedTurn(4242));
}

#[test]
fn test_eval_sum_encode_decode() {
    let mut s = EvalSum::new();
    s.black = (5, -7);
    s.white = (-1, 2);
    s.kkp = (300, 0);
    s.key = KeyExcludedTurn(99);
    s.encode();
    assert_ne!(s.key, KeyExcludedTurn(99));
    s.decode();
    assert_eq!(s.key, KeyExcludedTurn(99));
    assert_eq!(s.sum(Color::BLACK), Value(5 - (-1) + 300 + (-7) + 2));
    assert!(!s.is_not_evaluated());
    s.set_not_evaluated();
    assert!(s.is_not_evaluated());
    assert_eq!(s.black.1, -7);
    let mut e = EvalSum::new();
    e.black = (5, -7);
    e.white = (-1, 2);
    e.kkp = (300, 0);
    assert_eq!(e.sum(Color::WHITE), Value(-(5 + 1 + 300) - 7 + 2));
}

#[test]
fn test_eval_hash_resize_get_set() {
    let mut h = EvalHash::new();
    h.resize(1);
    let mut s = EvalSum::new();
    s.black = (1, 2);
    s.key = KeyExcludedTurn(7);
    h.set(KeyExcludedTurn(7), &s);
    assert_eq!(h.get(KeyExcludedTurn(7)).black, (1, 2));
    assert_eq!(h.get(KeyExcludedTurn(7 + 4096)).black, (1, 2));
    assert_eq!(h.get(KeyExcludedTurn(8)).black, (0, 0));
    h.clear();
    assert_eq!(h.get(KeyExcludedTurn(7)).black, (0, 0));
    let mut h3 = EvalHash::new();
    h3.resize(3);
    assert_eq!(h3.get(KeyExcludedTurn(2 * 4096 + 5)).key, KeyExcludedTurn(0));
}

fn parse(sfen: &str) -> PositionBase {
    let args: Vec<&str> = sfen.split_whitespace().collect();
    PositionBase::new_from_sfen_args(args.as_slice()).unwrap()
}

#[test]
fn test_eval_list_of_start_position() {
    let pos = parse(START_SFEN);
    let list = EvalList::new(&pos);
    // 1a holds White's lance; seen from White it is Black's lance on 9i.
    assert_eq!(list.get(0, Color::BLACK), EvalIndex(EvalIndex::E_LANCE));
    assert_eq!(list.get(0, Color::WHITE), EvalIndex(EvalIndex::F_LANCE + 80));
    // 1i holds Black's lance, the last square of file 1.
    let mut seen = 0;
    for k in 0..LIST_NUM {
        let b = list.get(k, Color::BLACK);
        let w = list.get(k, Color::WHITE);
        assert!(b.0 >= EvalIndex::FE_HAND_END && b.0 < EvalIndex::FE_END);
        assert_eq!(b.inverse(), w);
        if b == EvalIndex(EvalIndex::F_LANCE + 8) {
            seen += 1;
        }
    }
    assert_eq!(seen, 1);
}

#[test]
fn test_eval_list_hands_come_first() {
    let pos = parse("lnsgkgsnl/9/ppppppppp/9/9/9/PPPPPPPPP/1B5R1/LNSGKGSNL b Rb 1");
    let list = EvalList::new(&pos);
    assert_eq!(list.get(0, Color::BLACK), EvalIndex(EvalIndex::E_HAND_BISHOP + 1));
    assert_eq!(list.get(0, Color::WHITE), EvalIndex(EvalIndex::F_HAND_BISHOP + 1));
    assert_eq!(list.get(1, Color::BLACK), EvalIndex(EvalIndex::F_HAND_ROOK + 1));
    assert_eq!(list.get(1, Color::WHITE), EvalIndex(EvalIndex::E_HAND_ROOK + 1));
    assert_eq!(list.get(2, Color::BLACK), EvalIndex(EvalIndex::E_LANCE));
}

#[test]
fn test_eval_list_pads_with_zero() {
    let pos = parse("4k4/9/9/9/9/9/9/9/4K4 b 2P 1");
    let list = EvalList::new(&pos);
    assert_eq!(list.get(0, Color::BLACK), EvalIndex(EvalIndex::F_HAND_PAWN + 1));
    assert_eq!(list.get(1, Color::BLACK), EvalIndex(EvalIndex::F_HAND_PAWN + 2));
    assert_eq!(list.get(1, Color::WHITE), EvalIndex(EvalIndex::E_HAND_PAWN + 2));
    assert_eq!(list.get(2, Color::BLACK), EvalIndex(0));
    assert_eq!(list.get(37, Color::WHITE), EvalIndex(0));
}

#[test]
fn test_position_material() {
    assert_eq!(position_material(&parse(START_SFEN)), Value(0));
    let pos = parse("lnsgkgsnl/9/ppppppppp/9/9/9/PPPPPPPPP/1B5R1/LNSGKGSNL b Rb 1");
    assert_eq!(position_material(&pos), Value(990 + 855 + 990 - 855));
    let pos = parse("4k4/9/9/9/9/9/9/9/4K4 b 2Pg 1");
    assert_eq!(position_material(&pos), Value(2 * 90 - 540));
}

#[test]
fn test_evaluate_position_matches_parts() {
    let pos = parse("lnsgkgsnl/9/ppppppppp/9/9/9/PPPPPPPPP/1B5R1/LNSGKGSNL w Rb 1");
    let list = EvalList::new(&pos);
    let mut features: Vec<usize> = Vec::new();
    for k in 0..LIST_NUM {
        features.push(list.get(k, Color::BLACK).0);
    }
    let bk = pos.king_square(Color::BLACK);
    let wk = pos.king_square(Color::WHITE);
    let ev = make_evaluator(&features, &[(bk.to_i32() as usize, wk.to_i32() as usize)]);
    let mut sum = EvalSum::new();
    let r = ev.evaluate_position(&pos, &mut sum);
    let mut sum2 = EvalSum::new();
    let r2 = ev.evaluate_at_root(bk, wk, &list, position_material(&pos), Color::WHITE, &mut sum2);
    assert_eq!(r, r2);
    assert_eq!(sum.black, sum2.black);
    assert_eq!(sum.kkp.0 - sum2.kkp.0, 0);
    assert_ne!(sum.black, (0, 0));
}
