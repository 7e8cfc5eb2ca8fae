use apery::movepick::{
    partial_insertion_sort, pick_best, score_captures, score_evasion, score_quiets, score_recaptures,
    select_best_evasion, select_best_good_capture, select_best_probcut, select_best_qcapture, select_best_qrecapture, select_next_bad_capture, select_next_quiet,
    ButterflyHistory, CapturePieceToHistory, ContinuationHistory,
    CounterMoveHistory, LowPlyHistory, PieceToHistory,
};
use apery::movetypes::{ExtMove, Move};
use apery::position::PositionBase;
use apery::bitboard::{AttackTable, BetweenTable};
use apery::types::{Color, Piece, PieceType, Square, Value};

fn ext(mv: Move, score: i32) -> ExtMove {
    ExtMove { mv, score }
}

fn lance_move(to: Square) -> Move {
    Move::new_unpromote(Square::SQ11, to, Piece::W_LANCE)
}

#[test]
fn test_partial_insertion_sort() {
    let mut ext_moves = vec![
        ExtMove { mv: Move::NULL(), score: 0 },
        ExtMove { mv: Move::NULL(), score: 9 },
        ExtMove { mv: Move::NULL(), score: 11 },
        ExtMove { mv: Move::NULL(), score: 15 },
        ExtMove { mv: Move::NULL(), score: 3 },
        ExtMove { mv: Move::NULL(), score: 13 },
        ExtMove { mv: Move::NULL(), score: 6 },
    ];
    partial_insertion_sort(ext_moves.as_mut_slice(), 10);
    assert_eq!(ext_moves[0].score, 15);
    assert_eq!(ext_moves[1].score, 13);
    assert_eq!(ext_moves[2].score, 11);
}

#[test]
fn test_butterfly_history() {
    let mut history = ButterflyHistory::new();
    let bonus = 3;
    let m = Move::new_unpromote(Square::SQ77, Square::SQ76, Piece::B_PAWN);
    history.update(Color::BLACK, m, bonus);
    let v = history.get(Color::BLACK, m);
    assert_eq!(bonus, v);
}

#[test]
fn test_pick_best() {
    let mut v = vec![
        ext(lance_move(Square::SQ12), 200),
        ext(lance_move(Square::SQ13), 0),
        ext(lance_move(Square::SQ14), 400),
        ext(lance_move(Square::SQ15), 300),
        ext(lance_move(Square::SQ16), 100),
        ext(lance_move(Square::SQ17), 500),
    ];
    let m = pick_best(&mut v);
    assert_eq!(m, lance_move(Square::SQ17));
    let m = pick_best(&mut v[1..]);
    assert_eq!(m, lance_move(Square::SQ14));
    let m = pick_best(&mut v[2..]);
    assert_eq!(m, lance_move(Square::SQ15));
    let m = pick_best(&mut v[3..]);
    assert_eq!(m, lance_move(Square::SQ12));
    let m = pick_best(&mut v[4..]);
    assert_eq!(m, lance_move(Square::SQ16));
    let m = pick_best(&mut v[5..]);
    assert_eq!(m, lance_move(Square::SQ13));
}

#[test]
fn partial_insertion_sort_keeps_the_first_move_in_front_part() {
    let a = ext(lance_move(Square::SQ12), 1);
    let b = ext(lance_move(Square::SQ13), 50);
    let c = ext(lance_move(Square::SQ14), 2);
    let d = ext(lance_move(Square::SQ15), 40);
    let mut v = vec![a, b, c, d];
    partial_insertion_sort(&mut v, 10);
    assert_eq!(v[0].mv, b.mv);
    assert_eq!(v[1].mv, d.mv);
    assert_eq!(v[2].mv, a.mv);
    assert_eq!(v[3].mv, c.mv);
}

#[test]
fn pick_best_takes_the_first_of_equal_scores() {
    let mut v = vec![
        ext(lance_move(Square::SQ12), 5),
        ext(lance_move(Square::SQ13), 9),
        ext(lance_move(Square::SQ14), 9),
    ];
    assert_eq!(pick_best(&mut v), lance_move(Square::SQ13));
    assert_eq!(v[1].mv, lance_move(Square::SQ12));
}

#[test]
fn select_next_quiet_skips_hash_move_and_refutations() {
    let list = vec![
        ext(lance_move(Square::SQ12), 0),
        ext(lance_move(Square::SQ13), 0),
        ext(lance_move(Square::SQ14), 0),
        ext(lance_move(Square::SQ15), 0),
    ];
    let refutations = [Some(lance_move(Square::SQ13)), None, Some(lance_move(Square::SQ14))];
    let mut cur = 0;
    let m = select_next_quiet(&list, &mut cur, &refutations, Some(lance_move(Square::SQ12)));
    assert_eq!(m, Some(lance_move(Square::SQ15)));
    assert_eq!(cur, 4);
    let mut cur = 0;
    let m = select_next_quiet(&list[..3], &mut cur, &refutations, Some(lance_move(Square::SQ12)));
    assert_eq!(m, None);
    assert_eq!(cur, 3);
}

#[test]
fn select_next_bad_capture_skips_the_hash_move() {
    let list = vec![ext(lance_move(Square::SQ12), 0), ext(lance_move(Square::SQ13), 0)];
    let mut cur = 5;
    assert_eq!(select_next_bad_capture(&list, &mut cur, Some(lance_move(Square::SQ12))), Some(lance_move(Square::SQ13)));
    assert_eq!(cur, 7);
    let mut cur = 0;
    assert_eq!(select_next_bad_capture(&list, &mut cur, None), Some(lance_move(Square::SQ12)));
    assert_eq!(cur, 1);
}

#[test]
fn select_best_picks_in_score_order_past_the_hash_move() {
    let make = || {
        vec![
            ext(lance_move(Square::SQ12), 10),
            ext(lance_move(Square::SQ13), 30),
            ext(lance_move(Square::SQ14), 20),
        ]
    };
    let mut list = make();
    let mut cur = 0;
    assert_eq!(select_best_evasion(&mut list, &mut cur, Some(lance_move(Square::SQ13))), Some(lance_move(Square::SQ14)));
    assert_eq!(cur, 2);
    assert_eq!(list[0].score, 30);
    assert_eq!(list[1].score, 20);
    let mut list = make();
    let mut cur = 0;
    assert_eq!(select_best_qcapture(&mut list, &mut cur, None), Some(lance_move(Square::SQ13)));
    assert_eq!(cur, 1);
    let mut list = vec![ext(lance_move(Square::SQ12), 10)];
    let mut cur = 0;
    assert_eq!(select_best_qrecapture(&mut list, &mut cur, Some(lance_move(Square::SQ12))), None);
    assert_eq!(cur, 1);
}

#[test]
fn history_update_follows_the_gravity_formula() {
    let mut h = PieceToHistory::new();
    h.update(Square::SQ55, Piece::B_GOLD, 1000);
    assert_eq!(h.get(Square::SQ55, Piece::B_GOLD), 1000);
    // 1000 + (1000 - 1000 * 1000 / 29952) = 1000 + (1000 - 33) = 1967
    h.update(Square::SQ55, Piece::B_GOLD, 1000);
    assert_eq!(h.get(Square::SQ55, Piece::B_GOLD), 1967);
    // 1967 + (-500 - 1967 * 500 / 29952) = 1967 + (-500 - 32) = 1435
    h.update(Square::SQ55, Piece::B_GOLD, -500);
    assert_eq!(h.get(Square::SQ55, Piece::B_GOLD), 1435);
    assert_eq!(h.get(Square::SQ56, Piece::B_GOLD), 0);
}

#[test]
fn history_entries_stay_within_scale_under_repeated_bonuses() {
    let mut h = CapturePieceToHistory::new();
    for _ in 0..200 {
        h.update(Piece::W_ROOK, Square::SQ28, PieceType::SILVER, 10593);
    }
    let v = h.get(Piece::W_ROOK, Square::SQ28, PieceType::SILVER);
    assert!(v <= CapturePieceToHistory::SCALE && v > 10000);
    for _ in 0..200 {
        h.update(Piece::W_ROOK, Square::SQ28, PieceType::SILVER, -10593);
    }
    let v = h.get(Piece::W_ROOK, Square::SQ28, PieceType::SILVER);
    assert!(v >= -CapturePieceToHistory::SCALE && v < -10000);
}

#[test]
fn low_ply_history_shifts_two_plies_down() {
    let mut h = LowPlyHistory::new();
    let m = Move::new_unpromote(Square::SQ77, Square::SQ76, Piece::B_PAWN);
    h.update(0, m, 100);
    h.update(2, m, 200);
    h.update(3, m, 300);
    h.keep_data_from_previous_search();
    assert_eq!(h.get(0, m), 200);
    assert_eq!(h.get(1, m), 300);
    assert_eq!(h.get(2, m), 0);
    assert_eq!(h.get(3, m), 0);
    h.fill(7);
    assert_eq!(h.get(3, m), 7);
}

#[test]
fn counter_move_history_set_get_fill() {
    let mut h = CounterMoveHistory::new();
    let m = Move::new_unpromote(Square::SQ77, Square::SQ76, Piece::B_PAWN);
    assert_eq!(h.get(Square::SQ76, Piece::B_PAWN), None);
    h.set(Square::SQ76, Piece::B_PAWN, m);
    assert_eq!(h.get(Square::SQ76, Piece::B_PAWN), Some(m));
    assert_eq!(h.get(Square::SQ76, Piece::W_PAWN), None);
    h.fill(None);
    assert_eq!(h.get(Square::SQ76, Piece::B_PAWN), None);
}

#[test]
fn continuation_history_tables_are_separate() {
    let mut ch = ContinuationHistory::new();
    ch.get_mut(Piece::B_SILVER, Square::SQ57).update(Square::SQ56, Piece::W_PAWN, 500);
    assert_eq!(ch.get(Piece::B_SILVER, Square::SQ57).get(Square::SQ56, Piece::W_PAWN), 500);
    assert_eq!(ch.get(Piece::B_SILVER, Square::SQ58).get(Square::SQ56, Piece::W_PAWN), 0);
    ch.sentinel().update(Square::SQ11, Piece::B_KING, -40);
    assert_eq!(ch.get(Piece::EMPTY, Square::SQ11).get(Square::SQ11, Piece::B_KING), -40);
    ch.fill(-1);
    assert_eq!(ch.get(Piece::B_SILVER, Square::SQ57).get(Square::SQ56, Piece::W_PAWN), -1);
    let mut bh = ButterflyHistory::new();
    bh.fill(3);
    assert_eq!(bh.get(Color::WHITE, Move::NULL()), 3);
}

fn position(sfen: &str) -> PositionBase {
    let args: Vec<&str> = sfen.split_whitespace().collect();
    PositionBase::new_from_sfen_args(args.as_slice()).ok().unwrap()
}

#[test]
fn test_score_captures_and_recaptures() {
    let pos = position("4k4/9/9/9/4p4/9/9/9/4R3K b - 1");
    let take = Move::new_unpromote(Square::SQ59, Square::SQ55, Piece::B_ROOK);
    let mut list = [ExtMove { mv: take, score: 0 }];
    let mut history = CapturePieceToHistory::new();
    score_captures(&mut list, &pos, &history);
    assert_eq!(list[0].score, 180);
    history.update(Piece::B_ROOK, Square::SQ55, PieceType::PAWN, 100);
    score_captures(&mut list, &pos, &history);
    assert_eq!(list[0].score, 280);
    score_recaptures(&mut list, &pos);
    assert_eq!(list[0].score, 180 - 9);
    assert!(list[0].mv == take);
}

#[test]
fn test_score_quiets_and_evasions() {
    let pos = position("4k4/9/9/9/4p4/9/9/9/4R3K b - 1");
    let quiet = Move::new_unpromote(Square::SQ59, Square::SQ58, Piece::B_ROOK);
    let take = Move::new_unpromote(Square::SQ59, Square::SQ55, Piece::B_ROOK);
    let mut main = ButterflyHistory::new();
    main.update(Color::BLACK, quiet, 100);
    let low = LowPlyHistory::new();
    let cont = PieceToHistory::new();
    let conts = vec![&cont; 6];
    let mut list = [ExtMove { mv: quiet, score: 0 }];
    score_quiets(&mut list, &pos, &main, &low, conts.as_slice(), 0);
    assert_eq!(list[0].score, 100);
    let mut evasions = [ExtMove { mv: quiet, score: 0 }, ExtMove { mv: take, score: 0 }];
    score_evasion(&mut evasions, &pos, &main, conts.as_slice());
    assert_eq!(evasions[0].score, 100 - (1 << 28));
    assert_eq!(evasions[1].score, 180 - 9);
}

#[test]
fn select_best_probcut_skips_losing_captures_and_the_hash_move() {
    // The rook on 5i can take the pawn on 5e, which a gold defends, or step to 5h.
    let args: Vec<&str> = "4k4/9/9/3g5/p3p4/9/9/9/4R3K b - 1".split_whitespace().collect();
    let pos = PositionBase::new_from_sfen_args(args.as_slice()).unwrap();
    let t = AttackTable::new();
    let between = BetweenTable::new();
    let take_defended = Move::new_unpromote(Square::SQ59, Square::SQ55, Piece::B_ROOK);
    let quiet = Move::new_unpromote(Square::SQ59, Square::SQ58, Piece::B_ROOK);
    let mut list = vec![ext(quiet, 10), ext(take_defended, 500)];
    let mut current = 0;
    // The defended pawn loses the rook: refused at threshold 0; the quiet move wins 0.
    let r = select_best_probcut(&mut list, &mut current, None, &pos, Value(0), &t, &between);
    assert_eq!(r, Some(quiet));
    assert_eq!(current, 2);
    assert_eq!(list[0].mv, take_defended);
    // As the hash move the quiet move is skipped too.
    let mut list = vec![ext(quiet, 10), ext(take_defended, 500)];
    let mut current = 0;
    let r = select_best_probcut(&mut list, &mut current, Some(quiet), &pos, Value(0), &t, &between);
    assert_eq!(r, None);
    assert_eq!(current, 2);
    // With a low enough threshold the best-scored move is taken first.
    let mut list = vec![ext(quiet, 10), ext(take_defended, 500)];
    let mut current = 0;
    let r = select_best_probcut(&mut list, &mut current, None, &pos, Value(-1800), &t, &between);
    assert_eq!(r, Some(take_defended));
    assert_eq!(current, 1);
}

#[test]
fn select_best_good_capture_moves_losing_captures_to_the_bad_list() {
    let args: Vec<&str> = "4k4/9/9/3g5/p3p4/9/9/9/4R3K b - 1".split_whitespace().collect();
    let pos = PositionBase::new_from_sfen_args(args.as_slice()).unwrap();
    let t = AttackTable::new();
    let between = BetweenTable::new();
    let take_defended = Move::new_unpromote(Square::SQ59, Square::SQ55, Piece::B_ROOK);
    let quiet = Move::new_unpromote(Square::SQ59, Square::SQ58, Piece::B_ROOK);
    let mut list = vec![ext(quiet, 10), ext(take_defended, 500)];
    let mut current = 0;
    let mut end_bad = 0;
    let r = select_best_good_capture(&mut list, 2, &mut current, &mut end_bad, &pos, None, &t, &between);
    assert_eq!(r, Some(quiet));
    assert_eq!(current, 2);
    assert_eq!(end_bad, 1);
    assert_eq!(list[0].mv, take_defended);
    // Nothing left to pick.
    let r = select_best_good_capture(&mut list, 2, &mut current, &mut end_bad, &pos, None, &t, &between);
    assert_eq!(r, None);
    assert_eq!(end_bad, 1);
}
