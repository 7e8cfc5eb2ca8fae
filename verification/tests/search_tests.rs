use apery::search::{
    futility_margin, futility_move_count, stat_bonus, value_from_tt, value_mate_in, value_mated_in, value_to_tt,
    LimitsType, RootMove,
};
use apery::timeman::TimeManagement;
use apery::movetypes::Move;
use apery::types::{Depth, Piece, Square, Value};

#[test]
fn value_tt_round_trip_for_mate_scores() {
    for ply in [0, 1, 5, 30] {
        for v in [Value::MATE - 40, Value::MATE - 200, -Value::MATE + 70, 0, 1234, -Value::MATE_IN_MAX_PLY + 1] {
            let stored = value_to_tt(Value(v), ply);
            assert_eq!(value_from_tt(stored, ply), Value(v));
        }
    }
    assert_eq!(value_to_tt(Value(Value::MATE - 10), 4), Value(Value::MATE - 6));
    assert_eq!(value_from_tt(Value(Value::NONE), 4), Value(Value::NONE));
    assert_eq!(value_to_tt(Value(-Value::MATE + 10), 4), Value(-Value::MATE + 6));
}

#[test]
fn mate_scores() {
    assert_eq!(value_mate_in(3), Value(32597));
    assert_eq!(value_mated_in(3), Value(-32597));
}

#[test]
fn stat_bonus_formula() {
    assert_eq!(stat_bonus(Depth(0)), -134);
    assert_eq!(stat_bonus(Depth(1)), 29 + 138 - 134);
    assert_eq!(stat_bonus(Depth(17)), 29 * 289 + 138 * 17 - 134);
    assert_eq!(stat_bonus(Depth(18)), 0);
}

#[test]
fn futility_formulas() {
    assert_eq!(futility_margin(Depth(3)), Value(225));
    assert_eq!(futility_move_count(false, 3), 7);
    assert_eq!(futility_move_count(true, 3), 14);
}

#[test]
fn limits_default_to_time_management() {
    let mut limits = LimitsType::new();
    assert!(limits.use_time_management());
    assert_eq!(limits.time, [0, 0]);
    limits.depth = Some(3);
    assert!(!limits.use_time_management());
    let mut limits = LimitsType::new();
    limits.infinite = Some(());
    assert!(!limits.use_time_management());
}

#[test]
fn root_move_starts_at_minus_infinite() {
    let m = Move::new_unpromote(Square::SQ77, Square::SQ76, Piece::B_PAWN);
    let rm = RootMove::new(m);
    assert_eq!(rm.score, Value(-Value::INFINITE));
    assert_eq!(rm.previous_score, Value(-Value::INFINITE));
    assert_eq!(rm.sel_depth, 0);
    assert_eq!(rm.pv, vec![m]);
    let mut other = RootMove::new(Move::NULL());
    assert!(rm == other);
    other.score = Value(5);
    assert!(rm != other);
}

#[test]
fn time_budget() {
    assert_eq!(TimeManagement::time_left(60_000, 0, 100), 60_000 - 520);
    assert_eq!(TimeManagement::time_left(60_000, 1_000, 50), (60_000 + 49_000 - 520) / 2);
    assert_eq!(TimeManagement::time_left(0, 0, 100), 1);
    let mut tm = TimeManagement::new();
    assert_eq!(tm.optimum_millis(), 0);
    tm.set_budget(None, 1500, 4000);
    assert_eq!(tm.optimum_millis(), 1500);
    assert_eq!(tm.maximum_millis(), 4000);
    assert_eq!(TimeManagement::elapsed_millis(3, 250), 3250);
    tm.set_budget(Some(std::time::Instant::now()), 1500, 4000);
    assert!(tm.elapsed() >= 0);
}
