use apery::thread::{adjusted_depth, aspiration_start, aspiration_step, deepens_to, mate_found, skips_iteration};
use apery::thread::{line_start, line_step, next_iteration, IterationAction, LineAction};
use apery::thread::{AspirationOutcome, AspirationWindow};
use apery::types::{Depth, Value};

fn full_window() -> AspirationWindow {
    AspirationWindow { alpha: Value(-32601), beta: Value(32601), delta: Value(-32601), failed_high_count: 0 }
}

#[test]
fn aspiration_window_opens_around_the_previous_score() {
    let w = aspiration_start(full_window(), Depth(4), Value(100));
    assert_eq!(w, AspirationWindow { alpha: Value(81), beta: Value(119), delta: Value(19), failed_high_count: 0 });
    // Before the fourth iteration the full window stays.
    assert_eq!(aspiration_start(full_window(), Depth(3), Value(100)), full_window());
    // Near the ends the window is cut at the infinite score.
    let w = aspiration_start(full_window(), Depth(5), Value(32590));
    assert_eq!(w.beta, Value(32601));
}

#[test]
fn aspiration_window_widens_on_fails() {
    let w = aspiration_start(full_window(), Depth(4), Value(100));
    let (w, o) = aspiration_step(w, Value(50));
    assert_eq!(o, AspirationOutcome::FailLow);
    assert_eq!(w, AspirationWindow { alpha: Value(31), beta: Value(100), delta: Value(28), failed_high_count: 0 });
    let (w, o) = aspiration_step(w, Value(200));
    assert_eq!(o, AspirationOutcome::FailHigh);
    assert_eq!(w, AspirationWindow { alpha: Value(31), beta: Value(228), delta: Value(40), failed_high_count: 1 });
    let (w2, o) = aspiration_step(w, Value(150));
    assert_eq!(o, AspirationOutcome::Inside);
    assert_eq!(w2, w);
    // The halfway point rounds toward zero.
    let w = AspirationWindow { alpha: Value(-5), beta: Value(2), delta: Value(19), failed_high_count: 3 };
    let (w, o) = aspiration_step(w, Value(-10));
    assert_eq!(o, AspirationOutcome::FailLow);
    assert_eq!(w.beta, Value(-1));
    assert_eq!(w.alpha, Value(-29));
    assert_eq!(w.failed_high_count, 0);
}

#[test]
fn search_depth_and_iteration_choices() {
    assert_eq!(adjusted_depth(Depth(5), 2, 1), Depth(2));
    assert_eq!(adjusted_depth(Depth(2), 3, 0), Depth(1));
    assert!(!skips_iteration(0, Depth(3)));
    assert!(skips_iteration(1, Depth(3)));
    assert!(!skips_iteration(1, Depth(4)));
    assert!(skips_iteration(3, Depth(2)));
    assert!(!skips_iteration(3, Depth(4)));
    assert!(!mate_found(Value(32600 - 5), 3));
    assert!(mate_found(Value(32600 - 5), 5));
    assert!(!mate_found(Value(100), 5));
    assert!(!deepens_to(Depth(5), false, Some(4), true));
    assert!(deepens_to(Depth(5), false, Some(4), false));
    assert!(!deepens_to(Depth(5), true, None, false));
    assert!(!deepens_to(Depth(246), false, None, true));
    assert!(deepens_to(Depth(245), false, None, true));
}

#[test]
fn a_line_is_searched_until_its_score_falls_inside_the_window() {
    let (s, a) = line_start(Depth(6), 1, full_window(), Value(100));
    assert_eq!(a, LineAction::Search { alpha: Value(81), beta: Value(119), depth: Depth(5) });
    // A fail high: the window moves up and the depth drops by one more.
    let (s, a) = line_step(s, Value(200), false);
    assert_eq!(a, LineAction::Search { alpha: Value(81), beta: Value(219), depth: Depth(4) });
    assert_eq!(s.window.failed_high_count, 1);
    // A fail low: the window moves down and the fail-high count is cleared.
    let (s, a) = line_step(s, Value(50), false);
    assert_eq!(a, LineAction::Search { alpha: Value(22), beta: Value(150), depth: Depth(5) });
    // Inside the window: the line is done.
    let (s2, a) = line_step(s, Value(100), false);
    assert_eq!(a, LineAction::Done);
    assert_eq!(s2, s);
}

#[test]
fn a_stopped_search_ends_the_line() {
    let (s, _) = line_start(Depth(6), 0, full_window(), Value(100));
    let (s2, a) = line_step(s, Value(5000), true);
    assert_eq!(a, LineAction::Done);
    assert_eq!(s2, s);
    // Before the fourth iteration the full window lets every score through.
    let (s, a) = line_start(Depth(2), 0, full_window(), Value(100));
    assert_eq!(a, LineAction::Search { alpha: Value(-32601), beta: Value(32601), depth: Depth(2) });
    assert_eq!(line_step(s, Value(-32000), false).1, LineAction::Done);
}

#[test]
fn the_next_iteration_skips_the_depths_a_helper_leaves_out() {
    // The main thread searches every depth.
    assert_eq!(next_iteration(Depth(3), false, None, true, 0), IterationAction::Search(Depth(4)));
    // Helper 1 leaves out the odd depths ((d + 0) / 1 is odd).
    assert_eq!(next_iteration(Depth(2), false, None, false, 1), IterationAction::Search(Depth(4)));
    // Helper 2 leaves out the even depths ((d + 1) / 1 is odd).
    assert_eq!(next_iteration(Depth(2), false, None, false, 2), IterationAction::Search(Depth(3)));
    // A stop, the depth limit of the main thread and the deepest depth end deepening.
    assert_eq!(next_iteration(Depth(3), true, None, true, 0), IterationAction::Stop);
    assert_eq!(next_iteration(Depth(3), false, Some(3), true, 0), IterationAction::Stop);
    assert_eq!(next_iteration(Depth(3), false, Some(3), false, 0), IterationAction::Search(Depth(4)));
    assert_eq!(next_iteration(Depth(245), false, None, true, 0), IterationAction::Stop);
}
