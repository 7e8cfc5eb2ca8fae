use vstd::prelude::*;
use crate::kppt::{div_toward_zero, trunc_div};
use crate::search::{SKIP_PHASE, SKIP_SIZE};
use crate::types::{Depth, Value};

verus! {

/// The kinds of statistics a search keeps apart (quiet moves and captures).
pub struct StatsType;

impl StatsType {
    pub const NUM: usize = 2;
}

/// The two cases of a search node: in check or not.
pub struct InCheckType;

impl InCheckType {
    pub const NUM: usize = 2;
}

/// The search window of one principal line within an iteration, and how far it widens
/// when the search falls outside it.
#[derive(Clone, Copy, Debug, PartialEq, Eq, Structural)]
pub struct AspirationWindow {
    pub alpha: Value,
    pub beta: Value,
    pub delta: Value,
    pub failed_high_count: i32,
}

/// A window within the scores a search can give back, not empty.
pub open spec fn window_ok(w: AspirationWindow) -> bool {
    -Value::INFINITE <= w.alpha.0 < w.beta.0 <= Value::INFINITE
}

/// Where the search's score fell against the window.
#[derive(Clone, Copy, Debug, PartialEq, Eq, Structural)]
pub enum AspirationOutcome {
    /// At or below `alpha`: the window moves down and the line is searched again.
    FailLow,
    /// At or above `beta`: the window moves up and the line is searched again.
    FailHigh,
    /// Inside the window: the line is done.
    Inside,
}

/// The window for a principal line whose score was `previous_score` in the last
/// iteration: from the fourth iteration on, 19 either side of it (within the scores a
/// search gives back), with a step of 19; before, the window `w` kept from before.
pub open spec fn start_window(w: AspirationWindow, root_depth: Depth, previous_score: Value) -> AspirationWindow {
    if root_depth.0 >= 4 {
        AspirationWindow {
            alpha: Value(if previous_score.0 - 19 > -Value::INFINITE { (previous_score.0 - 19) as i32 } else { (-Value::INFINITE) as i32 }),
            beta: Value(if previous_score.0 + 19 < Value::INFINITE { (previous_score.0 + 19) as i32 } else { Value::INFINITE }),
            delta: Value(19),
            failed_high_count: 0,
        }
    } else {
        AspirationWindow { failed_high_count: 0, ..w }
    }
}

/// The window for a principal line whose score was `previous_score` in the last
/// iteration, as `start_window` says.
pub fn aspiration_start(w: AspirationWindow, root_depth: Depth, previous_score: Value) -> (r: AspirationWindow)
    requires -Value::INFINITE <= previous_score.0 <= Value::INFINITE,
    ensures
        r == start_window(w, root_depth, previous_score),
        root_depth.0 >= 4 ==> window_ok(r),
{
    if root_depth.0 >= 4 {
        let delta: i32 = 19;
        let a: i32 = previous_score.0 - delta;
        let b: i32 = previous_score.0 + delta;
        AspirationWindow {
            alpha: Value(if a > -Value::INFINITE { a } else { -Value::INFINITE }),
            beta: Value(if b < Value::INFINITE { b } else { Value::INFINITE }),
            delta: Value(delta),
            failed_high_count: 0,
        }
    } else {
        AspirationWindow { failed_high_count: 0, ..w }
    }
}

/// The depth to search a principal line at: the iteration's depth less the number of
/// fail-highs of this line and of the searches repeated at the same depth, at least one ply.
pub open spec fn adjusted_depth_spec(root_depth: int, failed_high_count: int, search_again_counter: int) -> int {
    if root_depth - (failed_high_count + search_again_counter) > 1 {
        root_depth - (failed_high_count + search_again_counter)
    } else {
        1
    }
}

/// The depth to search a principal line at, as `adjusted_depth_spec` says.
pub fn adjusted_depth(root_depth: Depth, failed_high_count: i32, search_again_counter: i32) -> (r: Depth)
    requires
        0 <= failed_high_count <= 0x1000_0000,
        0 <= search_again_counter <= 0x1000_0000,
        -0x1000_0000 <= root_depth.0 <= 0x1000_0000,
    ensures
        r.0 == adjusted_depth_spec(root_depth.0 as int, failed_high_count as int, search_again_counter as int),
{
    let d: i32 = root_depth.0 - (failed_high_count + search_again_counter);
    Depth(if d > Depth::ONE_PLY { d } else { Depth::ONE_PLY })
}

/// The window after a search of the line gave `best_value` in window `w`: a fail low
/// brings `beta` halfway down to `alpha` (rounding toward zero), moves `alpha` a step below
/// the score and clears the fail-high count; a fail high moves `beta` a step above the
/// score and counts it; a fail either way then widens the step by a quarter and five. A
/// score inside the window leaves it as it is.
pub open spec fn next_window(w: AspirationWindow, best_value: Value) -> AspirationWindow {
    if best_value.0 <= w.alpha.0 {
        AspirationWindow {
            alpha: Value(if best_value.0 - w.delta.0 > -Value::INFINITE { (best_value.0 - w.delta.0) as i32 } else { (-Value::INFINITE) as i32 }),
            beta: Value(trunc_div(w.alpha.0 + w.beta.0, 2) as i32),
            delta: Value((w.delta.0 + w.delta.0 / 4 + 5) as i32),
            failed_high_count: 0,
        }
    } else if w.beta.0 <= best_value.0 {
        AspirationWindow {
            alpha: w.alpha,
            beta: Value(if best_value.0 + w.delta.0 < Value::INFINITE { (best_value.0 + w.delta.0) as i32 } else { Value::INFINITE }),
            delta: Value((w.delta.0 + w.delta.0 / 4 + 5) as i32),
            failed_high_count: (w.failed_high_count + 1) as i32,
        }
    } else {
        w
    }
}

/// The next window after a search of the line gave `best_value` in window `w`: a fail
/// low brings `beta` halfway down to `alpha` (rounding toward zero), moves `alpha` a step
/// below the score and clears the fail-high count; a fail high moves `beta` a step above the score and counts
/// it; a fail either way then widens the step by a quarter and five. A score inside the
/// window leaves it as it is.
pub fn aspiration_step(w: AspirationWindow, best_value: Value) -> (r: (AspirationWindow, AspirationOutcome))
    requires
        window_ok(w),
        0 < w.delta.0 <= 0x1000_0000,
        0 <= w.failed_high_count < 0x1000_0000,
        -Value::INFINITE < best_value.0 < Value::INFINITE,
    ensures
        r.0 == next_window(w, best_value),
        best_value.0 <= w.alpha.0 ==> r.1 == AspirationOutcome::FailLow,
        w.alpha.0 < best_value.0 && w.beta.0 <= best_value.0 ==> r.1 == AspirationOutcome::FailHigh,
        w.alpha.0 < best_value.0 < w.beta.0 ==> r.1 == AspirationOutcome::Inside,
        window_ok(r.0),
        0 < r.0.delta.0,
{
    if best_value.0 <= w.alpha.0 {
        let a: i32 = best_value.0 - w.delta.0;
        let beta = Value(div_toward_zero(w.alpha.0 + w.beta.0, 2));
        let alpha = Value(if a > -Value::INFINITE { a } else { -Value::INFINITE });
        let delta = Value(w.delta.0 + w.delta.0 / 4 + 5);
        (AspirationWindow { alpha, beta, delta, failed_high_count: 0 }, AspirationOutcome::FailLow)
    } else if w.beta.0 <= best_value.0 {
        let b: i32 = best_value.0 + w.delta.0;
        let beta = Value(if b < Value::INFINITE { b } else { Value::INFINITE });
        let delta = Value(w.delta.0 + w.delta.0 / 4 + 5);
        (AspirationWindow { alpha: w.alpha, beta, delta, failed_high_count: w.failed_high_count + 1 }, AspirationOutcome::FailHigh)
    } else {
        (w, AspirationOutcome::Inside)
    }
}

/// Whether helper thread `idx` (the main thread is 0) leaves out the iteration of depth
/// `root_depth`, so that helpers spread over the depths.
pub open spec fn skips_spec(idx: usize, root_depth: int) -> bool {
    idx > 0 && ({
        let i = ((idx - 1) % 20) as int;
        ((root_depth + SKIP_PHASE@[i]) as int / SKIP_SIZE@[i] as int) % 2 != 0
    })
}

/// Whether helper thread `idx` (the main thread is 0) leaves out the iteration of depth
/// `root_depth`, as `skips_spec` says.
pub fn skips_iteration(idx: usize, root_depth: Depth) -> (r: bool)
    requires 0 <= root_depth.0 <= 0x1000_0000,
    ensures
        r == skips_spec(idx, root_depth.0 as int),
{
    if idx == 0 {
        return false;
    }
    let i: usize = (idx - 1) % 20;
    let phase: i32 = SKIP_PHASE[i];
    let size: i32 = SKIP_SIZE[i];
    proof {
        assert(0 <= phase <= 7 && 1 <= size <= 4) by {
            assert(SKIP_PHASE@ =~= seq![0i32, 1, 0, 1, 2, 3, 0, 1, 2, 3, 4, 5, 0, 1, 2, 3, 4, 5, 6, 7]);
            assert(SKIP_SIZE@ =~= seq![1i32, 1, 2, 2, 2, 2, 3, 3, 3, 3, 3, 3, 4, 4, 4, 4, 4, 4, 4, 4]);
        }
    }
    ((root_depth.0 + phase) / size) % 2 != 0
}

/// Whether the search for a mate in `mate` moves is done: the score is a mate found
/// within that many plies.
pub fn mate_found(best_value: Value, mate: u32) -> (r: bool)
    requires -Value::INFINITE <= best_value.0 <= Value::INFINITE,
    ensures r == (best_value.0 >= Value::MATE_IN_MAX_PLY && Value::MATE - best_value.0 <= mate),
{
    best_value.0 >= Value::MATE_IN_MAX_PLY && (Value::MATE - best_value.0) as i64 <= mate as i64
}

/// Whether iterative deepening goes on to depth `root_depth`: below the deepest depth,
/// not stopped, and, for the main thread, within the depth limit of the `go` command.
pub open spec fn deepens_spec(root_depth: int, stopped: bool, depth_limit: Option<u32>, is_main: bool) -> bool {
    root_depth < Depth::MAX && !stopped && !(depth_limit is Some && is_main && root_depth > depth_limit->0)
}

/// Whether iterative deepening goes on to depth `root_depth`, as `deepens_spec` says.
pub fn deepens_to(root_depth: Depth, stopped: bool, depth_limit: Option<u32>, is_main: bool) -> (r: bool)
    ensures
        r == deepens_spec(root_depth.0 as int, stopped, depth_limit, is_main),
{
    root_depth.0 < Depth::MAX && !stopped
        && !(match depth_limit { Some(d) => is_main && root_depth.0 as i64 > d as i64, None => false })
}

/// The span of scores a search can give back, twice the infinite score.
pub open spec fn score_span() -> int {
    2 * Value::INFINITE
}

/// The window that lets every score of a search through.
pub open spec fn full_window(w: AspirationWindow) -> bool {
    w.alpha.0 == -Value::INFINITE && w.beta.0 == Value::INFINITE
}

/// A window that the searches of a line can reach: either the full window, or one whose
/// step is positive and at most eight spans, with no more fail-highs than the step, and
/// that is open at the bottom or the top once the step passes two spans, at the bottom
/// past four, and full past six.
pub open spec fn line_window_ok(w: AspirationWindow) -> bool {
    &&& window_ok(w)
    &&& 0 <= w.failed_high_count <= 8 * score_span()
    &&& full_window(w) || {
        &&& 0 < w.delta.0 <= 8 * score_span()
        &&& w.failed_high_count <= w.delta.0
        &&& w.delta.0 > 2 * score_span() ==> w.alpha.0 == -Value::INFINITE || w.beta.0 == Value::INFINITE
        &&& w.delta.0 > 4 * score_span() ==> w.alpha.0 == -Value::INFINITE
        &&& w.delta.0 > 6 * score_span() ==> full_window(w)
    }
}

/// The searches of one principal line within an iteration: the iteration's depth, the
/// number of searches repeated at the same depth, and the window of the next search.
#[derive(Clone, Copy, Debug, PartialEq, Eq, Structural)]
pub struct LineSearch {
    pub root_depth: Depth,
    pub search_again_counter: i32,
    pub window: AspirationWindow,
}

/// What the searches of a line ask for next.
#[derive(Clone, Copy, Debug, PartialEq, Eq, Structural)]
pub enum LineAction {
    /// Search the root with this window to this depth, then hand the score back.
    Search { alpha: Value, beta: Value, depth: Depth },
    /// The line is done.
    Done,
}

/// A state that the searches of a line can be in.
pub open spec fn line_ok(s: LineSearch) -> bool {
    &&& line_window_ok(s.window)
    &&& 0 <= s.search_again_counter <= 0x1000_0000
    &&& -0x1000_0000 <= s.root_depth.0 <= 0x1000_0000
}

/// The search that state `s` asks for: its window, at the adjusted depth.
pub open spec fn search_of(s: LineSearch) -> LineAction {
    LineAction::Search {
        alpha: s.window.alpha,
        beta: s.window.beta,
        depth: Depth(adjusted_depth_spec(s.root_depth.0 as int, s.window.failed_high_count as int,
            s.search_again_counter as int) as i32),
    }
}

/// What iterative deepening does after the iteration of some depth.
#[derive(Clone, Copy, Debug, PartialEq, Eq, Structural)]
pub enum IterationAction {
    /// Search the iteration of this depth.
    Search(Depth),
    /// Iterative deepening is over.
    Stop,
}

/// The depths after `root_depth` that thread `idx` leaves out before `d`, all of which
/// deepening would go on to.
pub open spec fn skipped_up_to(idx: usize, root_depth: int, d: int, stopped: bool, depth_limit: Option<u32>, is_main: bool) -> bool {
    forall|e: int| root_depth < e < d ==> #[trigger] deepens_spec(e, stopped, depth_limit, is_main) && skips_spec(idx, e)
}

/// The next iteration of thread `idx` after the one of depth `root_depth`: the depth goes
/// up one at a time past the depths the thread leaves out; the first depth that it does
/// not leave out is searched, unless deepening stops before it (at the deepest depth, when
/// stopped, or past the main thread's depth limit).
pub fn next_iteration(root_depth: Depth, stopped: bool, depth_limit: Option<u32>, is_main: bool, idx: usize)
    -> (r: IterationAction)
    requires 0 <= root_depth.0 < Depth::MAX,
    ensures
        r matches IterationAction::Search(d) ==> {
            &&& root_depth.0 < d.0
            &&& deepens_spec(d.0 as int, stopped, depth_limit, is_main)
            &&& !skips_spec(idx, d.0 as int)
            &&& skipped_up_to(idx, root_depth.0 as int, d.0 as int, stopped, depth_limit, is_main)
        },
        r is Stop ==> exists|d: int| root_depth.0 < d <= Depth::MAX
            && !deepens_spec(d, stopped, depth_limit, is_main)
            && skipped_up_to(idx, root_depth.0 as int, d, stopped, depth_limit, is_main),
{
    let mut d: i32 = root_depth.0 + Depth::ONE_PLY;
    while d <= Depth::MAX
        invariant
            root_depth.0 < d <= Depth::MAX + 1,
            0 <= root_depth.0 < Depth::MAX,
            skipped_up_to(idx, root_depth.0 as int, d as int, stopped, depth_limit, is_main),
        decreases Depth::MAX + 1 - d,
    {
        if !deepens_to(Depth(d), stopped, depth_limit, is_main) {
            return IterationAction::Stop;
        }
        if !skips_iteration(idx, Depth(d)) {
            return IterationAction::Search(Depth(d));
        }
        proof {
            assert forall|e: int| root_depth.0 < e < d + 1 implies #[trigger] deepens_spec(e, stopped, depth_limit, is_main) && skips_spec(idx, e) by {
                if e < d {
                    assert(skipped_up_to(idx, root_depth.0 as int, d as int, stopped, depth_limit, is_main));
                }
            }
        }
        d = d + 1;
    }
    proof {
        assert(!deepens_spec(Depth::MAX as int, stopped, depth_limit, is_main));
        assert(skipped_up_to(idx, root_depth.0 as int, Depth::MAX as int, stopped, depth_limit, is_main)) by {
            assert forall|e: int| root_depth.0 < e < Depth::MAX implies #[trigger] deepens_spec(e, stopped, depth_limit, is_main) && skips_spec(idx, e) by {
                assert(skipped_up_to(idx, root_depth.0 as int, d as int, stopped, depth_limit, is_main));
            }
        }
    }
    IterationAction::Stop
}

/// A window that a line can reach stays one after a search of it that gives a score
/// within the scores a search gives back.
pub proof fn lemma_next_window_ok(w: AspirationWindow, best_value: Value)
    requires
        line_window_ok(w),
        -Value::INFINITE < best_value.0 < Value::INFINITE,
    ensures
        line_window_ok(next_window(w, best_value)),
{
    let n = next_window(w, best_value);
    let t = score_span();
    if best_value.0 <= w.alpha.0 || w.beta.0 <= best_value.0 {
        assert(!full_window(w));
        assert(n.delta.0 == w.delta.0 + w.delta.0 / 4 + 5);
        assert(n.delta.0 > w.delta.0);
        if best_value.0 <= w.alpha.0 {
            assert(w.delta.0 >= t - 1 ==> n.alpha.0 == -Value::INFINITE);
            if w.alpha.0 + w.beta.0 >= 0 {
                assert(n.beta.0 == (w.alpha.0 + w.beta.0) / 2);
            } else {
                assert(n.beta.0 == -((-(w.alpha.0 + w.beta.0)) / 2));
            }
            assert(n.beta.0 < Value::INFINITE);
        } else {
            assert(w.delta.0 >= t - 1 ==> n.beta.0 == Value::INFINITE);
        }
    }
}

/// The searches of a line end: each search again that `line_step` asks for widens the
/// step of a window that is not full, and the step of a window that a line can reach is
/// at most eight spans, so a line is searched again fewer than `8 * score_span()` times.
pub proof fn lemma_line_search_widens(s: LineSearch, best_value: Value)
    requires
        line_ok(s),
        -Value::INFINITE < best_value.0 < Value::INFINITE,
        !(s.window.alpha.0 < best_value.0 < s.window.beta.0),
    ensures
        !full_window(s.window),
        s.window.delta.0 + 5 <= next_window(s.window, best_value).delta.0 <= 8 * score_span(),
{
    lemma_next_window_ok(s.window, best_value);
}

/// Starts the searches of a line in the iteration of depth `root_depth`: the window is
/// `start_window` of the window `w` kept from before and the line's last score, and the
/// first search is asked for.
pub fn line_start(root_depth: Depth, search_again_counter: i32, w: AspirationWindow, previous_score: Value)
    -> (r: (LineSearch, LineAction))
    requires
        line_window_ok(w),
        -Value::INFINITE <= previous_score.0 <= Value::INFINITE,
        0 <= search_again_counter <= 0x1000_0000,
        -0x1000_0000 <= root_depth.0 <= 0x1000_0000,
    ensures
        r.0 == (LineSearch { root_depth, search_again_counter, window: start_window(w, root_depth, previous_score) }),
        r.1 == search_of(r.0),
        line_ok(r.0),
{
    let window = aspiration_start(w, root_depth, previous_score);
    let s = LineSearch { root_depth, search_again_counter, window };
    let depth = adjusted_depth(root_depth, window.failed_high_count, search_again_counter);
    (s, LineAction::Search { alpha: window.alpha, beta: window.beta, depth })
}

/// The searches of a line after one gave `best_value`, `stopped` telling whether the
/// search was told to stop: a stop or a score inside the window ends the line, as it is;
/// else the window moves as `next_window` says and the line is searched again.
pub fn line_step(s: LineSearch, best_value: Value, stopped: bool) -> (r: (LineSearch, LineAction))
    requires
        line_ok(s),
        -Value::INFINITE < best_value.0 < Value::INFINITE,
    ensures
        stopped || (s.window.alpha.0 < best_value.0 < s.window.beta.0) ==> r == (s, LineAction::Done),
        !stopped && !(s.window.alpha.0 < best_value.0 < s.window.beta.0) ==> {
            &&& r.0 == (LineSearch { window: next_window(s.window, best_value), ..s })
            &&& r.1 == search_of(r.0)
        },
        line_ok(r.0),
{
    if stopped || (s.window.alpha.0 < best_value.0 && best_value.0 < s.window.beta.0) {
        return (s, LineAction::Done);
    }
    proof {
        lemma_next_window_ok(s.window, best_value);
    }
    let (window, _outcome) = aspiration_step(s.window, best_value);
    let n = LineSearch { window, ..s };
    let depth = adjusted_depth(s.root_depth, window.failed_high_count, s.search_again_counter);
    (n, LineAction::Search { alpha: window.alpha, beta: window.beta, depth })
}

} // verus!
