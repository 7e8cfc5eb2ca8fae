use vstd::prelude::*;
use crate::movetypes::Move;
use crate::types::{Depth, False, True, Value};

verus! {

/// A point in time from the monotonic clock, carried through without being looked into.
#[verifier::external_type_specification]
#[verifier::external_body]
pub struct ExInstant(std::time::Instant);

pub const COUNTER_MOVE_PRUNE_THRESHOLD: i16 = 0;
pub const CURRENT_STACK_INDEX: usize = 7;
pub type Pv = True;
pub type NonPv = False;

/// What a `go` command asks of the search: the clocks and increments of both sides in
/// milliseconds, and the optional limits.
#[derive(Clone, Copy)]
pub struct LimitsType {
    /// The time left on each side's clock, in milliseconds.
    pub time: [u64; 2],
    /// The increment of each side per move, in milliseconds.
    pub inc: [u64; 2],
    pub depth: Option<u32>,
    /// A fixed time for the move, in milliseconds.
    pub movetime: Option<u64>,
    pub mate: Option<u32>,
    pub perft: Option<u32>,
    pub infinite: Option<()>,
    pub nodes: Option<u64>,
    pub start_time: Option<std::time::Instant>,
}

impl LimitsType {
    pub fn new() -> (r: LimitsType)
        ensures
            r.time[0] == 0 && r.time[1] == 0,
            r.inc[0] == 0 && r.inc[1] == 0,
            r.depth is None,
            r.movetime is None,
            r.mate is None,
            r.perft is None,
            r.infinite is None,
            r.nodes is None,
            r.start_time is None,
    {
        LimitsType {
            time: [0, 0],
            inc: [0, 0],
            depth: None,
            movetime: None,
            mate: None,
            perft: None,
            infinite: None,
            nodes: None,
            start_time: None,
        }
    }

    /// Whether the search manages its own time: no limit other than the clocks was given.
    pub open spec fn spec_use_time_management(self) -> bool {
        &&& self.mate is None
        &&& self.movetime is None
        &&& self.depth is None
        &&& self.nodes is None
        &&& self.perft is None
        &&& self.infinite is None
    }

    pub fn use_time_management(&self) -> (r: bool)
        ensures r == self.spec_use_time_management(),
    {
        self.mate.is_none()
            && self.movetime.is_none()
            && self.depth.is_none()
            && self.nodes.is_none()
            && self.perft.is_none()
            && self.infinite.is_none()
    }
}

/// A move at the root with its score, its score in the previous iteration, the selective
/// depth reached and its principal variation. Two root moves are equal when their scores and
/// previous scores are.
#[derive(Clone)]
pub struct RootMove {
    pub score: Value,
    pub previous_score: Value,
    pub sel_depth: i32,
    pub pv: Vec<Move>,
}

impl PartialEq for RootMove {
    fn eq(&self, other: &RootMove) -> (r: bool) {
        self.score == other.score && self.previous_score == other.previous_score
    }
}

impl vstd::std_specs::cmp::PartialEqSpecImpl for RootMove {
    open spec fn obeys_eq_spec() -> bool {
        true
    }

    open spec fn eq_spec(&self, other: &RootMove) -> bool {
        self.score == other.score && self.previous_score == other.previous_score
    }
}

impl Eq for RootMove {
}

impl RootMove {
    pub fn new(m: Move) -> (r: RootMove)
        ensures
            r.score.0 == -Value::INFINITE,
            r.previous_score.0 == -Value::INFINITE,
            r.sel_depth == 0,
            r.pv@ == seq![m],
    {
        let mut pv: Vec<Move> = Vec::new();
        pv.push(m);
        RootMove {
            score: Value(-Value::INFINITE),
            previous_score: Value(-Value::INFINITE),
            sel_depth: 0,
            pv,
        }
    }
}

/// A score read back from the transposition table at `ply`: mate scores, stored relative to
/// the node, become relative to the root again.
pub open spec fn spec_value_from_tt(v: int, ply: int) -> int {
    if v == Value::NONE {
        Value::NONE as int
    } else if v >= Value::MATE_IN_MAX_PLY {
        v - ply
    } else if v <= Value::MATED_IN_MAX_PLY {
        v + ply
    } else {
        v
    }
}

/// A score as stored in the transposition table at `ply`: mate scores relative to the root
/// become relative to the node.
pub open spec fn spec_value_to_tt(v: int, ply: int) -> int {
    if v >= Value::MATE_IN_MAX_PLY {
        v + ply
    } else if v <= Value::MATED_IN_MAX_PLY {
        v - ply
    } else {
        v
    }
}

pub fn value_from_tt(v: Value, ply: i32) -> (r: Value)
    requires
        i32::MIN <= spec_value_from_tt(v.0 as int, ply as int) <= i32::MAX,
    ensures
        r.0 == spec_value_from_tt(v.0 as int, ply as int),
{
    if v.0 == Value::NONE {
        Value(Value::NONE)
    } else if v.0 >= Value::MATE_IN_MAX_PLY {
        Value(v.0 - ply)
    } else if v.0 <= Value::MATED_IN_MAX_PLY {
        Value(v.0 + ply)
    } else {
        v
    }
}

pub fn value_to_tt(v: Value, ply: i32) -> (r: Value)
    requires
        v.0 != Value::NONE,
        i32::MIN <= spec_value_to_tt(v.0 as int, ply as int) <= i32::MAX,
    ensures
        r.0 == spec_value_to_tt(v.0 as int, ply as int),
{
    if v.0 >= Value::MATE_IN_MAX_PLY {
        Value(v.0 + ply)
    } else if v.0 <= Value::MATED_IN_MAX_PLY {
        Value(v.0 - ply)
    } else {
        v
    }
}

/// A score stored at `ply` and read back at the same ply is the score stored, for every
/// score within the mate bounds of that ply (`value_mated_in(ply) <= v <= value_mate_in(ply)`,
/// `0 <= ply`).
pub proof fn lemma_value_tt_round_trip(v: int, ply: int)
    requires
        0 <= ply <= crate::types::MAX_PLY,
        -Value::MATE + ply <= v <= Value::MATE - ply,
    ensures
        spec_value_from_tt(spec_value_to_tt(v, ply), ply) == v,
{
}

/// The score of mating at `ply`.
pub fn value_mate_in(ply: i32) -> (r: Value)
    requires
        i32::MIN <= Value::MATE - ply <= i32::MAX,
    ensures
        r.0 == Value::MATE - ply,
{
    Value(Value::MATE - ply)
}

/// The score of being mated at `ply`.
pub fn value_mated_in(ply: i32) -> (r: Value)
    requires
        i32::MIN <= -Value::MATE + ply <= i32::MAX,
    ensures
        r.0 == -Value::MATE + ply,
{
    Value(-Value::MATE + ply)
}

pub const TEMPO: i32 = 28;

/// The history bonus of a move at depth `d` (in plies): `29 d^2 + 138 d - 134`, none beyond
/// depth 17.
pub open spec fn spec_stat_bonus(d: int) -> int {
    if d > 17 { 0 } else { 29 * d * d + 138 * d - 134 }
}

pub fn stat_bonus(depth: Depth) -> (r: i32)
    requires
        depth.0 > 17 || 29 * depth.0 * depth.0 <= i32::MAX,
    ensures
        r == spec_stat_bonus(depth.0 as int),
{
    let d = depth.0 / Depth::ONE_PLY;
    if d > 17 {
        0
    } else {
        assert(-8606 <= d <= 17) by (nonlinear_arith)
            requires d <= 17, 29 * d * d <= i32::MAX;
        assert(29 * d * d <= 29 * 8606 * 8606) by (nonlinear_arith)
            requires -8606 <= d <= 17;
        assert(0 <= 29 * d * d) by (nonlinear_arith);
        if d < 0 {
            assert(-1200000 <= 29 * d * d + 138 * d <= 29 * d * d) by (nonlinear_arith)
                requires -8606 <= d < 0;
        } else {
            assert(0 <= 29 * d * d + 138 * d <= 29 * 17 * 17 + 138 * 17) by (nonlinear_arith)
                requires 0 <= d <= 17;
        }
        29 * d * d + 138 * d - 134
    }
}

/// The bonus of every depth lies in `[-134, 10593]`, inside the scale of every history
/// table.
pub proof fn lemma_stat_bonus_bounded(d: int)
    requires 0 <= d,
    ensures -134 <= spec_stat_bonus(d) <= 10593,
{
    if d <= 17 {
        assert(0 <= 29 * d * d <= 29 * 17 * 17) by (nonlinear_arith) requires 0 <= d <= 17;
    }
}

/// A history entry within the scale of its table (one of 10692, 13365 or 29952, or any
/// scale from 10593 up to `i16::MAX`) stays within it when moved by a stat bonus of any
/// depth, added or taken away, and the move overflows nothing.
pub proof fn lemma_stat_bonus_update_bounded(v: int, depth: int, negate: bool, scale: int)
    requires
        0 <= depth,
        10593 <= scale <= i16::MAX,
        -scale <= v <= scale,
    ensures
        ({
            let b = if negate { -spec_stat_bonus(depth) } else { spec_stat_bonus(depth) };
            &&& crate::movepick::gravity_defined(v, b, scale)
            &&& -scale <= crate::movepick::gravity(v, b, scale) <= scale
        }),
{
    lemma_stat_bonus_bounded(depth);
    let b = if negate { -spec_stat_bonus(depth) } else { spec_stat_bonus(depth) };
    crate::movepick::lemma_gravity_bounded(v, b, scale);
}

pub const RAZOR_MARGIN: i32 = 600;

pub fn futility_margin(depth: Depth) -> (r: Value)
    requires
        i32::MIN <= 75 * depth.0 <= i32::MAX,
    ensures
        r.0 == 75 * depth.0,
{
    Value(75 * depth.0 / Depth::ONE_PLY)
}

/// The number of quiet moves after which the moves at depth `d` are pruned:
/// `(5 + d^2) * (1 + improving) / 2`.
pub open spec fn spec_futility_move_count(improving: bool, d: int) -> int {
    (5 + d * d) * (if improving { 2int } else { 1int }) / 2
}

pub fn futility_move_count(improving: bool, depth_per_one_ply: i32) -> (r: i32)
    requires
        2 * (5 + depth_per_one_ply * depth_per_one_ply) <= i32::MAX,
    ensures
        r == spec_futility_move_count(improving, depth_per_one_ply as int),
{
    let d = depth_per_one_ply;
    assert(0 <= d * d) by (nonlinear_arith);
    let k: i32 = if improving { 2 } else { 1 };
    (5 + d * d) * k / 2
}

pub const SKIP_SIZE: [i32; 20] = [1, 1, 2, 2, 2, 2, 3, 3, 3, 3, 3, 3, 4, 4, 4, 4, 4, 4, 4, 4];
pub const SKIP_PHASE: [i32; 20] = [0, 1, 0, 1, 2, 3, 0, 1, 2, 3, 4, 5, 0, 1, 2, 3, 4, 5, 6, 7];

} // verus!
