use vstd::prelude::*;
use vstd::multiset::Multiset;
use crate::movetypes::{ExtMove, Move, NonZeroUnwrapUnchecked};
use crate::piecevalue::{capture_material, capture_piece_type_value, capture_piece_value, lva_rank, lva_value};
use crate::bitboard::{AttackTable, BetweenTable};
use crate::position::{see_ge_spec, PositionBase};
use crate::kppt::trunc_div;
use crate::types::{Color, Piece, PieceType, Square, Value};

verus! {

/// `|x|`.
pub open spec fn abs_int(x: int) -> int {
    if x < 0 { -x } else { x }
}

/// The step of a history entry `v` towards `bonus`, with a pull back toward zero that grows
/// with `|v|` (`d` is the table's scale): `v + (bonus - v * |bonus| / d)`, the division
/// rounding toward zero and the step taken as a 16-bit integer, as the tables do.
pub open spec fn gravity(v: int, bonus: int, d: int) -> int {
    v + ((bonus - crate::strings::trunc_div(v * abs_int(bonus), d)) as i16)
}

/// The inputs on which the update of a history entry stays within its machine integers:
/// `|bonus|` exists as an `i32`, the product and the difference fit in an `i32` and the new
/// entry fits in an `i16`.
pub open spec fn gravity_defined(v: int, bonus: int, d: int) -> bool {
    &&& i32::MIN < bonus <= i32::MAX
    &&& i32::MIN <= v * abs_int(bonus) <= i32::MAX
    &&& i32::MIN <= bonus - crate::strings::trunc_div(v * abs_int(bonus), d) <= i32::MAX
    &&& i16::MIN <= gravity(v, bonus, d) <= i16::MAX
}

proof fn lemma_trunc_div_neg(x: int, d: int)
    requires d > 0,
    ensures crate::strings::trunc_div(-x, d) == -crate::strings::trunc_div(x, d),
{
    assert(0int / d == 0) by (nonlinear_arith) requires d > 0;
}

proof fn lemma_gravity_nonneg_bonus(v: int, b: int, d: int)
    requires
        0 < d,
        -d <= v <= d,
        0 <= b <= d,
    ensures
        -b <= crate::strings::trunc_div(v * b, d) <= b,
        -d <= v + b - crate::strings::trunc_div(v * b, d) <= d,
{
    if v >= 0 {
        let p = v * b;
        let t = p / d;
        let r = p % d;
        assert(p == d * t + r && 0 <= r < d) by (nonlinear_arith) requires d > 0, t == p / d, r == p % d;
        assert(0 <= p <= d * b) by (nonlinear_arith) requires p == v * b, 0 <= v <= d, 0 <= b;
        assert(0 <= t <= b) by (nonlinear_arith) requires p == d * t + r, 0 <= r < d, 0 <= p <= d * b, d > 0;
        assert(t <= v) by (nonlinear_arith) requires p == d * t + r, 0 <= r, p == v * b, b <= d, 0 <= v, d > 0;
        assert(v + b - t <= d) by (nonlinear_arith)
            requires p == d * t + r, r < d, p == v * b, 0 <= v <= d, 0 <= b <= d, d > 0;
    } else {
        let w = -v;
        let p = w * b;
        let s = p / d;
        let r = p % d;
        assert(v * b == -p) by (nonlinear_arith) requires w == -v, p == w * b;
        assert(p == d * s + r && 0 <= r < d) by (nonlinear_arith) requires d > 0, s == p / d, r == p % d;
        assert(0 <= p <= d * b) by (nonlinear_arith) requires p == w * b, 0 < w <= d, 0 <= b;
        assert(0 <= s <= b) by (nonlinear_arith) requires p == d * s + r, 0 <= r < d, 0 <= p <= d * b, d > 0;
        assert(s <= w) by (nonlinear_arith) requires p == d * s + r, 0 <= r, p == w * b, b <= d, 0 < w, d > 0;
        lemma_trunc_div_neg(p, d);
        assert(crate::strings::trunc_div(p, d) == s);
    }
}

/// A history entry that starts within `[-d, d]` stays there under every update whose bonus
/// lies in `[-d, d]` and whose step fits in an `i16` (`2|bonus| <= i16::MAX`), and such an
/// update overflows nothing.
pub proof fn lemma_gravity_bounded(v: int, bonus: int, d: int)
    requires
        0 < d <= i16::MAX,
        -d <= v <= d,
        -d <= bonus <= d,
        2 * abs_int(bonus) <= i16::MAX,
    ensures
        gravity_defined(v, bonus, d),
        -d <= gravity(v, bonus, d) <= d,
{
    let a = abs_int(bonus);
    let p = v * a;
    assert(-(d * d) <= p <= d * d) by (nonlinear_arith) requires p == v * a, -d <= v <= d, 0 <= a <= d;
    assert(d * d <= 32767 * 32767) by (nonlinear_arith) requires 0 < d <= 32767;
    let t = crate::strings::trunc_div(p, d);
    if bonus >= 0 {
        lemma_gravity_nonneg_bonus(v, a, d);
        assert(bonus - t == ((bonus - t) as i16));
    } else {
        lemma_gravity_nonneg_bonus(-v, a, d);
        assert((-v) * a == -p) by (nonlinear_arith) requires p == v * a;
        lemma_trunc_div_neg(p, d);
        assert(bonus - t == ((bonus - t) as i16));
    }
}

/// One update of a history entry: `v + (bonus - v * |bonus| / d)`.
fn gravity_update(val: i16, bonus: i32, d: i32) -> (r: i16)
    requires
        d > 0,
        gravity_defined(val as int, bonus as int, d as int),
    ensures
        r == gravity(val as int, bonus as int, d as int),
{
    let a: i64 = if bonus < 0 { -(bonus as i64) } else { bonus as i64 };
    let p: i64 = (val as i64) * a;
    let t: i64 = if p >= 0 { p / (d as i64) } else { -((-p) / (d as i64)) };
    let diff: i64 = (bonus as i64) - t;
    let step: i16 = diff as i16;
    val + step
}

/// The index that a move takes in the tables keyed by moves: its low 16 bits.
pub open spec fn move_key(m: Move) -> int {
    (m.0 as u16) as int
}

/// The number of keys of a table keyed by moves.
pub const MOVE_KEYS: usize = 0xffff;

fn move_key_of(m: Move) -> (r: usize)
    ensures r == move_key(m),
{
    (m.0 as u16) as usize
}

/// Fills every entry of a table with `val`.
fn fill_i16(v: &mut Vec<i16>, val: i16)
    ensures
        final(v)@.len() == old(v)@.len(),
        forall|i: int| 0 <= i < old(v)@.len() ==> #[trigger] final(v)@[i] == val,
{
    let n = v.len();
    let mut i: usize = 0;
    while i < n
        invariant
            i <= n,
            n == v@.len(),
            n == old(v)@.len(),
            forall|j: int| 0 <= j < i ==> #[trigger] v@[j] == val,
        decreases n - i,
    {
        v.set(i, val);
        i += 1;
    }
}

/// The history of quiet moves by side and move: `2 * 0xffff` entries.
pub struct ButterflyHistory {
    v: Vec<i16>,
}

impl ButterflyHistory {
    /// The scale of the updates.
    pub const SCALE: i32 = 13365;

    pub closed spec fn wf(self) -> bool {
        self.v@.len() == 2 * 0xffff
    }

    /// The entry of side `c` for the move key `k`.
    pub closed spec fn entry(self, c: Color, k: int) -> i16 {
        self.v@[c.val() * 0xffff + k]
    }

    pub fn new() -> (r: ButterflyHistory)
        ensures
            r.wf(),
            forall|c: Color, k: int| 0 <= k < 0xffff ==> #[trigger] r.entry(c, k) == 0,
    {
        let v: Vec<i16> = vec![0i16; 2 * MOVE_KEYS];
        let r = ButterflyHistory { v };
        assert forall|c: Color, k: int| 0 <= k < 0xffff implies #[trigger] r.entry(c, k) == 0 by {
            broadcast use Color::lemma_val_range;
        }
        r
    }

    pub fn get(&self, c: Color, m: Move) -> (r: i32)
        requires
            self.wf(),
            move_key(m) < 0xffff,
        ensures
            r == self.entry(c, move_key(m)),
    {
        let i = c.to_i32() as usize * MOVE_KEYS + move_key_of(m);
        self.v[i] as i32
    }

    /// Moves the entry of `(c, m)` by `bonus` (see `gravity`).
    pub fn update(&mut self, c: Color, m: Move, bonus: i32)
        requires
            old(self).wf(),
            move_key(m) < 0xffff,
            gravity_defined(old(self).entry(c, move_key(m)) as int, bonus as int, Self::SCALE as int),
        ensures
            final(self).wf(),
            forall|c2: Color, k: int| 0 <= k < 0xffff ==> #[trigger] final(self).entry(c2, k)
                == if c2 == c && k == move_key(m) {
                    gravity(old(self).entry(c, move_key(m)) as int, bonus as int, Self::SCALE as int) as i16
                } else {
                    old(self).entry(c2, k)
                },
    {
        let i = c.to_i32() as usize * MOVE_KEYS + move_key_of(m);
        let val = gravity_update(self.v[i], bonus, Self::SCALE);
        self.v.set(i, val);
        proof {
            broadcast use Color::lemma_val_range;
            assert forall|c2: Color, k: int| 0 <= k < 0xffff implies #[trigger] self.entry(c2, k)
                == if c2 == c && k == move_key(m) {
                    gravity(old(self).entry(c, move_key(m)) as int, bonus as int, Self::SCALE as int) as i16
                } else {
                    old(self).entry(c2, k)
                } by {
                if c2.val() == c.val() && k != move_key(m) {
                    assert(c2 == c) by { Color::lemma_from_val(c); Color::lemma_from_val(c2); }
                }
            }
        }
    }

    pub fn fill(&mut self, val: i16)
        requires
            old(self).wf(),
        ensures
            final(self).wf(),
            forall|c: Color, k: int| 0 <= k < 0xffff ==> #[trigger] final(self).entry(c, k) == val,
    {
        fill_i16(&mut self.v, val);
        proof {
            broadcast use Color::lemma_val_range;
        }
    }
}

/// The history of quiet moves at the first plies of a search, by ply and move.
pub struct LowPlyHistory {
    v: Vec<i16>,
}

impl LowPlyHistory {
    pub const MAX_LPH: usize = 4;
    /// The scale of the updates.
    pub const SCALE: i32 = 10692;

    pub closed spec fn wf(self) -> bool {
        self.v@.len() == 4 * 0xffff
    }

    /// The entry of ply `ply` for the move key `k`.
    pub closed spec fn entry(self, ply: int, k: int) -> i16 {
        self.v@[ply * 0xffff + k]
    }

    pub fn new() -> (r: Self)
        ensures
            r.wf(),
            forall|p: int, k: int| 0 <= p < 4 && 0 <= k < 0xffff ==> #[trigger] r.entry(p, k) == 0,
    {
        let v: Vec<i16> = vec![0i16; Self::MAX_LPH * MOVE_KEYS];
        LowPlyHistory { v }
    }

    pub fn get(&self, ply: i32, m: Move) -> (r: i32)
        requires
            self.wf(),
            0 <= ply < 4,
            move_key(m) < 0xffff,
        ensures
            r == self.entry(ply as int, move_key(m)),
    {
        let i = ply as usize * MOVE_KEYS + move_key_of(m);
        self.v[i] as i32
    }

    /// Moves the entry of `(ply, m)` by `bonus` (see `gravity`).
    pub fn update(&mut self, ply: i32, m: Move, bonus: i32)
        requires
            old(self).wf(),
            0 <= ply < 4,
            move_key(m) < 0xffff,
            gravity_defined(old(self).entry(ply as int, move_key(m)) as int, bonus as int, Self::SCALE as int),
        ensures
            final(self).wf(),
            forall|p: int, k: int| 0 <= p < 4 && 0 <= k < 0xffff ==> #[trigger] final(self).entry(p, k)
                == if p == ply && k == move_key(m) {
                    gravity(old(self).entry(ply as int, move_key(m)) as int, bonus as int, Self::SCALE as int) as i16
                } else {
                    old(self).entry(p, k)
                },
    {
        let i = ply as usize * MOVE_KEYS + move_key_of(m);
        let val = gravity_update(self.v[i], bonus, Self::SCALE);
        self.v.set(i, val);
    }

    pub fn fill(&mut self, val: i16)
        requires
            old(self).wf(),
        ensures
            final(self).wf(),
            forall|p: int, k: int| 0 <= p < 4 && 0 <= k < 0xffff ==> #[trigger] final(self).entry(p, k) == val,
    {
        fill_i16(&mut self.v, val);
    }

    /// Shifts the table two plies down for the next search from a position two plies on:
    /// plies 2 and 3 become plies 0 and 1, and plies 2 and 3 are cleared.
    pub fn keep_data_from_previous_search(&mut self)
        requires
            old(self).wf(),
        ensures
            final(self).wf(),
            forall|p: int, k: int| 0 <= p < 4 && 0 <= k < 0xffff ==> #[trigger] final(self).entry(p, k)
                == if p < 2 { old(self).entry(p + 2, k) } else { 0i16 },
    {
        let n = Self::MAX_LPH * MOVE_KEYS;
        let half = 2 * MOVE_KEYS;
        let mut i: usize = 0;
        while i < half
            invariant
                i <= half,
                half == 2 * 0xffff,
                self.v@.len() == 4 * 0xffff,
                forall|j: int| 0 <= j < i ==> #[trigger] self.v@[j] == old(self).v@[j + half],
                forall|j: int| half <= j < 4 * 0xffff ==> #[trigger] self.v@[j] == old(self).v@[j],
            decreases half - i,
        {
            let x = self.v[i + half];
            self.v.set(i, x);
            i += 1;
        }
        while i < n
            invariant
                half <= i <= n,
                half == 2 * 0xffff,
                n == 4 * 0xffff,
                self.v@.len() == 4 * 0xffff,
                forall|j: int| 0 <= j < half ==> #[trigger] self.v@[j] == old(self).v@[j + half],
                forall|j: int| half <= j < i ==> #[trigger] self.v@[j] == 0i16,
            decreases n - i,
        {
            self.v.set(i, 0);
            i += 1;
        }
        proof {
            assert forall|p: int, k: int| 0 <= p < 4 && 0 <= k < 0xffff implies #[trigger] self.entry(p, k)
                == if p < 2 { old(self).entry(p + 2, k) } else { 0i16 } by {
                if p < 2 {
                    assert(self.v@[p * 0xffff + k] == old(self).v@[p * 0xffff + k + half]);
                } else {
                    assert(self.v@[p * 0xffff + k] == 0i16);
                }
            }
        }
    }
}

/// The move that last answered a move, by destination and moved piece.
pub struct CounterMoveHistory {
    v: Vec<Option<Move>>,
}

impl CounterMoveHistory {
    pub closed spec fn wf(self) -> bool {
        self.v@.len() == 81 * 31
    }

    /// The entry for destination `to` and piece `pc`.
    pub closed spec fn entry(self, to: Square, pc: Piece) -> Option<Move> {
        self.v@[to.val() * 31 + pc.val()]
    }

    pub fn new() -> (r: CounterMoveHistory)
        ensures
            r.wf(),
            forall|to: Square, pc: Piece| #[trigger] r.entry(to, pc) == None::<Move>,
    {
        let v: Vec<Option<Move>> = vec![None; Square::NUM * Piece::NUM];
        let r = CounterMoveHistory { v };
        assert forall|to: Square, pc: Piece| #[trigger] r.entry(to, pc) == None::<Move> by {
            broadcast use Square::lemma_val_range, Piece::lemma_val_range;
        }
        r
    }

    pub fn get(&self, to: Square, pc: Piece) -> (r: Option<Move>)
        requires
            self.wf(),
        ensures
            r == self.entry(to, pc),
    {
        proof { broadcast use Square::lemma_val_range, Piece::lemma_val_range; }
        self.v[to.to_i32() as usize * Piece::NUM + pc.to_i32() as usize]
    }

    pub fn set(&mut self, to: Square, pc: Piece, m: Move)
        requires
            old(self).wf(),
        ensures
            final(self).wf(),
            forall|to2: Square, pc2: Piece| #[trigger] final(self).entry(to2, pc2)
                == if to2 == to && pc2 == pc { Some(m) } else { old(self).entry(to2, pc2) },
    {
        proof { broadcast use Square::lemma_val_range, Piece::lemma_val_range; }
        self.v.set(to.to_i32() as usize * Piece::NUM + pc.to_i32() as usize, Some(m));
        proof {
            assert forall|to2: Square, pc2: Piece| #[trigger] self.entry(to2, pc2)
                == if to2 == to && pc2 == pc { Some(m) } else { old(self).entry(to2, pc2) } by {
                Square::lemma_from_val(to);
                Square::lemma_from_val(to2);
                Piece::lemma_from_val(pc);
                Piece::lemma_from_val(pc2);
            }
        }
    }

    pub fn fill(&mut self, m: Option<Move>)
        requires
            old(self).wf(),
        ensures
            final(self).wf(),
            forall|to: Square, pc: Piece| #[trigger] final(self).entry(to, pc) == m,
    {
        let n = self.v.len();
        let mut i: usize = 0;
        while i < n
            invariant
                i <= n,
                n == self.v@.len(),
                n == 81 * 31,
                forall|j: int| 0 <= j < i ==> #[trigger] self.v@[j] == m,
            decreases n - i,
        {
            self.v.set(i, m);
            i += 1;
        }
        proof { broadcast use Square::lemma_val_range, Piece::lemma_val_range; }
    }
}

/// The history of captures, by moving piece, destination and captured piece type.
pub struct CapturePieceToHistory {
    v: Vec<i16>,
}

impl CapturePieceToHistory {
    /// The scale of the updates.
    pub const SCALE: i32 = 10692;

    pub closed spec fn wf(self) -> bool {
        self.v@.len() == 31 * 81 * 15
    }

    /// The entry for moving piece `pc`, destination `to` and captured type `captured`.
    pub closed spec fn entry(self, pc: Piece, to: Square, captured: PieceType) -> i16 {
        self.v@[(pc.val() * 81 + to.val()) * 15 + captured.val()]
    }

    pub fn new() -> (r: CapturePieceToHistory)
        ensures
            r.wf(),
            forall|pc: Piece, to: Square, pt: PieceType| #[trigger] r.entry(pc, to, pt) == 0,
    {
        let v: Vec<i16> = vec![0i16; Piece::NUM * Square::NUM * PieceType::NUM];
        let r = CapturePieceToHistory { v };
        assert forall|pc: Piece, to: Square, pt: PieceType| #[trigger] r.entry(pc, to, pt) == 0 by {
            broadcast use Square::lemma_val_range, Piece::lemma_val_range, PieceType::lemma_val_range;
        }
        r
    }

    pub fn get(&self, pc: Piece, to: Square, captured: PieceType) -> (r: i32)
        requires
            self.wf(),
        ensures
            r == self.entry(pc, to, captured),
    {
        proof { broadcast use Square::lemma_val_range, Piece::lemma_val_range, PieceType::lemma_val_range; }
        let i = (pc.to_i32() as usize * Square::NUM + to.to_i32() as usize) * PieceType::NUM + captured.to_i32() as usize;
        self.v[i] as i32
    }

    /// Moves the entry of `(pc, to, captured)` by `bonus` (see `gravity`).
    pub fn update(&mut self, pc: Piece, to: Square, captured: PieceType, bonus: i32)
        requires
            old(self).wf(),
            gravity_defined(old(self).entry(pc, to, captured) as int, bonus as int, Self::SCALE as int),
        ensures
            final(self).wf(),
            forall|pc2: Piece, to2: Square, pt2: PieceType| #[trigger] final(self).entry(pc2, to2, pt2)
                == if pc2 == pc && to2 == to && pt2 == captured {
                    gravity(old(self).entry(pc, to, captured) as int, bonus as int, Self::SCALE as int) as i16
                } else {
                    old(self).entry(pc2, to2, pt2)
                },
    {
        proof { broadcast use Square::lemma_val_range, Piece::lemma_val_range, PieceType::lemma_val_range; }
        let i = (pc.to_i32() as usize * Square::NUM + to.to_i32() as usize) * PieceType::NUM + captured.to_i32() as usize;
        let val = gravity_update(self.v[i], bonus, Self::SCALE);
        self.v.set(i, val);
        proof {
            assert forall|pc2: Piece, to2: Square, pt2: PieceType| #[trigger] self.entry(pc2, to2, pt2)
                == if pc2 == pc && to2 == to && pt2 == captured {
                    gravity(old(self).entry(pc, to, captured) as int, bonus as int, Self::SCALE as int) as i16
                } else {
                    old(self).entry(pc2, to2, pt2)
                } by {
                Square::lemma_from_val(to);
                Square::lemma_from_val(to2);
                Piece::lemma_from_val(pc);
                Piece::lemma_from_val(pc2);
                PieceType::lemma_from_val(captured);
                PieceType::lemma_from_val(pt2);
            }
        }
    }

    pub fn fill(&mut self, val: i16)
        requires
            old(self).wf(),
        ensures
            final(self).wf(),
            forall|pc: Piece, to: Square, pt: PieceType| #[trigger] final(self).entry(pc, to, pt) == val,
    {
        fill_i16(&mut self.v, val);
        proof { broadcast use Square::lemma_val_range, Piece::lemma_val_range, PieceType::lemma_val_range; }
    }
}

/// The history of a move following a given earlier move, by destination and moved piece.
#[derive(Clone)]
pub struct PieceToHistory {
    v: Vec<i16>,
}

impl PieceToHistory {
    /// The scale of the updates.
    pub const SCALE: i32 = 29952;

    pub closed spec fn wf(self) -> bool {
        self.v@.len() == 81 * 31
    }

    /// The entry for destination `to` and piece `pc`.
    pub closed spec fn entry(self, to: Square, pc: Piece) -> i16 {
        self.v@[to.val() * 31 + pc.val()]
    }

    pub fn new() -> (r: PieceToHistory)
        ensures
            r.wf(),
            forall|to: Square, pc: Piece| #[trigger] r.entry(to, pc) == 0,
    {
        let v: Vec<i16> = vec![0i16; Square::NUM * Piece::NUM];
        let r = PieceToHistory { v };
        assert forall|to: Square, pc: Piece| #[trigger] r.entry(to, pc) == 0 by {
            broadcast use Square::lemma_val_range, Piece::lemma_val_range;
        }
        r
    }

    pub fn get(&self, to: Square, pc: Piece) -> (r: i32)
        requires
            self.wf(),
        ensures
            r == self.entry(to, pc),
    {
        proof { broadcast use Square::lemma_val_range, Piece::lemma_val_range; }
        self.v[to.to_i32() as usize * Piece::NUM + pc.to_i32() as usize] as i32
    }

    /// Moves the entry of `(to, pc)` by `bonus` (see `gravity`).
    pub fn update(&mut self, to: Square, pc: Piece, bonus: i32)
        requires
            old(self).wf(),
            gravity_defined(old(self).entry(to, pc) as int, bonus as int, Self::SCALE as int),
        ensures
            final(self).wf(),
            forall|to2: Square, pc2: Piece| #[trigger] final(self).entry(to2, pc2)
                == if to2 == to && pc2 == pc {
                    gravity(old(self).entry(to, pc) as int, bonus as int, Self::SCALE as int) as i16
                } else {
                    old(self).entry(to2, pc2)
                },
    {
        proof { broadcast use Square::lemma_val_range, Piece::lemma_val_range; }
        let i = to.to_i32() as usize * Piece::NUM + pc.to_i32() as usize;
        let val = gravity_update(self.v[i], bonus, Self::SCALE);
        self.v.set(i, val);
        proof {
            assert forall|to2: Square, pc2: Piece| #[trigger] self.entry(to2, pc2)
                == if to2 == to && pc2 == pc {
                    gravity(old(self).entry(to, pc) as int, bonus as int, Self::SCALE as int) as i16
                } else {
                    old(self).entry(to2, pc2)
                } by {
                Square::lemma_from_val(to);
                Square::lemma_from_val(to2);
                Piece::lemma_from_val(pc);
                Piece::lemma_from_val(pc2);
            }
        }
    }

    pub fn fill(&mut self, val: i16)
        requires
            old(self).wf(),
        ensures
            final(self).wf(),
            forall|to: Square, pc: Piece| #[trigger] final(self).entry(to, pc) == val,
    {
        fill_i16(&mut self.v, val);
        proof { broadcast use Square::lemma_val_range, Piece::lemma_val_range; }
    }
}

/// The continuation histories: one `PieceToHistory` for each earlier move, by its moved
/// piece and destination.
pub struct ContinuationHistory {
    v: Vec<PieceToHistory>,
}

/// The index of the table of `(pc, to)`.
pub open spec fn continuation_index(pc: Piece, to: Square) -> int {
    pc.val() * 81 + to.val()
}

impl ContinuationHistory {
    pub closed spec fn wf(self) -> bool {
        &&& self.v@.len() == 31 * 81
        &&& forall|i: int| 0 <= i < 31 * 81 ==> (#[trigger] self.v@[i]).wf()
    }

    /// The tables, indexed by `continuation_index`.
    pub closed spec fn tables(self) -> Seq<PieceToHistory> {
        self.v@
    }

    pub proof fn lemma_tables_len(self)
        requires self.wf(),
        ensures
            self.tables().len() == 31 * 81,
            forall|pc: Piece, to: Square| (#[trigger] self.tables()[continuation_index(pc, to)]).wf(),
    {
        broadcast use Square::lemma_val_range, Piece::lemma_val_range;
    }

    pub fn new() -> (r: Self)
        ensures
            r.wf(),
            forall|i: int, to: Square, pc: Piece| 0 <= i < 31 * 81 ==> #[trigger] r.tables()[i].entry(to, pc) == 0,
    {
        let n = Piece::NUM * Square::NUM;
        let mut v: Vec<PieceToHistory> = Vec::new();
        let mut i: usize = 0;
        while i < n
            invariant
                i <= n,
                n == 31 * 81,
                v@.len() == i,
                forall|j: int| 0 <= j < i ==> (#[trigger] v@[j]).wf(),
                forall|j: int, to: Square, pc: Piece| 0 <= j < i ==> #[trigger] v@[j].entry(to, pc) == 0,
            decreases n - i,
        {
            v.push(PieceToHistory::new());
            i += 1;
        }
        ContinuationHistory { v }
    }

    pub fn get(&self, pc: Piece, to: Square) -> (r: &PieceToHistory)
        requires
            self.wf(),
        ensures
            *r == self.tables()[continuation_index(pc, to)],
            r.wf(),
    {
        proof { broadcast use Square::lemma_val_range, Piece::lemma_val_range; }
        &self.v[pc.to_i32() as usize * Square::NUM + to.to_i32() as usize]
    }

    pub fn get_mut(&mut self, pc: Piece, to: Square) -> (r: &mut PieceToHistory)
        requires
            old(self).wf(),
        ensures
            *r == old(self).tables()[continuation_index(pc, to)],
            r.wf(),
            final(self).tables() == old(self).tables().update(continuation_index(pc, to), *final(r)),
            final(r).wf() ==> final(self).wf(),
    {
        proof { broadcast use Square::lemma_val_range, Piece::lemma_val_range; }
        let i = pc.to_i32() as usize * Square::NUM + to.to_i32() as usize;
        &mut self.v[i]
    }

    pub fn fill(&mut self, val: i16)
        requires
            old(self).wf(),
        ensures
            final(self).wf(),
            forall|i: int, to: Square, pc: Piece| 0 <= i < 31 * 81 ==> #[trigger] final(self).tables()[i].entry(to, pc) == val,
    {
        let n = self.v.len();
        let mut i: usize = 0;
        while i < n
            invariant
                i <= n,
                n == 31 * 81,
                self.wf(),
                forall|j: int, to: Square, pc: Piece| 0 <= j < i ==> #[trigger] self.v@[j].entry(to, pc) == val,
            decreases n - i,
        {
            self.v[i].fill(val);
            i += 1;
        }
    }

    /// The table of the empty piece on square 11, which stands for "no earlier move".
    pub fn sentinel(&mut self) -> (r: &mut PieceToHistory)
        requires
            old(self).wf(),
        ensures
            *r == old(self).tables()[continuation_index(Piece::EMPTY, Square::SQ11)],
            r.wf(),
            final(self).tables() == old(self).tables().update(continuation_index(Piece::EMPTY, Square::SQ11), *final(r)),
            final(r).wf() ==> final(self).wf(),
    {
        self.get_mut(Piece::EMPTY, Square::SQ11)
    }
}

/// The scores of `s[lo..hi]` do not increase.
pub open spec fn sorted_desc(s: Seq<ExtMove>, lo: int, hi: int) -> bool {
    forall|i: int, j: int| lo <= i < j < hi ==> s[i].score >= s[j].score
}

/// `s` with its entries at `i` and `j` exchanged.
pub open spec fn swapped(s: Seq<ExtMove>, i: int, j: int) -> Seq<ExtMove> {
    s.update(i, s[j]).update(j, s[i])
}

proof fn lemma_swap_multiset(s: Seq<ExtMove>, i: int, j: int)
    requires
        0 <= i < s.len(),
        0 <= j < s.len(),
    ensures
        swapped(s, i, j).to_multiset() == s.to_multiset(),
{
    broadcast use vstd::seq_lib::group_to_multiset_ensures, vstd::multiset::group_multiset_axioms;
    let t = s.update(i, s[j]);
    assert(t.to_multiset() == s.to_multiset().insert(s[j]).remove(s[i]));
    assert(t.update(j, s[i]).to_multiset() == t.to_multiset().insert(s[i]).remove(t[j]));
    assert(t.update(j, s[i]).to_multiset() =~= s.to_multiset());
}

/// The moves that `partial_insertion_sort` gathers at the front: the first move of `s`
/// and those among `s[1..m]` scored at least `limit`.
pub open spec fn front_moves(s: Seq<ExtMove>, limit: int, m: int) -> Multiset<ExtMove>
    decreases m,
{
    if m <= 1 {
        Multiset::empty().insert(s[0])
    } else {
        let r = front_moves(s, limit, m - 1);
        if s[m - 1].score >= limit { r.insert(s[m - 1]) } else { r }
    }
}

proof fn lemma_swap_prefix_multiset(s: Seq<ExtMove>, i: int, j: int, m: int)
    requires 0 <= i < m, 0 <= j < m, m <= s.len(),
    ensures swapped(s, i, j).subrange(0, m).to_multiset() == s.subrange(0, m).to_multiset(),
{
    assert(swapped(s, i, j).subrange(0, m) =~= swapped(s.subrange(0, m), i, j));
    lemma_swap_multiset(s.subrange(0, m), i, j);
}

proof fn lemma_prefix_push_multiset(s: Seq<ExtMove>, m: int)
    requires 0 <= m < s.len(),
    ensures s.subrange(0, m + 1).to_multiset() == s.subrange(0, m).to_multiset().insert(s[m]),
{
    broadcast use vstd::seq_lib::group_to_multiset_ensures;
    assert(s.subrange(0, m + 1) =~= s.subrange(0, m).push(s[m]));
}

/// What `partial_insertion_sort` leaves: a first part `s[0..k]` in non-increasing order of
/// score, holding the first entry `first` of the input and otherwise only entries scored at
/// least `limit`, and after it only entries scored below `limit`.
pub open spec fn partially_sorted(s: Seq<ExtMove>, first: ExtMove, limit: int, k: int) -> bool {
    &&& 1 <= k <= s.len()
    &&& sorted_desc(s, 0, k)
    &&& forall|i: int| k <= i < s.len() ==> s[i].score < limit
    &&& forall|i: int| 0 <= i < k ==> s[i].score >= limit || s[i] == first
    &&& exists|i: int| 0 <= i < k && s[i] == first
}

/// `idx` tells, for each entry of `s`, the position in `orig` that it came from; among
/// the first `k` entries, entries of equal score keep their order in `orig`.
pub open spec fn stable_front(s: Seq<ExtMove>, orig: Seq<ExtMove>, idx: Seq<int>, k: int) -> bool {
    &&& idx.len() == s.len()
    &&& forall|i: int| 0 <= i < s.len() ==> 0 <= #[trigger] idx[i] < orig.len() && s[i] == orig[idx[i]]
    &&& forall|i: int, j: int| 0 <= i < j < k && s[i].score == s[j].score ==> #[trigger] idx[i] < #[trigger] idx[j]
}

/// Sorts to the front, in non-increasing order of score, the first move and the moves
/// scored at least `limit`, equal scores in the order they came in; the others follow in
/// some order.
pub fn partial_insertion_sort(move_list: &mut [ExtMove], limit: i32)
    ensures
        final(move_list)@.len() == old(move_list)@.len(),
        final(move_list)@.to_multiset() == old(move_list)@.to_multiset(),
        old(move_list)@.len() > 0 ==> exists|k: int, idx: Seq<int>|
            #[trigger] partially_sorted(final(move_list)@, old(move_list)@[0], limit as int, k)
                && final(move_list)@.subrange(0, k).to_multiset()
                    == front_moves(old(move_list)@, limit as int, old(move_list)@.len() as int)
                && #[trigger] stable_front(final(move_list)@, old(move_list)@, idx, k),
{
    let n = move_list.len();
    if n == 0 {
        return;
    }
    let ghost orig = move_list@;
    let mut sorted_end: usize = 0;
    let ghost mut z: int = 0;
    let ghost mut idx: Seq<int> = Seq::new(n as nat, |i: int| i);
    let mut p: usize = 1;
    proof {
        lemma_prefix_push_multiset(orig, 0);
        assert(orig.subrange(0, 0).to_multiset() =~= Multiset::empty()) by {
            broadcast use vstd::seq_lib::group_to_multiset_ensures;
            assert(orig.subrange(0, 0) =~= Seq::<ExtMove>::empty());
        }
    }
    while p < n
        invariant
            1 <= p <= n,
            n == move_list@.len(),
            orig == old(move_list)@,
            sorted_end < p,
            move_list@.to_multiset() == orig.to_multiset(),
            sorted_desc(move_list@, 0, sorted_end + 1),
            forall|i: int| sorted_end < i < p ==> move_list@[i].score < limit,
            forall|i: int| 0 <= i <= sorted_end ==> move_list@[i].score >= limit || move_list@[i] == orig[0],
            0 <= z <= sorted_end,
            move_list@[z] == orig[0],
            forall|i: int| p <= i < n ==> move_list@[i] == orig[i],
            move_list@.subrange(0, sorted_end + 1).to_multiset() == front_moves(orig, limit as int, p as int),
            idx.len() == n,
            forall|i: int| 0 <= i < n ==> 0 <= #[trigger] idx[i] < n && move_list@[i] == orig[idx[i]],
            forall|i: int| p <= i < n ==> #[trigger] idx[i] == i,
            forall|i: int| 0 <= i <= sorted_end ==> #[trigger] idx[i] < p,
            forall|i: int, j: int| 0 <= i < j <= sorted_end && move_list@[i].score == move_list@[j].score
                ==> #[trigger] idx[i] < #[trigger] idx[j],
        decreases n - p,
    {
        if move_list[p].score >= limit {
            let tmp = move_list[p];
            sorted_end += 1;
            let ghost s0 = move_list@;
            let x = move_list[sorted_end];
            move_list[p] = x;
            proof {
                assert(idx[p as int] == p);
                idx = idx.update(p as int, idx[sorted_end as int]);
                lemma_swap_multiset(s0, p as int, sorted_end as int);
                assert(move_list@.update(sorted_end as int, tmp) =~= swapped(s0, p as int, sorted_end as int));
                let l = move_list@.update(sorted_end as int, tmp);
                lemma_prefix_push_multiset(l, sorted_end as int);
                assert(l.subrange(0, sorted_end as int) =~= s0.subrange(0, sorted_end as int));
                assert(tmp == orig[p as int]);
            }
            let mut q = sorted_end;
            while q != 0 && move_list[q - 1].score < tmp.score
                invariant
                    q <= sorted_end,
                    sorted_end <= p < n,
                    n == move_list@.len(),
                    orig == old(move_list)@,
                    move_list@.update(q as int, tmp).to_multiset() == orig.to_multiset(),
                    forall|i: int, j: int| 0 <= i < j <= sorted_end && i != q && j != q
                        ==> move_list@[i].score >= move_list@[j].score,
                    forall|j: int| q < j <= sorted_end ==> move_list@[j].score < tmp.score,
                    tmp.score >= limit,
                    forall|i: int| sorted_end < i <= p ==> move_list@[i].score < limit,
                    forall|i: int| 0 <= i <= sorted_end && i != q
                        ==> move_list@[i].score >= limit || move_list@[i] == orig[0],
                    0 <= z <= sorted_end,
                    z != q,
                    move_list@[z] == orig[0],
                    forall|i: int| p < i < n ==> move_list@[i] == orig[i],
                    move_list@.update(q as int, tmp).subrange(0, sorted_end + 1).to_multiset()
                        == front_moves(orig, limit as int, p as int + 1),
                    tmp == orig[p as int],
                    idx.len() == n,
                    forall|i: int| 0 <= i < n && i != q ==> 0 <= #[trigger] idx[i] < n && move_list@[i] == orig[idx[i]],
                    forall|i: int| p < i < n ==> #[trigger] idx[i] == i,
                    forall|i: int| 0 <= i <= sorted_end && i != q ==> #[trigger] idx[i] < p,
                    forall|i: int, j: int| 0 <= i < j <= sorted_end && i != q && j != q
                        && move_list@[i].score == move_list@[j].score ==> #[trigger] idx[i] < #[trigger] idx[j],
                decreases q,
            {
                let ghost l1 = move_list@.update(q as int, tmp);
                let y = move_list[q - 1];
                move_list[q] = y;
                proof {
                    idx = idx.update(q as int, idx[q - 1]);
                    if z == q - 1 {
                        z = q as int;
                    }
                    lemma_swap_multiset(l1, q - 1, q as int);
                    assert(move_list@.update(q - 1, tmp) =~= swapped(l1, q - 1, q as int));
                    lemma_swap_prefix_multiset(l1, q - 1, q as int, sorted_end + 1);
                }
                q -= 1;
            }
            move_list[q] = tmp;
            proof {
                idx = idx.update(q as int, p as int);
            }
        }
        p += 1;
    }
    proof {
        assert(partially_sorted(move_list@, orig[0], limit as int, sorted_end + 1));
        assert(move_list@.subrange(0, sorted_end + 1).to_multiset() == front_moves(orig, limit as int, n as int));
        assert(stable_front(move_list@, orig, idx, sorted_end + 1));
    }
}

/// `i` is the first index in `s[lo..]` of a highest score there.
pub open spec fn is_first_max(s: Seq<ExtMove>, lo: int, i: int) -> bool {
    &&& lo <= i < s.len()
    &&& forall|j: int| lo <= j < s.len() ==> s[j].score <= s[i].score
    &&& forall|j: int| lo <= j < i ==> s[j].score < s[i].score
}

/// Brings the first highest-scored move of `list[start..]` to `list[start]`, exchanging it
/// with what stood there, and returns it.
fn pick_best_from(list: &mut [ExtMove], start: usize) -> (r: Move)
    requires
        start < old(list)@.len(),
    ensures
        exists|i: int| #[trigger] is_first_max(old(list)@, start as int, i)
            && final(list)@ == swapped(old(list)@, start as int, i)
            && r == old(list)@[i].mv,
{
    let n = list.len();
    let mut best = start;
    let mut k = start + 1;
    while k < n
        invariant
            start <= best < k <= n,
            n == list@.len(),
            list@ == old(list)@,
            forall|j: int| start <= j < k ==> list@[j].score <= list@[best as int].score,
            forall|j: int| start <= j < best ==> list@[j].score < list@[best as int].score,
        decreases n - k,
    {
        if list[k].score > list[best].score {
            best = k;
        }
        k += 1;
    }
    let a = list[start];
    let b = list[best];
    list[start] = b;
    list[best] = a;
    proof {
        assert(is_first_max(old(list)@, start as int, best as int));
        assert(list@ =~= swapped(old(list)@, start as int, best as int));
    }
    b.mv
}

/// Brings the first highest-scored move to the front, exchanging it with the move there,
/// and returns it.
pub fn pick_best(list: &mut [ExtMove]) -> (r: Move)
    requires
        old(list)@.len() > 0,
    ensures
        exists|i: int| #[trigger] is_first_max(old(list)@, 0, i)
            && final(list)@ == swapped(old(list)@, 0, i)
            && r == old(list)@[i].mv,
{
    pick_best_from(list, 0)
}

/// The word of an optional move, `0` for none.
pub open spec fn move_or_zero(m: Option<Move>) -> Move {
    match m {
        Some(x) => x,
        None => Move(0),
    }
}

/// Whether the quiet-move stage passes over `m`: it is the move from the hash table or one
/// of the three refutations.
pub open spec fn quiet_skipped(m: Move, refutations: Seq<Option<Move>>, tt_move: Option<Move>) -> bool {
    ||| m == move_or_zero(tt_move)
    ||| m == move_or_zero(refutations[0])
    ||| m == move_or_zero(refutations[1])
    ||| m == move_or_zero(refutations[2])
}

/// The next quiet move of `list` that is neither the hash move nor a refutation, counting
/// in `current_index` each move looked at.
pub fn select_next_quiet(
    list: &[ExtMove],
    current_index: &mut usize,
    refutations: &[Option<Move>],
    tt_move: Option<Move>,
) -> (r: Option<Move>)
    requires
        refutations@.len() >= 3,
        *old(current_index) + list@.len() <= usize::MAX,
    ensures
        ({
            let c = *final(current_index) - *old(current_index);
            &&& 0 <= c <= list@.len()
            &&& match r {
                Some(m) => c >= 1 && m == list@[c - 1].mv && !quiet_skipped(m, refutations@, tt_move)
                    && forall|j: int| 0 <= j < c - 1 ==> quiet_skipped(#[trigger] list@[j].mv, refutations@, tt_move),
                None => c == list@.len()
                    && forall|j: int| 0 <= j < c ==> quiet_skipped(#[trigger] list@[j].mv, refutations@, tt_move),
            }
        }),
{
    let n = list.len();
    let tt = tt_move.non_zero_unwrap_unchecked();
    let r0 = refutations[0].non_zero_unwrap_unchecked();
    let r1 = refutations[1].non_zero_unwrap_unchecked();
    let r2 = refutations[2].non_zero_unwrap_unchecked();
    let mut i: usize = 0;
    while i < n
        invariant
            i <= n,
            n == list@.len(),
            refutations@.len() >= 3,
            tt == move_or_zero(tt_move),
            r0 == move_or_zero(refutations@[0]),
            r1 == move_or_zero(refutations@[1]),
            r2 == move_or_zero(refutations@[2]),
            *current_index == *old(current_index) + i,
            *old(current_index) + n <= usize::MAX,
            forall|j: int| 0 <= j < i ==> quiet_skipped(#[trigger] list@[j].mv, refutations@, tt_move),
        decreases n - i,
    {
        *current_index += 1;
        let m = list[i].mv;
        if m != tt && m != r0 && m != r1 && m != r2 {
            return Some(m);
        }
        i += 1;
    }
    None
}

/// The next move of `list` that is not the hash move, counting in `current_index` each
/// move looked at.
pub fn select_next_bad_capture(list: &[ExtMove], current_index: &mut usize, tt_move: Option<Move>) -> (r: Option<Move>)
    requires
        *old(current_index) + list@.len() <= usize::MAX,
    ensures
        ({
            let c = *final(current_index) - *old(current_index);
            &&& 0 <= c <= list@.len()
            &&& match r {
                Some(m) => c >= 1 && m == list@[c - 1].mv && m != move_or_zero(tt_move)
                    && forall|j: int| 0 <= j < c - 1 ==> #[trigger] list@[j].mv == move_or_zero(tt_move),
                None => c == list@.len()
                    && forall|j: int| 0 <= j < c ==> #[trigger] list@[j].mv == move_or_zero(tt_move),
            }
        }),
{
    let n = list.len();
    let tt = tt_move.non_zero_unwrap_unchecked();
    let mut i: usize = 0;
    while i < n
        invariant
            i <= n,
            n == list@.len(),
            tt == move_or_zero(tt_move),
            *current_index == *old(current_index) + i,
            *old(current_index) + n <= usize::MAX,
            forall|j: int| 0 <= j < i ==> #[trigger] list@[j].mv == move_or_zero(tt_move),
        decreases n - i,
    {
        *current_index += 1;
        let m = list[i].mv;
        if m != tt {
            return Some(m);
        }
        i += 1;
    }
    None
}

/// What a best-first selection leaves after `c` picks: the same moves, the first `c` of
/// them the highest-scored in non-increasing order, each of them at least every later one.
pub open spec fn best_first_prefix(s: Seq<ExtMove>, c: int) -> bool {
    &&& sorted_desc(s, 0, c)
    &&& forall|i: int, j: int| 0 <= i < c <= j < s.len() ==> s[i].score >= s[j].score
}

/// The contract of the best-first selectors: `c` moves were picked (counted in the index),
/// the picked moves form a best-first prefix, all of them but the last are the hash move,
/// and the result is the last one picked unless every move was the hash move.
pub open spec fn best_first_selected(
    old_list: Seq<ExtMove>,
    new_list: Seq<ExtMove>,
    c: int,
    tt_move: Option<Move>,
    r: Option<Move>,
) -> bool {
    &&& new_list.len() == old_list.len()
    &&& new_list.to_multiset() == old_list.to_multiset()
    &&& 0 <= c <= new_list.len()
    &&& best_first_prefix(new_list, c)
    &&& match r {
        Some(m) => c >= 1 && m == new_list[c - 1].mv && m != move_or_zero(tt_move)
            && forall|j: int| 0 <= j < c - 1 ==> #[trigger] new_list[j].mv == move_or_zero(tt_move),
        None => c == new_list.len()
            && forall|j: int| 0 <= j < c ==> #[trigger] new_list[j].mv == move_or_zero(tt_move),
    }
}

fn select_best_not_tt(list: &mut [ExtMove], current_index: &mut usize, tt_move: Option<Move>) -> (r: Option<Move>)
    requires
        *old(current_index) + old(list)@.len() <= usize::MAX,
    ensures
        best_first_selected(old(list)@, final(list)@, *final(current_index) - *old(current_index), tt_move, r),
{
    let n = list.len();
    let tt = tt_move.non_zero_unwrap_unchecked();
    let mut i: usize = 0;
    while i < n
        invariant
            i <= n,
            n == list@.len(),
            n == old(list)@.len(),
            tt == move_or_zero(tt_move),
            *current_index == *old(current_index) + i,
            *old(current_index) + n <= usize::MAX,
            list@.to_multiset() == old(list)@.to_multiset(),
            best_first_prefix(list@, i as int),
            forall|j: int| 0 <= j < i ==> #[trigger] list@[j].mv == move_or_zero(tt_move),
        decreases n - i,
    {
        let ghost before = list@;
        let m = pick_best_from(list, i);
        proof {
            let k = choose|k: int| #[trigger] is_first_max(before, i as int, k)
                && list@ == swapped(before, i as int, k) && m == before[k].mv;
            lemma_swap_multiset(before, i as int, k);
            assert forall|a: int, b: int| 0 <= a < i + 1 <= b < list@.len()
                implies list@[a].score >= list@[b].score by {
                if a < i {
                    if b == k {
                        assert(list@[b] == before[i as int]);
                    }
                }
            }
            assert(list@[i as int].mv == m);
            assert forall|j: int| 0 <= j < i implies #[trigger] list@[j].mv == move_or_zero(tt_move) by {
                assert(list@[j] == before[j]);
            }
            assert(sorted_desc(list@, 0, i + 1)) by {
                assert forall|a: int, b: int| 0 <= a < b < i + 1 implies list@[a].score >= list@[b].score by {
                    if b == i {
                        assert(list@[b] == before[k]);
                    }
                }
            }
        }
        *current_index += 1;
        if m != tt {
            return Some(m);
        }
        i += 1;
    }
    None
}

/// The best-scored remaining evasion that is not the hash move, picking moves to the front
/// one by one and counting them in `current_index`.
pub fn select_best_evasion(list: &mut [ExtMove], current_index: &mut usize, tt_move: Option<Move>) -> (r: Option<Move>)
    requires
        *old(current_index) + old(list)@.len() <= usize::MAX,
    ensures
        best_first_selected(old(list)@, final(list)@, *final(current_index) - *old(current_index), tt_move, r),
{
    select_best_not_tt(list, current_index, tt_move)
}

/// The best-scored remaining capture of the quiescence search that is not the hash move,
/// picking moves to the front one by one and counting them in `current_index`.
pub fn select_best_qcapture(list: &mut [ExtMove], current_index: &mut usize, tt_move: Option<Move>) -> (r: Option<Move>)
    requires
        *old(current_index) + old(list)@.len() <= usize::MAX,
    ensures
        best_first_selected(old(list)@, final(list)@, *final(current_index) - *old(current_index), tt_move, r),
{
    select_best_not_tt(list, current_index, tt_move)
}

/// The best-scored remaining recapture that is not the hash move, picking moves to the
/// front one by one and counting them in `current_index`.
pub fn select_best_qrecapture(list: &mut [ExtMove], current_index: &mut usize, tt_move: Option<Move>) -> (r: Option<Move>)
    requires
        *old(current_index) + old(list)@.len() <= usize::MAX,
    ensures
        best_first_selected(old(list)@, final(list)@, *final(current_index) - *old(current_index), tt_move, r),
{
    select_best_not_tt(list, current_index, tt_move)
}

/// Move `m` names squares and a dropped kind in range, as the static exchange evaluation
/// needs.
pub open spec fn see_move_ok(m: Move) -> bool {
    &&& m.to_field() < 81
    &&& m.spec_is_drop() ==> m.dropped_type_field() < 15
    &&& !m.spec_is_drop() ==> m.from_field() < 81
}

/// Whether the probcut stage takes move `m`: it is not the hash move and it wins at least
/// `threshold` in the exchange it starts.
pub open spec fn probcut_accepts(pos: PositionBase, t: AttackTable, tt_move: Option<Move>, threshold: int, m: Move) -> bool {
    &&& m != move_or_zero(tt_move)
    &&& see_ge_spec(pos.see_context(t, m.to_field() as int), pos.occupancy(), pos.spec_side_to_move().val(), m, threshold)
}

/// The best-scored remaining capture that is not the hash move and wins at least
/// `threshold` in its exchange, picking moves to the front one by one and counting them in
/// `current_index`; moves picked and refused stay where they were picked.
pub fn select_best_probcut(
    list: &mut [ExtMove],
    current_index: &mut usize,
    tt_move: Option<Move>,
    pos: &PositionBase,
    threshold: Value,
    t: &AttackTable,
    between: &BetweenTable,
) -> (r: Option<Move>)
    requires
        *old(current_index) + old(list)@.len() <= usize::MAX,
        pos.wf(), t.valid(), between.valid(),
        -0x4000_0000 <= threshold.0 <= 0x4000_0000,
        forall|j: int| 0 <= j < old(list)@.len() ==> see_move_ok(#[trigger] old(list)@[j].mv),
    ensures ({
        let c = *final(current_index) - *old(current_index);
        &&& final(list)@.len() == old(list)@.len()
        &&& final(list)@.to_multiset() == old(list)@.to_multiset()
        &&& 0 <= c <= final(list)@.len()
        &&& best_first_prefix(final(list)@, c)
        &&& match r {
            Some(m) => c >= 1 && m == final(list)@[c - 1].mv && probcut_accepts(*pos, *t, tt_move, threshold.0 as int, m)
                && forall|j: int| 0 <= j < c - 1 ==> !probcut_accepts(*pos, *t, tt_move, threshold.0 as int, #[trigger] final(list)@[j].mv),
            None => c == final(list)@.len()
                && forall|j: int| 0 <= j < c ==> !probcut_accepts(*pos, *t, tt_move, threshold.0 as int, #[trigger] final(list)@[j].mv),
        }
    }),
{
    let n = list.len();
    let tt = tt_move.non_zero_unwrap_unchecked();
    let mut i: usize = 0;
    while i < n
        invariant
            i <= n,
            n == list@.len(),
            n == old(list)@.len(),
            tt == move_or_zero(tt_move),
            *current_index == *old(current_index) + i,
            *old(current_index) + n <= usize::MAX,
            pos.wf(), t.valid(), between.valid(),
            -0x4000_0000 <= threshold.0 <= 0x4000_0000,
            list@.to_multiset() == old(list)@.to_multiset(),
            best_first_prefix(list@, i as int),
            forall|j: int| 0 <= j < n ==> see_move_ok(#[trigger] list@[j].mv),
            forall|j: int| 0 <= j < i ==> !probcut_accepts(*pos, *t, tt_move, threshold.0 as int, #[trigger] list@[j].mv),
        decreases n - i,
    {
        let ghost before = list@;
        let m = pick_best_from(list, i);
        proof {
            let k = choose|k: int| #[trigger] is_first_max(before, i as int, k)
                && list@ == swapped(before, i as int, k) && m == before[k].mv;
            lemma_swap_multiset(before, i as int, k);
            assert forall|a: int, b: int| 0 <= a < i + 1 <= b < list@.len()
                implies list@[a].score >= list@[b].score by {
                if a < i {
                    if b == k {
                        assert(list@[b] == before[i as int]);
                    }
                }
            }
            assert(list@[i as int].mv == m);
            assert forall|j: int| 0 <= j < i implies
                !probcut_accepts(*pos, *t, tt_move, threshold.0 as int, #[trigger] list@[j].mv) by {
                assert(list@[j] == before[j]);
            }
            assert forall|j: int| 0 <= j < n implies see_move_ok(#[trigger] list@[j].mv) by {
                if j == i as int {
                    assert(list@[j] == before[k]);
                } else if j == k {
                    assert(list@[j] == before[i as int]);
                } else {
                    assert(list@[j] == before[j]);
                }
            }
            assert(sorted_desc(list@, 0, i + 1)) by {
                assert forall|a: int, b: int| 0 <= a < b < i + 1 implies list@[a].score >= list@[b].score by {
                    if b == i {
                        assert(list@[b] == before[k]);
                    }
                }
            }
            assert(see_move_ok(list@[i as int].mv));
            assert(0 <= capture_material(pos.board_seq()[m.to_field() as int].val() % 16) <= 3000);
        }
        *current_index += 1;
        if m != tt && pos.see_ge(m, threshold, t, between) {
            return Some(m);
        }
        i += 1;
    }
    None
}

/// `i` is the first index in `s[lo..hi]` of a highest score there.
pub open spec fn is_first_max_in(s: Seq<ExtMove>, lo: int, hi: int, i: int) -> bool {
    &&& lo <= i < hi
    &&& forall|j: int| lo <= j < hi ==> s[j].score <= s[i].score
    &&& forall|j: int| lo <= j < i ==> s[j].score < s[i].score
}

/// Brings the first highest-scored move of `list[start..end]` to `list[start]`,
/// exchanging it with what stood there, and returns it.
fn pick_best_in(list: &mut [ExtMove], start: usize, end: usize) -> (r: Move)
    requires
        start < end <= old(list)@.len(),
    ensures
        exists|i: int| #[trigger] is_first_max_in(old(list)@, start as int, end as int, i)
            && final(list)@ == swapped(old(list)@, start as int, i)
            && r == old(list)@[i].mv,
{
    let mut best = start;
    let mut k = start + 1;
    while k < end
        invariant
            start <= best < k <= end, end <= list@.len(),
            list@ == old(list)@,
            forall|j: int| start <= j < k ==> list@[j].score <= list@[best as int].score,
            forall|j: int| start <= j < best ==> list@[j].score < list@[best as int].score,
        decreases end - k,
    {
        if list[k].score > list[best].score {
            best = k;
        }
        k += 1;
    }
    let a = list[start];
    let b = list[best];
    list[start] = b;
    list[best] = a;
    proof {
        assert(is_first_max_in(old(list)@, start as int, end as int, best as int));
        assert(list@ =~= swapped(old(list)@, start as int, best as int));
    }
    b.mv
}

/// Whether the good-capture stage takes entry `e`: not the hash move, and winning at least
/// a small loss proportional to its score (-69/1024 of it, rounded toward zero) in its exchange.
pub open spec fn good_capture_accepts(pos: PositionBase, t: AttackTable, tt_move: Option<Move>, e: ExtMove) -> bool {
    &&& e.mv != move_or_zero(tt_move)
    &&& see_ge_spec(pos.see_context(t, e.mv.to_field() as int), pos.occupancy(), pos.spec_side_to_move().val(), e.mv,
            trunc_div(-69 * e.score, 1024))
}

/// The moves among `s[lo..m]` that the good-capture stage refuses for their exchange (the
/// hash move is skipped, not refused), in order.
pub open spec fn refused_captures(pos: PositionBase, t: AttackTable, tt_move: Option<Move>, s: Seq<ExtMove>, lo: int, m: int) -> Seq<Move>
    decreases m - lo,
{
    if m <= lo {
        Seq::empty()
    } else {
        let rest = refused_captures(pos, t, tt_move, s, lo, m - 1);
        let e = s[m - 1];
        if e.mv != move_or_zero(tt_move) && !good_capture_accepts(pos, t, tt_move, e) { rest.push(e.mv) } else { rest }
    }
}

proof fn lemma_refused_agree(pos: PositionBase, t: AttackTable, tt_move: Option<Move>, s1: Seq<ExtMove>, s2: Seq<ExtMove>, lo: int, m: int)
    requires forall|j: int| lo <= j < m ==> #[trigger] s1[j] == s2[j],
    ensures refused_captures(pos, t, tt_move, s1, lo, m) == refused_captures(pos, t, tt_move, s2, lo, m),
    decreases m - lo,
{
    if m > lo {
        lemma_refused_agree(pos, t, tt_move, s1, s2, lo, m - 1);
    }
}

proof fn lemma_swap_range_multiset(s: Seq<ExtMove>, i: int, j: int, lo: int, hi: int)
    requires 0 <= lo <= i < hi, lo <= j < hi, hi <= s.len(),
    ensures swapped(s, i, j).subrange(lo, hi).to_multiset() == s.subrange(lo, hi).to_multiset(),
{
    assert(swapped(s, i, j).subrange(lo, hi) =~= swapped(s.subrange(lo, hi), i - lo, j - lo));
    lemma_swap_multiset(s.subrange(lo, hi), i - lo, j - lo);
}

/// The entries `picked` after selection, and the list `now` that the refused moves were
/// written into: `picked` holds `old` with `old[lo..size]` reordered best first up to `c`,
/// and `now` is `picked` but for the moves of `now[eb..eb + refused.len()]`.
pub open spec fn good_capture_state(
    old_list: Seq<ExtMove>, picked: Seq<ExtMove>, now: Seq<ExtMove>, lo: int, size: int, c: int, eb: int, refused: Seq<Move>,
) -> bool {
    &&& picked.len() == old_list.len() && now.len() == old_list.len()
    &&& 0 <= eb <= lo <= c <= size <= old_list.len()
    &&& forall|j: int| 0 <= j < lo ==> #[trigger] picked[j] == old_list[j]
    &&& forall|j: int| size <= j < old_list.len() ==> #[trigger] picked[j] == old_list[j]
    &&& picked.subrange(lo, size).to_multiset() == old_list.subrange(lo, size).to_multiset()
    &&& sorted_desc(picked, lo, c)
    &&& forall|i: int, j: int| lo <= i < c <= j < size ==> picked[i].score >= picked[j].score
    &&& eb + refused.len() <= c
    &&& forall|j: int| 0 <= j < now.len() && !(eb <= j < eb + refused.len()) ==> #[trigger] now[j] == picked[j]
    &&& forall|k: int| 0 <= k < refused.len() ==> #[trigger] now[eb + k].mv == refused[k] && now[eb + k].score == picked[eb + k].score
}

proof fn lemma_good_capture_refused_slot(
    old_list: Seq<ExtMove>, picked: Seq<ExtMove>, now: Seq<ExtMove>, lo: int, size: int, c: int, eb: int, refused: Seq<Move>, q: int,
)
    requires good_capture_state(old_list, picked, now, lo, size, c, eb, refused), 0 <= q < refused.len(),
    ensures now[eb + q].mv == refused[q] && now[eb + q].score == picked[eb + q].score,
{
}

/// The best-scored remaining capture of `list[current_index..size]` that is not the hash
/// move and loses at most a little in its exchange, picking moves to the front one by one
/// and counting them in `current_index`; each capture refused for its exchange has its move
/// written at `end_bad_captures`, which then moves on.
pub fn select_best_good_capture(
    list: &mut [ExtMove],
    size: usize,
    current_index: &mut usize,
    end_bad_captures: &mut usize,
    pos: &PositionBase,
    tt_move: Option<Move>,
    t: &AttackTable,
    between: &BetweenTable,
) -> (r: Option<Move>)
    requires
        *old(end_bad_captures) <= *old(current_index) <= size <= old(list)@.len(),
        pos.wf(), t.valid(), between.valid(),
        forall|j: int| *old(current_index) <= j < size ==> see_move_ok(#[trigger] old(list)@[j].mv)
            && -0x100_0000 <= old(list)@[j].score <= 0x100_0000,
    ensures
        exists|picked: Seq<ExtMove>| #[trigger] good_capture_state(old(list)@, picked, final(list)@,
            *old(current_index) as int, size as int, *final(current_index) as int, *old(end_bad_captures) as int,
            refused_captures(*pos, *t, tt_move, picked, *old(current_index) as int, *final(current_index) as int))
            && *final(end_bad_captures) - *old(end_bad_captures)
                == refused_captures(*pos, *t, tt_move, picked, *old(current_index) as int, *final(current_index) as int).len()
            && match r {
                Some(m) => *final(current_index) > *old(current_index) && m == picked[*final(current_index) - 1].mv
                    && good_capture_accepts(*pos, *t, tt_move, picked[*final(current_index) - 1])
                    && forall|j: int| *old(current_index) <= j < *final(current_index) - 1
                        ==> !good_capture_accepts(*pos, *t, tt_move, #[trigger] picked[j]),
                None => *final(current_index) == size
                    && forall|j: int| *old(current_index) <= j < size ==> !good_capture_accepts(*pos, *t, tt_move, #[trigger] picked[j]),
            },
{
    let ghost lo = *current_index as int;
    let ghost eb0 = *end_bad_captures as int;
    let ghost mut picked = list@;
    let tt = tt_move.non_zero_unwrap_unchecked();
    proof {
        assert(good_capture_state(old(list)@, picked, list@, lo, size as int, lo, eb0,
            refused_captures(*pos, *t, tt_move, picked, lo, lo)));
    }
    while *current_index < size
        invariant
            lo <= *current_index <= size <= list@.len(),
            lo == *old(current_index) as int,
            eb0 == *old(end_bad_captures) as int,
            tt == move_or_zero(tt_move),
            pos.wf(), t.valid(), between.valid(),
            forall|j: int| *current_index <= j < size ==> see_move_ok(#[trigger] picked[j].mv)
                && -0x100_0000 <= picked[j].score <= 0x100_0000,
            good_capture_state(old(list)@, picked, list@, lo, size as int, *current_index as int, eb0,
                refused_captures(*pos, *t, tt_move, picked, lo, *current_index as int)),
            *end_bad_captures - eb0 == refused_captures(*pos, *t, tt_move, picked, lo, *current_index as int).len(),
            forall|j: int| lo <= j < *current_index ==> !good_capture_accepts(*pos, *t, tt_move, #[trigger] picked[j]),
        decreases size - *current_index,
    {
        let cur = *current_index;
        let ghost before = list@;
        let ghost pbefore = picked;
        let ghost rf = refused_captures(*pos, *t, tt_move, pbefore, lo, cur as int);
        let m = pick_best_in(list, cur, size);
        let score = list[cur].score;
        let ghost k: int;
        proof {
            k = choose|k: int| #[trigger] is_first_max_in(before, cur as int, size as int, k)
                && list@ == swapped(before, cur as int, k) && m == before[k].mv;
            let eb_now = eb0 + rf.len();
            assert(eb_now <= cur);
            assert forall|j: int| cur <= j < size implies #[trigger] before[j] == pbefore[j] by {
                assert(!(eb0 <= j < eb0 + rf.len()));
            }
            picked = swapped(pbefore, cur as int, k);
            assert(picked[cur as int] == before[k]);
            lemma_swap_range_multiset(pbefore, cur as int, k, lo, size as int);
            lemma_refused_agree(*pos, *t, tt_move, picked, pbefore, lo, cur as int);
            assert forall|j: int| 0 <= j < list@.len() && !(eb0 <= j < eb0 + rf.len()) implies #[trigger] list@[j] == picked[j] by {
                if j == cur as int || j == k {
                } else {
                    assert(list@[j] == before[j]);
                }
            }
            assert forall|q: int| 0 <= q < rf.len() implies #[trigger] list@[eb0 + q].mv == rf[q]
                && list@[eb0 + q].score == picked[eb0 + q].score by {
                assert(eb0 + q < cur);
                assert(list@[eb0 + q] == before[eb0 + q]);
                assert(picked[eb0 + q] == pbefore[eb0 + q]);
                lemma_good_capture_refused_slot(old(list)@, pbefore, before, lo, size as int, cur as int, eb0, rf, q);
            }
            assert forall|j: int| cur < j < size implies see_move_ok(#[trigger] picked[j].mv)
                && -0x100_0000 <= picked[j].score <= 0x100_0000 by {
                if j == k {
                    assert(picked[j] == pbefore[cur as int]);
                } else {
                    assert(picked[j] == pbefore[j]);
                }
            }
            assert(see_move_ok(picked[cur as int].mv) && -0x100_0000 <= picked[cur as int].score <= 0x100_0000);
            assert(sorted_desc(picked, lo, cur + 1)) by {
                assert forall|a: int, b: int| lo <= a < b < cur + 1 implies picked[a].score >= picked[b].score by {
                    if b == cur {
                        assert(picked[b] == pbefore[k]);
                    } else {
                        assert(picked[a] == pbefore[a] && picked[b] == pbefore[b]);
                    }
                }
            }
            assert forall|a: int, b: int| lo <= a < cur + 1 <= b < size implies picked[a].score >= picked[b].score by {
                let ob = if b == k { cur as int } else { b };
                assert(picked[b] == pbefore[ob]);
                assert(pbefore[ob] == before[ob]);
                assert(before[ob].score <= before[k].score);
                if a == cur {
                    assert(picked[a] == before[k]);
                } else {
                    assert(picked[a] == pbefore[a]);
                    assert(pbefore[a].score >= pbefore[ob].score);
                }
            }
            assert forall|j: int| lo <= j < cur implies !good_capture_accepts(*pos, *t, tt_move, #[trigger] picked[j]) by {
                assert(picked[j] == pbefore[j]);
            }
            assert(0 <= capture_material(pos.board_seq()[m.to_field() as int].val() % 16) <= 3000);
            assert(score == picked[cur as int].score);
        }
        *current_index = cur + 1;
        if m != tt {
            proof {
                assert(-0x4500_0000 <= -69 * score <= 0x4500_0000) by (nonlinear_arith)
                    requires -0x100_0000 <= score <= 0x100_0000;
            }
            let threshold = Value(crate::kppt::div_toward_zero(-69 * score, 1024));
            if pos.see_ge(m, threshold, t, between) {
                proof {
                    assert(good_capture_accepts(*pos, *t, tt_move, picked[cur as int]));
                    assert(refused_captures(*pos, *t, tt_move, picked, lo, cur + 1) == rf);
                    assert(good_capture_state(old(list)@, picked, list@, lo, size as int, (cur + 1) as int, eb0,
                        refused_captures(*pos, *t, tt_move, picked, lo, (cur + 1) as int)));
                    assert(*current_index == cur + 1);
                    assert(*end_bad_captures - eb0 == refused_captures(*pos, *t, tt_move, picked, lo, (cur + 1) as int).len());
                    assert(forall|j: int| lo <= j < cur ==> !good_capture_accepts(*pos, *t, tt_move, #[trigger] picked[j]));
                    assert(lo == *old(current_index) as int && eb0 == *old(end_bad_captures) as int);
                    assert(m == picked[*current_index - 1].mv);
                    assert(good_capture_accepts(*pos, *t, tt_move, picked[*current_index - 1]));
                    assert(good_capture_state(old(list)@, picked, list@, *old(current_index) as int, size as int,
                        *current_index as int, *old(end_bad_captures) as int,
                        refused_captures(*pos, *t, tt_move, picked, *old(current_index) as int, *current_index as int)));
                }
                return Some(m);
            }
            let eb = *end_bad_captures;
            let ghost l_before = list@;
            list[eb].mv = m;
            *end_bad_captures = eb + 1;
            proof {
                let rf2 = refused_captures(*pos, *t, tt_move, picked, lo, cur + 1);
                assert(rf2 == rf.push(m));
                assert(l_before[eb as int] == picked[eb as int]);
                assert forall|j: int| 0 <= j < list@.len() && !(eb0 <= j < eb0 + rf2.len()) implies #[trigger] list@[j] == picked[j] by {
                    assert(list@[j] == l_before[j]);
                }
                assert forall|q: int| 0 <= q < rf2.len() implies #[trigger] list@[eb0 + q].mv == rf2[q]
                    && list@[eb0 + q].score == picked[eb0 + q].score by {
                    if q < rf.len() {
                        assert(list@[eb0 + q] == l_before[eb0 + q]);
                    }
                }
                assert(good_capture_state(old(list)@, picked, list@, lo, size as int, (cur + 1) as int, eb0, rf2));
            }
        } else {
            proof {
                assert(refused_captures(*pos, *t, tt_move, picked, lo, cur + 1) == rf);
            }
        }
    }
    proof {
        assert(good_capture_state(old(list)@, picked, list@, lo, size as int, size as int, eb0,
            refused_captures(*pos, *t, tt_move, picked, lo, size as int)));
    }
    None
}


/// The number of the piece that move `m` leaves on its destination (promoted if it promotes).
pub open spec fn moved_after_val(m: Move) -> int {
    if m.spec_is_drop() { m.dropped_field() as int } else { (m.moved_field() | ((m.0 & 0x80) >> 4)) as int }
}

/// The number of the piece that move `m` moves (or drops), before any promotion.
pub open spec fn moved_before_val(m: Move) -> int {
    if m.spec_is_drop() { m.dropped_field() as int } else { m.moved_field() as int }
}

/// Whether move `m` can be scored: its destination is a square, the pieces it moves before and
/// after any promotion are pieces, and its key fits the tables keyed by moves.
pub open spec fn scorable(m: Move) -> bool {
    &&& m.to_field() < 81
    &&& m.spec_is_drop() ==> (1 <= m.dropped_field() <= 14 || 17 <= m.dropped_field() <= 30)
    &&& !m.spec_is_drop() ==> (1 <= m.moved_field() <= 14 || 17 <= m.moved_field() <= 30)
    &&& !m.spec_is_drop() ==> ({
        let x = m.moved_field() | ((m.0 & 0x80) >> 4);
        x <= 14 || 17 <= x <= 30
    })
    &&& move_key(m) < 0xffff
}

/// The score of a capture: what it gains, plus its entry in the capture history.
#[verifier::opaque]
pub open spec fn capture_score(board: Seq<Piece>, h: CapturePieceToHistory, m: Move) -> int {
    let to = m.to_field() as int;
    let pt = board[to].val() % 16;
    capture_material(pt) + h.entry(Piece::from_val(moved_after_val(m)), Square::from_val(to), PieceType::from_val(pt)) as int
}

/// The score of a recapture or of a capture that evades check: what it gains less the rank of
/// the capturing piece as least valuable attacker.
#[verifier::opaque]
pub open spec fn mvv_lva_score(board: Seq<Piece>, m: Move) -> int {
    capture_material(board[m.to_field() as int].val() % 16) - lva_rank(moved_before_val(m) % 16)
}

/// The score of a quiet move by side `c` at ply `ply`: its entry in the butterfly history, twice
/// its entry in the first continuation history and once in the second, fourth and sixth, and
/// six times its entry in the low-ply history at the first plies.
#[verifier::opaque]
pub open spec fn quiet_score(
    main: ButterflyHistory,
    low: LowPlyHistory,
    ch: Seq<&PieceToHistory>,
    c: Color,
    ply: int,
    m: Move,
) -> int {
    let to = Square::from_val(m.to_field() as int);
    let pc = Piece::from_val(moved_after_val(m));
    main.entry(c, move_key(m)) as int + 2 * ch[0].entry(to, pc) as int + ch[1].entry(to, pc) as int
        + ch[3].entry(to, pc) as int + ch[5].entry(to, pc) as int
        + if ply < 4 { 6 * low.entry(ply, move_key(m)) as int } else { 0 }
}

/// The score of a quiet evasion of side `c`: its entry in the butterfly history and twice its
/// entry in the first continuation history, below every capture.
#[verifier::opaque]
pub open spec fn quiet_evasion_score(main: ButterflyHistory, ch: Seq<&PieceToHistory>, c: Color, m: Move) -> int {
    main.entry(c, move_key(m)) as int
        + 2 * ch[0].entry(Square::from_val(m.to_field() as int), Piece::from_val(moved_after_val(m))) as int - 0x1000_0000
}

proof fn lemma_move_pieces(m: Move)
    requires
        scorable(m),
    ensures
        moved_after_val(m) <= 14 || 17 <= moved_after_val(m) <= 30,
        1 <= moved_before_val(m) <= 14 || 17 <= moved_before_val(m) <= 30,
        moved_before_val(m) % 16 != 0,
{
}

/// Scores the captures of `move_list` by `capture_score`.
pub fn score_captures(move_list: &mut [ExtMove], pos: &PositionBase, capture_history: &CapturePieceToHistory)
    requires
        capture_history.wf(),
        forall|i: int| 0 <= i < old(move_list)@.len() ==> scorable(#[trigger] old(move_list)@[i].mv),
    ensures
        final(move_list)@.len() == old(move_list)@.len(),
        forall|i: int| 0 <= i < old(move_list)@.len() ==> #[trigger] final(move_list)@[i].mv == old(move_list)@[i].mv
            && final(move_list)@[i].score == capture_score(pos.board_seq(), *capture_history, old(move_list)@[i].mv),
{
    let n = move_list.len();
    let mut i: usize = 0;
    while i < n
        invariant
            i <= n,
            n == move_list@.len(),
            n == old(move_list)@.len(),
            capture_history.wf(),
            forall|j: int| 0 <= j < n ==> scorable(#[trigger] old(move_list)@[j].mv),
            forall|j: int| 0 <= j < i ==> #[trigger] move_list@[j].mv == old(move_list)@[j].mv
                && move_list@[j].score == capture_score(pos.board_seq(), *capture_history, old(move_list)@[j].mv),
            forall|j: int| i <= j < n ==> #[trigger] move_list@[j] == old(move_list)@[j],
        decreases n - i,
    {
        let m = move_list[i].mv;
        proof {
            lemma_move_pieces(m);
            assert(move_list@[i as int] == old(move_list)@[i as int]);
        }
        let to = m.to();
        let pt_to = PieceType::new(pos.piece_on(to));
        let pc = m.piece_moved_after_move();
        let score = capture_piece_type_value(pt_to).0 + capture_history.get(pc, to, pt_to);
        proof {
            assert(score == capture_score(pos.board_seq(), *capture_history, m)) by {
                reveal(capture_score);
                broadcast use Square::lemma_from_val, Piece::lemma_from_val, PieceType::lemma_from_val;
                assert(Piece::from_val(moved_after_val(m)) == pc);
                assert(Square::from_val(m.to_field() as int) == to);
                assert(PieceType::from_val(pos.board_seq()[m.to_field() as int].val() % 16) == pt_to);
            }
        }
        let ghost prev = move_list@;
        move_list[i] = ExtMove { mv: m, score };
        i += 1;
        proof {
            assert forall|j: int| 0 <= j < i implies #[trigger] move_list@[j].mv == old(move_list)@[j].mv
                && move_list@[j].score == capture_score(pos.board_seq(), *capture_history, old(move_list)@[j].mv) by {
                if j < i - 1 {
                    assert(move_list@[j] == prev[j]);
                    assert(prev[j].mv == old(move_list)@[j].mv);
                    assert(prev[j].score == capture_score(pos.board_seq(), *capture_history, old(move_list)@[j].mv));
                } else {
                    assert(move_list@[j].mv == m && move_list@[j].score == score);
                }
            }
        }
    }
}

/// Scores the recaptures of `move_list` by `mvv_lva_score`.
pub fn score_recaptures(move_list: &mut [ExtMove], pos: &PositionBase)
    requires
        forall|i: int| 0 <= i < old(move_list)@.len() ==> scorable(#[trigger] old(move_list)@[i].mv),
    ensures
        final(move_list)@.len() == old(move_list)@.len(),
        forall|i: int| 0 <= i < old(move_list)@.len() ==> #[trigger] final(move_list)@[i].mv == old(move_list)@[i].mv
            && final(move_list)@[i].score == mvv_lva_score(pos.board_seq(), old(move_list)@[i].mv),
{
    let n = move_list.len();
    let mut i: usize = 0;
    while i < n
        invariant
            i <= n,
            n == move_list@.len(),
            n == old(move_list)@.len(),
            forall|j: int| 0 <= j < n ==> scorable(#[trigger] old(move_list)@[j].mv),
            forall|j: int| 0 <= j < i ==> #[trigger] move_list@[j].mv == old(move_list)@[j].mv
                && move_list@[j].score == mvv_lva_score(pos.board_seq(), old(move_list)@[j].mv),
            forall|j: int| i <= j < n ==> #[trigger] move_list@[j] == old(move_list)@[j],
        decreases n - i,
    {
        let m = move_list[i].mv;
        proof {
            lemma_move_pieces(m);
            assert(move_list@[i as int] == old(move_list)@[i as int]);
        }
        let score = capture_piece_value(pos.piece_on(m.to())).0 - lva_value(PieceType::new(m.piece_moved_before_move())).0;
        proof {
            assert(score == mvv_lva_score(pos.board_seq(), m)) by { reveal(mvv_lva_score); }
        }
        let ghost prev = move_list@;
        move_list[i] = ExtMove { mv: m, score };
        i += 1;
        proof {
            assert forall|j: int| 0 <= j < i implies #[trigger] move_list@[j].mv == old(move_list)@[j].mv
                && move_list@[j].score == mvv_lva_score(pos.board_seq(), old(move_list)@[j].mv) by {
                if j < i - 1 {
                    assert(move_list@[j] == prev[j]);
                    assert(prev[j].mv == old(move_list)@[j].mv);
                    assert(prev[j].score == mvv_lva_score(pos.board_seq(), old(move_list)@[j].mv));
                } else {
                    assert(move_list@[j].mv == m && move_list@[j].score == score);
                }
            }
        }
    }
}

/// Scores the quiet moves of `move_list` by `quiet_score`, for the side to move at ply `ply`.
pub fn score_quiets(
    move_list: &mut [ExtMove],
    pos: &PositionBase,
    main_history: &ButterflyHistory,
    low_ply_history: &LowPlyHistory,
    continuation_history: &[&PieceToHistory],
    ply: i32,
)
    requires
        main_history.wf(),
        low_ply_history.wf(),
        continuation_history@.len() >= 6,
        forall|k: int| 0 <= k < 6 ==> (#[trigger] continuation_history@[k]).wf(),
        0 <= ply,
        forall|i: int| 0 <= i < old(move_list)@.len() ==> scorable(#[trigger] old(move_list)@[i].mv),
    ensures
        final(move_list)@.len() == old(move_list)@.len(),
        forall|i: int| 0 <= i < old(move_list)@.len() ==> #[trigger] final(move_list)@[i].mv == old(move_list)@[i].mv
            && final(move_list)@[i].score == quiet_score(*main_history, *low_ply_history, continuation_history@,
                pos.spec_side_to_move(), ply as int, old(move_list)@[i].mv),
{
    let n = move_list.len();
    let us = pos.side_to_move();
    let mut i: usize = 0;
    while i < n
        invariant
            i <= n,
            n == move_list@.len(),
            n == old(move_list)@.len(),
            main_history.wf(),
            low_ply_history.wf(),
            continuation_history@.len() >= 6,
            forall|k: int| 0 <= k < 6 ==> (#[trigger] continuation_history@[k]).wf(),
            0 <= ply,
            us == pos.spec_side_to_move(),
            forall|j: int| 0 <= j < n ==> scorable(#[trigger] old(move_list)@[j].mv),
            forall|j: int| 0 <= j < i ==> #[trigger] move_list@[j].mv == old(move_list)@[j].mv
                && move_list@[j].score == quiet_score(*main_history, *low_ply_history, continuation_history@, us, ply as int,
                    old(move_list)@[j].mv),
            forall|j: int| i <= j < n ==> #[trigger] move_list@[j] == old(move_list)@[j],
        decreases n - i,
    {
        let m = move_list[i].mv;
        proof {
            lemma_move_pieces(m);
            assert(move_list@[i as int] == old(move_list)@[i as int]);
        }
        let to = m.to();
        let piece_moved = m.piece_moved_after_move();
        let ch0 = continuation_history[0];
        let ch1 = continuation_history[1];
        let ch3 = continuation_history[3];
        let ch5 = continuation_history[5];
        proof {
            assert(ch0.wf() && ch1.wf() && ch3.wf() && ch5.wf()) by {
                assert(continuation_history@[0].wf() && continuation_history@[1].wf());
                assert(continuation_history@[3].wf() && continuation_history@[5].wf());
            }
        }
        let low: i32 = if ply < LowPlyHistory::MAX_LPH as i32 { 6 * low_ply_history.get(ply, m) } else { 0 };
        let score = main_history.get(us, m) + 2 * ch0.get(to, piece_moved) + ch1.get(to, piece_moved)
            + ch3.get(to, piece_moved) + ch5.get(to, piece_moved) + low;
        proof {
            assert(score == quiet_score(*main_history, *low_ply_history, continuation_history@, us, ply as int, m)) by {
                reveal(quiet_score);
                broadcast use Square::lemma_from_val, Piece::lemma_from_val;
                assert(Piece::from_val(moved_after_val(m)) == piece_moved);
                assert(Square::from_val(m.to_field() as int) == to);
            }
        }
        let ghost prev = move_list@;
        move_list[i] = ExtMove { mv: m, score };
        i += 1;
        proof {
            assert forall|j: int| 0 <= j < i implies #[trigger] move_list@[j].mv == old(move_list)@[j].mv
                && move_list@[j].score == quiet_score(*main_history, *low_ply_history, continuation_history@, us, ply as int,
                    old(move_list)@[j].mv) by {
                if j < i - 1 {
                    assert(move_list@[j] == prev[j]);
                    assert(prev[j].mv == old(move_list)@[j].mv);
                    assert(prev[j].score == quiet_score(*main_history, *low_ply_history, continuation_history@, us, ply as int,
                        old(move_list)@[j].mv));
                } else {
                    assert(move_list@[j].mv == m && move_list@[j].score == score);
                }
            }
        }
    }
}

/// The score of an evasion: `mvv_lva_score` for a capture, else `quiet_evasion_score`.
pub open spec fn evasion_score(board: Seq<Piece>, main: ButterflyHistory, ch: Seq<&PieceToHistory>, c: Color, m: Move) -> int {
    if board[m.to_field() as int] != Piece::EMPTY {
        mvv_lva_score(board, m)
    } else {
        quiet_evasion_score(main, ch, c, m)
    }
}

/// Scores the evasions of `move_list` by `evasion_score`, for the side to move.
pub fn score_evasion(
    move_list: &mut [ExtMove],
    pos: &PositionBase,
    main_history: &ButterflyHistory,
    continuation_history: &[&PieceToHistory],
)
    requires
        main_history.wf(),
        continuation_history@.len() >= 1,
        continuation_history@[0].wf(),
        forall|i: int| 0 <= i < old(move_list)@.len() ==> scorable(#[trigger] old(move_list)@[i].mv),
    ensures
        final(move_list)@.len() == old(move_list)@.len(),
        forall|i: int| 0 <= i < old(move_list)@.len() ==> #[trigger] final(move_list)@[i].mv == old(move_list)@[i].mv
            && final(move_list)@[i].score == evasion_score(pos.board_seq(), *main_history, continuation_history@,
                pos.spec_side_to_move(), old(move_list)@[i].mv),
{
    let n = move_list.len();
    let us = pos.side_to_move();
    let mut i: usize = 0;
    while i < n
        invariant
            i <= n,
            n == move_list@.len(),
            n == old(move_list)@.len(),
            main_history.wf(),
            continuation_history@.len() >= 1,
            continuation_history@[0].wf(),
            us == pos.spec_side_to_move(),
            forall|j: int| 0 <= j < n ==> scorable(#[trigger] old(move_list)@[j].mv),
            forall|j: int| 0 <= j < i ==> #[trigger] move_list@[j].mv == old(move_list)@[j].mv
                && move_list@[j].score == evasion_score(pos.board_seq(), *main_history, continuation_history@, us, old(move_list)@[j].mv),
            forall|j: int| i <= j < n ==> #[trigger] move_list@[j] == old(move_list)@[j],
        decreases n - i,
    {
        let m = move_list[i].mv;
        proof {
            lemma_move_pieces(m);
            assert(move_list@[i as int] == old(move_list)@[i as int]);
        }
        let score = if m.is_capture(pos) {
            let s = capture_piece_value(pos.piece_on(m.to())).0 - lva_value(PieceType::new(m.piece_moved_before_move())).0;
            proof {
                assert(s == mvv_lva_score(pos.board_seq(), m)) by { reveal(mvv_lva_score); }
            }
            s
        } else {
            let piece_moved = m.piece_moved_after_move();
            let ch0 = continuation_history[0];
            let to = m.to();
            let s = main_history.get(us, m) + 2 * ch0.get(to, piece_moved) - 0x1000_0000;
            proof {
                assert(s == quiet_evasion_score(*main_history, continuation_history@, us, m)) by {
                    reveal(quiet_evasion_score);
                    broadcast use Square::lemma_from_val, Piece::lemma_from_val;
                    assert(Piece::from_val(moved_after_val(m)) == piece_moved);
                    assert(Square::from_val(m.to_field() as int) == to);
                }
            }
            s
        };
        let ghost prev = move_list@;
        move_list[i] = ExtMove { mv: m, score };
        i += 1;
        proof {
            assert forall|j: int| 0 <= j < i implies #[trigger] move_list@[j].mv == old(move_list)@[j].mv
                && move_list@[j].score == evasion_score(pos.board_seq(), *main_history, continuation_history@, us, old(move_list)@[j].mv) by {
                if j < i - 1 {
                    assert(move_list@[j] == prev[j]);
                    assert(prev[j].mv == old(move_list)@[j].mv);
                    assert(prev[j].score == evasion_score(pos.board_seq(), *main_history, continuation_history@, us, old(move_list)@[j].mv));
                } else {
                    assert(move_list@[j].mv == m && move_list@[j].score == score);
                }
            }
        }
    }
}

} // verus!
