use vstd::prelude::*;
use crate::movetypes::Move;
use crate::types::{Bound, Depth, Key, Value};

verus! {

/// One slot of the transposition table: the upper part of a position's key, its best
/// move, search score, static evaluation, depth, bound and the generation of the search
/// that last touched it, packed into ten bytes.
#[derive(Clone, Copy)]
pub struct TtEntry {
    key16: u16,
    mv16: u16,
    value16: i16,
    eval16: i16,
    genbound8: u8,
    depth8: u8,
}

/// The low 16 bits of a key without its side-to-move bit: what a slot keeps of the key.
pub open spec fn stored_key16(key: Key) -> u16 {
    (key.0 >> 1) as u16
}

/// Bit 2 of the generation-and-bound byte, which tells a principal-variation node.
pub open spec fn pv_bits(pv: bool) -> u8 {
    if pv { 4u8 } else { 0u8 }
}

impl TtEntry {
    pub closed spec fn key16(self) -> u16 {
        self.key16
    }

    pub closed spec fn mv16(self) -> u16 {
        self.mv16
    }

    pub closed spec fn value16(self) -> i16 {
        self.value16
    }

    pub closed spec fn eval16(self) -> i16 {
        self.eval16
    }

    pub closed spec fn genbound8(self) -> u8 {
        self.genbound8
    }

    pub closed spec fn depth8(self) -> u8 {
        self.depth8
    }

    /// The slot with every field zero: an empty slot.
    pub closed spec fn empty() -> TtEntry {
        TtEntry { key16: 0, mv16: 0, value16: 0, eval16: 0, genbound8: 0, depth8: 0 }
    }

    /// The slot `e` with the generation part of its generation-and-bound byte set to `gen`.
    pub closed spec fn with_generation(e: TtEntry, gen: u8) -> TtEntry {
        TtEntry { genbound8: gen | (e.genbound8 & 7u8), ..e }
    }

    /// Whether `save` with these arguments overwrites the slot's data (an exact bound, another
    /// position, or a depth not much below the stored one); otherwise it keeps all but the move.
    pub open spec fn save_overwrites(e: TtEntry, key: Key, bound: Bound, depth: Depth) -> bool {
        bound == Bound::EXACT || stored_key16(key) != e.key16() || depth.0 - Depth::OFFSET > e.depth8() - 4
    }

    /// What `save` leaves in slot `e`.
    pub closed spec fn saved(
        e: TtEntry,
        key: Key,
        value: Value,
        pv: bool,
        bound: Bound,
        depth: Depth,
        mv: Option<Move>,
        eval: Value,
        generation: u8,
    ) -> TtEntry {
        let k16 = stored_key16(key);
        let mv16 = match mv {
            Some(m) => m.0 as u16,
            None => if k16 != e.key16 { 0u16 } else { e.mv16 },
        };
        if TtEntry::save_overwrites(e, key, bound, depth) {
            TtEntry {
                key16: k16,
                mv16: mv16,
                value16: value.0 as i16,
                eval16: eval.0 as i16,
                genbound8: generation | pv_bits(pv) | (bound.val() as u8),
                depth8: (depth.0 - Depth::OFFSET) as u8,
            }
        } else {
            TtEntry { mv16: mv16, ..e }
        }
    }

    /// The bound that the slot's generation-and-bound byte holds.
    pub open spec fn spec_bound(self) -> Bound {
        Bound::from_val((self.genbound8() & 3u8) as int)
    }

    pub fn new() -> (r: TtEntry)
        ensures r == TtEntry::empty(),
    {
        TtEntry { key16: 0, mv16: 0, value16: 0, eval16: 0, genbound8: 0, depth8: 0 }
    }

    /// The stored move word (the low 16 bits of the move that was saved); turning it back into
    /// a move needs the position, to find the piece that moves.
    pub fn move16(&self) -> (r: u16)
        ensures r == self.mv16(),
    {
        self.mv16
    }

    pub fn value(&self) -> (r: Value)
        ensures r.0 == self.value16(),
    {
        Value(self.value16 as i32)
    }

    pub fn eval(&self) -> (r: Value)
        ensures r.0 == self.eval16(),
    {
        Value(self.eval16 as i32)
    }

    pub fn depth(&self) -> (r: Depth)
        ensures r.0 == self.depth8() + Depth::OFFSET,
    {
        Depth(self.depth8 as i32 + Depth::OFFSET)
    }

    pub fn is_pv(&self) -> (r: bool)
        ensures r == (self.genbound8() & 4u8 != 0u8),
    {
        (self.genbound8 & 4u8) != 0u8
    }

    pub fn bound(&self) -> (r: Bound)
        ensures r == self.spec_bound(),
    {
        let gb = self.genbound8;
        let b = gb & 3u8;
        assert(gb & 3u8 <= 3u8) by (bit_vector);
        if b == 0 {
            Bound::BOUND_NONE
        } else if b == 1 {
            Bound::UPPER
        } else if b == 2 {
            Bound::LOWER
        } else {
            Bound::EXACT
        }
    }

    pub fn generation(&self) -> (r: u8)
        ensures r == self.genbound8() & 0xf8u8,
    {
        self.genbound8 & 0xf8u8
    }

    /// Stores a search result for the position of `key` in this slot. The move is kept unless a
    /// new one is given or the slot held another position; the other data are overwritten only
    /// as `save_overwrites` says.
    pub fn save(
        &mut self,
        key: Key,
        value: Value,
        pv: bool,
        bound: Bound,
        depth: Depth,
        mv: Option<Move>,
        eval: Value,
        generation: u8,
    )
        requires
            Depth::OFFSET < depth.0 < 256 + Depth::OFFSET,
        ensures
            *final(self) == TtEntry::saved(*old(self), key, value, pv, bound, depth, mv, eval, generation),
    {
        let key16 = key.excluded_turn().0 as u16;
        match mv {
            Some(m) => {
                self.mv16 = m.0 as u16;
            },
            None => {
                if key16 != self.key16 {
                    self.mv16 = 0;
                }
            },
        }
        if bound == Bound::EXACT || key16 != self.key16 || depth.0 - Depth::OFFSET > self.depth8 as i32 - 4 {
            let pv8: u8 = if pv { 4u8 } else { 0u8 };
            self.key16 = key16;
            self.value16 = value.0 as i16;
            self.eval16 = eval.0 as i16;
            self.genbound8 = generation | pv8 | (bound.to_i32() as u8);
            self.depth8 = (depth.0 - Depth::OFFSET) as u8;
        }
    }
}

/// A slot read back after `save` overwrote it gives what was saved: the key's stored part, the
/// score and evaluation (where they fit in 16 bits), the depth, the bound, the
/// principal-variation flag and the generation (a multiple of 8, as the table hands out).
pub proof fn lemma_save_then_read(
    e: TtEntry,
    key: Key,
    value: Value,
    pv: bool,
    bound: Bound,
    depth: Depth,
    mv: Option<Move>,
    eval: Value,
    generation: u8,
)
    requires
        Depth::OFFSET < depth.0 < 256 + Depth::OFFSET,
        generation % 8 == 0,
        i16::MIN <= value.0 <= i16::MAX,
        i16::MIN <= eval.0 <= i16::MAX,
        TtEntry::save_overwrites(e, key, bound, depth),
    ensures
        ({
            let s = TtEntry::saved(e, key, value, pv, bound, depth, mv, eval, generation);
            &&& s.key16() == stored_key16(key)
            &&& s.value16() == value.0
            &&& s.eval16() == eval.0
            &&& s.depth8() + Depth::OFFSET == depth.0
            &&& s.spec_bound() == bound
            &&& (s.genbound8() & 4u8 != 0u8) == pv
            &&& s.genbound8() & 0xf8u8 == generation
            &&& s.depth8() != 0
            &&& (mv matches Some(m) ==> s.mv16() == m.0 as u16)
        }),
{
    broadcast use Bound::lemma_from_val, Bound::lemma_val_range;
    let b = bound.val() as u8;
    let p = pv_bits(pv);
    let g = generation;
    assert(g % 8 == 0 && b <= 3 && (p == 0 || p == 4) ==> {
        &&& (g | p | b) & 3u8 == b
        &&& ((g | p | b) & 4u8 != 0u8) == (p == 4)
        &&& (g | p | b) & 0xf8u8 == g
    }) by (bit_vector);
    assert(Bound::from_val(b as int) == bound);
}

/// The number of slots in a cluster.
pub const CLUSTER_SIZE: usize = 3;
/// The number of low bits of the generation-and-bound byte that the bound and the
/// principal-variation flag take; the generation counts in steps of `GENERATION_DELTA`.
pub const GENERATION_BITS: u32 = 3;
pub const GENERATION_DELTA: u8 = 8;
pub const GENERATION_CYCLE: u32 = 263;
pub const GENERATION_MASK: u32 = 0xf8;
/// The size of a cluster in bytes: three ten-byte slots and two bytes of padding.
pub const CLUSTER_BYTES: usize = 32;

/// The slots that one key can go to, side by side so that they share a cache line.
#[derive(Clone, Copy)]
pub struct TtCluster {
    entry: [TtEntry; CLUSTER_SIZE],
    _padding: [u8; 2],
}

impl TtCluster {
    /// The slots of the cluster, in order.
    pub closed spec fn entries(self) -> Seq<TtEntry> {
        self.entry@
    }

    pub fn new() -> (r: TtCluster)
        ensures
            r.entries() == seq![TtEntry::empty(), TtEntry::empty(), TtEntry::empty()],
    {
        let e = TtEntry::new();
        let r = TtCluster { entry: [e, e, e], _padding: [0u8, 0u8] };
        assert(r.entries() =~= seq![TtEntry::empty(), TtEntry::empty(), TtEntry::empty()]);
        r
    }

    fn entry_mut(&mut self, i: usize) -> (r: &mut TtEntry)
        requires
            i < CLUSTER_SIZE,
        ensures
            *r == old(self).entries()[i as int],
            final(self).entries() == old(self).entries().update(i as int, *final(r)),
    {
        &mut self.entry[i]
    }
}

impl TtCluster {
    pub broadcast proof fn lemma_entries_len(c: TtCluster)
        ensures #[trigger] c.entries().len() == CLUSTER_SIZE,
    {
    }
}

/// Whether a probe for the key part `k16` stops at slot `e`: the slot holds that key, or it is
/// empty (depth byte zero).
pub open spec fn is_hit(e: TtEntry, k16: u16) -> bool {
    e.key16() == k16 || e.depth8() == 0
}

/// The first slot of cluster `c` where a probe for `k16` stops, or `CLUSTER_SIZE` if none.
pub open spec fn first_hit(c: Seq<TtEntry>, k16: u16) -> int {
    if is_hit(c[0], k16) {
        0
    } else if is_hit(c[1], k16) {
        1
    } else if is_hit(c[2], k16) {
        2
    } else {
        3
    }
}

/// How many generations (counted modulo 32) lie between the table's generation `gen` and the
/// one in a slot's generation-and-bound byte.
pub open spec fn entry_age(gen: u8, genbound: u8) -> int {
    (gen as int / 8 + 32 - genbound as int / 8) % 32
}

/// The worth of keeping slot `e`: its depth, less 8 for each generation of age.
pub open spec fn replace_value(e: TtEntry, gen: u8) -> int {
    e.depth8() - 8 * entry_age(gen, e.genbound8())
}

/// The first slot of cluster `c` of least worth.
pub open spec fn first_lowest(c: Seq<TtEntry>, gen: u8) -> int {
    let v0 = replace_value(c[0], gen);
    let v1 = replace_value(c[1], gen);
    let v2 = replace_value(c[2], gen);
    if v0 <= v1 && v0 <= v2 {
        0
    } else if v1 <= v2 {
        1
    } else {
        2
    }
}

/// The slot of cluster `c` that a probe for `k16` hands out: the first that holds the key or is
/// empty, else the first of least worth.
pub open spec fn probe_slot(c: Seq<TtEntry>, k16: u16, gen: u8) -> int {
    if first_hit(c, k16) < 3 {
        first_hit(c, k16)
    } else {
        first_lowest(c, gen)
    }
}

/// Whether the probe for `k16` finds data for the key: the slot it stops at is not empty.
pub open spec fn probe_found(c: Seq<TtEntry>, k16: u16) -> bool {
    first_hit(c, k16) < 3 && c[first_hit(c, k16)].depth8() != 0
}

/// The slot as the probe hands it out: a slot where the probe stopped gets the table's
/// generation; one chosen for replacement is handed out as it is.
pub open spec fn probed_entry(c: Seq<TtEntry>, k16: u16, gen: u8) -> TtEntry {
    if first_hit(c, k16) < 3 {
        TtEntry::with_generation(c[first_hit(c, k16)], gen)
    } else {
        c[first_lowest(c, gen)]
    }
}

/// The cluster that a key goes to among `count` clusters: the high bits of the key (without its
/// side-to-move bit) scaled to half the table, doubled, plus the side-to-move bit.
pub open spec fn tt_cluster_index(key: u64, count: int) -> int {
    2 * ((key as int / 2) * count / 0x1_0000_0000_0000_0000) + key as int % 2
}

/// The high 64 bits of the 128-bit product of `l` and `r`.
fn mul_hi64(l: u64, r: u64) -> (h: u64)
    ensures
        h == (l as int * r as int) / 0x1_0000_0000_0000_0000,
{
    proof {
        vstd::arithmetic::mul::lemma_mul_upper_bound(l as int, u64::MAX as int, r as int, u64::MAX as int);
    }
    let p: u128 = (l as u128) * (r as u128);
    assert(p >> 64u128 == p / 0x1_0000_0000_0000_0000u128) by (bit_vector);
    (p >> 64u128) as u64
}

proof fn lemma_index_bound(a: int, count: int)
    requires
        0 <= a < 0x8000_0000_0000_0000,
        0 < count,
        count % 2 == 0,
    ensures
        0 <= a * count / 0x1_0000_0000_0000_0000 < count / 2,
{
    assert(a * count < 0x1_0000_0000_0000_0000 * (count / 2)) by (nonlinear_arith)
        requires
            0 <= a < 0x8000_0000_0000_0000,
            0 < count,
            count % 2 == 0;
    assert(0 <= a * count) by (nonlinear_arith)
        requires 0 <= a, 0 < count;
    vstd::arithmetic::div_mod::lemma_multiply_divide_lt(a * count, 0x1_0000_0000_0000_0000, count / 2);
    vstd::arithmetic::div_mod::lemma_div_pos_is_pos(a * count, 0x1_0000_0000_0000_0000);
}

/// The replacement worth computed on bytes agrees with `replace_value` when the table's
/// generation is a multiple of 8.
proof fn lemma_age_bits(g: u32, b: u32)
    requires
        g < 256,
        b < 256,
        g % 8 == 0,
    ensures
        ((263 + g - b) as u32) & 0xf8u32 == 8 * ((g / 8 + 32 - b / 8) % 32),
{
    assert(g < 256 && b < 256 && g % 8 == 0 ==> ((263 + g - b) as u32) & 0xf8u32 == 8 * ((g / 8 + 32 - b / 8) % 32))
        by (bit_vector);
}

/// The hash table of search results: clusters of slots indexed by position key, with a
/// generation counter that ages the entries of earlier searches.
pub struct TranspositionTable {
    table: Vec<TtCluster>,
    cluster_count: usize,
    generation8: u8,
}

impl TranspositionTable {
    /// The clusters of the table, in order.
    pub closed spec fn clusters(self) -> Seq<TtCluster> {
        self.table@
    }

    pub closed spec fn spec_cluster_count(self) -> int {
        self.cluster_count as int
    }

    pub closed spec fn spec_generation(self) -> u8 {
        self.generation8
    }

    /// The table has as many clusters as it counts, an even number, and its generation is a
    /// multiple of 8.
    pub closed spec fn wf(self) -> bool {
        &&& self.table@.len() == self.cluster_count
        &&& self.cluster_count % 2 == 0
        &&& self.generation8 % 8 == 0
    }

    /// An empty table of no clusters, generation 0; `resize` gives it its slots.
    pub fn new() -> (r: TranspositionTable)
        ensures
            r.wf(),
            r.spec_cluster_count() == 0,
            r.spec_generation() == 0,
    {
        TranspositionTable { table: Vec::new(), cluster_count: 0, generation8: 0 }
    }

    /// Makes the table `mega_byte_size` MiB of empty clusters; the generation is kept.
    pub fn resize(&mut self, mega_byte_size: usize)
        requires
            old(self).wf(),
            mega_byte_size * 1024 * 1024 <= usize::MAX,
        ensures
            final(self).wf(),
            final(self).spec_cluster_count() == mega_byte_size * 1024 * 1024 / CLUSTER_BYTES as int,
            final(self).spec_generation() == old(self).spec_generation(),
            forall|i: int| 0 <= i < final(self).spec_cluster_count() ==>
                #[trigger] final(self).clusters()[i].entries() == seq![TtEntry::empty(), TtEntry::empty(), TtEntry::empty()],
    {
        let count = mega_byte_size * 1024 * 1024 / CLUSTER_BYTES;
        assert(count % 2 == 0);
        let mut v: Vec<TtCluster> = Vec::with_capacity(count);
        let mut i: usize = 0;
        while i < count
            invariant
                i <= count,
                v@.len() == i,
                forall|j: int| 0 <= j < i ==>
                    #[trigger] v@[j].entries() == seq![TtEntry::empty(), TtEntry::empty(), TtEntry::empty()],
            decreases count - i,
        {
            v.push(TtCluster::new());
            i = i + 1;
        }
        self.table = v;
        self.cluster_count = count;
    }

    /// Empties every slot.
    pub fn clear(&mut self)
        requires
            old(self).wf(),
        ensures
            final(self).wf(),
            final(self).spec_cluster_count() == old(self).spec_cluster_count(),
            final(self).spec_generation() == old(self).spec_generation(),
            forall|i: int| 0 <= i < final(self).spec_cluster_count() ==>
                #[trigger] final(self).clusters()[i].entries() == seq![TtEntry::empty(), TtEntry::empty(), TtEntry::empty()],
    {
        let n = self.table.len();
        let mut i: usize = 0;
        while i < n
            invariant
                i <= n,
                n == self.cluster_count,
                self.wf(),
                self.cluster_count == old(self).cluster_count,
                self.generation8 == old(self).generation8,
                forall|j: int| 0 <= j < i ==>
                    #[trigger] self.table@[j].entries() == seq![TtEntry::empty(), TtEntry::empty(), TtEntry::empty()],
            decreases n - i,
        {
            self.table.set(i, TtCluster::new());
            i = i + 1;
        }
    }

    /// Starts a new search: the generation moves on by one step (modulo 256).
    pub fn new_search(&mut self)
        requires
            old(self).wf(),
        ensures
            final(self).wf(),
            final(self).spec_generation() == (old(self).spec_generation() + GENERATION_DELTA) % 256,
            final(self).spec_cluster_count() == old(self).spec_cluster_count(),
            final(self).clusters() == old(self).clusters(),
    {
        self.generation8 = self.generation8.wrapping_add(GENERATION_DELTA);
    }

    pub fn generation(&self) -> (r: u8)
        ensures
            r == self.spec_generation(),
    {
        self.generation8
    }

    /// The cluster that `key` goes to; below the cluster count, and of the parity of the key's
    /// side-to-move bit, where the count is even and not zero.
    pub fn cluster_index(&self, key: Key) -> (r: usize)
        requires
            self.wf(),
        ensures
            r == tt_cluster_index(key.0, self.spec_cluster_count()),
            self.spec_cluster_count() > 0 ==> r < self.spec_cluster_count(),
    {
        let kv = key.0;
        let k = key.excluded_turn().0;
        let index = mul_hi64(k, self.cluster_count as u64);
        let bit = key.turn_bit();
        proof {
            assert(k == kv / 2 && bit == kv % 2 && k < 0x8000_0000_0000_0000) by (bit_vector)
                requires
                    k == kv >> 1u64,
                    bit == kv & 1u64;
            if self.cluster_count > 0 {
                lemma_index_bound(k as int, self.cluster_count as int);
            } else {
                vstd::arithmetic::mul::lemma_mul_by_zero_is_zero(k as int);
            }
        }
        let r = (index << 1u64) | bit;
        assert(r == 2 * index + bit) by (bit_vector)
            requires
                r == (index << 1u64) | bit,
                bit < 2,
                index < 0x8000_0000_0000_0000;
        r as usize
    }

    /// Looks `key` up: hands out the slot of its cluster that holds the key or is empty (marked
    /// with the current generation), or else the first slot of least worth for replacement,
    /// with whether data for the key were found.
    pub fn probe(&mut self, key: Key) -> ((entry, found): (&mut TtEntry, bool))
        requires
            old(self).wf(),
            old(self).spec_cluster_count() > 0,
        ensures
            ({
                let ci = tt_cluster_index(key.0, old(self).spec_cluster_count());
                let c = old(self).clusters()[ci].entries();
                let k16 = stored_key16(key);
                let gen = old(self).spec_generation();
                &&& 0 <= ci < old(self).spec_cluster_count()
                &&& *entry == probed_entry(c, k16, gen)
                &&& found == probe_found(c, k16)
                &&& final(self).wf()
                &&& final(self).spec_cluster_count() == old(self).spec_cluster_count()
                &&& final(self).spec_generation() == gen
                &&& final(self).clusters().len() == old(self).clusters().len()
                &&& forall|j: int| 0 <= j < old(self).spec_cluster_count() && j != ci ==>
                    #[trigger] final(self).clusters()[j] == old(self).clusters()[j]
                &&& final(self).clusters()[ci].entries() == c.update(probe_slot(c, k16, gen), *final(entry))
            }),
    {
        proof {
            broadcast use TtCluster::lemma_entries_len;
        }
        let generation8 = self.generation8;
        let key16 = key.excluded_turn().0 as u16;
        let ci = self.cluster_index(key);
        let e0 = self.table[ci].entry[0];
        let e1 = self.table[ci].entry[1];
        let e2 = self.table[ci].entry[2];
        let ghost c = self.table@[ci as int].entries();
        assert(e0 == c[0] && e1 == c[1] && e2 == c[2]);
        let hit: bool;
        let slot: usize;
        if e0.key16 == key16 || e0.depth8 == 0 {
            hit = true;
            slot = 0;
        } else if e1.key16 == key16 || e1.depth8 == 0 {
            hit = true;
            slot = 1;
        } else if e2.key16 == key16 || e2.depth8 == 0 {
            hit = true;
            slot = 2;
        } else {
            hit = false;
            proof {
                lemma_age_bits(generation8 as u32, e0.genbound8 as u32);
                lemma_age_bits(generation8 as u32, e1.genbound8 as u32);
                lemma_age_bits(generation8 as u32, e2.genbound8 as u32);
            }
            let v0 = e0.depth8 as i32 - ((GENERATION_CYCLE + generation8 as u32 - e0.genbound8 as u32) & GENERATION_MASK) as i32;
            let v1 = e1.depth8 as i32 - ((GENERATION_CYCLE + generation8 as u32 - e1.genbound8 as u32) & GENERATION_MASK) as i32;
            let v2 = e2.depth8 as i32 - ((GENERATION_CYCLE + generation8 as u32 - e2.genbound8 as u32) & GENERATION_MASK) as i32;
            if v0 <= v1 && v0 <= v2 {
                slot = 0;
            } else if v1 <= v2 {
                slot = 1;
            } else {
                slot = 2;
            }
        }
        let depth_at_slot = if slot == 0 { e0.depth8 } else if slot == 1 { e1.depth8 } else { e2.depth8 };
        let found = hit && depth_at_slot != 0;
        let cluster = &mut self.table[ci];
        let entry = cluster.entry_mut(slot);
        if hit {
            entry.genbound8 = generation8 | (entry.genbound8 & 7u8);
        }
        (entry, found)
    }
}

/// What the table gives back of what it stored: after a probe of `key` hands out a slot of
/// cluster `c` and `save` stores a result for that key in it, a later probe of the same key
/// (in any generation) stops at that same slot, reports the data found, and hands out the
/// stored slot with only its generation renewed.
pub proof fn lemma_probe_finds_saved(
    c: Seq<TtEntry>,
    key: Key,
    gen: u8,
    later_gen: u8,
    value: Value,
    pv: bool,
    bound: Bound,
    depth: Depth,
    mv: Option<Move>,
    eval: Value,
    generation: u8,
)
    requires
        c.len() == CLUSTER_SIZE,
        Depth::OFFSET < depth.0 < 256 + Depth::OFFSET,
    ensures
        ({
            let k16 = stored_key16(key);
            let slot = probe_slot(c, k16, gen);
            let stored = TtEntry::saved(probed_entry(c, k16, gen), key, value, pv, bound, depth, mv, eval, generation);
            let after = c.update(slot, stored);
            &&& probe_found(after, k16)
            &&& probe_slot(after, k16, later_gen) == slot
            &&& probed_entry(after, k16, later_gen) == TtEntry::with_generation(stored, later_gen)
        }),
{
}


/// Renewing the generation of a slot (to a multiple of 8, as the table hands out) keeps its
/// key, move, score, evaluation, depth, bound and principal-variation flag, and sets its
/// generation.
pub proof fn lemma_with_generation_fields(e: TtEntry, gen: u8)
    requires
        gen % 8 == 0,
    ensures
        ({
            let r = TtEntry::with_generation(e, gen);
            &&& r.key16() == e.key16()
            &&& r.mv16() == e.mv16()
            &&& r.value16() == e.value16()
            &&& r.eval16() == e.eval16()
            &&& r.depth8() == e.depth8()
            &&& r.spec_bound() == e.spec_bound()
            &&& (r.genbound8() & 4u8 != 0u8) == (e.genbound8() & 4u8 != 0u8)
            &&& r.genbound8() & 0xf8u8 == gen
        }),
{
    let b = e.genbound8;
    assert(gen % 8 == 0 ==> {
        &&& (gen | (b & 7u8)) & 3u8 == b & 3u8
        &&& (gen | (b & 7u8)) & 4u8 == b & 4u8
        &&& (gen | (b & 7u8)) & 0xf8u8 == gen
    }) by (bit_vector);
}

/// What a caller reads back: after a probe of `key` hands out a slot and `save` overwrites it
/// with a result for that key, a later probe of the same key finds it and hands out the
/// saved score, evaluation, depth, bound, principal-variation flag and move, with the later
/// generation.
pub proof fn lemma_probe_reads_saved(
    c: Seq<TtEntry>,
    key: Key,
    gen: u8,
    later_gen: u8,
    value: Value,
    pv: bool,
    bound: Bound,
    depth: Depth,
    mv: Option<Move>,
    eval: Value,
    generation: u8,
)
    requires
        c.len() == CLUSTER_SIZE,
        Depth::OFFSET < depth.0 < 256 + Depth::OFFSET,
        generation % 8 == 0,
        later_gen % 8 == 0,
        i16::MIN <= value.0 <= i16::MAX,
        i16::MIN <= eval.0 <= i16::MAX,
        TtEntry::save_overwrites(probed_entry(c, stored_key16(key), gen), key, bound, depth),
    ensures
        ({
            let k16 = stored_key16(key);
            let slot = probe_slot(c, k16, gen);
            let stored = TtEntry::saved(probed_entry(c, k16, gen), key, value, pv, bound, depth, mv, eval, generation);
            let r = probed_entry(c.update(slot, stored), k16, later_gen);
            &&& probe_found(c.update(slot, stored), k16)
            &&& r.key16() == k16
            &&& r.value16() == value.0
            &&& r.eval16() == eval.0
            &&& r.depth8() + Depth::OFFSET == depth.0
            &&& r.spec_bound() == bound
            &&& (r.genbound8() & 4u8 != 0u8) == pv
            &&& r.genbound8() & 0xf8u8 == later_gen
            &&& (mv matches Some(m) ==> r.mv16() == m.0 as u16)
        }),
{
    let k16 = stored_key16(key);
    let stored = TtEntry::saved(probed_entry(c, k16, gen), key, value, pv, bound, depth, mv, eval, generation);
    lemma_probe_finds_saved(c, key, gen, later_gen, value, pv, bound, depth, mv, eval, generation);
    lemma_save_then_read(probed_entry(c, k16, gen), key, value, pv, bound, depth, mv, eval, generation);
    lemma_with_generation_fields(stored, later_gen);
}

} // verus!
