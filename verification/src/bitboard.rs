use vstd::prelude::*;
use crate::types::{Color, File, Piece, PieceType, Rank, RankAsBlack, Relation, Square};

verus! {

/// The squares of the board as a set of bits: square `i` (see `Square::val`) is bit `i` of
/// `v[0]` for `i < 63`, and bit `i - 63` of `v[1]` for the others.
#[derive(Debug, Copy, Clone)]
pub struct Bitboard {
    pub v: [u64; 2],
}

impl PartialEq for Bitboard {
    fn eq(&self, other: &Bitboard) -> (r: bool) {
        self.v[0] == other.v[0] && self.v[1] == other.v[1]
    }
}

impl vstd::std_specs::cmp::PartialEqSpecImpl for Bitboard {
    open spec fn obeys_eq_spec() -> bool {
        true
    }

    open spec fn eq_spec(&self, other: &Bitboard) -> bool {
        self.v[0] == other.v[0] && self.v[1] == other.v[1]
    }
}

impl Eq for Bitboard {
}

/// Bit `i` of `x`.
pub open spec fn bit(x: u64, i: int) -> bool {
    (x >> (i as u64)) & 1u64 == 1u64
}

/// The word of the part that holds square `sq` (`0` for squares below 63, else `1`).
pub open spec fn sq_part(sq: int) -> int {
    if sq < 63 { 0 } else { 1 }
}

/// The bit of square `sq` within its word.
pub open spec fn sq_shift(sq: int) -> int {
    if sq < 63 { sq } else { sq - 63 }
}

/// The word of part `i` of the mask of square `sq`.
pub open spec fn sq_word(sq: int, i: int) -> u64 {
    if sq_part(sq) == i { 1u64 << (sq_shift(sq) as u64) } else { 0u64 }
}

/// The set `b` with square `sq` toggled, word by word.
pub open spec fn toggled(b: Bitboard, sq: int) -> Bitboard {
    Bitboard::from_words(b.v[0] ^ sq_word(sq, 0), b.v[1] ^ sq_word(sq, 1))
}

/// The number of squares below `n` in `b`.
pub open spec fn bb_count(b: Bitboard, n: int) -> int
    decreases n,
{
    if n <= 0 {
        0
    } else {
        bb_count(b, n - 1) + if b.has(n - 1) { 1int } else { 0int }
    }
}

/// Facts about single bits of 64-bit words, proved once by bit blasting.
proof fn lemma_word_facts(a: u64, b: u64, s: u64)
    by (bit_vector)
    ensures
        ((a | b) >> s) & 1u64 == 1u64 <==> ((a >> s) & 1u64 == 1u64 || (b >> s) & 1u64 == 1u64),
        ((a & b) >> s) & 1u64 == 1u64 <==> ((a >> s) & 1u64 == 1u64 && (b >> s) & 1u64 == 1u64),
        ((a ^ b) >> s) & 1u64 == 1u64 <==> ((a >> s) & 1u64 == 1u64) != ((b >> s) & 1u64 == 1u64),
        s < 64 ==> (((!a) >> s) & 1u64 == 1u64 <==> !((a >> s) & 1u64 == 1u64)),
        a < 64 && b < 64 ==> ((((1u64 << a) >> b) & 1u64 == 1u64) <==> a == b),
        (0u64 >> s) & 1u64 == 0u64,
        s < 63 ==> (0x7fff_ffff_ffff_ffffu64 >> s) & 1u64 == 1u64,
        s < 18 ==> (0x3ffffu64 >> s) & 1u64 == 1u64,
        s < 63 ==> 1u64 << s < 0x8000_0000_0000_0000u64,
        s < 18 ==> 1u64 << s < 0x4_0000u64,
        (a | b != 0) <==> (a != 0 || b != 0),
        s < 64 ==> ((a & (1u64 << s)) != 0 <==> (a >> s) & 1u64 == 1u64),
        a & 0u64 == 0u64,
        s < 64 && (a >> s) & 1u64 == 1u64 ==> a != 0,
        (a < 0x8000_0000_0000_0000u64 && s < 64 && (a >> s) & 1u64 == 1u64) ==> s < 63,
        (a < 0x4_0000u64 && s < 64 && (a >> s) & 1u64 == 1u64) ==> s < 18,
        (a >> s) & 1u64 == 0u64 || (a >> s) & 1u64 == 1u64,
{
}

/// Seven bits taken from a word at `s` are the word's bits `s` to `s + 6`.
proof fn lemma_field_index(w: u64, s: u64, k: u64)
    by (bit_vector)
    requires
        s + k < 64,
        k < 7,
    ensures
        (((w >> s) & 127u64) >> k) & 1u64 == (w >> (s + k)) & 1u64,
        (w >> s) & 127u64 < 128,
{
}

/// The two parts of a set stay within their ranges under `|`, `&` and `^`.
proof fn lemma_word_bounds(a: u64, c: u64)
    by (bit_vector)
    ensures
        a < 0x8000_0000_0000_0000u64 && c < 0x8000_0000_0000_0000u64 ==> a | c < 0x8000_0000_0000_0000u64,
        a < 0x4_0000u64 && c < 0x4_0000u64 ==> a | c < 0x4_0000u64,
        a < 0x8000_0000_0000_0000u64 ==> a & c < 0x8000_0000_0000_0000u64,
        a < 0x4_0000u64 ==> a & c < 0x4_0000u64,
        a < 0x8000_0000_0000_0000u64 && c < 0x8000_0000_0000_0000u64 ==> a ^ c < 0x8000_0000_0000_0000u64,
        a < 0x4_0000u64 && c < 0x4_0000u64 ==> a ^ c < 0x4_0000u64,
{
}

pub broadcast proof fn lemma_bit_or(a: u64, b: u64, i: int)
    requires 0 <= i < 64,
    ensures #[trigger] bit(a | b, i) == (bit(a, i) || bit(b, i)),
{
    let s = i as u64;
    lemma_word_facts(a, b, s);
}

pub broadcast proof fn lemma_bit_and(a: u64, b: u64, i: int)
    requires 0 <= i < 64,
    ensures #[trigger] bit(a & b, i) == (bit(a, i) && bit(b, i)),
{
    let s = i as u64;
    lemma_word_facts(a, b, s);
}

pub broadcast proof fn lemma_bit_xor(a: u64, b: u64, i: int)
    requires 0 <= i < 64,
    ensures #[trigger] bit(a ^ b, i) == (bit(a, i) != bit(b, i)),
{
    let s = i as u64;
    lemma_word_facts(a, b, s);
}

pub broadcast proof fn lemma_bit_not(a: u64, i: int)
    requires 0 <= i < 64,
    ensures #[trigger] bit(!a, i) == !bit(a, i),
{
    let s = i as u64;
    lemma_word_facts(a, 0, s);
}

pub broadcast proof fn lemma_bit_one_shl(s: int, i: int)
    requires
        0 <= i < 64,
        0 <= s < 64,
    ensures #[trigger] bit(1u64 << (s as u64), i) == (s == i),
{
    let a = s as u64;
    let b = i as u64;
    lemma_word_facts(a, b, 0);
}

pub broadcast proof fn lemma_bit_zero(i: int)
    requires 0 <= i < 64,
    ensures #[trigger] bit(0u64, i) == false,
{
    let s = i as u64;
    lemma_word_facts(0, 0, s);
}

/// Toggling square `sq` changes that square alone.
pub proof fn lemma_toggled_has(b: Bitboard, sq: int, x: int)
    requires
        0 <= sq < 81,
        0 <= x < 81,
    ensures
        toggled(b, sq).has(x) == (b.has(x) != (x == sq)),
{
    broadcast use group_bits;
    let p = sq_part(x);
    assert(bit(sq_word(sq, p), sq_shift(x)) == (x == sq));
}

pub proof fn lemma_bb_count_nonneg(b: Bitboard, n: int)
    ensures
        bb_count(b, n) >= 0,
    decreases n,
{
    if n > 0 {
        lemma_bb_count_nonneg(b, n - 1);
    }
}

/// Taking square `sq` out of `a` leaves one square fewer.
pub proof fn lemma_removed_count(a: Bitboard, b: Bitboard, sq: int, n: int)
    requires
        0 <= sq < 81,
        0 <= n <= 81,
        a.has(sq),
        forall|i: int| 0 <= i < 81 ==> #[trigger] b.has(i) == (a.has(i) && i != sq),
    ensures
        bb_count(b, n) == bb_count(a, n) - (if sq < n { 1int } else { 0int }),
    decreases n,
{
    if n > 0 {
        lemma_removed_count(a, b, sq, n - 1);
        assert(b.has(n - 1) == (a.has(n - 1) && n - 1 != sq));
    }
}

/// Toggling a square of `b` takes it out, leaving one square fewer.
pub proof fn lemma_toggled_count(b: Bitboard, sq: int, n: int)
    requires
        0 <= sq < 81,
        0 <= n <= 81,
        b.has(sq),
    ensures
        bb_count(toggled(b, sq), n) == bb_count(b, n) - (if sq < n { 1int } else { 0int }),
        bb_count(b, n) >= 0,
    decreases n,
{
    if n > 0 {
        lemma_toggled_count(b, sq, n - 1);
        lemma_toggled_has(b, sq, n - 1);
    }
}

pub broadcast group group_bits {
    lemma_bit_or,
    lemma_bit_and,
    lemma_bit_xor,
    lemma_bit_not,
    lemma_bit_one_shl,
    lemma_bit_zero,
}

impl Bitboard {
    pub const NUM: usize = 2;

    /// Whether square `sq` (a number `0 <= sq < 81`) is in the set.
    pub open spec fn has(self, sq: int) -> bool {
        bit(self.v[sq_part(sq)], sq_shift(sq))
    }

    /// No bit stands outside the board: `v[0]` uses bits 0 to 62, `v[1]` bits 0 to 17.
    pub open spec fn wf(self) -> bool {
        self.v[0] < 0x8000_0000_0000_0000u64 && self.v[1] < 0x4_0000u64
    }

    /// The set holding the squares of both words' set bits, word by word.
    pub open spec fn from_words(a: u64, b: u64) -> Bitboard {
        Bitboard { v: [a, b] }
    }

    /// The board with no square.
    #[allow(non_snake_case)]
    pub fn ZERO() -> (r: Bitboard)
        ensures
            r == Bitboard::from_words(0, 0),
            r.v[0] == 0 && r.v[1] == 0,
            r.wf(),
            forall|i: int| 0 <= i < 81 ==> !#[trigger] r.has(i),
    {
        proof { broadcast use group_bits; }
        Bitboard { v: [0, 0] }
    }

    /// The board with every square.
    #[allow(non_snake_case)]
    pub fn ALL() -> (r: Bitboard)
        ensures
            r == Bitboard::from_words(0x7fff_ffff_ffff_ffffu64, 0x3ffffu64),
            r.v[0] == 0x7fff_ffff_ffff_ffffu64 && r.v[1] == 0x3ffffu64,
            r.wf(),
            forall|i: int| 0 <= i < 81 ==> #[trigger] r.has(i),
    {
        let r = Bitboard { v: [0x7fff_ffff_ffff_ffff, 0x3ffff] };
        proof {
            assert forall|i: int| 0 <= i < 81 implies #[trigger] r.has(i) by {
                if i < 63 {
                    let s = i as u64;
                    lemma_word_facts(0, 0, s);
                } else {
                    let s = (i - 63) as u64;
                    lemma_word_facts(0, 0, s);
                }
            }
        }
        r
    }

    /// The word `i` of the set.
    pub fn value(&self, i: usize) -> (r: u64)
        requires i < 2,
        ensures r == self.v[i as int],
    {
        self.v[i]
    }

    /// The part (word index) that holds square `sq`.
    pub fn part(sq: Square) -> (r: usize)
        ensures r == sq_part(sq.val()),
    {
        if Square::SQ79.to_i32() < sq.to_i32() { 1 } else { 0 }
    }

    /// The set of the single square `sq`.
    pub fn square_mask(sq: Square) -> (r: Bitboard)
        ensures
            r == Bitboard::from_words(sq_word(sq.val(), 0), sq_word(sq.val(), 1)),
            r.v[0] == sq_word(sq.val(), 0),
            r.v[1] == sq_word(sq.val(), 1),
            r.wf(),
            forall|i: int| 0 <= i < 81 ==> #[trigger] r.has(i) == (i == sq.val()),
    {
        let i = sq.to_i32();
        let r = if i < 63 {
            Bitboard { v: [1u64 << (i as u64), 0] }
        } else {
            Bitboard { v: [0, 1u64 << ((i - 63) as u64)] }
        };
        proof {
            broadcast use group_bits;
            let s = sq_shift(i as int) as u64;
            if i < 63 {
                lemma_word_facts(0, 0, s);
            } else {
                lemma_word_facts(0, 0, s);
            }
        }
        r
    }

    /// Union.
    pub fn or(self, other: Bitboard) -> (r: Bitboard)
        ensures
            r.v[0] == self.v[0] | other.v[0],
            r.v[1] == self.v[1] | other.v[1],
            forall|i: int| 0 <= i < 81 ==> #[trigger] r.has(i) == (self.has(i) || other.has(i)),
    {
        proof { broadcast use group_bits; }
        Bitboard { v: [self.value(0) | other.value(0), self.value(1) | other.value(1)] }
    }

    /// Intersection.
    pub fn and(self, other: Bitboard) -> (r: Bitboard)
        ensures
            r.v[0] == self.v[0] & other.v[0],
            r.v[1] == self.v[1] & other.v[1],
            forall|i: int| 0 <= i < 81 ==> #[trigger] r.has(i) == (self.has(i) && other.has(i)),
    {
        proof { broadcast use group_bits; }
        Bitboard { v: [self.value(0) & other.value(0), self.value(1) & other.value(1)] }
    }

    /// Symmetric difference.
    pub fn xor_bb(self, other: Bitboard) -> (r: Bitboard)
        ensures
            r == Bitboard::from_words(self.v[0] ^ other.v[0], self.v[1] ^ other.v[1]),
            r.v[0] == self.v[0] ^ other.v[0],
            r.v[1] == self.v[1] ^ other.v[1],
            forall|i: int| 0 <= i < 81 ==> #[trigger] r.has(i) == (self.has(i) != other.has(i)),
    {
        proof { broadcast use group_bits; }
        Bitboard { v: [self.value(0) ^ other.value(0), self.value(1) ^ other.value(1)] }
    }

    /// Complement of every bit of both words (bits outside the board included).
    pub fn not(self) -> (r: Bitboard)
        ensures
            r.v[0] == !self.v[0],
            r.v[1] == !self.v[1],
            forall|i: int| 0 <= i < 81 ==> #[trigger] r.has(i) == !self.has(i),
    {
        proof { broadcast use group_bits; }
        Bitboard { v: [!self.value(0), !self.value(1)] }
    }

    pub fn set(&mut self, sq: Square)
        ensures
            final(self).v[0] == old(self).v[0] | sq_word(sq.val(), 0),
            final(self).v[1] == old(self).v[1] | sq_word(sq.val(), 1),
            forall|i: int| 0 <= i < 81 ==> #[trigger] final(self).has(i) == (old(self).has(i) || i == sq.val()),
            old(self).wf() ==> final(self).wf(),
    {
        let m = Bitboard::square_mask(sq);
        proof {
            let a = self.v[0];
            let b = self.v[1];
            let c = m.v[0];
            let d = m.v[1];
            lemma_word_bounds(a, c);
            lemma_word_bounds(b, d);
        }
        *self = self.or(m);
    }

    pub fn clear(&mut self, sq: Square)
        ensures
            final(self).v[0] == old(self).v[0] & !sq_word(sq.val(), 0),
            final(self).v[1] == old(self).v[1] & !sq_word(sq.val(), 1),
            forall|i: int| 0 <= i < 81 ==> #[trigger] final(self).has(i) == (old(self).has(i) && i != sq.val()),
            old(self).wf() ==> final(self).wf(),
    {
        let m = Bitboard::square_mask(sq).not();
        proof {
            let a = self.v[0];
            let b = self.v[1];
            let c = m.v[0];
            let d = m.v[1];
            lemma_word_bounds(a, c);
            lemma_word_bounds(b, d);
        }
        *self = self.and(m);
    }

    pub fn xor(&mut self, sq: Square)
        ensures
            final(self).v[0] == old(self).v[0] ^ sq_word(sq.val(), 0),
            final(self).v[1] == old(self).v[1] ^ sq_word(sq.val(), 1),
            forall|i: int| 0 <= i < 81 ==> #[trigger] final(self).has(i) == (old(self).has(i) != (i == sq.val())),
            old(self).wf() ==> final(self).wf(),
    {
        let m = Bitboard::square_mask(sq);
        proof {
            let a = self.v[0];
            let b = self.v[1];
            let c = m.v[0];
            let d = m.v[1];
            lemma_word_bounds(a, c);
            lemma_word_bounds(b, d);
        }
        *self = self.xor_bb(m);
    }

    /// Both words ORed together.
    pub fn merge(&self) -> (r: u64)
        ensures r == self.v[0] | self.v[1],
    {
        self.value(0) | self.value(1)
    }

    /// Whether any bit is set, in either word.
    pub fn to_bool(self) -> (r: bool)
        ensures r == (self.v[0] != 0 || self.v[1] != 0),
    {
        let a = self.v[0];
        let b = self.v[1];
        proof { lemma_word_facts(a, b, 0); }
        self.merge() != 0
    }

    pub fn and_to_bool(self, other: Bitboard) -> (r: bool)
        ensures r == ((self.v[0] & other.v[0]) != 0 || (self.v[1] & other.v[1]) != 0),
    {
        self.and(other).to_bool()
    }

    /// The complement of `self`, intersected with `other`.
    pub fn notand(self, other: Bitboard) -> (r: Bitboard)
        ensures
            r.v[0] == !self.v[0] & other.v[0],
            r.v[1] == !self.v[1] & other.v[1],
            forall|i: int| 0 <= i < 81 ==> #[trigger] r.has(i) == (!self.has(i) && other.has(i)),
    {
        self.not().and(other)
    }

    pub fn is_set(&self, sq: Square) -> (r: bool)
        ensures r == self.has(sq.val()),
    {
        let m = Bitboard::square_mask(sq);
        let r = self.and_to_bool(m);
        proof {
            let a = self.v[0];
            let b = self.v[1];
            let s = sq_shift(sq.val()) as u64;
            if sq.val() < 63 {
                lemma_word_facts(a, 0, s);
                lemma_word_facts(b, 0, s);
            } else {
                lemma_word_facts(b, 0, s);
                lemma_word_facts(a, 0, s);
            }
        }
        r
    }
}


/// A mask word within a part's range keeps an intersection within it.
proof fn lemma_word_bounds_right(a: u64, c: u64)
    by (bit_vector)
    ensures
        c < 0x8000_0000_0000_0000u64 ==> a & c < 0x8000_0000_0000_0000u64,
        c < 0x4_0000u64 ==> a & c < 0x4_0000u64,
{
}

impl Bitboard {
    /// The union of two sets on the board stays on the board.
    pub proof fn lemma_or_wf(a: Bitboard, b: Bitboard)
        requires
            a.wf(),
            b.wf(),
        ensures
            a.v[0] | b.v[0] < 0x8000_0000_0000_0000u64,
            a.v[1] | b.v[1] < 0x4_0000u64,
    {
        lemma_word_bounds(a.v[0], b.v[0]);
        lemma_word_bounds(a.v[1], b.v[1]);
    }

    /// The symmetric difference of two sets on the board stays on the board.
    pub proof fn lemma_xor_wf(a: Bitboard, b: Bitboard)
        requires
            a.wf(),
            b.wf(),
        ensures
            a.v[0] ^ b.v[0] < 0x8000_0000_0000_0000u64,
            a.v[1] ^ b.v[1] < 0x4_0000u64,
    {
        lemma_word_bounds(a.v[0], b.v[0]);
        lemma_word_bounds(a.v[1], b.v[1]);
    }

    /// An intersection with a set on the board stays on the board.
    pub proof fn lemma_and_wf(a: Bitboard, b: Bitboard)
        requires
            a.wf() || b.wf(),
        ensures
            a.v[0] & b.v[0] < 0x8000_0000_0000_0000u64,
            a.v[1] & b.v[1] < 0x4_0000u64,
    {
        lemma_word_bounds(a.v[0], b.v[0]);
        lemma_word_bounds(a.v[1], b.v[1]);
        lemma_word_bounds_right(a.v[0], b.v[0]);
        lemma_word_bounds_right(a.v[1], b.v[1]);
    }
}

/// The number of set bits among the `n` lowest bits of `x`.
pub open spec fn bits_below(x: u64, n: nat) -> nat
    decreases n,
{
    if n == 0 {
        0
    } else {
        bits_below(x, (n - 1) as nat) + if bit(x, n - 1) { 1nat } else { 0nat }
    }
}

/// The number of set bits of `x`.
pub open spec fn popcount(x: u64) -> nat {
    bits_below(x, 64)
}

proof fn lemma_count_low_part(b: Bitboard, n: int)
    requires
        0 <= n <= 63,
    ensures
        bb_count(b, n) == bits_below(b.v[0], n as nat),
    decreases n,
{
    if n > 0 {
        lemma_count_low_part(b, n - 1);
    }
}

proof fn lemma_count_high_part(b: Bitboard, n: int)
    requires
        63 <= n <= 81,
    ensures
        bb_count(b, n) == bits_below(b.v[0], 63) + bits_below(b.v[1], (n - 63) as nat),
    decreases n,
{
    if n > 63 {
        lemma_count_high_part(b, n - 1);
    } else {
        lemma_count_low_part(b, 63);
    }
}

proof fn lemma_bits_above_zero(x: u64, k: nat, n: nat)
    requires
        k <= n <= 64,
        forall|i: int| k <= i < 64 ==> !#[trigger] bit(x, i),
    ensures
        bits_below(x, n) == bits_below(x, k),
    decreases n,
{
    if n > k {
        lemma_bits_above_zero(x, k, (n - 1) as nat);
    }
}

/// The set bits of both words of a set on the board are its squares.
pub proof fn lemma_count_ones_squares(b: Bitboard)
    requires
        b.wf(),
    ensures
        popcount(b.v[0]) + popcount(b.v[1]) == bb_count(b, 81),
{
    let a = b.v[0];
    let c = b.v[1];
    assert forall|i: int| 63 <= i < 64 implies !#[trigger] bit(a, i) by {
        lemma_word_facts(a, 0, i as u64);
    }
    assert forall|i: int| 18 <= i < 64 implies !#[trigger] bit(c, i) by {
        lemma_word_facts(c, 0, i as u64);
    }
    lemma_bits_above_zero(a, 63, 64);
    lemma_bits_above_zero(c, 18, 64);
    lemma_count_high_part(b, 81);
}

/// The number of numbers below `n` (from 0) that `p` holds of.
pub open spec fn count_where(p: spec_fn(int) -> bool, n: int) -> int
    decreases n,
{
    if n <= 0 {
        0
    } else {
        count_where(p, n - 1) + if p(n - 1) { 1int } else { 0int }
    }
}

pub proof fn lemma_count_where_bounds(p: spec_fn(int) -> bool, n: int)
    requires
        0 <= n,
    ensures
        0 <= count_where(p, n) <= n,
    decreases n,
{
    if n > 0 {
        lemma_count_where_bounds(p, n - 1);
    }
}

/// A set holds as many squares as the predicate it stands for.
pub proof fn lemma_bb_count_where(b: Bitboard, p: spec_fn(int) -> bool, n: int)
    requires
        0 <= n <= 81,
        forall|x: int| 0 <= x < 81 ==> #[trigger] b.has(x) == p(x),
    ensures
        bb_count(b, n) == count_where(p, n),
    decreases n,
{
    if n > 0 {
        lemma_bb_count_where(b, p, n - 1);
        assert(b.has(n - 1) == p(n - 1));
    }
}

/// Counts the set bits of a word, bit by bit.
pub fn u64_count_ones(x: u64) -> (r: u32)
    ensures
        r == popcount(x),
        r <= 64,
{
    let mut c: u32 = 0;
    let mut i: u64 = 0;
    while i < 64
        invariant
            i <= 64,
            c == bits_below(x, i as nat),
            c <= i,
        decreases 64 - i,
    {
        let b = (x >> i) & 1;
        proof { lemma_word_facts(x, 0, i); }
        c += b as u32;
        i += 1;
    }
    c
}

/// Facts about the low bits of a word, proved once by bit blasting.
proof fn lemma_low_bit_facts(v: u64, j: u64, s: u64, t: u64)
    by (bit_vector)
    ensures
        v & sub_one(1u64 << 0u64) == 0,
        (j < 63 && v & sub_one(1u64 << j) == 0 && (v >> j) & 1u64 == 0u64) ==> v & sub_one(1u64 << ((j + 1) as u64)) == 0,
        (s < 64 && t < 64 && (v >> s) & 1u64 == 1u64 && v & sub_one(1u64 << s) == 0) ==>
            ((((v & sub_one(v)) >> t) & 1u64 == 1u64) == (((v >> t) & 1u64 == 1u64) && t != s)),
        v & sub_one(v) <= v,
{
}

/// Bits `0` to `k - 1` of `v` are all zero.
proof fn lemma_low_bits_zero(v: u64, k: u64)
    requires
        k < 64,
        forall|j: u64| j < k ==> #[trigger] ((v >> j) & 1u64) == 0u64,
    ensures
        v & sub_one(1u64 << k) == 0,
    decreases k,
{
    if k == 0 {
        lemma_low_bit_facts(v, 0, 0, 0);
    } else {
        let j = (k - 1) as u64;
        lemma_low_bits_zero(v, j);
        assert((v >> j) & 1u64 == 0u64);
        lemma_low_bit_facts(v, j, 0, 0);
    }
}

/// `x - 1` for a non-zero word.
pub open spec fn sub_one(x: u64) -> u64 {
    (x - 1) as u64
}

/// Clearing the lowest set bit (at `s`) with `v & (v - 1)` keeps every other bit.
proof fn lemma_clear_lowest(v: u64, s: u64)
    requires
        s < 64,
        (v >> s) & 1u64 == 1u64,
        v & sub_one(1u64 << s) == 0,
    ensures
        v != 0,
        forall|i: int| 0 <= i < 64 ==> #[trigger] bit(v & sub_one(v), i) == (bit(v, i) && i != s),
        v & sub_one(v) <= v,
{
    lemma_word_facts(v, 0, s);
    assert forall|i: int| 0 <= i < 64 implies #[trigger] bit(v & sub_one(v), i) == (bit(v, i) && i != s) by {
        let t = i as u64;
        lemma_low_bit_facts(v, 0, s, t);
    }
    lemma_low_bit_facts(v, 0, 0, 0);
}

impl Bitboard {
    /// The number of set bits of both words.
    pub fn count_ones(&self) -> (r: u32)
        ensures r == popcount(self.v[0]) + popcount(self.v[1]),
    {
        u64_count_ones(self.value(0)) + u64_count_ones(self.value(1))
    }

    /// The lowest square of a set that is not empty.
    pub open spec fn lsb_index(self) -> int {
        if self.v[0] != 0 {
            vstd::std_specs::bits::u64_trailing_zeros(self.v[0]) as int
        } else {
            vstd::std_specs::bits::u64_trailing_zeros(self.v[1]) as int + 63
        }
    }

    proof fn lemma_lsb(self)
        requires
            self.wf(),
            self.v[0] != 0 || self.v[1] != 0,
        ensures
            0 <= self.lsb_index() < 81,
            self.v[0] != 0 ==> self.lsb_index() < 63,
            self.v[0] == 0 ==> self.lsb_index() >= 63,
            self.has(self.lsb_index()),
            forall|i: int| 0 <= i < self.lsb_index() ==> !#[trigger] self.has(i),
            self.v[sq_part(self.lsb_index())] & sub_one(1u64 << (sq_shift(self.lsb_index()) as u64)) == 0,
    {
        broadcast use vstd::std_specs::bits::axiom_u64_trailing_zeros;
        let a = self.v[0];
        let b = self.v[1];
        if a != 0 {
            let s = vstd::std_specs::bits::u64_trailing_zeros(a) as u64;
            lemma_word_facts(a, 0, s);
            assert forall|i: int| 0 <= i < self.lsb_index() implies !#[trigger] self.has(i) by {
                assert((a >> (i as u64)) & 1u64 == 0u64);
            }
            lemma_low_bits_zero(a, s);
        } else {
            let s = vstd::std_specs::bits::u64_trailing_zeros(b) as u64;
            lemma_word_facts(b, 0, s);
            assert forall|i: int| 0 <= i < self.lsb_index() implies !#[trigger] self.has(i) by {
                if i < 63 {
                    let t = i as u64;
                    lemma_word_facts(0, 0, t);
                } else {
                    assert((b >> ((i - 63) as u64)) & 1u64 == 0u64);
                }
            }
            lemma_low_bits_zero(b, s);
        }
    }

    /// A set on the board has a set bit exactly when it holds a square.
    pub proof fn lemma_nonempty(self)
        requires
            self.wf(),
        ensures
            (self.v[0] != 0 || self.v[1] != 0) == exists|x: int| 0 <= x < 81 && #[trigger] self.has(x),
    {
        if self.v[0] != 0 || self.v[1] != 0 {
            self.lemma_lsb();
        }
        assert forall|x: int| 0 <= x < 81 && #[trigger] self.has(x) implies self.v[0] != 0 || self.v[1] != 0 by {
            let a = self.v[sq_part(x)];
            let s = sq_shift(x) as u64;
            lemma_word_facts(a, 0, s);
        }
    }

    /// The lowest square of a set that is not empty.
    pub fn lsb_unchecked(&self) -> (r: Square)
        requires
            self.wf(),
            self.v[0] != 0 || self.v[1] != 0,
        ensures
            r.val() == self.lsb_index(),
            self.has(r.val()),
            forall|i: int| 0 <= i < r.val() ==> !#[trigger] self.has(i),
    {
        proof { self.lemma_lsb(); }
        if self.value(0) != 0 {
            return Square(self.value(0).trailing_zeros() as i32);
        }
        Square((self.value(1).trailing_zeros() + 63) as i32)
    }

    /// Removes the lowest square of a set that is not empty, and returns it.
    pub fn pop_lsb_unchecked(&mut self) -> (r: Square)
        requires
            old(self).wf(),
            old(self).v[0] != 0 || old(self).v[1] != 0,
        ensures
            r.val() == old(self).lsb_index(),
            old(self).has(r.val()),
            forall|i: int| 0 <= i < r.val() ==> !#[trigger] old(self).has(i),
            final(self).wf(),
            forall|i: int| 0 <= i < 81 ==> #[trigger] final(self).has(i) == (old(self).has(i) && i != r.val()),
    {
        proof { self.lemma_lsb(); }
        let ghost s = sq_shift(self.lsb_index()) as u64;
        if self.value(0) != 0 {
            let sq = Square(self.value(0).trailing_zeros() as i32);
            proof { lemma_clear_lowest(self.v[0], s); }
            let a = self.v[0];
            self.v[0] = a & (a - 1);
            proof {
                assert(self.v[0] == old(self).v[0] & sub_one(old(self).v[0]));
            }
            return sq;
        }
        let sq = Square((self.value(1).trailing_zeros() + 63) as i32);
        proof { lemma_clear_lowest(self.v[1], s); }
        let b = self.v[1];
        self.v[1] = b & (b - 1);
        proof {
            assert(self.v[1] == old(self).v[1] & sub_one(old(self).v[1]));
        }
        sq
    }

    /// Removes and returns the lowest square, or `None` when the set is empty.
    pub fn pop_lsb(&mut self) -> (r: Option<Square>)
        requires old(self).wf(),
        ensures
            final(self).wf(),
            r is None <==> (old(self).v[0] == 0 && old(self).v[1] == 0),
            r is None ==> *final(self) == *old(self),
            r matches Some(sq) ==> {
                &&& sq.val() == old(self).lsb_index()
                &&& old(self).has(sq.val())
                &&& forall|i: int| 0 <= i < sq.val() ==> !#[trigger] old(self).has(i)
                &&& forall|i: int| 0 <= i < 81 ==> #[trigger] final(self).has(i) == (old(self).has(i) && i != sq.val())
            },
    {
        if self.value(0) != 0 || self.value(1) != 0 {
            return Some(self.pop_lsb_unchecked());
        }
        None
    }
}

proof fn lemma_file_word(k: u64, i: u64)
    by (bit_vector)
    requires
        k <= 6,
        i < 64,
    ensures
        (((0x1ffu64 << (9 * k)) >> i) & 1u64 == 1u64) <==> (9 * k <= i && i < 9 * k + 9),
        0x1ffu64 << (9 * k) < 0x8000_0000_0000_0000u64,
        0x1ffu64 << 0u64 == 0x1ffu64,
        0x1ffu64 << 9u64 < 0x4_0000u64,
{
}

proof fn lemma_rank_words(r: u64, i: u64)
    by (bit_vector)
    requires
        r < 9,
        i < 64,
    ensures
        (((0x40_2010_0804_0201u64 << r) >> i) & 1u64 == 1u64) <==> (i < 63 && i % 9 == r),
        (((0x201u64 << r) >> i) & 1u64 == 1u64) <==> (i < 18 && i % 9 == r),
        0x40_2010_0804_0201u64 << r < 0x8000_0000_0000_0000u64,
        0x201u64 << r < 0x4_0000u64,
        0x40_2010_0804_0201u64 << 0u64 == 0x40_2010_0804_0201u64,
        0x201u64 << 0u64 == 0x201u64,
{
}

/// The words of the promotion zones: bits of the ranks one to three, and seven to nine.
proof fn lemma_opponent_field_words(t: u64)
    by (bit_vector)
    requires
        t < 64,
    ensures
        ((0x1c0_e070_381c_0e07u64 >> t) & 1u64 == 1u64) <==> (t < 63 && t % 9 < 3),
        ((0xe07u64 >> t) & 1u64 == 1u64) <==> (t < 18 && t % 9 < 3),
        ((0x7038_1c0e_0703_81c0u64 >> t) & 1u64 == 1u64) <==> (t < 63 && t % 9 >= 6),
        ((0x3_81c0u64 >> t) & 1u64 == 1u64) <==> (t < 18 && t % 9 >= 6),
{
}

impl Bitboard {
    /// The words of the mask of file `f`.
    pub open spec fn file_mask_words(f: int) -> (u64, u64) {
        if f < 7 { ((0x1ffu64 << ((9 * f) as u64)) as u64, 0u64) } else { (0u64, (0x1ffu64 << ((9 * (f - 7)) as u64)) as u64) }
    }

    /// The set of the squares of file `file`.
    pub fn file_mask(file: File) -> (r: Bitboard)
        ensures
            r.v[0] == Bitboard::file_mask_words(file.val()).0,
            r.v[1] == Bitboard::file_mask_words(file.val()).1,
            r.wf(),
            forall|i: int| 0 <= i < 81 ==> #[trigger] r.has(i) == (i / 9 == file.val()),
    {
        let r = match file {
            File::FILE1 => Bitboard { v: [0x1ff, 0] },
            File::FILE2 => Bitboard { v: [0x1ff << 9, 0] },
            File::FILE3 => Bitboard { v: [0x1ff << (9 * 2), 0] },
            File::FILE4 => Bitboard { v: [0x1ff << (9 * 3), 0] },
            File::FILE5 => Bitboard { v: [0x1ff << (9 * 4), 0] },
            File::FILE6 => Bitboard { v: [0x1ff << (9 * 5), 0] },
            File::FILE7 => Bitboard { v: [0x1ff << (9 * 6), 0] },
            File::FILE8 => Bitboard { v: [0, 0x1ff] },
            File::FILE9 => Bitboard { v: [0, 0x1ff << 9] },
        };
        proof {
            broadcast use group_bits;
            let f = file.val();
            lemma_file_word(0, 0);
            assert forall|i: int| 0 <= i < 81 implies #[trigger] r.has(i) == (i / 9 == f) by {
                if f < 7 {
                    lemma_file_word(f as u64, sq_shift(i) as u64);
                } else {
                    if i >= 63 {
                        lemma_file_word((f - 7) as u64, (i - 63) as u64);
                    }
                }
            }
            if f < 7 {
                lemma_file_word(f as u64, 0);
            } else {
                lemma_file_word((f - 7) as u64, 0);
            }
        }
        r
    }

    /// The words of the mask of rank `rank`.
    pub open spec fn rank_mask_words(rank: int) -> (u64, u64) {
        ((0x40_2010_0804_0201u64 << (rank as u64)) as u64, (0x201u64 << (rank as u64)) as u64)
    }

    /// The set of the squares of rank `rank`.
    pub fn rank_mask(rank: Rank) -> (r: Bitboard)
        ensures
            r.v[0] == Bitboard::rank_mask_words(rank.val()).0,
            r.v[1] == Bitboard::rank_mask_words(rank.val()).1,
            r.wf(),
            forall|i: int| 0 <= i < 81 ==> #[trigger] r.has(i) == (i % 9 == rank.val()),
    {
        let r = match rank {
            Rank::RANK1 => Bitboard { v: [0x40_2010_0804_0201, 0x201] },
            Rank::RANK2 => Bitboard { v: [0x40_2010_0804_0201 << 1, 0x201 << 1] },
            Rank::RANK3 => Bitboard { v: [0x40_2010_0804_0201 << 2, 0x201 << 2] },
            Rank::RANK4 => Bitboard { v: [0x40_2010_0804_0201 << 3, 0x201 << 3] },
            Rank::RANK5 => Bitboard { v: [0x40_2010_0804_0201 << 4, 0x201 << 4] },
            Rank::RANK6 => Bitboard { v: [0x40_2010_0804_0201 << 5, 0x201 << 5] },
            Rank::RANK7 => Bitboard { v: [0x40_2010_0804_0201 << 6, 0x201 << 6] },
            Rank::RANK8 => Bitboard { v: [0x40_2010_0804_0201 << 7, 0x201 << 7] },
            Rank::RANK9 => Bitboard { v: [0x40_2010_0804_0201 << 8, 0x201 << 8] },
        };
        proof {
            let k = rank.val();
            lemma_rank_words(0, 0);
            assert forall|i: int| 0 <= i < 81 implies #[trigger] r.has(i) == (i % 9 == k) by {
                lemma_rank_words(k as u64, sq_shift(i) as u64);
            }
            lemma_rank_words(k as u64, 0);
        }
        r
    }

    /// The promotion zone of side `us`: the three ranks nearest to the opponent.
    pub fn opponent_field_mask(us: Color) -> (r: Bitboard)
        ensures
            r.wf(),
            forall|i: int| 0 <= i < 81 ==> #[trigger] r.has(i) == Rank::from_val(i % 9).spec_is_opponent_field(us),
    {
        let r = match us {
            // The ranks one to three.
            Color::BLACK => Bitboard { v: [0x1c0_e070_381c_0e07, 0xe07] },
            // The ranks seven to nine.
            Color::WHITE => Bitboard { v: [0x7038_1c0e_0703_81c0, 0x3_81c0] },
        };
        proof {
            assert forall|i: int| 0 <= i < 81 implies #[trigger] r.has(i) == Rank::from_val(i % 9).spec_is_opponent_field(us) by {
                let t = sq_shift(i) as u64;
                lemma_opponent_field_words(t);
                assert(Rank::from_val(i % 9).val() == i % 9);
            }
        }
        r
    }
}

/// Whether squares `a` and `b` are at most one file and one rank apart.
pub open spec fn adjacent(a: int, b: int) -> bool {
    -1 <= a / 9 - b / 9 <= 1 && -1 <= a % 9 - b % 9 <= 1
}

/// Whether square `i` is reached by sliding from `prev` in steps of `delta` (in square
/// numbering): each step must land on the board next to the square before it, and the slide
/// stops on the first occupied square, which it includes.
pub open spec fn in_ray(delta: int, prev: int, occupied: Bitboard, i: int) -> bool
    decreases (if delta > 0 { 81 - prev } else { prev }),
{
    let next = prev + delta;
    if delta == 0 || !(0 <= next < 81) || !adjacent(prev, next) {
        false
    } else {
        i == next || (!occupied.has(next) && in_ray(delta, next, occupied, i))
    }
}

/// Whether square `i` is reached by sliding from `sq` along one of the first `n` deltas.
pub open spec fn in_rays(deltas: Seq<i32>, n: int, sq: int, occupied: Bitboard, i: int) -> bool
    decreases n,
{
    if n <= 0 {
        false
    } else {
        in_rays(deltas, n - 1, sq, occupied, i) || in_ray(deltas[n - 1] as int, sq, occupied, i)
    }
}

#[verifier::spinoff_prover]
proof fn lemma_ray_step(before: Bitboard, old_bb: Bitboard, new_bb: Bitboard, delta: int, sq: int, p: int, q: int, occupied: Bitboard)
    requires
        forall|i: int| 0 <= i < 81 ==> (#[trigger] old_bb.has(i) || in_ray(delta, p, occupied, i))
            == (before.has(i) || in_ray(delta, sq, occupied, i)),
        delta != 0,
        q == p + delta,
        0 <= q < 81,
        adjacent(p, q),
        forall|i: int| 0 <= i < 81 ==> #[trigger] new_bb.has(i) == (old_bb.has(i) || i == q),
    ensures
        occupied.has(q) ==> forall|i: int| 0 <= i < 81 ==> #[trigger] new_bb.has(i) == (before.has(i) || in_ray(delta, sq, occupied, i)),
        !occupied.has(q) ==> forall|i: int| 0 <= i < 81 ==> (#[trigger] new_bb.has(i) || in_ray(delta, q, occupied, i))
            == (before.has(i) || in_ray(delta, sq, occupied, i)),
{
    assert forall|i: int| 0 <= i < 81 implies in_ray(delta, p, occupied, i) == (i == q || (!occupied.has(q) && in_ray(delta, q, occupied, i))) by {
    }
    if occupied.has(q) {
        assert forall|i: int| 0 <= i < 81 implies #[trigger] new_bb.has(i) == (before.has(i) || in_ray(delta, sq, occupied, i)) by {
            assert(old_bb.has(i) || in_ray(delta, p, occupied, i) || true);
        }
    } else {
        assert forall|i: int| 0 <= i < 81 implies (#[trigger] new_bb.has(i) || in_ray(delta, q, occupied, i))
            == (before.has(i) || in_ray(delta, sq, occupied, i)) by {
            assert(old_bb.has(i) || in_ray(delta, p, occupied, i) || true);
        }
    }
}

/// The squares that a piece on `sq` reaches by sliding along each of `deltas`, given the
/// occupied squares.
pub fn sliding_attacks(deltas: &[i32], sq: Square, occupied: &Bitboard) -> (r: Bitboard)
    requires forall|k: int| 0 <= k < deltas@.len() ==> #[trigger] deltas@[k] != 0,
    ensures
        r.wf(),
        forall|i: int| 0 <= i < 81 ==> #[trigger] r.has(i) == in_rays(deltas@, deltas@.len() as int, sq.val(), *occupied, i),
{
    let mut bb = Bitboard::ZERO();
    let mut k: usize = 0;
    while k < deltas.len()
        invariant
            k <= deltas@.len(),
            bb.wf(),
            forall|j: int| 0 <= j < deltas@.len() ==> #[trigger] deltas@[j] != 0,
            forall|i: int| 0 <= i < 81 ==> #[trigger] bb.has(i) == in_rays(deltas@, k as int, sq.val(), *occupied, i),
        decreases deltas@.len() - k,
    {
        let delta = deltas[k];
        let ghost before = bb;
        let mut sq_prev = sq;
        let mut sq_opt = sq.checked_add(delta);
        loop
            invariant_except_break
                forall|i: int| 0 <= i < 81 ==> (#[trigger] bb.has(i) || in_ray(delta as int, sq_prev.val(), *occupied, i))
                    == (before.has(i) || in_ray(delta as int, sq.val(), *occupied, i)),
            invariant
                delta != 0,
                delta == deltas@[k as int],
                bb.wf(),
                sq_opt is Some <==> 0 <= sq_prev.val() + delta < 81,
                sq_opt matches Some(t) ==> t.val() == sq_prev.val() + delta,
            ensures
                forall|i: int| 0 <= i < 81 ==> #[trigger] bb.has(i) == (before.has(i) || in_ray(delta as int, sq.val(), *occupied, i)),
                bb.wf(),
            decreases (if delta > 0 { 81 - sq_prev.val() } else { sq_prev.val() }),
        {
            let ghost p = sq_prev.val();
            let ghost old_bb = bb;
            assert(forall|i: int| 0 <= i < 81 ==> (#[trigger] old_bb.has(i) || in_ray(delta as int, p, *occupied, i))
                == (before.has(i) || in_ray(delta as int, sq.val(), *occupied, i)));
            match sq_opt {
                None => {
                    assert forall|i: int| 0 <= i < 81 implies #[trigger] bb.has(i) == (before.has(i) || in_ray(delta as int, sq.val(), *occupied, i)) by {
                        assert(!in_ray(delta as int, p, *occupied, i));
                    }
                    break;
                },
                Some(sq_tmp) => {
                    let df = File::new(sq_prev).to_i32() - File::new(sq_tmp).to_i32();
                    let dr = Rank::new(sq_prev).to_i32() - Rank::new(sq_tmp).to_i32();
                    if -1 <= df && df <= 1 && -1 <= dr && dr <= 1 {
                        let blocked = occupied.is_set(sq_tmp);
                        bb.set(sq_tmp);
                        proof {
                            lemma_ray_step(before, old_bb, bb, delta as int, sq.val(), p, sq_tmp.val(), *occupied);
                        }
                        if blocked {
                            break;
                        }
                        sq_prev = sq_tmp;
                        sq_opt = sq_tmp.checked_add(delta);
                    } else {
                        assert forall|i: int| 0 <= i < 81 implies #[trigger] bb.has(i) == (before.has(i) || in_ray(delta as int, sq.val(), *occupied, i)) by {
                            assert(!in_ray(delta as int, p, *occupied, i));
                            assert((old_bb.has(i) || in_ray(delta as int, p, *occupied, i)) == (before.has(i) || in_ray(delta as int, sq.val(), *occupied, i)));
                        }
                        break;
                    }
                },
            }
        }
        k += 1;
    }
    bb
}
/// Whether `i` is the square one step of `delta` from `sq`: on the board and at most one file
/// and `max_dr` ranks away (so that the step does not wrap round the board's edge).
pub open spec fn step_target(sq: int, delta: int, i: int, max_dr: int) -> bool {
    &&& i == sq + delta
    &&& 0 <= i < 81
    &&& -1 <= sq / 9 - i / 9 <= 1
    &&& -max_dr <= sq % 9 - i % 9 <= max_dr
}

/// Whether `i` is one step from `sq` along one of the first `n` deltas.
pub open spec fn in_steps(deltas: Seq<i32>, n: int, sq: int, i: int, max_dr: int) -> bool
    decreases n,
{
    if n <= 0 {
        false
    } else {
        in_steps(deltas, n - 1, sq, i, max_dr) || step_target(sq, deltas[n - 1] as int, i, max_dr)
    }
}

/// The squares one step from `sq` along each of `deltas` (see `step_target`).
fn step_attacks(deltas: &[i32], sq: Square, max_dr: i32) -> (r: Bitboard)
    requires
        0 <= max_dr <= 8,
    ensures
        r.wf(),
        forall|i: int| 0 <= i < 81 ==> #[trigger] r.has(i) == in_steps(deltas@, deltas@.len() as int, sq.val(), i, max_dr as int),
{
    let mut bb = Bitboard::ZERO();
    let mut k: usize = 0;
    while k < deltas.len()
        invariant
            k <= deltas@.len(),
            0 <= max_dr <= 8,
            bb.wf(),
            forall|i: int| 0 <= i < 81 ==> #[trigger] bb.has(i) == in_steps(deltas@, k as int, sq.val(), i, max_dr as int),
        decreases deltas@.len() - k,
    {
        let delta = deltas[k];
        if let Some(t) = sq.checked_add(delta) {
            let df = File::new(sq).to_i32() - File::new(t).to_i32();
            let dr = Rank::new(sq).to_i32() - Rank::new(t).to_i32();
            if -1 <= df && df <= 1 && -max_dr <= dr && dr <= max_dr {
                bb.set(t);
            }
        }
        k += 1;
    }
    bb
}

/// The squares a king attacks from each square.
pub struct KingAttackTable(Vec<Bitboard>);

impl KingAttackTable {
    /// The eight directions of the king.
    pub const DELTAS: [i32; 8] = [
        Square::DELTA_N,
        Square::DELTA_NE,
        Square::DELTA_E,
        Square::DELTA_SE,
        Square::DELTA_S,
        Square::DELTA_SW,
        Square::DELTA_W,
        Square::DELTA_NW,
    ];

    pub closed spec fn table(self) -> Seq<Bitboard> {
        self.0@
    }

    /// The table holds, for each square, its king steps.
    pub open spec fn valid(self) -> bool {
        &&& self.table().len() == 81
        &&& forall|sq: int| 0 <= sq < 81 ==> (#[trigger] self.table()[sq]).wf()
        &&& forall|sq: int, i: int| 0 <= sq < 81 && 0 <= i < 81 ==> #[trigger] self.table()[sq].has(i)
            == in_steps(Self::DELTAS@, 8, sq, i, 1)
    }

    pub fn new() -> (r: KingAttackTable)
        ensures r.valid(),
    {
        let mut v: Vec<Bitboard> = Vec::new();
        let mut n: i32 = 0;
        while n < 81
            invariant
                0 <= n <= 81,
                v@.len() == n,
                forall|sq: int| 0 <= sq < n ==> (#[trigger] v@[sq]).wf(),
                forall|sq: int, i: int| 0 <= sq < n && 0 <= i < 81 ==> #[trigger] v@[sq].has(i)
                    == in_steps(Self::DELTAS@, 8, sq, i, 1),
            decreases 81 - n,
        {
            let sq = Square(n);
            let bb = step_attacks(&Self::DELTAS, sq, 1);
            v.push(bb);
            n += 1;
        }
        KingAttackTable(v)
    }

    pub fn attack(&self, sq: Square) -> (r: Bitboard)
        requires self.valid(),
        ensures
            r == self.table()[sq.val()],
            r.wf(),
            forall|i: int| 0 <= i < 81 ==> #[trigger] r.has(i) == in_steps(Self::DELTAS@, 8, sq.val(), i, 1),
    {
        proof { broadcast use Square::lemma_val_range; }
        self.0[sq.to_i32() as usize]
    }
}

/// The king attacks exactly the squares next to its own: those at most one file and one rank
/// away, itself excepted.
pub proof fn lemma_king_attacks_adjacent(sq: int, i: int)
    requires
        0 <= sq < 81,
        0 <= i < 81,
    ensures
        in_steps(KingAttackTable::DELTAS@, 8, sq, i, 1) == (i != sq && adjacent(sq, i)),
{
    reveal_with_fuel(in_steps, 9);
    let d = KingAttackTable::DELTAS@;
    assert(d =~= seq![-1i32, -10i32, -9i32, -8i32, 1i32, 10i32, 9i32, 8i32]);
    let fs = sq / 9;
    let rs = sq % 9;
    let fi = i / 9;
    let ri = i % 9;
    assert(sq == 9 * fs + rs && i == 9 * fi + ri);
    if i != sq && adjacent(sq, i) {
        assert(i - sq == 9 * (fi - fs) + (ri - rs));
    }
}

/// The squares a piece that steps (pawn, knight, silver, gold) attacks from each square, for
/// each side.
pub struct PieceAttackTable(Vec<Bitboard>);

impl PieceAttackTable {
    pub const BLACK_PAWN_DELTAS: [i32; 1] = [Square::DELTA_N];
    pub const WHITE_PAWN_DELTAS: [i32; 1] = [Square::DELTA_S];
    pub const BLACK_KNIGHT_DELTAS: [i32; 2] = [Square::DELTA_NNE, Square::DELTA_NNW];
    pub const WHITE_KNIGHT_DELTAS: [i32; 2] = [Square::DELTA_SSE, Square::DELTA_SSW];
    pub const BLACK_SILVER_DELTAS: [i32; 5] = [
        Square::DELTA_N,
        Square::DELTA_NE,
        Square::DELTA_SE,
        Square::DELTA_SW,
        Square::DELTA_NW,
    ];
    pub const WHITE_SILVER_DELTAS: [i32; 5] = [
        Square::DELTA_NE,
        Square::DELTA_SE,
        Square::DELTA_S,
        Square::DELTA_SW,
        Square::DELTA_NW,
    ];
    pub const BLACK_GOLD_DELTAS: [i32; 6] = [
        Square::DELTA_N,
        Square::DELTA_NE,
        Square::DELTA_E,
        Square::DELTA_S,
        Square::DELTA_W,
        Square::DELTA_NW,
    ];
    pub const WHITE_GOLD_DELTAS: [i32; 6] = [
        Square::DELTA_N,
        Square::DELTA_E,
        Square::DELTA_SE,
        Square::DELTA_S,
        Square::DELTA_SW,
        Square::DELTA_W,
    ];

    pub closed spec fn table(self) -> Seq<Bitboard> {
        self.0@
    }

    /// The table holds, for each square and side (at `2 * sq + c`), the steps of that side's
    /// deltas.
    pub open spec fn valid_for(self, black: Seq<i32>, white: Seq<i32>) -> bool {
        &&& self.table().len() == 162
        &&& forall|k: int| 0 <= k < 162 ==> (#[trigger] self.table()[k]).wf()
        &&& forall|sq: int, i: int| 0 <= sq < 81 && 0 <= i < 81 ==> #[trigger] self.table()[2 * sq].has(i)
            == in_steps(black, black.len() as int, sq, i, 2)
        &&& forall|sq: int, i: int| 0 <= sq < 81 && 0 <= i < 81 ==> #[trigger] self.table()[2 * sq + 1].has(i)
            == in_steps(white, white.len() as int, sq, i, 2)
    }

    /// The table of a stepping piece whose directions are `deltass[0]` for black and
    /// `deltass[1]` for white.
    pub fn new(deltass: &[&[i32]; 2]) -> (r: PieceAttackTable)
        ensures r.valid_for(deltass[0]@, deltass[1]@),
    {
        let black: &[i32] = deltass[0];
        let white: &[i32] = deltass[1];
        let mut v: Vec<Bitboard> = Vec::new();
        let mut n: i32 = 0;
        while n < 81
            invariant
                0 <= n <= 81,
                v@.len() == 2 * n,
                black@ == deltass[0]@,
                white@ == deltass[1]@,
                forall|k: int| 0 <= k < 2 * n ==> (#[trigger] v@[k]).wf(),
                forall|sq: int, i: int| 0 <= sq < n && 0 <= i < 81 ==> #[trigger] v@[2 * sq].has(i)
                    == in_steps(black@, black@.len() as int, sq, i, 2),
                forall|sq: int, i: int| 0 <= sq < n && 0 <= i < 81 ==> #[trigger] v@[2 * sq + 1].has(i)
                    == in_steps(white@, white@.len() as int, sq, i, 2),
            decreases 81 - n,
        {
            let sq = Square(n);
            v.push(step_attacks(black, sq, 2));
            v.push(step_attacks(white, sq, 2));
            n += 1;
        }
        PieceAttackTable(v)
    }

    pub fn attack(&self, c: Color, sq: Square) -> (r: Bitboard)
        requires self.table().len() == 162,
        ensures r == self.table()[2 * sq.val() + c.val()],
    {
        proof { broadcast use Square::lemma_val_range, Color::lemma_val_range; }
        self.0[sq.to_i32() as usize * 2 + c.to_i32() as usize]
    }
}

/// Whether `j` is one of the squares whose occupancy matters to a lance on `sq`: those of
/// its file from the second rank to the eighth.
pub open spec fn lance_mask_has(sq: int, j: int) -> bool {
    j / 9 == sq / 9 && 1 <= j % 9 <= 7
}

/// The direction of a lance of side `c`: toward rank one for black, toward rank nine for
/// white.
pub open spec fn lance_delta(c: int) -> int {
    if c == 0 { -1 } else { 1 }
}

/// The occupancy `occ` of the lance squares of `sq` is the one numbered `idx`: bit `k` of
/// `idx` tells whether the square on rank `k + 2` of the file is occupied.
pub open spec fn agrees_on_lance_mask(sq: int, idx: int, occ: Bitboard) -> bool {
    forall|j: int| 0 <= j < 81 && lance_mask_has(sq, j)
        ==> (#[trigger] occ.has(j)) == ((idx as u64 >> ((j % 9 - 1) as u64)) & 1u64 == 1u64)
}

/// A vertical slide from `p` sees only the occupancy of the second to eighth ranks of its
/// file: boards that agree there give the same slide.
proof fn lemma_in_ray_file(d: int, p: int, a: Bitboard, b: Bitboard, i: int)
    requires
        d == 1 || d == -1,
        0 <= p < 81,
        forall|j: int| 0 <= j < 81 && lance_mask_has(p, j) ==> #[trigger] a.has(j) == b.has(j),
    ensures
        in_ray(d, p, a, i) == in_ray(d, p, b, i),
    decreases (if d > 0 { 81 - p } else { p }),
{
    let next = p + d;
    if 0 <= next < 81 && adjacent(p, next) {
        assert(next / 9 == p / 9);
        if 1 <= next % 9 <= 7 {
            assert(a.has(next) == b.has(next));
            lemma_in_ray_file(d, next, a, b, i);
        } else {
            let next2 = next + d;
            assert(!(0 <= next2 < 81 && adjacent(next, next2)));
            assert(!in_ray(d, next, a, i));
            assert(!in_ray(d, next, b, i));
        }
    }
}

/// The squares a lance attacks, for each square, side and occupancy of its file: 81 squares,
/// 2 sides and 128 occupancies of the seven squares that matter.
pub struct LanceAttackTable(Vec<Bitboard>);

impl LanceAttackTable {
    pub const MASK_BITS: u32 = 7;
    pub const MASK_TABLE_NUM: usize = 128;

    pub closed spec fn table(self) -> Seq<Bitboard> {
        self.0@
    }

    /// The attacks of side `c` from `sq` under occupancy number `idx`.
    pub open spec fn entry(self, sq: int, c: int, idx: int) -> Bitboard {
        self.table()[(2 * sq + c) * 128 + idx]
    }

    /// Every entry holds the slide of its side from its square under any occupancy that has
    /// its number on the squares that matter.
    pub open spec fn valid(self) -> bool {
        &&& self.table().len() == 81 * 2 * 128
        &&& forall|k: int| 0 <= k < 81 * 2 * 128 ==> (#[trigger] self.table()[k]).wf()
        &&& forall|sq: int, c: int, idx: int, occ: Bitboard, i: int|
            #![trigger self.entry(sq, c, idx).has(i), in_ray(lance_delta(c), sq, occ, i)]
            0 <= sq < 81 && 0 <= c < 2 && 0 <= idx < 128 && 0 <= i < 81 && agrees_on_lance_mask(sq, idx, occ)
                ==> self.entry(sq, c, idx).has(i) == in_ray(lance_delta(c), sq, occ, i)
    }

    /// The squares of the file of `sq` from the second rank to the eighth.
    fn attack_mask(sq: Square) -> (r: Bitboard)
        ensures
            r.wf(),
            forall|j: int| 0 <= j < 81 ==> #[trigger] r.has(j) == lance_mask_has(sq.val(), j),
    {
        let ends = Bitboard::rank_mask(Rank::RANK1).or(Bitboard::rank_mask(Rank::RANK9));
        let f = Bitboard::file_mask(File::new(sq));
        let inner = ends.not();
        let r = f.and(inner);
        proof {
            lemma_word_bounds(f.v[0], inner.v[0]);
            lemma_word_bounds(f.v[1], inner.v[1]);
        }
        r
    }

    /// The occupancy numbered `index` of the lance squares of file `f` (given by `mask`).
    fn index_to_occupied(index: u64, num_of_bits: u32, mask: &Bitboard, Ghost(sq): Ghost<int>) -> (r: Bitboard)
        requires
            num_of_bits == 7,
            index < 128,
            0 <= sq < 81,
            mask.wf(),
            forall|j: int| 0 <= j < 81 ==> #[trigger] mask.has(j) == lance_mask_has(sq, j),
        ensures
            r.wf(),
            agrees_on_lance_mask(sq, index as int, r),
            forall|j: int| 0 <= j < 81 && !lance_mask_has(sq, j) ==> !#[trigger] r.has(j),
    {
        let ghost base = (sq / 9) * 9 + 1;
        let mut tmp_bb: Bitboard = *mask;
        let mut ret = Bitboard::ZERO();
        let mut i: u32 = 0;
        while i < num_of_bits
            invariant
                i <= 7,
                num_of_bits == 7,
                0 <= sq < 81,
                base == (sq / 9) * 9 + 1,
                tmp_bb.wf(),
                ret.wf(),
                forall|j: int| 0 <= j < 81 ==> #[trigger] tmp_bb.has(j) == (lance_mask_has(sq, j) && j >= base + i),
                forall|j: int| 0 <= j < 81 ==> #[trigger] ret.has(j)
                    == (lance_mask_has(sq, j) && j < base + i && (index >> ((j % 9 - 1) as u64)) & 1u64 == 1u64),
            decreases 7 - i,
        {
            assert(tmp_bb.has(base + i));
            proof {
                let t = base + i;
                lemma_word_facts(tmp_bb.v[sq_part(t)], 0, sq_shift(t) as u64);
            }
            let ghost before = tmp_bb;
            let s = tmp_bb.pop_lsb_unchecked();
            assert(s.val() == base + i) by {
                assert(before.has(s.val()));
                if s.val() > base + i {
                    assert(!before.has(base + i));
                }
            }
            proof { lemma_word_facts(index, 0, i as u64); }
            if (index & (1u64 << i)) != 0 {
                ret.set(s);
            }
            i += 1;
        }
        ret
    }

    #[verifier::spinoff_prover]
    #[verifier::rlimit(40)]
    pub fn new() -> (r: LanceAttackTable)
        ensures r.valid(),
    {
        let mut v: Vec<Bitboard> = Vec::new();
        let black: [i32; 1] = [Square::DELTA_N];
        let white: [i32; 1] = [Square::DELTA_S];
        let mut n: i32 = 0;
        while n < 81
            invariant
                0 <= n <= 81,
                v@.len() == 2 * 128 * n,
                black@ == seq![-1i32],
                white@ == seq![1i32],
                forall|k: int| 0 <= k < 2 * 128 * n ==> (#[trigger] v@[k]).wf(),
                forall|sq: int, c: int, idx: int, occ: Bitboard, i: int|
                    #![trigger v@[(2 * sq + c) * 128 + idx].has(i), in_ray(lance_delta(c), sq, occ, i)]
                    0 <= sq < n && 0 <= c < 2 && 0 <= idx < 128 && 0 <= i < 81 && agrees_on_lance_mask(sq, idx, occ)
                        ==> v@[(2 * sq + c) * 128 + idx].has(i) == in_ray(lance_delta(c), sq, occ, i),
            decreases 81 - n,
        {
            let sq = Square(n);
            let mask = Self::attack_mask(sq);
            let mut c: i32 = 0;
            while c < 2
                invariant
                    0 <= n < 81,
                    sq.val() == n,
                    0 <= c <= 2,
                    v@.len() == 2 * 128 * n + 128 * c,
                    black@ == seq![-1i32],
                    white@ == seq![1i32],
                    mask.wf(),
                    forall|j: int| 0 <= j < 81 ==> #[trigger] mask.has(j) == lance_mask_has(n as int, j),
                    forall|k: int| 0 <= k < 2 * 128 * n + 128 * c ==> (#[trigger] v@[k]).wf(),
                    forall|sq2: int, c2: int, idx: int, occ: Bitboard, i: int|
                        #![trigger v@[(2 * sq2 + c2) * 128 + idx].has(i), in_ray(lance_delta(c2), sq2, occ, i)]
                        0 <= sq2 < 81 && 0 <= c2 < 2 && 0 <= idx < 128 && 0 <= i < 81
                            && (2 * sq2 + c2) < 2 * n + c && agrees_on_lance_mask(sq2, idx, occ)
                            ==> v@[(2 * sq2 + c2) * 128 + idx].has(i) == in_ray(lance_delta(c2), sq2, occ, i),
                decreases 2 - c,
            {
                let deltas: &[i32] = if c == 0 { &black } else { &white };
                let mut idx: u64 = 0;
                while idx < 128
                    invariant
                        0 <= n < 81,
                        sq.val() == n,
                        0 <= c < 2,
                        idx <= 128,
                        v@.len() == 2 * 128 * n + 128 * c + idx,
                        deltas@ == seq![lance_delta(c as int) as i32],
                        black@ == seq![-1i32],
                        white@ == seq![1i32],
                        mask.wf(),
                        forall|j: int| 0 <= j < 81 ==> #[trigger] mask.has(j) == lance_mask_has(n as int, j),
                        forall|k: int| 0 <= k < 2 * 128 * n + 128 * c + idx ==> (#[trigger] v@[k]).wf(),
                        forall|sq2: int, c2: int, idx2: int, occ: Bitboard, i: int|
                            #![trigger v@[(2 * sq2 + c2) * 128 + idx2].has(i), in_ray(lance_delta(c2), sq2, occ, i)]
                            0 <= sq2 < 81 && 0 <= c2 < 2 && 0 <= idx2 < 128 && 0 <= i < 81
                                && (2 * sq2 + c2) * 128 + idx2 < 2 * 128 * n + 128 * c + idx
                                && agrees_on_lance_mask(sq2, idx2, occ)
                                ==> v@[(2 * sq2 + c2) * 128 + idx2].has(i) == in_ray(lance_delta(c2), sq2, occ, i),
                    decreases 128 - idx,
                {
                    let occupied = Self::index_to_occupied(idx, Self::MASK_BITS, &mask, Ghost(n as int));
                    let bb = sliding_attacks(deltas, sq, &occupied);
                    let ghost k = v@.len() as int;
                    v.push(bb);
                    proof {
                        assert forall|sq2: int, c2: int, idx2: int, occ: Bitboard, i: int|
                            #![trigger v@[(2 * sq2 + c2) * 128 + idx2].has(i), in_ray(lance_delta(c2), sq2, occ, i)]
                            0 <= sq2 < 81 && 0 <= c2 < 2 && 0 <= idx2 < 128 && 0 <= i < 81
                                && (2 * sq2 + c2) * 128 + idx2 < 2 * 128 * n + 128 * c + idx + 1
                                && agrees_on_lance_mask(sq2, idx2, occ)
                                implies v@[(2 * sq2 + c2) * 128 + idx2].has(i) == in_ray(lance_delta(c2), sq2, occ, i) by {
                            if (2 * sq2 + c2) * 128 + idx2 == k {
                                assert(sq2 == n && c2 == c && idx2 == idx) by (nonlinear_arith)
                                    requires
                                        (2 * sq2 + c2) * 128 + idx2 == 2 * 128 * n + 128 * c + idx,
                                        0 <= c2 < 2, 0 <= idx2 < 128, 0 <= c < 2, 0 <= idx < 128;
                                assert(bb.has(i) == in_ray(lance_delta(c2), sq2, occupied, i)) by {
                                    assert(!in_rays(deltas@, 0, sq2, occupied, i));
                                    assert(in_rays(deltas@, 1, sq2, occupied, i) == in_ray(deltas@[0] as int, sq2, occupied, i));
                                }
                                assert forall|j: int| 0 <= j < 81 && lance_mask_has(sq2, j)
                                    implies #[trigger] occupied.has(j) == occ.has(j) by {
                                }
                                lemma_in_ray_file(lance_delta(c2), sq2, occupied, occ, i);
                            }
                        }
                    }
                    idx += 1;
                }
                c += 1;
            }
            assert(c == 2);
            assert(2 * 128 * n + 128 * c == 2 * 128 * (n + 1)) by (nonlinear_arith)
                requires c == 2;
            n += 1;
        }
        LanceAttackTable(v)
    }

    /// The squares a lance of side `c` on `sq` attacks: the squares it slides to along its
    /// file, toward rank one for black and rank nine for white, up to and including the
    /// first occupied one.
    pub fn attack(&self, c: Color, sq: Square, occupied: &Bitboard) -> (r: Bitboard)
        requires self.valid(),
        ensures
            r.wf(),
            forall|i: int| 0 <= i < 81 ==> #[trigger] r.has(i) == in_ray(lance_delta(c.val()), sq.val(), *occupied, i),
    {
        proof { broadcast use Square::lemma_val_range, Color::lemma_val_range; }
        let n = sq.to_i32();
        let f = n / 9;
        let part = Bitboard::part(sq);
        let slide: u64 = if f < 7 { (9 * f + 1) as u64 } else { (9 * (f - 7) + 1) as u64 };
        let w = occupied.value(part);
        let index = (w >> slide) & 127;
        proof {
            lemma_field_index(w, slide, 0);
            assert forall|j: int| 0 <= j < 81 && lance_mask_has(n as int, j)
                implies (#[trigger] occupied.has(j)) == ((index as u64 >> ((j % 9 - 1) as u64)) & 1u64 == 1u64) by {
                let k = (j % 9 - 1) as u64;
                lemma_field_index(w, slide, k);
                assert(sq_part(j) == part as int);
                assert(sq_shift(j) == slide + k);
            }
        }
        let r = self.0[((n * 2 + c.to_i32()) * 128) as usize + index as usize];
        proof {
            assert(r == self.entry(n as int, c.val(), index as int));
            assert forall|i: int| 0 <= i < 81 implies #[trigger] r.has(i) == in_ray(lance_delta(c.val()), sq.val(), *occupied, i) by {
                assert(self.entry(n as int, c.val(), index as int).has(i) == in_ray(lance_delta(c.val()), n as int, *occupied, i));
            }
        }
        r
    }

    /// The squares a lance of side `c` on `sq` attacks on an otherwise empty file.
    pub fn pseudo_attack(&self, c: Color, sq: Square) -> (r: Bitboard)
        requires self.valid(),
        ensures
            r.wf(),
            forall|i: int| 0 <= i < 81 ==> #[trigger] r.has(i) == in_ray(lance_delta(c.val()), sq.val(), Bitboard::from_words(0, 0), i),
    {
        proof { broadcast use Square::lemma_val_range, Color::lemma_val_range, group_bits; }
        let r = self.0[((sq.to_i32() * 2 + c.to_i32()) * 128) as usize];
        proof {
            let z = Bitboard::from_words(0, 0);
            assert(agrees_on_lance_mask(sq.val(), 0, z)) by {
                assert forall|j: int| 0 <= j < 81 && lance_mask_has(sq.val(), j)
                    implies (#[trigger] z.has(j)) == ((0u64 >> ((j % 9 - 1) as u64)) & 1u64 == 1u64) by {
                    lemma_word_facts(0, 0, (j % 9 - 1) as u64);
                }
            }
            assert(r == self.entry(sq.val(), c.val(), 0));
            assert forall|i: int| 0 <= i < 81 implies #[trigger] r.has(i) == in_ray(lance_delta(c.val()), sq.val(), z, i) by {
                assert(self.entry(sq.val(), c.val(), 0).has(i) == in_ray(lance_delta(c.val()), sq.val(), z, i));
            }
        }
        r
    }
}

impl Bitboard {
    /// The squares strictly ahead, for side `c`, of rank `r`: lower ranks for black, higher
    /// for white.
    pub fn in_front_mask(c: Color, r: Rank) -> (res: Bitboard)
        ensures
            res.wf(),
            forall|i: int| 0 <= i < 81 ==> #[trigger] res.has(i)
                == (if c == Color::BLACK { i % 9 < r.val() } else { i % 9 > r.val() }),
    {
        let rab = RankAsBlack::new(c, r);
        let mut bb = Bitboard::ZERO();
        let mut k: i32 = 0;
        while k < 9
            invariant
                0 <= k <= 9,
                rab.val() == if c == Color::BLACK { r.val() } else { 8 - r.val() },
                bb.wf(),
                forall|i: int| 0 <= i < 81 ==> #[trigger] bb.has(i)
                    == (i % 9 < k && (if c == Color::BLACK { i % 9 < r.val() } else { i % 9 > r.val() })),
            decreases 9 - k,
        {
            let rank = Rank(k);
            if rank.is_in_front_of(c, rab) {
                let m = Bitboard::rank_mask(rank);
                let old_bb = bb;
                bb = bb.or(m);
                proof {
                    lemma_word_bounds(old_bb.v[0], m.v[0]);
                    lemma_word_bounds(old_bb.v[1], m.v[1]);
                }
            }
            k += 1;
        }
        bb
    }
}

/// Whether square `i` matters to the attacks of a slider on `sq` along `deltas`: it is on
/// one of its rays over an empty board, and not on an edge of the board that `sq` is not on
/// itself (a ray's last square stops it whatever stands there).
pub open spec fn magic_mask_has(deltas: Seq<i32>, sq: int, i: int) -> bool {
    &&& in_rays(deltas, deltas.len() as int, sq, Bitboard::from_words(0, 0), i)
    &&& (i / 9 == 0 ==> sq / 9 == 0)
    &&& (i / 9 == 8 ==> sq / 9 == 8)
    &&& (i % 9 == 0 ==> sq % 9 == 0)
    &&& (i % 9 == 8 ==> sq % 9 == 8)
}

/// The index that the magic number `magic` with shift `shift` gives the occupancy `occ`:
/// the top `64 - shift` bits of the product of its two words ORed together and `magic`.
pub open spec fn magic_index(occ: Bitboard, magic: u64, shift: u32) -> int {
    (vstd::wrapping::u64_specs::wrapping_mul(occ.v[0] | occ.v[1], magic) >> shift) as int
}

/// Every square of `a` is a square of `b`.
pub open spec fn subset_of(a: Bitboard, b: Bitboard) -> bool {
    forall|i: int| 0 <= i < 81 ==> #[trigger] a.has(i) ==> b.has(i)
}

/// What an entry of a magic table may hold: nothing yet, or the attacks along `deltas` from
/// `sq` under some occupancy of the mask squares that the magic number sends to index `k`.
pub open spec fn magic_entry(entry: Bitboard, deltas: Seq<i32>, sq: int, mask: Bitboard, magic: u64, shift: u32, k: int) -> bool {
    ||| entry.v[0] == 0 && entry.v[1] == 0
    ||| exists|occ: Bitboard| #[trigger] subset_of(occ, mask) && magic_index(occ, magic, shift) == k
        && forall|i: int| 0 <= i < 81 ==> #[trigger] entry.has(i) == in_rays(deltas, deltas.len() as int, sq, occ, i)
}

/// The top bits of a word after a shift index a table of `2^(64 - shift)` entries.
proof fn lemma_shift_index(x: u64, shift: u64)
    by (bit_vector)
    requires
        1 <= shift <= 63,
    ensures
        x >> shift < 1u64 << ((64u64 - shift) as u64),
        shift >= 40 ==> x >> shift < 0x100_0000u64,
        shift >= 40 ==> 1u64 << ((64u64 - shift) as u64) <= 0x100_0000u64,
{
}

/// The attacks of a bishop or rook on one square, looked up by a magic number.
pub struct Magic {
    mask: Bitboard,
    magic: u64,
    attacks: Vec<Bitboard>,
    shift: u32,
}

impl Magic {
    pub closed spec fn spec_mask(self) -> Bitboard {
        self.mask
    }

    pub closed spec fn spec_magic(self) -> u64 {
        self.magic
    }

    pub closed spec fn spec_shift(self) -> u32 {
        self.shift
    }

    pub closed spec fn spec_attacks(self) -> Seq<Bitboard> {
        self.attacks@
    }

    /// The table has its full size: `2^(64 - shift)` entries.
    pub open spec fn sized(self) -> bool {
        &&& 40 <= self.spec_shift() <= 63
        &&& self.spec_attacks().len() == (1u64 << ((64u64 - self.spec_shift() as u64) as u64))
    }

    /// The squares whose occupancy matters to a slider on `sq` along `deltas` (see
    /// `magic_mask_has`).
    fn attack_mask(deltas: &[i32], sq: Square) -> (r: Bitboard)
        requires
            forall|k: int| 0 <= k < deltas@.len() ==> #[trigger] deltas@[k] != 0,
        ensures
            r.wf(),
            forall|i: int| 0 <= i < 81 ==> #[trigger] r.has(i) == magic_mask_has(deltas@, sq.val(), i),
    {
        let occupied = Bitboard::ZERO();
        let mut bb = sliding_attacks(deltas, sq, &occupied);
        let file = File::new(sq);
        let rank = Rank::new(sq);
        if file.to_i32() != 0 {
            let m = Bitboard::file_mask(File::FILE1).not();
            let old_bb = bb;
            bb = bb.and(m);
            proof { lemma_word_bounds(old_bb.v[0], m.v[0]); lemma_word_bounds(old_bb.v[1], m.v[1]); }
        }
        if file.to_i32() != 8 {
            let m = Bitboard::file_mask(File::FILE9).not();
            let old_bb = bb;
            bb = bb.and(m);
            proof { lemma_word_bounds(old_bb.v[0], m.v[0]); lemma_word_bounds(old_bb.v[1], m.v[1]); }
        }
        if rank.to_i32() != 0 {
            let m = Bitboard::rank_mask(Rank::RANK1).not();
            let old_bb = bb;
            bb = bb.and(m);
            proof { lemma_word_bounds(old_bb.v[0], m.v[0]); lemma_word_bounds(old_bb.v[1], m.v[1]); }
        }
        if rank.to_i32() != 8 {
            let m = Bitboard::rank_mask(Rank::RANK9).not();
            let old_bb = bb;
            bb = bb.and(m);
            proof { lemma_word_bounds(old_bb.v[0], m.v[0]); lemma_word_bounds(old_bb.v[1], m.v[1]); }
        }
        bb
    }

    /// The occupancy numbered `index`: the `k`-th lowest square of the mask (for `k` below
    /// `num_of_bits`) is occupied when bit `k` of `index` is set.
    fn index_to_occupied(index: u32, num_of_bits: u32, mask: &Bitboard) -> (r: Bitboard)
        requires
            num_of_bits < 32,
            mask.wf(),
        ensures
            r.wf(),
            subset_of(r, *mask),
    {
        let mut tmp_bb: Bitboard = *mask;
        let mut ret = Bitboard::ZERO();
        let mut i: u32 = 0;
        while i < num_of_bits
            invariant
                i <= num_of_bits < 32,
                tmp_bb.wf(),
                ret.wf(),
                subset_of(tmp_bb, *mask),
                subset_of(ret, *mask),
            decreases num_of_bits - i,
        {
            let ghost before = tmp_bb;
            if let Some(sq) = tmp_bb.pop_lsb() {
                if (index & (1u32 << i)) != 0 {
                    ret.set(sq);
                }
            }
            i += 1;
        }
        ret
    }

    /// The index of `occupied` in the table of `magic` and `shift`.
    fn occupied_to_index(occupied: &Bitboard, magic: u64, shift: u32) -> (r: usize)
        requires
            40 <= shift <= 63,
        ensures
            r == magic_index(*occupied, magic, shift),
            r < (1u64 << ((64u64 - shift as u64) as u64)),
    {
        let x = occupied.merge().wrapping_mul(magic);
        proof { lemma_shift_index(x, shift as u64); }
        (x >> shift) as usize
    }

    /// The attacks stored for `occupied`: the entry at the magic index of the occupancy of
    /// the mask squares.
    pub fn attack(&self, occupied: &Bitboard) -> (r: Bitboard)
        requires
            self.sized(),
        ensures
            r == self.spec_attacks()[magic_index(self.spec_mask().and_spec(*occupied), self.spec_magic(), self.spec_shift())],
    {
        let occ = self.mask.and(*occupied);
        let k = Self::occupied_to_index(&occ, self.magic, self.shift);
        self.attacks[k]
    }

    /// The entry of the empty occupancy.
    pub fn pseudo_attack(&self) -> (r: Bitboard)
        requires
            self.sized(),
        ensures
            r == self.spec_attacks()[0],
    {
        proof { lemma_shift_index(0, self.shift as u64); }
        self.attacks[0]
    }
}

impl Bitboard {
    /// The intersection, word by word.
    pub open spec fn and_spec(self, other: Bitboard) -> Bitboard {
        Bitboard::from_words(self.v[0] & other.v[0], self.v[1] & other.v[1])
    }
}

impl Magic {
    /// The table of one square: its mask, magic number and shift, with every occupancy of
    /// the mask stored at its magic index.
    fn build(deltas: &[i32], sq: Square, shift: u32, magic: u64) -> (r: Magic)
        requires
            forall|k: int| 0 <= k < deltas@.len() ==> #[trigger] deltas@[k] != 0,
            40 <= shift <= 63,
        ensures
            r.sized(),
            r.spec_shift() == shift,
            r.spec_magic() == magic,
            r.spec_mask().wf(),
            forall|i: int| 0 <= i < 81 ==> #[trigger] r.spec_mask().has(i) == magic_mask_has(deltas@, sq.val(), i),
            forall|k: int| 0 <= k < r.spec_attacks().len() ==> #[trigger] magic_entry(r.spec_attacks()[k], deltas@,
                sq.val(), r.spec_mask(), magic, shift, k),
    {
        let mask = Self::attack_mask(deltas, sq);
        proof { lemma_shift_index(0, shift as u64); }
        let size = (1u64 << (64 - shift as u64)) as usize;
        let mut attacks: Vec<Bitboard> = vec![Bitboard::ZERO(); size];
        let bits = mask.count_ones();
        // The masks of the bishop and the rook have at most 14 squares; a mask of 32 or
        // more could not be enumerated with 32-bit indices.
        if bits < 32 {
            let n: u32 = 1u32 << bits;
            let mut index: u32 = 0;
            while index < n
                invariant
                    bits < 32,
                    40 <= shift <= 63,
                    mask.wf(),
                    attacks@.len() == size,
                    size == (1u64 << ((64u64 - shift as u64) as u64)),
                    forall|k: int| 0 <= k < deltas@.len() ==> #[trigger] deltas@[k] != 0,
                    forall|k: int| 0 <= k < size ==> #[trigger] magic_entry(attacks@[k], deltas@, sq.val(), mask, magic, shift, k),
                decreases n - index,
            {
                let occupied = Self::index_to_occupied(index, bits, &mask);
                let k = Self::occupied_to_index(&occupied, magic, shift);
                let bb = sliding_attacks(deltas, sq, &occupied);
                let ghost before = attacks@;
                attacks.set(k, bb);
                proof {
                    assert forall|j: int| 0 <= j < size implies #[trigger] magic_entry(attacks@[j], deltas@, sq.val(), mask, magic, shift, j) by {
                        if j == k as int {
                            assert(subset_of(occupied, mask) && magic_index(occupied, magic, shift) == j
                                && forall|i: int| 0 <= i < 81 ==> #[trigger] bb.has(i) == in_rays(deltas@, deltas@.len() as int, sq.val(), occupied, i));
                        } else {
                            assert(attacks@[j] == before[j]);
                        }
                    }
                }
                index += 1;
            }
        }
        Magic { mask, magic, attacks, shift }
    }
}

/// The magic tables of a slider (bishop or rook), one per square.
pub struct MagicTable {
    magics: Vec<Magic>,
}

impl MagicTable {
    pub closed spec fn spec_magics(self) -> Seq<Magic> {
        self.magics@
    }

    /// The tables were built for the slider of `deltas` with the given shifts and magic
    /// numbers.
    pub open spec fn built_for(self, deltas: Seq<i32>, shifts: Seq<i8>, magic_nums: Seq<u64>) -> bool {
        &&& self.spec_magics().len() == 81
        &&& forall|sq: int| 0 <= sq < 81 ==> {
            let m = #[trigger] self.spec_magics()[sq];
            &&& m.sized()
            &&& m.spec_shift() == shifts[sq]
            &&& m.spec_magic() == magic_nums[sq]
            &&& m.spec_mask().wf()
            &&& forall|i: int| 0 <= i < 81 ==> #[trigger] m.spec_mask().has(i) == magic_mask_has(deltas, sq, i)
            &&& forall|k: int| 0 <= k < m.spec_attacks().len() ==> #[trigger] magic_entry(m.spec_attacks()[k], deltas, sq,
                m.spec_mask(), m.spec_magic(), m.spec_shift(), k)
        }
    }

    /// The tables of the slider of `deltas`, square by square, with the given shifts and
    /// magic numbers (`table_num` is the total number of entries, which the shifts fix).
    pub fn new(table_num: usize, shifts: &[i8; 81], magic_nums: &[u64; 81], deltas: &[i32]) -> (r: MagicTable)
        requires
            forall|k: int| 0 <= k < deltas@.len() ==> #[trigger] deltas@[k] != 0,
            forall|sq: int| 0 <= sq < 81 ==> 40 <= #[trigger] shifts@[sq] <= 63,
        ensures
            r.built_for(deltas@, shifts@, magic_nums@),
    {
        let mut magics: Vec<Magic> = Vec::new();
        let mut n: i32 = 0;
        while n < 81
            invariant
                0 <= n <= 81,
                magics@.len() == n,
                forall|k: int| 0 <= k < deltas@.len() ==> #[trigger] deltas@[k] != 0,
                forall|sq: int| 0 <= sq < 81 ==> 40 <= #[trigger] shifts@[sq] <= 63,
                forall|sq: int| 0 <= sq < n ==> {
                    let m = #[trigger] magics@[sq];
                    &&& m.sized()
                    &&& m.spec_shift() == shifts@[sq]
                    &&& m.spec_magic() == magic_nums@[sq]
                    &&& m.spec_mask().wf()
                    &&& forall|i: int| 0 <= i < 81 ==> #[trigger] m.spec_mask().has(i) == magic_mask_has(deltas@, sq, i)
                    &&& forall|k: int| 0 <= k < m.spec_attacks().len() ==> #[trigger] magic_entry(m.spec_attacks()[k], deltas@, sq,
                        m.spec_mask(), m.spec_magic(), m.spec_shift(), k)
                },
            decreases 81 - n,
        {
            let sq = Square(n);
            let shift = shifts[n as usize];
            assert(40 <= shifts@[n as int] <= 63);
            let m = Magic::build(deltas, sq, shift as u32, magic_nums[n as usize]);
            magics.push(m);
            n += 1;
        }
        MagicTable { magics }
    }

    pub fn magic(&self, sq: Square) -> (r: &Magic)
        requires
            self.spec_magics().len() == 81,
        ensures
            *r == self.spec_magics()[sq.val()],
    {
        proof { broadcast use Square::lemma_val_range; }
        &self.magics[sq.to_i32() as usize]
    }
}

/// The two directions of the line that joins two squares of relation `rel` (none for squares
/// on no common line).
pub open spec fn relation_deltas(rel: Relation) -> Seq<i32> {
    match rel {
        Relation::FILE_NS | Relation::FILE_SN => seq![Square::DELTA_N, Square::DELTA_S],
        Relation::RANK_EW | Relation::RANK_WE => seq![Square::DELTA_E, Square::DELTA_W],
        Relation::DIAG_NESW | Relation::DIAG_SWNE => seq![Square::DELTA_NE, Square::DELTA_SW],
        Relation::DIAG_NWSE | Relation::DIAG_SENW => seq![Square::DELTA_NW, Square::DELTA_SE],
        _ => seq![],
    }
}

/// The set of the two squares `a` and `b`, word by word.
pub open spec fn pair_occupancy(a: int, b: int) -> Bitboard {
    Bitboard::from_words(sq_word(a, 0) | sq_word(b, 0), sq_word(a, 1) | sq_word(b, 1))
}

/// Whether square `i` lies between squares `a` and `b`: reached by sliding from both ends along
/// the line that joins them, with only the two ends occupied.
pub open spec fn between_has(a: int, b: int, i: int) -> bool {
    let d = relation_deltas(Relation::spec_new(Square::from_val(a), Square::from_val(b)));
    let occ = pair_occupancy(a, b);
    in_rays(d, d.len() as int, a, occ, i) && in_rays(d, d.len() as int, b, occ, i)
}

/// For every pair of squares, the squares strictly between them on their common line.
pub struct BetweenTable(Vec<Bitboard>);

impl BetweenTable {
    pub closed spec fn table(self) -> Seq<Bitboard> {
        self.0@
    }

    /// Entry `81 * a + b` holds the squares between `a` and `b`.
    pub open spec fn valid(self) -> bool {
        &&& self.table().len() == 6561
        &&& forall|a: int, b: int| 0 <= a < 81 && 0 <= b < 81 ==> (#[trigger] self.table()[81 * a + b]).wf()
        &&& forall|a: int, b: int, i: int| 0 <= a < 81 && 0 <= b < 81 && 0 <= i < 81 ==>
            (#[trigger] self.table()[81 * a + b].has(i)) == between_has(a, b, i)
    }

    fn line_deltas(rel: Relation) -> (r: [i32; 2])
        requires
            rel != Relation::MISC,
        ensures
            r@ == relation_deltas(rel),
    {
        let r = match rel {
            Relation::FILE_NS | Relation::FILE_SN => [Square::DELTA_N, Square::DELTA_S],
            Relation::RANK_EW | Relation::RANK_WE => [Square::DELTA_E, Square::DELTA_W],
            Relation::DIAG_NESW | Relation::DIAG_SWNE => [Square::DELTA_NE, Square::DELTA_SW],
            _ => [Square::DELTA_NW, Square::DELTA_SE],
        };
        assert(r@ =~= relation_deltas(rel));
        r
    }

    /// The squares between `sq0` and `sq1`.
    fn compute(sq0: Square, sq1: Square) -> (r: Bitboard)
        ensures
            r.wf(),
            forall|i: int| 0 <= i < 81 ==> #[trigger] r.has(i) == between_has(sq0.val(), sq1.val(), i),
    {
        proof { broadcast use Square::lemma_from_val; }
        let a = Bitboard::square_mask(sq0);
        let b = Bitboard::square_mask(sq1);
        let occupied = a.or(b);
        assert(occupied.v =~= pair_occupancy(sq0.val(), sq1.val()).v);
        assert(occupied == pair_occupancy(sq0.val(), sq1.val()));
        let rel = Relation::new(sq0, sq1);
        if rel == Relation::MISC {
            let z = Bitboard::ZERO();
            assert(relation_deltas(rel) =~= Seq::<i32>::empty());
            z
        } else {
            let d = Self::line_deltas(rel);
            let x = sliding_attacks(&d, sq0, &occupied);
            let y = sliding_attacks(&d, sq1, &occupied);
            let r = x.and(y);
            proof { Bitboard::lemma_and_wf(x, y); }
            r
        }
    }

    pub fn new() -> (r: BetweenTable)
        ensures
            r.valid(),
    {
        let mut v: Vec<Bitboard> = Vec::with_capacity(6561);
        let mut a: usize = 0;
        while a < 81
            invariant
                a <= 81,
                v@.len() == 81 * a,
                forall|x: int, y: int| 0 <= x < a && 0 <= y < 81 ==> (#[trigger] v@[81 * x + y]).wf(),
                forall|x: int, y: int, i: int| 0 <= x < a && 0 <= y < 81 && 0 <= i < 81 ==>
                    (#[trigger] v@[81 * x + y].has(i)) == between_has(x, y, i),
            decreases 81 - a,
        {
            let mut b: usize = 0;
            while b < 81
                invariant
                    a < 81,
                    b <= 81,
                    v@.len() == 81 * a + b,
                    forall|x: int, y: int| 0 <= x < a && 0 <= y < 81 ==> (#[trigger] v@[81 * x + y]).wf(),
                    forall|x: int, y: int, i: int| 0 <= x < a && 0 <= y < 81 && 0 <= i < 81 ==>
                        (#[trigger] v@[81 * x + y].has(i)) == between_has(x, y, i),
                    forall|y: int| 0 <= y < b ==> (#[trigger] v@[81 * a + y]).wf(),
                    forall|y: int, i: int| 0 <= y < b && 0 <= i < 81 ==>
                        (#[trigger] v@[81 * a + y].has(i)) == between_has(a as int, y, i),
                decreases 81 - b,
            {
                let e = Self::compute(Square(a as i32), Square(b as i32));
                v.push(e);
                b = b + 1;
            }
            a = a + 1;
        }
        BetweenTable(v)
    }

    /// The squares between `sq0` and `sq1` on their common line (none when they share none).
    pub fn between_mask(&self, sq0: Square, sq1: Square) -> (r: Bitboard)
        requires
            self.valid(),
        ensures
            r.wf(),
            forall|i: int| 0 <= i < 81 ==> #[trigger] r.has(i) == between_has(sq0.val(), sq1.val(), i),
    {
        proof { broadcast use Square::lemma_val_range; }
        let k = 81 * sq0.to_i32() as usize + sq1.to_i32() as usize;
        let r = self.0[k];
        assert(r == self.table()[81 * sq0.val() + sq1.val()]);
        r
    }
}

/// All the attack tables: the stepping pieces, the lance, the king, and the magic tables of
/// the bishop and the rook.
pub struct AttackTable {
    pub pawn: PieceAttackTable,
    pub lance: LanceAttackTable,
    pub knight: PieceAttackTable,
    pub silver: PieceAttackTable,
    pub gold: PieceAttackTable,
    pub king: KingAttackTable,
    pub bishop: MagicTable,
    pub rook: MagicTable,
}

impl AttackTable {
    pub const BISHOP_DELTAS: [i32; 4] = [Square::DELTA_NE, Square::DELTA_SE, Square::DELTA_SW, Square::DELTA_NW];
    pub const ROOK_DELTAS: [i32; 4] = [Square::DELTA_N, Square::DELTA_E, Square::DELTA_S, Square::DELTA_W];
    pub const BISHOP_ATTACK_TABLE_NUM: usize = 20224;
    pub const ROOK_ATTACK_TABLE_NUM: usize = 512_000;
    pub const ROOK_SHIFT_BITS: [i8; 81] = [
        50, 51, 51, 51, 51, 51, 51, 51, 50,
        51, 52, 52, 52, 52, 52, 52, 52, 50,
        51, 52, 52, 52, 52, 52, 52, 52, 51,
        51, 52, 52, 52, 52, 52, 52, 52, 51,
        51, 52, 52, 52, 52, 52, 52, 52, 51,
        51, 52, 52, 52, 52, 52, 52, 52, 50,
        51, 52, 52, 52, 52, 52, 52, 52, 51,
        51, 52, 52, 52, 52, 52, 52, 52, 51,
        50, 51, 51, 51, 51, 51, 51, 51, 50,
    ];
    pub const BISHOP_SHIFT_BITS: [i8; 81] = [
        57, 58, 58, 58, 58, 58, 58, 58, 57,
        58, 58, 58, 58, 58, 58, 58, 58, 58,
        58, 58, 56, 56, 56, 56, 56, 58, 58,
        58, 58, 56, 54, 54, 54, 56, 58, 58,
        58, 58, 56, 54, 52, 54, 56, 58, 58,
        58, 58, 56, 54, 54, 54, 56, 58, 58,
        58, 58, 56, 56, 56, 56, 56, 58, 58,
        58, 58, 58, 58, 58, 58, 58, 58, 58,
        57, 58, 58, 58, 58, 58, 58, 58, 57,
    ];
    pub const BISHOP_MAGICS: [u64; 81] = [
        0x2010_1042_c820_0428, 0x0000_8402_4038_0102, 0x8008_00c0_1810_8251,
        0x0082_4280_1030_1000, 0x0481_0082_0100_0040, 0x8081_0204_2088_0800,
        0x0000_8042_2211_0000, 0x0000_e283_0140_0850, 0x2010_2214_2080_0810,
        0x2600_0100_2880_1824, 0x0008_0481_0210_2002, 0x4000_2481_0024_0402,
        0x4920_0200_428a_2108, 0x0000_4609_0402_0844, 0x2001_4010_2083_0200,
        0x0000_0010_0900_8120, 0x4804_0640_0820_8004, 0x4406_0002_4030_0ca0,
        0x0222_0014_0080_3220, 0x0226_0684_0018_2094, 0x9520_8402_010d_0104,
        0x4000_8075_0010_8102, 0xc000_2000_8050_0500, 0x5211_0003_0403_8020,
        0x1108_1001_8040_0820, 0x1000_1280_a8a2_1040, 0x1000_0480_9408_a210,
        0x0202_3000_0204_1112, 0x0404_0a80_0046_0408, 0x0204_0200_2104_0201,
        0x0008_1200_1318_0404, 0xa284_0080_0d02_0104, 0x200c_2010_0060_4080,
        0x1082_0040_0010_9408, 0x1000_21c0_0c41_0408, 0x8808_2090_5004_c801,
        0x1054_0640_8000_4120, 0x030c_0a02_2400_1030, 0x0300_0601_0004_0821,
        0x0512_0080_1020_c006, 0x2100_0400_4280_2801, 0x0481_0008_2040_1002,
        0x4040_8a04_5000_0801, 0x0081_0104_2000_00a2, 0x0281_1021_0210_8408,
        0x0804_0200_4028_0021, 0x2420_4012_0022_0040, 0x0800_1014_4080_c402,
        0x0080_1044_0080_0002, 0x1009_0480_8040_0081, 0x1000_8200_0201_008c,
        0x0010_0010_0808_0009, 0x02a5_006b_8008_0004, 0xc628_8018_200c_2884,
        0x1081_0010_4200_a000, 0x0141_0020_3081_4048, 0x0200_2040_8001_0808,
        0x0200_0040_1392_2002, 0x2200_0000_2005_0815, 0x2011_0104_0004_0800,
        0x1020_0400_0422_0200, 0x0944_0201_0484_0081, 0x6080_a080_801c_044a,
        0x2088_4008_1100_8020, 0x000c_40aa_0420_8070, 0x4100_8004_4090_0220,
        0x0000_0000_4811_2050, 0x8182_00d0_6201_2a10, 0x0402_0084_0450_8302,
        0x0000_1000_2010_1002, 0x0020_0404_2050_4912, 0x0002_0040_0811_8814,
        0x1000_8106_5008_4024, 0x1002_a030_0240_8804, 0x2104_2948_0118_1420,
        0x0841_0802_4050_0812, 0x4406_0090_0000_4884, 0x0080_0820_0401_2412,
        0x0080_0908_8080_8183, 0x0300_1200_2040_0410, 0x021a_0901_0082_2002,
    ];
    pub const ROOK_MAGICS: [u64; 81] = [
        0x0140_0004_0080_9300, 0x1320_0009_0200_0240, 0x0080_0191_0c00_8180,
        0x0040_0200_0440_1040, 0x0040_0100_00d0_1120, 0x0080_0480_2008_4050,
        0x0040_0040_0008_0228, 0x0040_0440_000a_2a0a, 0x0040_0031_0101_0102,
        0x80c4_2000_1210_8100, 0x4010_c002_0400_0c01, 0x0220_4001_0325_0002,
        0x0002_6002_0000_4001, 0x0040_2000_5240_0020, 0x0c00_1000_2002_0008,
        0x9080_2010_0020_0004, 0x2200_2010_0008_0004, 0x8080_4c00_2020_0191,
        0x0045_3830_0000_9100, 0x0030_0028_0002_0040, 0x0040_1040_0098_8084,
        0x0108_0010_0080_0415, 0x0014_0050_0040_0009, 0x0d21_0010_01c0_0045,
        0x00c0_0030_0020_0024, 0x0040_0030_0028_0004, 0x0040_0210_0009_1102,
        0x2008_a204_0800_0d00, 0x2000_1000_8401_0040, 0x0144_0800_0800_8001,
        0x5010_2400_1000_26a2, 0x1040_0200_0800_1010, 0x1200_2000_2800_5010,
        0x4280_0300_3002_0898, 0x0480_0814_1001_1004, 0x0340_0004_0800_110a,
        0x0010_1000_010c_0021, 0x0009_2108_0008_0082, 0x0610_0002_0004_00a7,
        0xa224_0800_9008_00c0, 0x9220_0820_0100_0801, 0x1040_0080_0114_0030,
        0x0040_0022_2004_0008, 0x0280_0012_4008_010c, 0x0040_0084_0494_0002,
        0x0040_0408_0001_0200, 0x0090_0008_0900_2100, 0x2800_0800_0100_0201,
        0x1400_0200_0100_0201, 0x0180_0810_1401_8004, 0x1100_0080_0040_0201,
        0x0080_0040_0020_0201, 0x0420_8000_1000_0201, 0x2841_c000_8020_0209,
        0x0120_0024_0104_0001, 0x0145_1000_0101_000b, 0x0040_0800_0080_8001,
        0x0834_0001_8804_8001, 0x4001_2100_0080_0205, 0x0488_9a80_0740_0201,
        0x2080_0440_8020_0062, 0x0080_0040_0286_1002, 0x0000_c008_4204_9024,
        0x8040_0002_0202_0011, 0x0040_0404_002c_0100, 0x2080_0282_0200_0102,
        0x8100_0408_0059_0224, 0x2040_0090_0480_0010, 0x0040_0450_0040_0408,
        0x2200_2400_2080_2008, 0x4080_0420_0220_0204, 0x0040_00b0_000a_00a2,
        0x000a_6000_0081_0100, 0x0014_1000_0d00_1180, 0x0002_2001_0100_1080,
        0x1000_2001_4104_e120, 0x2407_2001_0000_4810, 0x8014_4000_a084_5050,
        0x1000_2000_6003_0c18, 0x4004_2000_2001_0102, 0x0140_6000_2101_0302,
    ];

    /// Every table was built as its constructor promises.
    pub open spec fn valid(self) -> bool {
        &&& self.pawn.valid_for(PieceAttackTable::BLACK_PAWN_DELTAS@, PieceAttackTable::WHITE_PAWN_DELTAS@)
        &&& self.knight.valid_for(PieceAttackTable::BLACK_KNIGHT_DELTAS@, PieceAttackTable::WHITE_KNIGHT_DELTAS@)
        &&& self.silver.valid_for(PieceAttackTable::BLACK_SILVER_DELTAS@, PieceAttackTable::WHITE_SILVER_DELTAS@)
        &&& self.gold.valid_for(PieceAttackTable::BLACK_GOLD_DELTAS@, PieceAttackTable::WHITE_GOLD_DELTAS@)
        &&& self.lance.valid()
        &&& self.king.valid()
        &&& self.bishop.built_for(Self::BISHOP_DELTAS@, Self::BISHOP_SHIFT_BITS@, Self::BISHOP_MAGICS@)
        &&& self.rook.built_for(Self::ROOK_DELTAS@, Self::ROOK_SHIFT_BITS@, Self::ROOK_MAGICS@)
    }

    pub fn new() -> (r: AttackTable)
        ensures r.valid(),
    {
        assert(Self::BISHOP_SHIFT_BITS@.len() == 81);
        assert forall|sq: int| 0 <= sq < 81 implies 40 <= #[trigger] Self::BISHOP_SHIFT_BITS@[sq] <= 63 by {
        }
        assert forall|sq: int| 0 <= sq < 81 implies 40 <= #[trigger] Self::ROOK_SHIFT_BITS@[sq] <= 63 by {
        }
        AttackTable {
            pawn: PieceAttackTable::new(&[&PieceAttackTable::BLACK_PAWN_DELTAS, &PieceAttackTable::WHITE_PAWN_DELTAS]),
            lance: LanceAttackTable::new(),
            knight: PieceAttackTable::new(&[&PieceAttackTable::BLACK_KNIGHT_DELTAS, &PieceAttackTable::WHITE_KNIGHT_DELTAS]),
            silver: PieceAttackTable::new(&[&PieceAttackTable::BLACK_SILVER_DELTAS, &PieceAttackTable::WHITE_SILVER_DELTAS]),
            gold: PieceAttackTable::new(&[&PieceAttackTable::BLACK_GOLD_DELTAS, &PieceAttackTable::WHITE_GOLD_DELTAS]),
            king: KingAttackTable::new(),
            bishop: MagicTable::new(
                Self::BISHOP_ATTACK_TABLE_NUM,
                &Self::BISHOP_SHIFT_BITS,
                &Self::BISHOP_MAGICS,
                &Self::BISHOP_DELTAS,
            ),
            rook: MagicTable::new(
                Self::ROOK_ATTACK_TABLE_NUM,
                &Self::ROOK_SHIFT_BITS,
                &Self::ROOK_MAGICS,
                &Self::ROOK_DELTAS,
            ),
        }
    }
}

/// The entry that a magic table holds for a slider on `sq` under the occupancy `occ`.
pub open spec fn magic_lookup(t: MagicTable, sq: int, occ: Bitboard) -> Bitboard {
    let m = t.spec_magics()[sq];
    m.spec_attacks()[magic_index(m.spec_mask().and_spec(occ), m.spec_magic(), m.spec_shift())]
}

impl AttackTable {
    /// The squares a piece of type `pt` and side `c` on `sq` attacks, given the occupied
    /// squares: from the table of its kind (a horse and a dragon add the king's steps to the
    /// bishop's and rook's slides; promoted minor pieces move as golds).
    pub fn attack(&self, pt: PieceType, c: Color, sq: Square, occupied: &Bitboard) -> (r: Bitboard)
        requires
            self.valid(),
            pt != PieceType::OCCUPIED,
        ensures
            pt == PieceType::PAWN ==> r == self.pawn.table()[2 * sq.val() + c.val()],
            pt == PieceType::KNIGHT ==> r == self.knight.table()[2 * sq.val() + c.val()],
            pt == PieceType::SILVER ==> r == self.silver.table()[2 * sq.val() + c.val()],
            (pt == PieceType::GOLD || pt == PieceType::PRO_PAWN || pt == PieceType::PRO_LANCE
                || pt == PieceType::PRO_KNIGHT || pt == PieceType::PRO_SILVER)
                ==> r == self.gold.table()[2 * sq.val() + c.val()],
            pt == PieceType::LANCE ==> forall|i: int| 0 <= i < 81
                ==> #[trigger] r.has(i) == in_ray(lance_delta(c.val()), sq.val(), *occupied, i),
            pt == PieceType::KING ==> r == self.king.table()[sq.val()],
            pt == PieceType::BISHOP ==> r == magic_lookup(self.bishop, sq.val(), *occupied),
            pt == PieceType::ROOK ==> r == magic_lookup(self.rook, sq.val(), *occupied),
            pt == PieceType::HORSE ==> forall|i: int| 0 <= i < 81 ==> #[trigger] r.has(i)
                == (magic_lookup(self.bishop, sq.val(), *occupied).has(i) || self.king.table()[sq.val()].has(i)),
            pt == PieceType::DRAGON ==> forall|i: int| 0 <= i < 81 ==> #[trigger] r.has(i)
                == (magic_lookup(self.rook, sq.val(), *occupied).has(i) || self.king.table()[sq.val()].has(i)),
    {
        proof { broadcast use Square::lemma_val_range; }
        match pt {
            PieceType::PAWN => self.pawn.attack(c, sq),
            PieceType::LANCE => self.lance.attack(c, sq, occupied),
            PieceType::KNIGHT => self.knight.attack(c, sq),
            PieceType::SILVER => self.silver.attack(c, sq),
            PieceType::BISHOP => self.bishop.magic(sq).attack(occupied),
            PieceType::ROOK => self.rook.magic(sq).attack(occupied),
            PieceType::GOLD | PieceType::PRO_PAWN | PieceType::PRO_LANCE | PieceType::PRO_KNIGHT | PieceType::PRO_SILVER => {
                self.gold.attack(c, sq)
            },
            PieceType::KING => self.king.attack(sq),
            PieceType::HORSE => self.bishop.magic(sq).attack(occupied).or(self.king.attack(sq)),
            _ => self.rook.magic(sq).attack(occupied).or(self.king.attack(sq)),
        }
    }
}

/// What a magic lookup gives is nothing, or the slide of the bishop or rook under some
/// occupancy of its mask squares that the magic number sends to the same index as the
/// occupancy looked up: the lookup is the slide itself whenever no two occupancies with
/// different slides share an index.
pub proof fn lemma_magic_lookup(t: MagicTable, deltas: Seq<i32>, shifts: Seq<i8>, magic_nums: Seq<u64>, sq: int, occ: Bitboard)
    requires
        t.built_for(deltas, shifts, magic_nums),
        0 <= sq < 81,
    ensures
        ({
            let m = t.spec_magics()[sq];
            magic_entry(magic_lookup(t, sq, occ), deltas, sq, m.spec_mask(), m.spec_magic(), m.spec_shift(),
                magic_index(m.spec_mask().and_spec(occ), m.spec_magic(), m.spec_shift()))
        }),
{
    let m = t.spec_magics()[sq];
    let k = magic_index(m.spec_mask().and_spec(occ), m.spec_magic(), m.spec_shift());
    let x = vstd::wrapping::u64_specs::wrapping_mul(m.spec_mask().and_spec(occ).v[0] | m.spec_mask().and_spec(occ).v[1], m.spec_magic());
    lemma_shift_index(x, m.spec_shift() as u64);
    assert(0 <= k < m.spec_attacks().len());
}

/// Whether a piece of kind number `pt` and side `c` on `sq` reaches `i`, as the tables read
/// it with the occupancy `occ`.
pub open spec fn table_reaches(t: AttackTable, pt: int, c: int, sq: int, occ: Bitboard, i: int) -> bool {
    if pt == 1 {
        t.pawn.table()[2 * sq + c].has(i)
    } else if pt == 2 {
        in_ray(lance_delta(c), sq, occ, i)
    } else if pt == 3 {
        t.knight.table()[2 * sq + c].has(i)
    } else if pt == 4 {
        t.silver.table()[2 * sq + c].has(i)
    } else if pt == 5 {
        magic_lookup(t.bishop, sq, occ).has(i)
    } else if pt == 6 {
        magic_lookup(t.rook, sq, occ).has(i)
    } else if pt == 8 {
        t.king.table()[sq].has(i)
    } else if pt == 13 {
        magic_lookup(t.bishop, sq, occ).has(i) || t.king.table()[sq].has(i)
    } else if pt == 14 {
        magic_lookup(t.rook, sq, occ).has(i) || t.king.table()[sq].has(i)
    } else {
        t.gold.table()[2 * sq + c].has(i)
    }
}

/// Whether rank `r` lies in the three ranks nearest the other side of `us`.
pub open spec fn in_opponent_field(r: int, us: int) -> bool {
    if us == 0 { r < 3 } else { r >= 6 }
}


/// Whether `pcv` is the number of a piece that the proximity check table covers: any piece but
/// a king.
pub open spec fn proximity_piece(pcv: int) -> bool {
    (1 <= pcv <= 14 || 17 <= pcv <= 30) && pcv % 16 != 8
}

/// Whether the piece numbered `pcv`, having moved from `from` to `to`, checks a king on `ksq`
/// from close by: it reaches `ksq` with every square taken as occupied, as it is or, when the
/// move may promote, promoted.
pub open spec fn checks_after(t: AttackTable, pcv: int, ksq: int, from: int, to: int) -> bool {
    let pt = pcv % 16;
    let us = pcv / 16;
    let all = Bitboard::from_words(0x7fff_ffff_ffff_ffffu64, 0x3ffffu64);
    table_reaches(t, pt, us, to, all, ksq)
        || (1 <= pt <= 6 && (in_opponent_field(from % 9, us) || in_opponent_field(to % 9, us))
            && table_reaches(t, pt + 8, us, to, all, ksq))
}

/// Whether the piece numbered `pcv` on `from` can check a king on `ksq` from close by in one
/// move, the king's square being the only one occupied on the way.
pub open spec fn proximity_from(t: AttackTable, pcv: int, ksq: int, from: int) -> bool {
    &&& proximity_piece(pcv)
    &&& from != ksq
    &&& exists|to: int| 0 <= to < 81
        && #[trigger] table_reaches(t, pcv % 16, pcv / 16, from, Bitboard::from_words(sq_word(ksq, 0), sq_word(ksq, 1)), to)
        && checks_after(t, pcv, ksq, from, to)
}

impl AttackTable {
    /// The squares that a piece of type `pt` and side `c` on `sq` reaches, as `table_reaches`
    /// says, kept to the board.
    pub fn reach(&self, pt: PieceType, c: Color, sq: Square, occupied: &Bitboard) -> (r: Bitboard)
        requires
            self.valid(),
            pt != PieceType::OCCUPIED,
        ensures
            r.wf(),
            forall|i: int| 0 <= i < 81 ==> #[trigger] r.has(i) == table_reaches(*self, pt.val(), c.val(), sq.val(), *occupied, i),
    {
        let a = self.attack(pt, c, sq, occupied);
        let all = Bitboard::ALL();
        proof { Bitboard::lemma_and_wf(a, all); }
        a.and(all)
    }
}

/// The squares from which the piece `pc` can check a king on `ksq` from close by in one move,
/// as `proximity_from` says.
fn proximity_mask_of(t: &AttackTable, pc: Piece, ksq: Square) -> (r: Bitboard)
    requires
        t.valid(),
        proximity_piece(pc.val()),
    ensures
        r.wf(),
        forall|from: int| 0 <= from < 81 ==> #[trigger] r.has(from) == proximity_from(*t, pc.val(), ksq.val(), from),
{
    proof { broadcast use Square::lemma_val_range; }
    let pt = PieceType::new(pc);
    let us = Color::new(pc);
    let near = Bitboard::square_mask(ksq);
    let all = Bitboard::ALL();
    let mut bb = Bitboard::ZERO();
    let mut i: i32 = 0;
    while i < 81
        invariant
            0 <= i <= 81,
            t.valid(),
            proximity_piece(pc.val()),
            pt.val() == pc.val() % 16,
            us.val() == pc.val() / 16,
            near == Bitboard::from_words(sq_word(ksq.val(), 0), sq_word(ksq.val(), 1)),
            all == Bitboard::from_words(0x7fff_ffff_ffff_ffffu64, 0x3ffffu64),
            bb.wf(),
            forall|f: int| 0 <= f < 81 ==> #[trigger] bb.has(f) == (f < i && proximity_from(*t, pc.val(), ksq.val(), f)),
        decreases 81 - i,
    {
        let from = Square::SQ11.add_unchecked(i);
        if i != ksq.to_i32() {
            let mut to_bb = t.reach(pt, us, from, &near);
            let ghost start = to_bb;
            let mut found = false;
            loop
                invariant
                    t.valid(),
                    to_bb.wf(),
                    proximity_piece(pc.val()),
                    pt.val() == pc.val() % 16,
                    us.val() == pc.val() / 16,
                    all == Bitboard::from_words(0x7fff_ffff_ffff_ffffu64, 0x3ffffu64),
                    forall|x: int| 0 <= x < 81 ==> (#[trigger] to_bb.has(x) ==> start.has(x)),
                    forall|x: int| 0 <= x < 81 ==> #[trigger] start.has(x)
                        == table_reaches(*t, pc.val() % 16, pc.val() / 16, from.val(), near, x),
                    !found ==> forall|x: int| 0 <= x < 81 && #[trigger] start.has(x) && !to_bb.has(x)
                        ==> !checks_after(*t, pc.val(), ksq.val(), from.val(), x),
                    found ==> exists|x: int| 0 <= x < 81 && #[trigger] start.has(x) && checks_after(*t, pc.val(), ksq.val(), from.val(), x),
                ensures
                    found == exists|x: int| 0 <= x < 81 && #[trigger] start.has(x) && checks_after(*t, pc.val(), ksq.val(), from.val(), x),
                decreases bb_count(to_bb, 81),
            {
                let ghost before = to_bb;
                match to_bb.pop_lsb() {
                    None => {
                        proof {
                            before.lemma_nonempty();
                            if found {
                            } else {
                                assert forall|x: int| 0 <= x < 81 && #[trigger] start.has(x)
                                    implies !checks_after(*t, pc.val(), ksq.val(), from.val(), x) by {
                                    assert(!before.has(x));
                                }
                            }
                        }
                        break;
                    },
                    Some(to) => {
                        proof {
                            lemma_removed_count(before, to_bb, to.val(), 81);
                            lemma_bb_count_nonneg(to_bb, 81);
                        }
                        let direct = t.reach(pt, us, to, &all).is_set(ksq);
                        let mut check = direct;
                        if !direct && pt.is_promotable()
                            && (Rank::new(from).is_opponent_field(us) || Rank::new(to).is_opponent_field(us)) {
                            check = t.reach(pt.to_promote(), us, to, &all).is_set(ksq);
                        }
                        proof {
                            assert(check == checks_after(*t, pc.val(), ksq.val(), from.val(), to.val()));
                        }
                        if check {
                            found = true;
                            break;
                        }
                    },
                }
            }
            proof {
                let near_k = Bitboard::from_words(sq_word(ksq.val(), 0), sq_word(ksq.val(), 1));
                if found {
                    let x = choose|x: int| 0 <= x < 81 && #[trigger] start.has(x) && checks_after(*t, pc.val(), ksq.val(), from.val(), x);
                    assert(table_reaches(*t, pc.val() % 16, pc.val() / 16, from.val(), near_k, x));
                }
                if proximity_from(*t, pc.val(), ksq.val(), from.val()) {
                    let x = choose|x: int| 0 <= x < 81
                        && #[trigger] table_reaches(*t, pc.val() % 16, pc.val() / 16, from.val(), near_k, x)
                        && checks_after(*t, pc.val(), ksq.val(), from.val(), x);
                    assert(start.has(x));
                }
                assert(found == proximity_from(*t, pc.val(), ksq.val(), from.val()));
            }
            if found {
                bb.set(from);
            }
        }
        i = i + 1;
    }
    bb
}

/// For each piece but the kings and each square of a king, the squares from which that piece
/// can check the king from close by in one move.
pub struct ProximityCheckTable {
    masks: Vec<Bitboard>,
    tables: Ghost<AttackTable>,
}

impl ProximityCheckTable {
    /// The attack tables that the masks were read from.
    pub closed spec fn attack_tables(self) -> AttackTable {
        self.tables@
    }

    pub closed spec fn masks(self) -> Seq<Bitboard> {
        self.masks@
    }

    /// Each mask holds the squares that `proximity_from` names.
    pub open spec fn valid(self) -> bool {
        &&& self.masks().len() == 31 * 81
        &&& forall|pcv: int, ksq: int, from: int| 0 <= pcv < 31 && 0 <= ksq < 81 && 0 <= from < 81
            ==> #[trigger] self.masks()[pcv * 81 + ksq].has(from) == proximity_from(self.attack_tables(), pcv, ksq, from)
    }

    /// The masks read from the attack tables `t`.
    pub fn new(t: &AttackTable) -> (r: ProximityCheckTable)
        requires
            t.valid(),
        ensures
            r.valid(),
            r.attack_tables() == *t,
    {
        let mut masks: Vec<Bitboard> = Vec::new();
        let mut k: usize = 0;
        while k < 31 * 81
            invariant
                k <= 31 * 81,
                t.valid(),
                masks@.len() == k,
                forall|j: int, from: int| 0 <= j < k && 0 <= from < 81
                    ==> #[trigger] masks@[j].has(from) == proximity_from(*t, j / 81, j % 81, from),
            decreases 31 * 81 - k,
        {
            let pcv = (k / 81) as i32;
            let ksq = Square::SQ11.add_unchecked((k % 81) as i32);
            let ok = (1 <= pcv && pcv <= 14 || 17 <= pcv && pcv <= 30) && pcv % 16 != 8;
            let mask = if ok {
                proximity_mask_of(t, Piece::from_i32(pcv), ksq)
            } else {
                Bitboard::ZERO()
            };
            masks.push(mask);
            k = k + 1;
        }
        let r = ProximityCheckTable { masks, tables: Ghost(*t) };
        assert forall|pcv: int, ksq: int, from: int| 0 <= pcv < 31 && 0 <= ksq < 81 && 0 <= from < 81
            implies #[trigger] r.masks()[pcv * 81 + ksq].has(from) == proximity_from(r.attack_tables(), pcv, ksq, from) by {
            let j = pcv * 81 + ksq;
            assert(j / 81 == pcv && j % 81 == ksq) by (nonlinear_arith)
                requires j == pcv * 81 + ksq, 0 <= ksq < 81;
        }
        r
    }

    /// The squares from which piece `pc` can check a king on `ksq` from close by in one move.
    pub fn proximity_check_mask(&self, pc: Piece, ksq: Square) -> (r: Bitboard)
        requires
            self.valid(),
        ensures
            forall|from: int| 0 <= from < 81 ==> #[trigger] r.has(from) == proximity_from(self.attack_tables(), pc.val(), ksq.val(), from),
    {
        proof { broadcast use Square::lemma_val_range, Piece::lemma_val_range; }
        let r = self.masks[pc.to_i32() as usize * 81 + ksq.to_i32() as usize];
        proof {
            assert forall|from: int| 0 <= from < 81 implies #[trigger] r.has(from) == proximity_from(self.attack_tables(), pc.val(), ksq.val(), from) by {
                assert(self.masks()[pc.val() * 81 + ksq.val()].has(from) == proximity_from(self.attack_tables(), pc.val(), ksq.val(), from));
            }
        }
        r
    }
}

} // verus!
