use vstd::prelude::*;
use crate::types::PieceType;

verus! {

// Bit layout of the pieces in hand (one field per kind, a zero bit above each field):
// xxxxxxxx xxxxxxxx xxxxxxxx xxx11111  Pawn
// xxxxxxxx xxxxxxxx xxxxxxx1 11xxxxxx  Lance
// xxxxxxxx xxxxxxxx xxx111xx xxxxxxxx  Knight
// xxxxxxxx xxxxxxx1 11xxxxxx xxxxxxxx  Silver
// xxxxxxxx xxxx11xx xxxxxxxx xxxxxxxx  Bishop
// xxxxxxxx x11xxxxx xxxxxxxx xxxxxxxx  Rook
// xxxxx111 xxxxxxxx xxxxxxxx xxxxxxxx  Gold
/// The pieces that one side holds in hand, packed into bit fields.
#[derive(Debug, Copy, Clone, PartialEq, Eq, Structural)]
pub struct Hand(pub u32);

/// Whether `pt` is a kind that can be held in hand: pawn, lance, knight, silver, bishop,
/// rook or gold.
pub open spec fn is_hand_piece_type(pt: PieceType) -> bool {
    1 <= pt.val() <= 7
}

/// The mask of the field of a kind held in hand.
pub open spec fn field_mask(pt: PieceType) -> u32 {
    match pt {
        PieceType::PAWN => 0x1f,
        PieceType::LANCE => 0x1c0,
        PieceType::KNIGHT => 0x1c00,
        PieceType::SILVER => 0x1c000,
        PieceType::BISHOP => 0xc0000,
        PieceType::ROOK => 0x60_0000,
        _ => 0x700_0000,
    }
}

/// The position of the lowest bit of the field of a kind held in hand.
pub open spec fn field_shift(pt: PieceType) -> u32 {
    match pt {
        PieceType::PAWN => 0,
        PieceType::LANCE => 6,
        PieceType::KNIGHT => 10,
        PieceType::SILVER => 14,
        PieceType::BISHOP => 18,
        PieceType::ROOK => 21,
        _ => 24,
    }
}

/// The largest count that the field of a kind can hold.
pub open spec fn field_capacity(pt: PieceType) -> u32 {
    match pt {
        PieceType::PAWN => 31,
        PieceType::BISHOP => 3,
        PieceType::ROOK => 3,
        _ => 7,
    }
}

/// The kind that a captured piece of kind `pt` turns into in hand: promoted pieces are
/// demoted (promoted pawn, lance, knight and silver count with gold, as in this layout).
pub open spec fn hand_kind(pt: PieceType) -> PieceType {
    match pt {
        PieceType::HORSE => PieceType::BISHOP,
        PieceType::DRAGON => PieceType::ROOK,
        PieceType::PRO_PAWN => PieceType::GOLD,
        PieceType::PRO_LANCE => PieceType::GOLD,
        PieceType::PRO_KNIGHT => PieceType::GOLD,
        PieceType::PRO_SILVER => PieceType::GOLD,
        _ => pt,
    }
}

/// The kinds accepted by `plus_one` and `minus_one`: those held in hand, and the promoted
/// kinds, which are counted by `hand_kind`.
pub open spec fn is_capturable_piece_type(pt: PieceType) -> bool {
    pt != PieceType::OCCUPIED && pt != PieceType::KING
}

/// `a - b` modulo 2^32.
pub open spec fn wrapping_sub_u32(a: u32, b: u32) -> u32 {
    if a >= b { (a - b) as u32 } else { (a - b + 0x1_0000_0000) as u32 }
}

/// The constants of the hand layout: the unit of each field and the disjointness of the
/// fields, proved once by bit blasting.
proof fn lemma_hand_constants()
    by (bit_vector)
    ensures
        1u32 << 0u32 == 1u32,
        1u32 << 6u32 == 0x40u32,
        1u32 << 10u32 == 0x400u32,
        1u32 << 14u32 == 0x4000u32,
        1u32 << 18u32 == 0x4_0000u32,
        1u32 << 21u32 == 0x20_0000u32,
        1u32 << 24u32 == 0x100_0000u32,
        0x1fu32 & 0x1c0u32 == 0u32 && 0x1fu32 & 0x1c00u32 == 0u32 && 0x1fu32 & 0x1c000u32 == 0u32
                && 0x1fu32 & 0xc0000u32 == 0u32 && 0x1fu32 & 0x600000u32 == 0u32 && 0x1fu32 & 0x7000000u32 == 0u32
                && 0x1c0u32 & 0x1c00u32 == 0u32 && 0x1c0u32 & 0x1c000u32 == 0u32 && 0x1c0u32 & 0xc0000u32 == 0u32
                && 0x1c0u32 & 0x600000u32 == 0u32 && 0x1c0u32 & 0x7000000u32 == 0u32
                && 0x1c00u32 & 0x1c000u32 == 0u32 && 0x1c00u32 & 0xc0000u32 == 0u32 && 0x1c00u32 & 0x600000u32 == 0u32
                && 0x1c00u32 & 0x7000000u32 == 0u32 && 0x1c000u32 & 0xc0000u32 == 0u32 && 0x1c000u32 & 0x600000u32 == 0u32
                && 0x1c000u32 & 0x7000000u32 == 0u32 && 0xc0000u32 & 0x600000u32 == 0u32 && 0xc0000u32 & 0x7000000u32 == 0u32
                && 0x600000u32 & 0x7000000u32 == 0u32,
        0x1c0u32 & 0x1fu32 == 0u32 && 0x1c00u32 & 0x1fu32 == 0u32 && 0x1c000u32 & 0x1fu32 == 0u32
                && 0xc0000u32 & 0x1fu32 == 0u32 && 0x600000u32 & 0x1fu32 == 0u32 && 0x7000000u32 & 0x1fu32 == 0u32
                && 0x1c00u32 & 0x1c0u32 == 0u32 && 0x1c000u32 & 0x1c0u32 == 0u32 && 0xc0000u32 & 0x1c0u32 == 0u32
                && 0x600000u32 & 0x1c0u32 == 0u32 && 0x7000000u32 & 0x1c0u32 == 0u32
                && 0x1c000u32 & 0x1c00u32 == 0u32 && 0xc0000u32 & 0x1c00u32 == 0u32 && 0x600000u32 & 0x1c00u32 == 0u32
                && 0x7000000u32 & 0x1c00u32 == 0u32 && 0xc0000u32 & 0x1c000u32 == 0u32 && 0x600000u32 & 0x1c000u32 == 0u32
                && 0x7000000u32 & 0x1c000u32 == 0u32 && 0x600000u32 & 0xc0000u32 == 0u32 && 0x7000000u32 & 0xc0000u32 == 0u32
                && 0x7000000u32 & 0x600000u32 == 0u32,
{
}

/// A field is non-zero exactly when its masked bits are; the fields other than the pawn's
/// are all zero exactly when the word is zero under the mask of those fields.
proof fn lemma_hand_field_bits(x: u32, mask: u32, s: u32)
    by (bit_vector)
    ensures
        ((mask == 0x1fu32 && s == 0u32) || (mask == 0x1c0u32 && s == 6u32)
            || (mask == 0x1c00u32 && s == 10u32) || (mask == 0x1c000u32 && s == 14u32)
            || (mask == 0xc0000u32 && s == 18u32) || (mask == 0x600000u32 && s == 21u32)
            || (mask == 0x7000000u32 && s == 24u32))
            ==> (((x & mask) >> s != 0) <==> (x & mask != 0)),
        ((x & 0x76dddc0u32) != 0) <==> ((x & 0x1c0u32) >> 6u32 != 0 || (x & 0x1c00u32) >> 10u32 != 0
            || (x & 0x1c000u32) >> 14u32 != 0 || (x & 0xc0000u32) >> 18u32 != 0
            || (x & 0x600000u32) >> 21u32 != 0 || (x & 0x7000000u32) >> 24u32 != 0),
{
}

impl Hand {
    pub const PAWN_REQUIRE_BITS: u32 = 5;
    pub const LANCE_REQUIRE_BITS: u32 = 3;
    pub const KNIGHT_REQUIRE_BITS: u32 = 3;
    pub const SILVER_REQUIRE_BITS: u32 = 3;
    pub const BISHOP_REQUIRE_BITS: u32 = 2;
    pub const ROOK_REQUIRE_BITS: u32 = 2;
    pub const GOLD_REQUIRE_BITS: u32 = 3;

    pub const PAWN_SHIFT_BITS: u32 = 0;
    pub const LANCE_SHIFT_BITS: u32 = 6;
    pub const KNIGHT_SHIFT_BITS: u32 = 10;
    pub const SILVER_SHIFT_BITS: u32 = 14;
    pub const BISHOP_SHIFT_BITS: u32 = 18;
    pub const ROOK_SHIFT_BITS: u32 = 21;
    pub const GOLD_SHIFT_BITS: u32 = 24;

    const PAWN_MASK: u32 = 0x1f;
    const LANCE_MASK: u32 = 0x1c0;
    const KNIGHT_MASK: u32 = 0x1c00;
    const SILVER_MASK: u32 = 0x1_c000;
    const BISHOP_MASK: u32 = 0xc_0000;
    const ROOK_MASK: u32 = 0x60_0000;
    const GOLD_MASK: u32 = 0x700_0000;

    /// Every field but the pawn's.
    const EXCEPT_PAWN_MASK: u32 = 0x76d_ddc0;
    /// The zero bit just above each field.
    pub const BORROW_MASK: u32 = 0x892_2220;
    /// Every field.
    pub const ALL_FIELDS_MASK: u32 = 0x76d_dddf;

    const PAWN_ONE: u32 = 1;
    const LANCE_ONE: u32 = 0x40;
    const KNIGHT_ONE: u32 = 0x400;
    const SILVER_ONE: u32 = 0x4000;
    const BISHOP_ONE: u32 = 0x4_0000;
    const ROOK_ONE: u32 = 0x20_0000;
    const GOLD_ONE: u32 = 0x100_0000;

    /// How many pieces of kind `pt` the hand holds.
    pub open spec fn count(self, pt: PieceType) -> u32 {
        (self.0 & field_mask(pt)) >> field_shift(pt)
    }

    /// No bit outside the fields is set.
    pub open spec fn wf(self) -> bool {
        self.0 & !Hand::ALL_FIELDS_MASK == 0
    }

    /// The amount that adding one piece of kind `pt` adds to the packed word.
    pub open spec fn one(pt: PieceType) -> u32 {
        (1u32 << field_shift(hand_kind(pt))) as u32
    }

    pub fn num(self, pt: PieceType) -> (r: u32)
        requires is_hand_piece_type(pt),
        ensures r == self.count(pt),
    {
        let (mask, shift) = match pt {
            PieceType::PAWN => (Hand::PAWN_MASK, Hand::PAWN_SHIFT_BITS),
            PieceType::LANCE => (Hand::LANCE_MASK, Hand::LANCE_SHIFT_BITS),
            PieceType::KNIGHT => (Hand::KNIGHT_MASK, Hand::KNIGHT_SHIFT_BITS),
            PieceType::SILVER => (Hand::SILVER_MASK, Hand::SILVER_SHIFT_BITS),
            PieceType::BISHOP => (Hand::BISHOP_MASK, Hand::BISHOP_SHIFT_BITS),
            PieceType::ROOK => (Hand::ROOK_MASK, Hand::ROOK_SHIFT_BITS),
            _ => (Hand::GOLD_MASK, Hand::GOLD_SHIFT_BITS),
        };
        (self.0 & mask) >> shift
    }

    pub fn exist(self, pt: PieceType) -> (r: bool)
        requires is_hand_piece_type(pt),
        ensures r == (self.count(pt) != 0),
    {
        let x = self.0;
        let mask = match pt {
            PieceType::PAWN => Hand::PAWN_MASK,
            PieceType::LANCE => Hand::LANCE_MASK,
            PieceType::KNIGHT => Hand::KNIGHT_MASK,
            PieceType::SILVER => Hand::SILVER_MASK,
            PieceType::BISHOP => Hand::BISHOP_MASK,
            PieceType::ROOK => Hand::ROOK_MASK,
            _ => Hand::GOLD_MASK,
        };
        proof {
            let s = field_shift(pt);
            assert(s < 32);
            lemma_hand_field_bits(x, mask, s);
        }
        (x & mask) != 0
    }

    pub fn except_pawn_exist(self) -> (r: bool)
        ensures
            r == (self.count(PieceType::LANCE) != 0 || self.count(PieceType::KNIGHT) != 0
                || self.count(PieceType::SILVER) != 0 || self.count(PieceType::BISHOP) != 0
                || self.count(PieceType::ROOK) != 0 || self.count(PieceType::GOLD) != 0),
    {
        let x = self.0;
        proof { lemma_hand_field_bits(x, 0, 0); }
        (x & Hand::EXCEPT_PAWN_MASK) != 0
    }

    /// Adds `num` pieces of kind `pt` into the field by OR; the field is meant to be empty.
    pub fn set(&mut self, pt: PieceType, num: u32)
        requires is_hand_piece_type(pt),
        ensures final(self).0 == old(self).0 | (num << field_shift(pt)),
    {
        self.0 |= num << match pt {
            PieceType::PAWN => Hand::PAWN_SHIFT_BITS,
            PieceType::LANCE => Hand::LANCE_SHIFT_BITS,
            PieceType::KNIGHT => Hand::KNIGHT_SHIFT_BITS,
            PieceType::SILVER => Hand::SILVER_SHIFT_BITS,
            PieceType::BISHOP => Hand::BISHOP_SHIFT_BITS,
            PieceType::ROOK => Hand::ROOK_SHIFT_BITS,
            _ => Hand::GOLD_SHIFT_BITS,
        };
    }

    /// Adds one piece of the kind that a captured `pt` becomes in hand.
    pub fn plus_one(&mut self, pt: PieceType)
        requires
            is_capturable_piece_type(pt),
            old(self).0 + Hand::one(pt) <= u32::MAX,
        ensures final(self).0 == old(self).0 + Hand::one(pt),
    {
        proof { Hand::lemma_one_values(pt); }
        self.0 += match pt {
            PieceType::PAWN => Hand::PAWN_ONE,
            PieceType::LANCE => Hand::LANCE_ONE,
            PieceType::KNIGHT => Hand::KNIGHT_ONE,
            PieceType::SILVER => Hand::SILVER_ONE,
            PieceType::BISHOP | PieceType::HORSE => Hand::BISHOP_ONE,
            PieceType::ROOK | PieceType::DRAGON => Hand::ROOK_ONE,
            _ => Hand::GOLD_ONE,
        };
    }

    /// Removes one piece of the kind that `pt` becomes in hand.
    pub fn minus_one(&mut self, pt: PieceType)
        requires
            is_capturable_piece_type(pt),
            old(self).0 >= Hand::one(pt),
        ensures final(self).0 == old(self).0 - Hand::one(pt),
    {
        proof { Hand::lemma_one_values(pt); }
        self.0 -= match pt {
            PieceType::PAWN => Hand::PAWN_ONE,
            PieceType::LANCE => Hand::LANCE_ONE,
            PieceType::KNIGHT => Hand::KNIGHT_ONE,
            PieceType::SILVER => Hand::SILVER_ONE,
            PieceType::BISHOP | PieceType::HORSE => Hand::BISHOP_ONE,
            PieceType::ROOK | PieceType::DRAGON => Hand::ROOK_ONE,
            _ => Hand::GOLD_ONE,
        };
    }

    /// Whether `self - other`, computed field by field, borrows in no field.
    pub open spec fn spec_is_equal_or_superior(self, other: Hand) -> bool {
        wrapping_sub_u32(self.0, other.0) & Hand::BORROW_MASK == 0
    }

    pub fn is_equal_or_superior(self, other: Hand) -> (r: bool)
        ensures r == self.spec_is_equal_or_superior(other),
    {
        (self.0.wrapping_sub(other.0) & Hand::BORROW_MASK) == 0
    }

    /// The amount that adding one piece of kind `pt` adds to the packed word.
    pub fn one_of(pt: PieceType) -> (r: u32)
        ensures r == Hand::one(pt),
    {
        proof { Hand::lemma_one_values(pt); }
        match pt {
            PieceType::PAWN => 1,
            PieceType::LANCE => 0x40,
            PieceType::KNIGHT => 0x400,
            PieceType::SILVER => 0x4000,
            PieceType::BISHOP | PieceType::HORSE => 0x4_0000,
            PieceType::ROOK | PieceType::DRAGON => 0x20_0000,
            _ => 0x100_0000,
        }
    }

    pub proof fn lemma_one_values(pt: PieceType)
        ensures
            Hand::one(pt) == match hand_kind(pt) {
                PieceType::PAWN => 1u32,
                PieceType::LANCE => 0x40u32,
                PieceType::KNIGHT => 0x400u32,
                PieceType::SILVER => 0x4000u32,
                PieceType::BISHOP => 0x4_0000u32,
                PieceType::ROOK => 0x20_0000u32,
                _ => 0x100_0000u32,
            },
    {
        lemma_hand_constants();
    }
}

/// The borrow test of `is_equal_or_superior`, field by field, proved by bit blasting.
proof fn lemma_superior_bits(x: u32, y: u32, d: u32)
    by (bit_vector)
    ensures
        (x & !0x76ddddfu32 == 0 && y & !0x76ddddfu32 == 0
        && d == (if x >= y { (x - y) as u32 } else { (x - y + 0x1_0000_0000) as u32 }))
        ==> ((d & 0x8922220u32 == 0) <==> (
            (x & 0x1fu32) >= (y & 0x1fu32)
            && (x & 0x1c0u32) >> 6u32 >= (y & 0x1c0u32) >> 6u32
            && (x & 0x1c00u32) >> 10u32 >= (y & 0x1c00u32) >> 10u32
            && (x & 0x1c000u32) >> 14u32 >= (y & 0x1c000u32) >> 14u32
            && (x & 0xc0000u32) >> 18u32 >= (y & 0xc0000u32) >> 18u32
            && (x & 0x600000u32) >> 21u32 >= (y & 0x600000u32) >> 21u32
            && (x & 0x7000000u32) >> 24u32 >= (y & 0x7000000u32) >> 24u32)),
        (x & 0x1fu32) >> 0u32 == x & 0x1fu32,
        (y & 0x1fu32) >> 0u32 == y & 0x1fu32,
{
}

/// `is_equal_or_superior` compares field by field: on hands with no bit outside the fields,
/// one hand is equal or superior to another exactly when it holds at least as many pieces of
/// every kind.
pub proof fn lemma_is_equal_or_superior_counts(a: Hand, b: Hand)
    requires
        a.wf(),
        b.wf(),
    ensures
        a.spec_is_equal_or_superior(b) <==> (forall|pt: PieceType|
            is_hand_piece_type(pt) ==> #[trigger] a.count(pt) >= b.count(pt)),
{
    let x = a.0;
    let y = b.0;
    let d = wrapping_sub_u32(x, y);
    assert(d == if x >= y { (x - y) as u32 } else { (x - y + 0x1_0000_0000) as u32 });
    lemma_superior_bits(x, y, d);
    if a.spec_is_equal_or_superior(b) {
        assert forall|pt: PieceType| is_hand_piece_type(pt) implies #[trigger] a.count(pt) >= b.count(pt) by {
        }
    } else {
        assert(!(a.count(PieceType::PAWN) >= b.count(PieceType::PAWN)
            && a.count(PieceType::LANCE) >= b.count(PieceType::LANCE)
            && a.count(PieceType::KNIGHT) >= b.count(PieceType::KNIGHT)
            && a.count(PieceType::SILVER) >= b.count(PieceType::SILVER)
            && a.count(PieceType::BISHOP) >= b.count(PieceType::BISHOP)
            && a.count(PieceType::ROOK) >= b.count(PieceType::ROOK)
            && a.count(PieceType::GOLD) >= b.count(PieceType::GOLD)));
    }
}

/// Adding one piece to a field that is not full raises that count by one and leaves every
/// other count, and the absence of bits outside the fields, as they were.
pub proof fn lemma_plus_one_counts(h: Hand, pt: PieceType)
    requires
        h.wf(),
        is_capturable_piece_type(pt),
        h.count(hand_kind(pt)) < field_capacity(hand_kind(pt)),
    ensures
        h.0 + Hand::one(pt) <= u32::MAX,
        ({
            let h2 = Hand((h.0 + Hand::one(pt)) as u32);
            &&& h2.wf()
            &&& h2.count(hand_kind(pt)) == h.count(hand_kind(pt)) + 1
            &&& forall|q: PieceType| is_hand_piece_type(q) && q != hand_kind(pt)
                ==> #[trigger] h2.count(q) == h.count(q)
        }),
{
    Hand::lemma_one_values(pt);
    assert(is_hand_piece_type(hand_kind(pt)));
    lemma_field_arith(h.0, Hand::one(pt), hand_kind(pt), true);
    let h2 = Hand((h.0 + Hand::one(pt)) as u32);
    assert(h2.wf());
    assert(h2.count(hand_kind(pt)) == h.count(hand_kind(pt)) + 1);
}

/// Removing one piece from a field that is not empty lowers that count by one and leaves
/// every other count, and the absence of bits outside the fields, as they were.
pub proof fn lemma_minus_one_counts(h: Hand, pt: PieceType)
    requires
        h.wf(),
        is_capturable_piece_type(pt),
        h.count(hand_kind(pt)) > 0,
    ensures
        h.0 >= Hand::one(pt),
        ({
            let h2 = Hand((h.0 - Hand::one(pt)) as u32);
            &&& h2.wf()
            &&& h2.count(hand_kind(pt)) == h.count(hand_kind(pt)) - 1
            &&& forall|q: PieceType| is_hand_piece_type(q) && q != hand_kind(pt)
                ==> #[trigger] h2.count(q) == h.count(q)
        }),
{
    Hand::lemma_one_values(pt);
    assert(is_hand_piece_type(hand_kind(pt)));
    lemma_field_arith(h.0, Hand::one(pt), hand_kind(pt), false);
    let h2 = Hand((h.0 - Hand::one(pt)) as u32);
    assert(h2.wf());
    assert(h2.count(hand_kind(pt)) == h.count(hand_kind(pt)) - 1);
}

/// Adding or removing the unit of a field that is neither full nor empty changes that field
/// by one and no bit elsewhere, proved by bit blasting.
proof fn lemma_field_step_bits(x: u32, m: u32, s: u32, c: u32, one: u32)
    by (bit_vector)
    ensures
        (x & !0x76ddddfu32 == 0
        && ((m == 0x1fu32 && s == 0u32 && c == 31u32) || (m == 0x1c0u32 && s == 6u32 && c == 7u32)
            || (m == 0x1c00u32 && s == 10u32 && c == 7u32) || (m == 0x1c000u32 && s == 14u32 && c == 7u32)
            || (m == 0xc0000u32 && s == 18u32 && c == 3u32) || (m == 0x600000u32 && s == 21u32 && c == 3u32)
            || (m == 0x7000000u32 && s == 24u32 && c == 7u32))
        && one == 1u32 << s)
        ==> (
            ((x & m) >> s < c ==> (
                x + one <= 0xffff_ffffu32
                && (((x + one) as u32) & !0x76ddddfu32 == 0)
                && (((x + one) as u32) & m) >> s == ((x & m) >> s) + 1
                && ((x + one) as u32) & !m == x & !m))
            && ((x & m) >> s > 0 ==> (
                x >= one
                && (((x - one) as u32) & !0x76ddddfu32 == 0)
                && (((x - one) as u32) & m) >> s == ((x & m) >> s) - 1
                && ((x - one) as u32) & !m == x & !m))),
{
}

/// Words that agree outside a mask agree on every field disjoint from it.
proof fn lemma_field_other_bits(x: u32, y: u32, m: u32, mq: u32, sq: u32)
    by (bit_vector)
    ensures
        (y & !m == x & !m && mq & m == 0u32) ==> (y & mq) >> sq == (x & mq) >> sq,
{
}

proof fn lemma_field_arith(x: u32, one: u32, k: PieceType, up: bool)
    requires
        x & !Hand::ALL_FIELDS_MASK == 0,
        is_hand_piece_type(k),
        one == (match k {
            PieceType::PAWN => 1u32,
            PieceType::LANCE => 0x40u32,
            PieceType::KNIGHT => 0x400u32,
            PieceType::SILVER => 0x4000u32,
            PieceType::BISHOP => 0x4_0000u32,
            PieceType::ROOK => 0x20_0000u32,
            _ => 0x100_0000u32,
        }),
        up ==> Hand(x).count(k) < field_capacity(k),
        !up ==> Hand(x).count(k) > 0,
    ensures
        up ==> x + one <= u32::MAX,
        !up ==> x >= one,
        up ==> Hand((x + one) as u32).wf(),
        up ==> Hand((x + one) as u32).count(k) == Hand(x).count(k) + 1,
        up ==> forall|q: PieceType| is_hand_piece_type(q) && q != k
                ==> #[trigger] Hand((x + one) as u32).count(q) == Hand(x).count(q),
        !up ==> Hand((x - one) as u32).wf(),
        !up ==> Hand((x - one) as u32).count(k) == Hand(x).count(k) - 1,
        !up ==> forall|q: PieceType| is_hand_piece_type(q) && q != k
                ==> #[trigger] Hand((x - one) as u32).count(q) == Hand(x).count(q),
{
    let m = field_mask(k);
    let s = field_shift(k);
    let c = field_capacity(k);
    assert(x & m >> s < c + 1 ==> true);
    lemma_field_step_bits(x, m, s, c, one);
    assert(one == 1u32 << s) by {
        lemma_hand_constants();
    }
    let y = if up { (x + one) as u32 } else { (x - one) as u32 };
    assert forall|q: PieceType| is_hand_piece_type(q) && q != k implies #[trigger] Hand(y).count(q) == Hand(x).count(q) by {
        let mq = field_mask(q);
        let sq = field_shift(q);
        assert(y & !m == x & !m);
        lemma_field_other_bits(x, y, m, mq, sq);
        assert(mq & m == 0u32) by {
            lemma_hand_constants();
        }
    }
    if up {
        assert(forall|q: PieceType| is_hand_piece_type(q) && q != k
            ==> #[trigger] Hand((x + one) as u32).count(q) == Hand(x).count(q)) by {
            assert forall|q: PieceType| is_hand_piece_type(q) && q != k
                implies #[trigger] Hand((x + one) as u32).count(q) == Hand(x).count(q) by {
                assert(Hand(y).count(q) == Hand(x).count(q));
            }
        }
    } else {
        assert forall|q: PieceType| is_hand_piece_type(q) && q != k
            implies #[trigger] Hand((x - one) as u32).count(q) == Hand(x).count(q) by {
            assert(Hand(y).count(q) == Hand(x).count(q));
        }
    }
}

impl Hand {
    /// A hand without stray bits is the sum of its fields: each count times the amount that one
    /// piece of its kind adds.
    pub proof fn lemma_word_is_sum_of_fields(h: Hand)
        requires
            h.wf(),
        ensures
            h.0 as int == h.count(PieceType::PAWN) * Hand::one(PieceType::PAWN)
                + h.count(PieceType::LANCE) * Hand::one(PieceType::LANCE)
                + h.count(PieceType::KNIGHT) * Hand::one(PieceType::KNIGHT)
                + h.count(PieceType::SILVER) * Hand::one(PieceType::SILVER)
                + h.count(PieceType::BISHOP) * Hand::one(PieceType::BISHOP)
                + h.count(PieceType::ROOK) * Hand::one(PieceType::ROOK)
                + h.count(PieceType::GOLD) * Hand::one(PieceType::GOLD),
    {
        let x = h.0;
        Hand::lemma_one_values(PieceType::PAWN);
        Hand::lemma_one_values(PieceType::LANCE);
        Hand::lemma_one_values(PieceType::KNIGHT);
        Hand::lemma_one_values(PieceType::SILVER);
        Hand::lemma_one_values(PieceType::BISHOP);
        Hand::lemma_one_values(PieceType::ROOK);
        Hand::lemma_one_values(PieceType::GOLD);
        lemma_hand_constants();
        assert(x & !0x76d_dddfu32 == 0 ==> x == ((x & 0x1fu32) >> 0u32) * 1 + ((x & 0x1c0u32) >> 6u32) * 64
            + ((x & 0x1c00u32) >> 10u32) * 1024 + ((x & 0x1_c000u32) >> 14u32) * 16384
            + ((x & 0xc_0000u32) >> 18u32) * 262144 + ((x & 0x60_0000u32) >> 21u32) * 2097152
            + ((x & 0x700_0000u32) >> 24u32) * 16777216) by (bit_vector);
    }

    /// The empty hand holds no piece of any kind.
    pub proof fn lemma_empty_counts(pt: PieceType)
        ensures
            Hand(0).count(pt) == 0,
    {
        let m = field_mask(pt);
        let s = field_shift(pt);
        assert((0u32 & m) >> s == 0u32) by (bit_vector);
    }
}

/// The fields of the first `k` kinds in the order of SFEN (rook, bishop, gold, silver, knight,
/// lance, pawn), together.
pub open spec fn sfen_fields_mask(k: int) -> u32 {
    if k <= 0 {
        0
    } else if k == 1 {
        0x60_0000
    } else if k == 2 {
        0x6c_0000
    } else if k == 3 {
        0x76c_0000
    } else if k == 4 {
        0x76d_c000
    } else if k == 5 {
        0x76d_dc00
    } else if k == 6 {
        0x76d_ddc0
    } else {
        0x76d_dddf
    }
}

/// Setting the fields one kind at a time in SFEN order, each to its count in `x`, builds `x`
/// field by field; a field not yet set reads zero.
pub proof fn lemma_sfen_fields_bits(x: u32, a: u32)
    by (bit_vector)
    ensures
        a | 0u32 == a,
        0u32 << 21u32 == 0u32 && 0u32 << 18u32 == 0u32 && 0u32 << 24u32 == 0u32 && 0u32 << 14u32 == 0u32
            && 0u32 << 10u32 == 0u32 && 0u32 << 6u32 == 0u32 && 0u32 << 0u32 == 0u32,
        (x & 0u32) | (((x & 0x60_0000u32) >> 21u32) << 21u32) == x & 0x60_0000u32,
        (x & 0x60_0000u32) | (((x & 0xc_0000u32) >> 18u32) << 18u32) == x & 0x6c_0000u32,
        (x & 0x6c_0000u32) | (((x & 0x700_0000u32) >> 24u32) << 24u32) == x & 0x76c_0000u32,
        (x & 0x76c_0000u32) | (((x & 0x1_c000u32) >> 14u32) << 14u32) == x & 0x76d_c000u32,
        (x & 0x76d_c000u32) | (((x & 0x1c00u32) >> 10u32) << 10u32) == x & 0x76d_dc00u32,
        (x & 0x76d_dc00u32) | (((x & 0x1c0u32) >> 6u32) << 6u32) == x & 0x76d_ddc0u32,
        (x & 0x76d_ddc0u32) | (((x & 0x1fu32) >> 0u32) << 0u32) == x & 0x76d_dddfu32,
        ((x & 0u32) & 0x60_0000u32) >> 21u32 == 0u32,
        ((x & 0x60_0000u32) & 0xc_0000u32) >> 18u32 == 0u32,
        ((x & 0x6c_0000u32) & 0x700_0000u32) >> 24u32 == 0u32,
        ((x & 0x76c_0000u32) & 0x1_c000u32) >> 14u32 == 0u32,
        ((x & 0x76d_c000u32) & 0x1c00u32) >> 10u32 == 0u32,
        ((x & 0x76d_dc00u32) & 0x1c0u32) >> 6u32 == 0u32,
        ((x & 0x76d_ddc0u32) & 0x1fu32) >> 0u32 == 0u32,
        x & !0x76d_dddfu32 == 0u32 ==> x & 0x76d_dddfu32 == x,
        x & 0u32 == 0u32,
{
}

} // verus!
