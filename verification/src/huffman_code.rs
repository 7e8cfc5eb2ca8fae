use vstd::prelude::*;
use crate::hand::Hand;
use crate::position::PositionBase;
use crate::types::{Color, Piece, PieceType, Square};

verus! {

/// A Huffman code: its bits, lowest bit first, and how many of them there are.
#[derive(PartialEq, Eq, Structural, Debug, Clone, Copy)]
pub struct HuffmanCode {
    pub value: u8,
    pub bit_length: u8,
}

/// The code of a piece on the board (the empty square included; kings are written apart).
pub open spec fn field_code(pc: Piece) -> (u8, u8) {
    match pc {
        Piece::EMPTY => (0b0, 1),
        Piece::B_PAWN => (0b1, 4),
        Piece::B_LANCE => (0b11, 6),
        Piece::B_KNIGHT => (0b111, 6),
        Piece::B_SILVER => (0b1011, 6),
        Piece::B_BISHOP => (0b1_1111, 8),
        Piece::B_ROOK => (0b11_1111, 8),
        Piece::B_GOLD => (0b1111, 6),
        Piece::B_PRO_PAWN => (0b1001, 4),
        Piece::B_PRO_LANCE => (0b10_0011, 6),
        Piece::B_PRO_KNIGHT => (0b10_0111, 6),
        Piece::B_PRO_SILVER => (0b10_1011, 6),
        Piece::B_HORSE => (0b1001_1111, 8),
        Piece::B_DRAGON => (0b1011_1111, 8),
        Piece::W_PAWN => (0b101, 4),
        Piece::W_LANCE => (0b1_0011, 6),
        Piece::W_KNIGHT => (0b1_0111, 6),
        Piece::W_SILVER => (0b1_1011, 6),
        Piece::W_BISHOP => (0b101_1111, 8),
        Piece::W_ROOK => (0b111_1111, 8),
        Piece::W_GOLD => (0b10_1111, 6),
        Piece::W_PRO_PAWN => (0b1101, 4),
        Piece::W_PRO_LANCE => (0b11_0011, 6),
        Piece::W_PRO_KNIGHT => (0b11_0111, 6),
        Piece::W_PRO_SILVER => (0b11_1011, 6),
        Piece::W_HORSE => (0b1101_1111, 8),
        Piece::W_DRAGON => (0b1111_1111, 8),
        // Kings have no code on the board: their squares are written first.
        _ => (0, 0),
    }
}

/// The code of a piece in hand of side `c`.
pub open spec fn hand_code(c: Color, pt: PieceType) -> (u8, u8) {
    match (c, pt) {
        (Color::BLACK, PieceType::PAWN) => (0b0, 3),
        (Color::BLACK, PieceType::LANCE) => (0b1, 5),
        (Color::BLACK, PieceType::KNIGHT) => (0b11, 5),
        (Color::BLACK, PieceType::SILVER) => (0b101, 5),
        (Color::BLACK, PieceType::GOLD) => (0b111, 5),
        (Color::BLACK, PieceType::BISHOP) => (0b1_1111, 7),
        (Color::BLACK, PieceType::ROOK) => (0b11_1111, 7),
        (Color::WHITE, PieceType::PAWN) => (0b100, 3),
        (Color::WHITE, PieceType::LANCE) => (0b1_0001, 5),
        (Color::WHITE, PieceType::KNIGHT) => (0b1_0011, 5),
        (Color::WHITE, PieceType::SILVER) => (0b1_0101, 5),
        (Color::WHITE, PieceType::GOLD) => (0b1_0111, 5),
        (Color::WHITE, PieceType::BISHOP) => (0b101_1111, 7),
        (Color::WHITE, PieceType::ROOK) => (0b111_1111, 7),
        _ => (0, 0),
    }
}

impl HuffmanCode {
    /// The longest code of a piece on the board.
    pub const MAX_BIT_LENGTH_FOR_FIELD: u8 = 8;
    /// The longest code of a piece in hand.
    pub const MAX_BIT_LENGTH_FOR_HAND: u8 = 7;

    /// The code of a piece on the board.
    pub fn new(pc: Piece) -> (r: HuffmanCode)
        requires !pc.is_king_spec(),
        ensures (r.value, r.bit_length) == field_code(pc),
    {
        let (value, bit_length) = match pc {
            Piece::EMPTY => (0b0, 1),
            Piece::B_PAWN => (0b1, 4),
            Piece::B_LANCE => (0b11, 6),
            Piece::B_KNIGHT => (0b111, 6),
            Piece::B_SILVER => (0b1011, 6),
            Piece::B_BISHOP => (0b1_1111, 8),
            Piece::B_ROOK => (0b11_1111, 8),
            Piece::B_GOLD => (0b1111, 6),
            Piece::B_PRO_PAWN => (0b1001, 4),
            Piece::B_PRO_LANCE => (0b10_0011, 6),
            Piece::B_PRO_KNIGHT => (0b10_0111, 6),
            Piece::B_PRO_SILVER => (0b10_1011, 6),
            Piece::B_HORSE => (0b1001_1111, 8),
            Piece::B_DRAGON => (0b1011_1111, 8),
            Piece::W_PAWN => (0b101, 4),
            Piece::W_LANCE => (0b1_0011, 6),
            Piece::W_KNIGHT => (0b1_0111, 6),
            Piece::W_SILVER => (0b1_1011, 6),
            Piece::W_BISHOP => (0b101_1111, 8),
            Piece::W_ROOK => (0b111_1111, 8),
            Piece::W_GOLD => (0b10_1111, 6),
            Piece::W_PRO_PAWN => (0b1101, 4),
            Piece::W_PRO_LANCE => (0b11_0011, 6),
            Piece::W_PRO_KNIGHT => (0b11_0111, 6),
            Piece::W_PRO_SILVER => (0b11_1011, 6),
            Piece::W_HORSE => (0b1101_1111, 8),
            Piece::W_DRAGON => (0b1111_1111, 8),
            _ => (0, 0),
        };
        HuffmanCode { value, bit_length }
    }

    /// The code of a piece of kind `pt` in the hand of side `c`.
    pub fn new_from_color_and_hand_piece_type(c: Color, pt: PieceType) -> (r: HuffmanCode)
        requires crate::hand::is_hand_piece_type(pt),
        ensures (r.value, r.bit_length) == hand_code(c, pt),
    {
        let (value, bit_length) = match (c, pt) {
            (Color::BLACK, PieceType::PAWN) => (0b0, 3),
            (Color::BLACK, PieceType::LANCE) => (0b1, 5),
            (Color::BLACK, PieceType::KNIGHT) => (0b11, 5),
            (Color::BLACK, PieceType::SILVER) => (0b101, 5),
            (Color::BLACK, PieceType::GOLD) => (0b111, 5),
            (Color::BLACK, PieceType::BISHOP) => (0b1_1111, 7),
            (Color::BLACK, PieceType::ROOK) => (0b11_1111, 7),
            (Color::WHITE, PieceType::PAWN) => (0b100, 3),
            (Color::WHITE, PieceType::LANCE) => (0b1_0001, 5),
            (Color::WHITE, PieceType::KNIGHT) => (0b1_0011, 5),
            (Color::WHITE, PieceType::SILVER) => (0b1_0101, 5),
            (Color::WHITE, PieceType::GOLD) => (0b1_0111, 5),
            (Color::WHITE, PieceType::BISHOP) => (0b101_1111, 7),
            (Color::WHITE, PieceType::ROOK) => (0b111_1111, 7),
            _ => (0, 0),
        };
        HuffmanCode { value, bit_length }
    }
}

/// Why a code read for a piece on the board is no piece (yet).
#[derive(Debug, Clone, Copy, PartialEq, Eq, Structural)]
pub enum HuffmanCodeForFieldError {
    /// The bits read so far are a prefix of a code: read another bit.
    UndecidedYet,
    /// The bits read are already longer than any code.
    OverMaxBitLength,
}

/// Why a code read for a piece in hand is no piece (yet).
#[derive(Debug, Clone, Copy, PartialEq, Eq, Structural)]
pub enum HuffmanCodeForHandError {
    /// The bits read so far are a prefix of a code: read another bit.
    UndecidedYet,
    /// The bits read are already longer than any code.
    OverMaxBitLength,
}

/// The piece whose board code is `(value, bit_length)`, if any.
pub open spec fn piece_of_field_code(value: u8, bit_length: u8) -> Option<Piece> {
    match (value, bit_length) {
        (0x0, 1) => Some(Piece::EMPTY),
        (0x1, 4) => Some(Piece::B_PAWN),
        (0x3, 6) => Some(Piece::B_LANCE),
        (0x7, 6) => Some(Piece::B_KNIGHT),
        (0xb, 6) => Some(Piece::B_SILVER),
        (0x1f, 8) => Some(Piece::B_BISHOP),
        (0x3f, 8) => Some(Piece::B_ROOK),
        (0xf, 6) => Some(Piece::B_GOLD),
        (0x9, 4) => Some(Piece::B_PRO_PAWN),
        (0x23, 6) => Some(Piece::B_PRO_LANCE),
        (0x27, 6) => Some(Piece::B_PRO_KNIGHT),
        (0x2b, 6) => Some(Piece::B_PRO_SILVER),
        (0x9f, 8) => Some(Piece::B_HORSE),
        (0xbf, 8) => Some(Piece::B_DRAGON),
        (0x5, 4) => Some(Piece::W_PAWN),
        (0x13, 6) => Some(Piece::W_LANCE),
        (0x17, 6) => Some(Piece::W_KNIGHT),
        (0x1b, 6) => Some(Piece::W_SILVER),
        (0x5f, 8) => Some(Piece::W_BISHOP),
        (0x7f, 8) => Some(Piece::W_ROOK),
        (0x2f, 6) => Some(Piece::W_GOLD),
        (0xd, 4) => Some(Piece::W_PRO_PAWN),
        (0x33, 6) => Some(Piece::W_PRO_LANCE),
        (0x37, 6) => Some(Piece::W_PRO_KNIGHT),
        (0x3b, 6) => Some(Piece::W_PRO_SILVER),
        (0xdf, 8) => Some(Piece::W_HORSE),
        (0xff, 8) => Some(Piece::W_DRAGON),
        _ => None,
    }
}

/// The kind (with the side that the decoding reports) whose hand code is `(value, bit_length)`, if any.
/// Codes of white's hand pieces are reported as black's, as the decoding does.
pub open spec fn piece_of_hand_code(value: u8, bit_length: u8) -> Option<(Color, PieceType)> {
    match (value, bit_length) {
        (0x0, 3) => Some((Color::BLACK, PieceType::PAWN)),
        (0x4, 3) => Some((Color::BLACK, PieceType::PAWN)),
        (0x1, 5) => Some((Color::BLACK, PieceType::LANCE)),
        (0x11, 5) => Some((Color::BLACK, PieceType::LANCE)),
        (0x3, 5) => Some((Color::BLACK, PieceType::KNIGHT)),
        (0x13, 5) => Some((Color::BLACK, PieceType::KNIGHT)),
        (0x5, 5) => Some((Color::BLACK, PieceType::SILVER)),
        (0x15, 5) => Some((Color::BLACK, PieceType::SILVER)),
        (0x7, 5) => Some((Color::BLACK, PieceType::GOLD)),
        (0x17, 5) => Some((Color::BLACK, PieceType::GOLD)),
        (0x1f, 7) => Some((Color::BLACK, PieceType::BISHOP)),
        (0x5f, 7) => Some((Color::BLACK, PieceType::BISHOP)),
        (0x3f, 7) => Some((Color::BLACK, PieceType::ROOK)),
        (0x7f, 7) => Some((Color::BLACK, PieceType::ROOK)),
        _ => None,
    }
}

/// Decoding of a board code: the piece it stands for; else, when it is as long as the
/// longest code, too long; else a prefix of a longer code.
pub open spec fn spec_piece_from_huffman_code(hc: HuffmanCode) -> Result<Piece, HuffmanCodeForFieldError> {
    match piece_of_field_code(hc.value, hc.bit_length) {
        Some(pc) => Ok(pc),
        None => if hc.bit_length >= HuffmanCode::MAX_BIT_LENGTH_FOR_FIELD {
            Err(HuffmanCodeForFieldError::OverMaxBitLength)
        } else {
            Err(HuffmanCodeForFieldError::UndecidedYet)
        },
    }
}

/// Decoding of a hand code, as `spec_piece_from_huffman_code` does for the board.
pub open spec fn spec_hand_piece_from_huffman_code(hc: HuffmanCode) -> Result<(Color, PieceType), HuffmanCodeForHandError> {
    match piece_of_hand_code(hc.value, hc.bit_length) {
        Some(x) => Ok(x),
        None => if hc.bit_length >= HuffmanCode::MAX_BIT_LENGTH_FOR_HAND {
            Err(HuffmanCodeForHandError::OverMaxBitLength)
        } else {
            Err(HuffmanCodeForHandError::UndecidedYet)
        },
    }
}

/// The piece on the board that a code stands for.
pub fn piece_from_huffman_code(hc: &HuffmanCode) -> (r: Result<Piece, HuffmanCodeForFieldError>)
    ensures r == spec_piece_from_huffman_code(*hc),
{
    match (hc.value, hc.bit_length) {
        (0x0, 1) => Ok(Piece::EMPTY),
        (0x1, 4) => Ok(Piece::B_PAWN),
        (0x3, 6) => Ok(Piece::B_LANCE),
        (0x7, 6) => Ok(Piece::B_KNIGHT),
        (0xb, 6) => Ok(Piece::B_SILVER),
        (0x1f, 8) => Ok(Piece::B_BISHOP),
        (0x3f, 8) => Ok(Piece::B_ROOK),
        (0xf, 6) => Ok(Piece::B_GOLD),
        (0x9, 4) => Ok(Piece::B_PRO_PAWN),
        (0x23, 6) => Ok(Piece::B_PRO_LANCE),
        (0x27, 6) => Ok(Piece::B_PRO_KNIGHT),
        (0x2b, 6) => Ok(Piece::B_PRO_SILVER),
        (0x9f, 8) => Ok(Piece::B_HORSE),
        (0xbf, 8) => Ok(Piece::B_DRAGON),
        (0x5, 4) => Ok(Piece::W_PAWN),
        (0x13, 6) => Ok(Piece::W_LANCE),
        (0x17, 6) => Ok(Piece::W_KNIGHT),
        (0x1b, 6) => Ok(Piece::W_SILVER),
        (0x5f, 8) => Ok(Piece::W_BISHOP),
        (0x7f, 8) => Ok(Piece::W_ROOK),
        (0x2f, 6) => Ok(Piece::W_GOLD),
        (0xd, 4) => Ok(Piece::W_PRO_PAWN),
        (0x33, 6) => Ok(Piece::W_PRO_LANCE),
        (0x37, 6) => Ok(Piece::W_PRO_KNIGHT),
        (0x3b, 6) => Ok(Piece::W_PRO_SILVER),
        (0xdf, 8) => Ok(Piece::W_HORSE),
        (0xff, 8) => Ok(Piece::W_DRAGON),
        (_, bit_length) => if bit_length >= HuffmanCode::MAX_BIT_LENGTH_FOR_FIELD {
            Err(HuffmanCodeForFieldError::OverMaxBitLength)
        } else {
            Err(HuffmanCodeForFieldError::UndecidedYet)
        },
    }
}

/// The piece in hand that a code stands for.
pub fn hand_piece_from_huffman_code(hc: &HuffmanCode) -> (r: Result<(Color, PieceType), HuffmanCodeForHandError>)
    ensures r == spec_hand_piece_from_huffman_code(*hc),
{
    match (hc.value, hc.bit_length) {
        (0x0, 3) => Ok((Color::BLACK, PieceType::PAWN)),
        (0x4, 3) => Ok((Color::BLACK, PieceType::PAWN)),
        (0x1, 5) => Ok((Color::BLACK, PieceType::LANCE)),
        (0x11, 5) => Ok((Color::BLACK, PieceType::LANCE)),
        (0x3, 5) => Ok((Color::BLACK, PieceType::KNIGHT)),
        (0x13, 5) => Ok((Color::BLACK, PieceType::KNIGHT)),
        (0x5, 5) => Ok((Color::BLACK, PieceType::SILVER)),
        (0x15, 5) => Ok((Color::BLACK, PieceType::SILVER)),
        (0x7, 5) => Ok((Color::BLACK, PieceType::GOLD)),
        (0x17, 5) => Ok((Color::BLACK, PieceType::GOLD)),
        (0x1f, 7) => Ok((Color::BLACK, PieceType::BISHOP)),
        (0x5f, 7) => Ok((Color::BLACK, PieceType::BISHOP)),
        (0x3f, 7) => Ok((Color::BLACK, PieceType::ROOK)),
        (0x7f, 7) => Ok((Color::BLACK, PieceType::ROOK)),
        (_, bit_length) => if bit_length >= HuffmanCode::MAX_BIT_LENGTH_FOR_HAND {
            Err(HuffmanCodeForHandError::OverMaxBitLength)
        } else {
            Err(HuffmanCodeForHandError::UndecidedYet)
        },
    }
}

/// Every piece's board code decodes to that piece.
pub proof fn lemma_field_code_round_trip(pc: Piece)
    requires !pc.is_king_spec(),
    ensures
        spec_piece_from_huffman_code(HuffmanCode { value: field_code(pc).0, bit_length: field_code(pc).1 }) == Ok::<Piece, HuffmanCodeForFieldError>(pc),
{
}

/// Every hand code of black decodes to that kind and black.
pub proof fn lemma_hand_code_round_trip(pt: PieceType)
    requires crate::hand::is_hand_piece_type(pt),
    ensures
        spec_hand_piece_from_huffman_code(HuffmanCode { value: hand_code(Color::BLACK, pt).0, bit_length: hand_code(Color::BLACK, pt).1 })
            == Ok::<(Color, PieceType), HuffmanCodeForHandError>((Color::BLACK, pt)),
{
}



/// `2^l` for the code lengths (`l <= 8`).
pub open spec fn pow2_len(l: int) -> int {
    if l <= 0 { 1 } else if l == 1 { 2 } else if l == 2 { 4 } else if l == 3 { 8 } else if l == 4 { 16 }
    else if l == 5 { 32 } else if l == 6 { 64 } else if l == 7 { 128 } else { 256 }
}

/// No board code is a proper prefix of another: reading a board code bit by bit from its
/// lowest bit, no shorter run of its bits is a code. So the pieces of a packed board decode
/// without ambiguity.
pub proof fn lemma_field_codes_prefix_free(pc: Piece, l: int)
    requires
        !pc.is_king_spec(),
        0 <= l < field_code(pc).1,
    ensures
        piece_of_field_code((field_code(pc).0 as int % pow2_len(l)) as u8, l as u8) is None,
{
    assert(0 <= l < 8);
    if l == 0 { } else if l == 1 { } else if l == 2 { } else if l == 3 { }
    else if l == 4 { } else if l == 5 { } else if l == 6 { } else { }
}

/// No hand code is a proper prefix of another, as for the board codes.
pub proof fn lemma_hand_codes_prefix_free(c: Color, pt: PieceType, l: int)
    requires
        pt == PieceType::PAWN || pt == PieceType::LANCE || pt == PieceType::KNIGHT || pt == PieceType::SILVER
            || pt == PieceType::GOLD || pt == PieceType::BISHOP || pt == PieceType::ROOK,
        0 <= l < hand_code(c, pt).1,
    ensures
        piece_of_hand_code((hand_code(c, pt).0 as int % pow2_len(l)) as u8, l as u8) is None,
{
    assert(0 <= l < 7);
    if l == 0 { } else if l == 1 { } else if l == 2 { } else if l == 3 { }
    else if l == 4 { } else if l == 5 { } else { }
}

/// Bit `q` of a byte stream, counting from the lowest bit of the first byte.
pub open spec fn stream_bit(s: Seq<u8>, q: int) -> u8 {
    (s[q / 8] >> ((q % 8) as u8)) & 1u8
}

/// The `n` bits of a stream from position `p`, the first one lowest.
pub open spec fn read_bits(s: Seq<u8>, p: int, n: nat) -> u8
    decreases n,
{
    if n == 0 {
        0u8
    } else {
        read_bits(s, p, (n - 1) as nat) | ((stream_bit(s, p + n - 1) << ((n - 1) as u8)) as u8)
    }
}

/// Bit `k` of `v`, zero from bit 8 on.
pub open spec fn value_bit(v: u8, k: int) -> u8 {
    if 0 <= k < 8 { (v >> (k as u8)) & 1u8 } else { 0u8 }
}

/// The `n` lowest bits of `v` (`n <= 8`).
pub open spec fn low_bits(v: u8, n: nat) -> u8 {
    ((v as u64) & ((1u64 << (n as u64)) - 1) as u64) as u8
}

/// A reader of bits from a byte slice, lowest bit of each byte first.
pub struct BitStreamReader<'a> {
    pub slice: &'a [u8],
    pub current_index: usize,
    pub current_bit: usize,
}

/// A writer of bits into a byte slice, lowest bit of each byte first. Bits are ORed in, so
/// the slice is meant to start zeroed.
pub struct BitStreamWriter<'a> {
    pub slice: &'a mut [u8],
    pub current_index: usize,
    pub current_bit: usize,
}

proof fn lemma_byte_bit(b: u8, cb: u8)
    by (bit_vector)
    requires cb < 8,
    ensures
        ((b & (1u8 << cb)) == 0u8) == ((b >> cb) & 1u8 == 0u8),
        (b >> cb) & 1u8 <= 1,
{
}

/// ORing `bit` in at bit `cb` sets bit `cb` and keeps every other bit.
proof fn lemma_or_bit(ob: u8, bit: u8, cb: u8, j: u8)
    by (bit_vector)
    requires
        cb < 8,
        j < 8,
        bit <= 1,
    ensures
        ((ob | (bit << cb)) >> j) & 1u8 == if j == cb { ((ob >> j) & 1u8) | bit } else { (ob >> j) & 1u8 },
{
}

/// Shifting a byte right one bit at a time walks through its bits, lowest first.
proof fn lemma_shift_step(bits: u8, ii: u8, rest: u8)
    by (bit_vector)
    ensures
        bits >> 0u8 == bits,
        ii < 8 ==> ((bits >> ii) >> 1u8 == if ii + 1 < 8 { bits >> ((ii + 1) as u8) } else { 0u8 }),
        0u8 & 1u8 == 0u8,
        0u8 >> 1u8 == 0u8,
        rest & 1u8 <= 1,
{
}

/// The low bits of a byte, taken one more at a time, and the zero byte under OR.
proof fn lemma_low_bits_step(v: u8, k: u64, x: u8)
    by (bit_vector)
    ensures
        ((v as u64) & ((1u64 << 0u64) - 1) as u64) as u8 == 0u8,
        0u8 | x == x,
        k < 8 ==> ((((v as u64) & ((1u64 << k) - 1) as u64) as u8) | ((((v >> (k as u8)) & 1u8) << (k as u8)) as u8))
            == (((v as u64) & ((1u64 << ((k + 1) as u64)) - 1) as u64) as u8),
{
}

impl<'a> BitStreamReader<'a> {
    /// The number of bits read so far.
    pub open spec fn pos(self) -> int {
        self.current_index * 8 + self.current_bit
    }

    pub fn new(buf: &'a [u8]) -> (r: BitStreamReader<'a>)
        ensures
            r.slice@ == buf@,
            r.current_index == 0,
            r.current_bit == 0,
    {
        BitStreamReader { slice: buf, current_index: 0, current_bit: 0 }
    }

    /// Reads the next bit.
    pub fn get_bit_from_lsb(&mut self) -> (r: u8)
        requires
            old(self).current_bit < 8,
            old(self).pos() < old(self).slice@.len() * 8,
        ensures
            r == stream_bit(old(self).slice@, old(self).pos()),
            final(self).slice@ == old(self).slice@,
            final(self).pos() == old(self).pos() + 1,
            final(self).current_bit < 8,
    {
        let i = self.current_index;
        let cb = self.current_bit as u8;
        proof {
            lemma_byte_bit(self.slice@[i as int], cb);
            assert(old(self).pos() / 8 == i as int);
            assert(old(self).pos() % 8 == cb as int);
        }
        let bit = if (self.slice[i] & (1u8 << cb)) == 0 { 0 } else { 1 };
        self.current_bit += 1;
        if self.current_bit == 8 {
            self.current_index += 1;
            self.current_bit = 0;
        }
        bit
    }

    /// Reads the next `bit_length` bits, the first one lowest.
    pub fn get_bits_from_lsb(&mut self, bit_length: usize) -> (r: u8)
        requires
            bit_length <= 8,
            old(self).current_bit < 8,
            old(self).pos() + bit_length <= old(self).slice@.len() * 8,
        ensures
            r == read_bits(old(self).slice@, old(self).pos(), bit_length as nat),
            final(self).slice@ == old(self).slice@,
            final(self).pos() == old(self).pos() + bit_length,
            final(self).current_bit < 8,
    {
        let ghost p0 = self.pos();
        let mut bits: u8 = 0;
        let mut i: usize = 0;
        while i < bit_length
            invariant
                i <= bit_length <= 8,
                self.slice@ == old(self).slice@,
                self.pos() == p0 + i,
                p0 == old(self).pos(),
                self.current_bit < 8,
                p0 + bit_length <= self.slice@.len() * 8,
                bits == read_bits(self.slice@, p0, i as nat),
            decreases bit_length - i,
        {
            let b = self.get_bit_from_lsb();
            let ii = i as u8;
            assert(b <= 1) by {
                lemma_byte_bit(self.slice@[(p0 + i) / 8], ((p0 + i) % 8) as u8);
            }
            bits = bits | (b << ii);
            i += 1;
        }
        bits
    }
}

impl<'a> BitStreamWriter<'a> {
    /// The number of bits written so far.
    pub open spec fn pos(self) -> int {
        self.current_index * 8 + self.current_bit
    }

    pub fn new(buf: &'a mut [u8]) -> (r: BitStreamWriter<'a>)
        ensures
            r.slice@ == old(buf)@,
            r.current_index == 0,
            r.current_bit == 0,
    {
        BitStreamWriter { slice: buf, current_index: 0, current_bit: 0 }
    }

    /// ORs one bit into the next position.
    pub fn put_bit_from_lsb(&mut self, bit: u8)
        requires
            bit <= 1,
            old(self).current_bit < 8,
            old(self).pos() < old(self).slice@.len() * 8,
        ensures
            final(self).slice@.len() == old(self).slice@.len(),
            final(self).pos() == old(self).pos() + 1,
            final(self).current_bit < 8,
            forall|q: int| 0 <= q < old(self).slice@.len() * 8 ==> #[trigger] stream_bit(final(self).slice@, q)
                == if q == old(self).pos() { stream_bit(old(self).slice@, q) | bit } else { stream_bit(old(self).slice@, q) },
    {
        let i = self.current_index;
        let cb = self.current_bit as u8;
        let ghost old_s = self.slice@;
        let b = self.slice[i] | (bit << cb);
        self.slice[i] = b;
        proof {
            let ob = old_s[i as int];
            assert forall|q: int| 0 <= q < old_s.len() * 8 implies #[trigger] stream_bit(self.slice@, q)
                == if q == old(self).pos() { stream_bit(old_s, q) | bit } else { stream_bit(old_s, q) } by {
                if q / 8 == i as int {
                    let j = (q % 8) as u8;
                    lemma_or_bit(ob, bit, cb, j);
                } else {
                    assert(self.slice@[q / 8] == old_s[q / 8]);
                }
            }
        }
        self.current_bit += 1;
        if self.current_bit == 8 {
            self.current_index += 1;
            self.current_bit = 0;
        }
    }

    /// ORs the `bit_length` lowest bits of `bits` into the next positions, lowest first.
    pub fn put_bits_from_lsb(&mut self, bits: u8, bit_length: usize)
        requires
            old(self).current_bit < 8,
            old(self).pos() + bit_length <= old(self).slice@.len() * 8,
        ensures
            final(self).slice@.len() == old(self).slice@.len(),
            final(self).pos() == old(self).pos() + bit_length,
            final(self).current_bit < 8,
            forall|q: int| 0 <= q < old(self).slice@.len() * 8 ==> #[trigger] stream_bit(final(self).slice@, q)
                == if old(self).pos() <= q < old(self).pos() + bit_length {
                    stream_bit(old(self).slice@, q) | value_bit(bits, q - old(self).pos())
                } else {
                    stream_bit(old(self).slice@, q)
                },
    {
        let ghost p0 = self.pos();
        let ghost s0 = self.slice@;
        let mut rest = bits;
        let mut i: usize = 0;
        proof { lemma_shift_step(bits, 0, 0); }
        while i < bit_length
            invariant
                i <= bit_length,
                self.pos() == p0 + i,
                p0 == old(self).pos(),
                s0 == old(self).slice@,
                self.current_bit < 8,
                self.slice@.len() == s0.len(),
                p0 + bit_length <= s0.len() * 8,
                rest == if i < 8 { bits >> (i as u8) } else { 0u8 },
                forall|q: int| 0 <= q < s0.len() * 8 ==> #[trigger] stream_bit(self.slice@, q)
                    == if p0 <= q < p0 + i { stream_bit(s0, q) | value_bit(bits, q - p0) } else { stream_bit(s0, q) },
            decreases bit_length - i,
        {
            let bit = rest & 1;
            proof {
                let ii = i as u8;
                if i < 8 {
                    assert(bit == value_bit(bits, i as int));
                }
                lemma_shift_step(bits, ii, rest);
            }
            rest >>= 1;
            self.put_bit_from_lsb(bit);
            i += 1;
        }
    }
}

/// Bits written into zeroed positions read back as written: after `put_bits_from_lsb(v, n)`
/// at position `p` of a stream whose bits there were zero, reading `n` bits at `p` gives the
/// `n` lowest bits of `v`.
pub proof fn lemma_write_then_read(old_s: Seq<u8>, new_s: Seq<u8>, p: int, n: nat, v: u8)
    requires
        n <= 8,
        0 <= p,
        p + n <= old_s.len() * 8,
        new_s.len() == old_s.len(),
        forall|q: int| p <= q < p + n ==> #[trigger] stream_bit(old_s, q) == 0u8,
        forall|q: int| 0 <= q < old_s.len() * 8 ==> #[trigger] stream_bit(new_s, q)
            == if p <= q < p + n { stream_bit(old_s, q) | value_bit(v, q - p) } else { stream_bit(old_s, q) },
    ensures
        read_bits(new_s, p, n) == low_bits(v, n),
    decreases n,
{
    if n == 0 {
        lemma_low_bits_step(v, 0, 0);
    } else {
        let m = (n - 1) as nat;
        lemma_write_then_read_prefix(old_s, new_s, p, n, m, v);
        let q = p + m;
        assert(stream_bit(new_s, q) == value_bit(v, m as int)) by {
            assert(stream_bit(old_s, q) == 0u8);
            lemma_low_bits_step(v, 0, value_bit(v, m as int));
        }
        let k = m as u64;
        lemma_low_bits_step(v, k, 0);
    }
}

proof fn lemma_write_then_read_prefix(old_s: Seq<u8>, new_s: Seq<u8>, p: int, n: nat, m: nat, v: u8)
    requires
        m < n <= 8,
        0 <= p,
        p + n <= old_s.len() * 8,
        new_s.len() == old_s.len(),
        forall|q: int| p <= q < p + n ==> #[trigger] stream_bit(old_s, q) == 0u8,
        forall|q: int| 0 <= q < old_s.len() * 8 ==> #[trigger] stream_bit(new_s, q)
            == if p <= q < p + n { stream_bit(old_s, q) | value_bit(v, q - p) } else { stream_bit(old_s, q) },
    ensures
        read_bits(new_s, p, m) == low_bits(v, m),
    decreases m,
{
    if m == 0 {
        lemma_low_bits_step(v, 0, 0);
    } else {
        let j = (m - 1) as nat;
        lemma_write_then_read_prefix(old_s, new_s, p, n, j, v);
        let q = p + j;
        assert(stream_bit(new_s, q) == value_bit(v, j as int)) by {
            assert(stream_bit(old_s, q) == 0u8);
            lemma_low_bits_step(v, 0, value_bit(v, j as int));
        }
        let k = j as u64;
        lemma_low_bits_step(v, k, 0);
    }
}
/// The `n` lowest bits of `v`, lowest first, as a sequence of bits.
pub open spec fn code_bits(v: u8, n: int) -> Seq<u8> {
    Seq::new(n as nat, |k: int| value_bit(v, k))
}

/// The bits of the board codes of the first `n` squares of `board`, kings left out.
pub open spec fn board_code_bits(board: Seq<Piece>, n: int) -> Seq<u8>
    decreases n,
{
    if n <= 0 {
        seq![]
    } else if board[n - 1].is_king_spec() {
        board_code_bits(board, n - 1)
    } else {
        board_code_bits(board, n - 1) + code_bits(field_code(board[n - 1]).0, field_code(board[n - 1]).1 as int)
    }
}

/// The kinds held in hand in the order the packing writes them: pawn, lance, knight, silver,
/// bishop, rook, gold.
pub open spec fn packed_hand_kind(k: int) -> PieceType {
    if k == 0 {
        PieceType::PAWN
    } else if k == 1 {
        PieceType::LANCE
    } else if k == 2 {
        PieceType::KNIGHT
    } else if k == 3 {
        PieceType::SILVER
    } else if k == 4 {
        PieceType::BISHOP
    } else if k == 5 {
        PieceType::ROOK
    } else {
        PieceType::GOLD
    }
}

/// `n` copies of the bits `b`.
pub open spec fn repeat_bits(b: Seq<u8>, n: nat) -> Seq<u8>
    decreases n,
{
    if n == 0 {
        seq![]
    } else {
        repeat_bits(b, (n - 1) as nat) + b
    }
}

/// The bits of the hand codes of the first `m` of the fourteen entries (black's seven kinds,
/// then white's), each code repeated as many times as the hand holds that kind.
pub open spec fn hand_code_bits(hands: Seq<Hand>, m: int) -> Seq<u8>
    decreases m,
{
    if m <= 0 {
        seq![]
    } else {
        let c = Color::from_val((m - 1) / 7);
        let pt = packed_hand_kind((m - 1) % 7);
        hand_code_bits(hands, m - 1) + repeat_bits(code_bits(hand_code(c, pt).0, hand_code(c, pt).1 as int), hands[(m - 1) / 7].count(pt) as nat)
    }
}

/// The bits that pack a position: the side to move, the squares of the black and the white
/// king in seven bits each, the board codes of the other squares, and the hand codes.
pub open spec fn packed_bits(side: Color, kings: Seq<int>, board: Seq<Piece>, hands: Seq<Hand>) -> Seq<u8> {
    seq![side.val() as u8] + code_bits(kings[0] as u8, 7) + code_bits(kings[1] as u8, 7)
        + board_code_bits(board, 81) + hand_code_bits(hands, 14)
}

/// The low bits of a byte, one more at a time.
pub proof fn lemma_low_bits_next(v: u8, k: nat)
    requires
        k < 8,
    ensures
        low_bits(v, k) | ((value_bit(v, k as int) << (k as u8)) as u8) == low_bits(v, k + 1),
        low_bits(v, 0) == 0u8,
{
    lemma_low_bits_step(v, k as u64, 0);
    lemma_low_bits_step(v, 0, 0);
}

/// A board code's value lies below two to the power of its length; so does a hand code's.
pub proof fn lemma_code_values_fit(pc: Piece, c: Color, pt: PieceType)
    ensures
        !pc.is_king_spec() ==> (field_code(pc).0 as int) < pow2_len(field_code(pc).1 as int) && 1 <= field_code(pc).1 <= 8,
        crate::hand::is_hand_piece_type(pt) ==> (hand_code(c, pt).0 as int) < pow2_len(hand_code(c, pt).1 as int)
            && 3 <= hand_code(c, pt).1 <= 7,
{
}

/// Reading back bits that equal the low bits of `v` gives those low bits.
pub proof fn lemma_read_code(s: Seq<u8>, p: int, v: u8, n: nat)
    requires
        n <= 8,
        0 <= p,
        p + n <= s.len() * 8,
        forall|k: int| 0 <= k < n ==> #[trigger] stream_bit(s, p + k) == value_bit(v, k),
    ensures
        read_bits(s, p, n) == low_bits(v, n),
    decreases n,
{
    if n == 0 {
        lemma_low_bits_step(v, 0, 0);
    } else {
        let m = (n - 1) as nat;
        lemma_read_code(s, p, v, m);
        assert(stream_bit(s, p + m) == value_bit(v, m as int));
        lemma_low_bits_step(v, m as u64, 0);
    }
}

/// The low bits of a byte are its remainder by the power of two; a code's value has no bits above
/// its length.
pub proof fn lemma_low_bits_mod(v: u8, n: nat)
    requires
        n <= 8,
    ensures
        low_bits(v, n) as int == v as int % pow2_len(n as int),
        (v as int) < pow2_len(n as int) ==> low_bits(v, n) == v,
{
    let k = n as u64;
    assert(k <= 8 ==> ((v as u64) & ((1u64 << k) - 1) as u64) == (v as u64) % (1u64 << k)) by (bit_vector);
    assert(1u64 << 0u64 == 1 && 1u64 << 1u64 == 2 && 1u64 << 2u64 == 4 && 1u64 << 3u64 == 8 && 1u64 << 4u64 == 16
        && 1u64 << 5u64 == 32 && 1u64 << 6u64 == 64 && 1u64 << 7u64 == 128 && 1u64 << 8u64 == 256) by (bit_vector);
    assert(pow2_len(n as int) == (1u64 << k));
    if (v as int) < pow2_len(n as int) {
        vstd::arithmetic::div_mod::lemma_small_mod(v as nat, pow2_len(n as int) as nat);
    }
}

/// A position packed into 256 bits by the Huffman codes above, with its game ply.
#[derive(Clone, Copy, PartialEq, Eq, Debug)]
pub struct HuffmanCodedPosition {
    pub buf: [u8; 32],
    pub ply: i16,
}

fn packed_hand_kind_at(k: usize) -> (pt: PieceType)
    requires
        k < 7,
    ensures
        pt == packed_hand_kind(k as int),
{
    match k {
        0 => PieceType::PAWN,
        1 => PieceType::LANCE,
        2 => PieceType::KNIGHT,
        3 => PieceType::SILVER,
        4 => PieceType::BISHOP,
        5 => PieceType::ROOK,
        _ => PieceType::GOLD,
    }
}

proof fn lemma_zero_stream(s: Seq<u8>, q: int)
    requires
        0 <= q < s.len() * 8,
        s[q / 8] == 0u8,
    ensures
        stream_bit(s, q) == 0u8,
{
    let k = (q % 8) as u8;
    assert((0u8 >> k) & 1u8 == 0u8) by (bit_vector);
}

pub proof fn lemma_repeat_len(b: Seq<u8>, n: nat)
    ensures
        repeat_bits(b, n).len() == n * b.len(),
    decreases n,
{
    let l = b.len() as int;
    if n > 0 {
        lemma_repeat_len(b, (n - 1) as nat);
        assert(n * l == (n - 1) * l + l) by (nonlinear_arith);
        assert(repeat_bits(b, n).len() == repeat_bits(b, (n - 1) as nat).len() + l);
    } else {
        assert(n * l == 0) by (nonlinear_arith)
            requires n == 0;
    }
}

pub proof fn lemma_board_code_bits_mono(board: Seq<Piece>, n: int, m: int)
    requires
        n <= m,
    ensures
        board_code_bits(board, n).len() <= board_code_bits(board, m).len(),
    decreases m - n,
{
    if n < m {
        lemma_board_code_bits_mono(board, n, m - 1);
    }
}

pub proof fn lemma_hand_code_bits_mono(hands: Seq<Hand>, n: int, m: int)
    requires
        n <= m,
    ensures
        hand_code_bits(hands, n).len() <= hand_code_bits(hands, m).len(),
    decreases m - n,
{
    if n < m {
        lemma_hand_code_bits_mono(hands, n, m - 1);
    }
}

/// Writes the `n` lowest bits of `v` after the bits `w` already written.
fn put_code(bs: &mut BitStreamWriter, v: u8, n: usize, Ghost(w): Ghost<Seq<u8>>)
    requires
        n <= 8,
        old(bs).current_bit < 8,
        old(bs).slice@.len() == 32,
        old(bs).pos() == w.len(),
        w.len() + n <= 256,
        forall|q: int| 0 <= q < 256 ==> #[trigger] stream_bit(old(bs).slice@, q) == if q < w.len() { w[q] } else { 0u8 },
    ensures
        final(bs).slice@.len() == 32,
        final(bs).current_bit < 8,
        final(bs).pos() == w.len() + n,
        forall|q: int| 0 <= q < 256 ==> #[trigger] stream_bit(final(bs).slice@, q)
            == if q < w.len() + n { (w + code_bits(v, n as int))[q] } else { 0u8 },
{
    let ghost s0 = bs.slice@;
    bs.put_bits_from_lsb(v, n);
    proof {
        assert forall|q: int| 0 <= q < 256 implies #[trigger] stream_bit(bs.slice@, q)
            == if q < w.len() + n { (w + code_bits(v, n as int))[q] } else { 0u8 } by {
            if w.len() <= q < w.len() + n {
                lemma_low_bits_step(v, 0, value_bit(v, q - w.len()));
            }
        }
    }
}

impl HuffmanCodedPosition {
    /// The position packed into 256 bits (see `packed_bits`; the rest of the bits are zero),
    /// with its ply cut to 16 bits.
    pub fn from(pos: &PositionBase) -> (r: HuffmanCodedPosition)
        requires
            packed_bits(pos.spec_side_to_move(), seq![pos.king_squares_seq()[0].val(), pos.king_squares_seq()[1].val()],
                pos.board_seq(), pos.hands_seq()).len() <= 256,
        ensures
            r.ply == pos.spec_game_ply() as i16,
            ({
                let bits = packed_bits(pos.spec_side_to_move(), seq![pos.king_squares_seq()[0].val(), pos.king_squares_seq()[1].val()],
                    pos.board_seq(), pos.hands_seq());
                forall|q: int| 0 <= q < 256 ==> #[trigger] stream_bit(r.buf@, q) == if q < bits.len() { bits[q] } else { 0u8 }
            }),
    {
        proof { broadcast use Square::lemma_val_range, Color::lemma_val_range; }
        let ghost kings = seq![pos.king_squares_seq()[0].val(), pos.king_squares_seq()[1].val()];
        let ghost board = pos.board_seq();
        let ghost hands = pos.hands_seq();
        let ghost all = packed_bits(pos.spec_side_to_move(), kings, board, hands);
        let mut scratch = [0u8; 32];
        let mut bs = BitStreamWriter::new(&mut scratch);
        proof {
            assert forall|q: int| 0 <= q < 256 implies #[trigger] stream_bit(bs.slice@, q) == 0u8 by {
                lemma_zero_stream(bs.slice@, q);
            }
        }
        let side = pos.side_to_move().to_i32() as u8;
        let kb = pos.king_square(Color::BLACK).to_i32() as u8;
        let kw = pos.king_square(Color::WHITE).to_i32() as u8;
        let ghost head = seq![side] + code_bits(kb, 7) + code_bits(kw, 7);
        proof {
            lemma_board_code_bits_mono(board, 0, 81);
            lemma_hand_code_bits_mono(hands, 0, 14);
            assert(all == head + board_code_bits(board, 81) + hand_code_bits(hands, 14));
        }
        let ghost w0: Seq<u8> = seq![];
        let ghost w1: Seq<u8> = seq![side];
        let ghost w2: Seq<u8> = seq![side] + code_bits(kb, 7);
        put_code(&mut bs, side, 1, Ghost(w0));
        proof {
            assert(side <= 1);
            assert(value_bit(side, 0) == side) by {
                assert(side <= 1 ==> (side >> 0u8) & 1u8 == side) by (bit_vector);
            }
            assert(w0 + code_bits(side, 1) =~= w1);
        }
        put_code(&mut bs, kb, 7, Ghost(w1));
        put_code(&mut bs, kw, 7, Ghost(w2));
        let mut sq: usize = 0;
        while sq < 81
            invariant
                sq <= 81,
                bs.slice@.len() == 32,
                bs.current_bit < 8,
                board == pos.board_seq(),
                hands == pos.hands_seq(),
                all == head + board_code_bits(board, 81) + hand_code_bits(hands, 14),
                all.len() <= 256,
                bs.pos() == (head + board_code_bits(board, sq as int)).len(),
                forall|q: int| 0 <= q < 256 ==> #[trigger] stream_bit(bs.slice@, q)
                    == if q < bs.pos() { (head + board_code_bits(board, sq as int))[q] } else { 0u8 },
            decreases 81 - sq,
        {
            let pc = pos.piece_on(Square(sq as i32));
            if !pc.is_king() {
                let hc = HuffmanCode::new(pc);
                proof {
                    lemma_board_code_bits_mono(board, sq as int + 1, 81);
                    lemma_hand_code_bits_mono(hands, 0, 14);
                }
                put_code(&mut bs, hc.value, hc.bit_length as usize, Ghost(head + board_code_bits(board, sq as int)));
                proof {
                    assert(head + board_code_bits(board, sq as int) + code_bits(hc.value, hc.bit_length as int)
                        =~= head + board_code_bits(board, sq as int + 1));
                }
            } else {
                assert(board_code_bits(board, sq as int + 1) == board_code_bits(board, sq as int));
            }
            sq = sq + 1;
        }
        let ghost body = head + board_code_bits(board, 81);
        let mut m: usize = 0;
        while m < 14
            invariant
                m <= 14,
                bs.slice@.len() == 32,
                bs.current_bit < 8,
                hands == pos.hands_seq(),
                all == body + hand_code_bits(hands, 14),
                all.len() <= 256,
                bs.pos() == (body + hand_code_bits(hands, m as int)).len(),
                forall|q: int| 0 <= q < 256 ==> #[trigger] stream_bit(bs.slice@, q)
                    == if q < bs.pos() { (body + hand_code_bits(hands, m as int))[q] } else { 0u8 },
            decreases 14 - m,
        {
            let c = if m < 7 { Color::BLACK } else { Color::WHITE };
            let pt = packed_hand_kind_at(m % 7);
            let hand = pos.hand(c);
            let hc = HuffmanCode::new_from_color_and_hand_piece_type(c, pt);
            let count = hand.num(pt);
            let ghost code = code_bits(hc.value, hc.bit_length as int);
            let ghost before = body + hand_code_bits(hands, m as int);
            proof {
                assert(c == Color::from_val(m as int / 7));
                assert(hand == hands[m as int / 7]);
                lemma_hand_code_bits_mono(hands, m as int + 1, 14);
                assert(hand_code_bits(hands, m as int + 1) == hand_code_bits(hands, m as int) + repeat_bits(code, count as nat));
            }
            let mut j: u32 = 0;
            while j < count
                invariant
                    j <= count,
                    bs.slice@.len() == 32,
                    bs.current_bit < 8,
                    hc.bit_length <= 8,
                    code == code_bits(hc.value, hc.bit_length as int),
                    (before + repeat_bits(code, count as nat)).len() <= 256,
                    bs.pos() == (before + repeat_bits(code, j as nat)).len(),
                    forall|q: int| 0 <= q < 256 ==> #[trigger] stream_bit(bs.slice@, q)
                        == if q < bs.pos() { (before + repeat_bits(code, j as nat))[q] } else { 0u8 },
                decreases count - j,
            {
                proof {
                    lemma_repeat_len(code, (j + 1) as nat);
                    lemma_repeat_len(code, count as nat);
                    assert((j + 1) * code.len() <= count * code.len()) by (nonlinear_arith)
                        requires j + 1 <= count;
                }
                put_code(&mut bs, hc.value, hc.bit_length as usize, Ghost(before + repeat_bits(code, j as nat)));
                proof {
                    assert(before + repeat_bits(code, j as nat) + code =~= before + repeat_bits(code, (j + 1) as nat));
                }
                j = j + 1;
            }
            proof {
                assert(before + repeat_bits(code, count as nat) =~= body + hand_code_bits(hands, m as int + 1));
            }
            m = m + 1;
        }
        let mut out = [0u8; 32];
        let mut i: usize = 0;
        while i < 32
            invariant
                i <= 32,
                bs.slice@.len() == 32,
                forall|k: int| 0 <= k < i ==> #[trigger] out@[k] == bs.slice@[k],
            decreases 32 - i,
        {
            out[i] = bs.slice[i];
            i = i + 1;
        }
        proof {
            assert(out@ =~= bs.slice@);
            assert(body + hand_code_bits(hands, 14) == all);
        }
        HuffmanCodedPosition { buf: out, ply: pos.game_ply() as i16 }
    }
}

/// The outcome of a game from which a training record was taken.
#[derive(Clone, Copy, Debug, PartialEq, Eq, Structural)]
pub enum GameResult {
    Draw,
    BlackWin,
    WhiteWin,
}

/// A training record: a packed position, its evaluation, the best move found (in 16 bits),
/// the ply at which the game ended and how it ended. It occupies 42 bytes.
pub struct HuffmanCodedPositionAndEval {
    pub hcp: HuffmanCodedPosition,
    pub value: i16,
    pub best_move16: u16,
    pub end_ply: i16,
    pub game_result: GameResult,
    pub padding: u8,
}

} // verus!
