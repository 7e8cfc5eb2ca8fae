pub mod moves;
pub mod move_rules;
use vstd::prelude::*;
use crate::bitboard::{bb_count, between_has, count_where, in_opponent_field, table_reaches, in_ray, lance_delta, lemma_toggled_count, lemma_toggled_has, magic_lookup, toggled, AttackTable, BetweenTable, Bitboard};
use crate::hand::{field_shift, lemma_sfen_fields_bits, sfen_fields_mask, Hand};
use crate::huffman_code::{lemma_read_code, packed_bits, board_code_bits, code_bits, field_code, hand_code_bits, lemma_repeat_len, packed_hand_kind, repeat_bits, hand_code, lemma_code_values_fit, lemma_field_code_round_trip, lemma_field_codes_prefix_free, lemma_hand_codes_prefix_free, lemma_low_bits_mod, lemma_low_bits_next, low_bits, value_bit, hand_piece_from_huffman_code, piece_from_huffman_code, read_bits, BitStreamReader, spec_hand_piece_from_huffman_code, spec_piece_from_huffman_code, stream_bit, HuffmanCode, HuffmanCodeForFieldError, HuffmanCodeForHandError, HuffmanCodedPosition};
use crate::sfen::{SfenError, SfenFault};
use crate::strings::{digit_char, int_decimal, nat_digits, push_char, push_decimal, push_str};
use crate::movetypes::Move;
use crate::piecevalue::{capture_material, capture_piece_type_value, capture_piece_value};
use crate::types::{hand_piece_from_sfen_chars, piece_from_sfen_chars, Color, File, Piece, PieceType, Rank, RankAsBlack, Relation, Square, Value};

verus! {

/// Whether a piece kind (by number) moves like a gold: the gold and the promoted pawn, lance,
/// knight and silver.
pub open spec fn is_gold_kind(pt: int) -> bool {
    pt == 7 || 9 <= pt <= 12
}

/// The kind number of the piece on square `sq` of `board` (0 for an empty square).
pub open spec fn kind_at(board: Seq<Piece>, sq: int) -> int {
    board[sq].val() % 16
}

/// The colour number of the piece on square `sq` of `board`.
pub open spec fn color_at(board: Seq<Piece>, sq: int) -> int {
    board[sq].val() / 16
}

/// The board of a game position: the piece on each square, the pieces in hand, the side to move,
/// the ply number and where the kings stand, with bitboards of the pieces by kind and by colour
/// kept in step with the board.
#[derive(Clone, Copy)]
pub struct PositionBase {
    board: [Piece; 81],
    by_type_bb: [Bitboard; 15],
    by_color_bb: [Bitboard; 2],
    golds_bb: Bitboard,
    hands: [Hand; 2],
    game_ply: i32,
    king_squares: [Square; 2],
    side_to_move: Color,
}

impl PositionBase {
    /// The piece on each square, by square number.
    pub closed spec fn board_seq(self) -> Seq<Piece> {
        self.board@
    }

    /// The hands of black and white.
    pub closed spec fn hands_seq(self) -> Seq<Hand> {
        self.hands@
    }

    pub closed spec fn spec_game_ply(self) -> i32 {
        self.game_ply
    }

    pub closed spec fn spec_side_to_move(self) -> Color {
        self.side_to_move
    }

    /// The squares kept for the kings of black and white.
    pub closed spec fn king_squares_seq(self) -> Seq<Square> {
        self.king_squares@
    }

    /// The bitboards agree with the board: the occupied set holds the squares with a piece, the set
    /// of each kind and of each colour holds the squares with a piece of that kind or colour, and
    /// the gold set those with a piece that moves like a gold.
    /// The occupied squares of the position, as the set it keeps of them.
    pub closed spec fn occupancy(self) -> Bitboard {
        self.by_type_bb@[0]
    }

    pub closed spec fn wf(self) -> bool {
        &&& forall|sq: int| 0 <= sq < 81 ==>
            (#[trigger] self.by_type_bb@[0].has(sq)) == (self.board@[sq] != Piece::EMPTY)
        &&& forall|pt: int, sq: int| 1 <= pt < 15 && 0 <= sq < 81 ==>
            (#[trigger] self.by_type_bb@[pt].has(sq)) == (self.board@[sq] != Piece::EMPTY && kind_at(self.board@, sq) == pt)
        &&& forall|c: int, sq: int| 0 <= c < 2 && 0 <= sq < 81 ==>
            (#[trigger] self.by_color_bb@[c].has(sq)) == (self.board@[sq] != Piece::EMPTY && color_at(self.board@, sq) == c)
        &&& forall|sq: int| 0 <= sq < 81 ==>
            (#[trigger] self.golds_bb.has(sq)) == (self.board@[sq] != Piece::EMPTY && is_gold_kind(kind_at(self.board@, sq)))
        &&& forall|pt: int| 0 <= pt < 15 ==> (#[trigger] self.by_type_bb@[pt]).wf()
        &&& forall|c: int| 0 <= c < 2 ==> (#[trigger] self.by_color_bb@[c]).wf()
        &&& self.golds_bb.wf()
    }

    /// The position of these parts, with its bitboards computed from the board.
    fn from_parts(
        board: [Piece; 81],
        hands: [Hand; 2],
        game_ply: i32,
        king_squares: [Square; 2],
        side_to_move: Color,
    ) -> (r: PositionBase)
        ensures
            r.wf(),
            r.board_seq() == board@,
            r.hands_seq() == hands@,
            r.spec_game_ply() == game_ply,
            r.king_squares_seq() == king_squares@,
            r.spec_side_to_move() == side_to_move,
    {
        let z = Bitboard::ZERO();
        let mut by_type: [Bitboard; 15] = [z; 15];
        let mut by_color: [Bitboard; 2] = [z; 2];
        let mut golds = z;
        let mut i: usize = 0;
        while i < 81
            invariant
                0 <= i <= 81,
                forall|sq: int| 0 <= sq < 81 ==>
                    (#[trigger] by_type@[0].has(sq)) == (sq < i && board@[sq] != Piece::EMPTY),
                forall|pt: int, sq: int| 1 <= pt < 15 && 0 <= sq < 81 ==>
                    (#[trigger] by_type@[pt].has(sq)) == (sq < i && board@[sq] != Piece::EMPTY && kind_at(board@, sq) == pt),
                forall|c: int, sq: int| 0 <= c < 2 && 0 <= sq < 81 ==>
                    (#[trigger] by_color@[c].has(sq)) == (sq < i && board@[sq] != Piece::EMPTY && color_at(board@, sq) == c),
                forall|sq: int| 0 <= sq < 81 ==>
                    (#[trigger] golds.has(sq)) == (sq < i && board@[sq] != Piece::EMPTY && is_gold_kind(kind_at(board@, sq))),
                forall|pt: int| 0 <= pt < 15 ==> (#[trigger] by_type@[pt]).wf(),
                forall|c: int| 0 <= c < 2 ==> (#[trigger] by_color@[c]).wf(),
                golds.wf(),
            decreases 81 - i,
        {
            let pc = board[i];
            if pc != Piece::EMPTY {
                let sq = Square(i as i32);
                let pt = PieceType::new(pc).to_i32();
                let c = Color::new(pc).to_i32();
                assert(1 <= pt < 15 && 0 <= c < 2) by {
                    broadcast use Piece::lemma_val_range;
                }
                by_type[0].set(sq);
                by_type[pt as usize].set(sq);
                by_color[c as usize].set(sq);
                if pt == 7 || (9 <= pt && pt <= 12) {
                    golds.set(sq);
                }
            }
            i = i + 1;
        }
        PositionBase {
            board,
            by_type_bb: by_type,
            by_color_bb: by_color,
            golds_bb: golds,
            hands,
            game_ply,
            king_squares,
            side_to_move,
        }
    }
}

/// Whether square `sq` of `board` holds a piece of kind number `pt` (any piece for `pt == 0`).
pub open spec fn holds_kind(board: Seq<Piece>, sq: int, pt: int) -> bool {
    board[sq] != Piece::EMPTY && (pt == 0 || kind_at(board, sq) == pt)
}

/// Whether square `sq` of `board` holds a piece of colour number `c`.
pub open spec fn holds_color(board: Seq<Piece>, sq: int, c: int) -> bool {
    board[sq] != Piece::EMPTY && color_at(board, sq) == c
}

impl PositionBase {
    pub fn piece_on(&self, sq: Square) -> (r: Piece)
        ensures
            r == self.board_seq()[sq.val()],
    {
        proof { broadcast use Square::lemma_val_range; }
        self.board[sq.to_i32() as usize]
    }

    /// The squares with a piece of side `c`.
    pub fn pieces_c(&self, c: Color) -> (r: Bitboard)
        requires
            self.wf(),
        ensures
            r.wf(),
            forall|sq: int| 0 <= sq < 81 ==> #[trigger] r.has(sq) == holds_color(self.board_seq(), sq, c.val()),
    {
        proof { broadcast use Color::lemma_val_range; }
        let r = self.by_color_bb[c.to_i32() as usize];
        assert(r.wf());
        r
    }

    /// The squares with a piece of kind `pt` (every piece for `OCCUPIED`).
    pub fn pieces_p(&self, pt: PieceType) -> (r: Bitboard)
        requires
            self.wf(),
        ensures
            r.wf(),
            forall|sq: int| 0 <= sq < 81 ==> #[trigger] r.has(sq) == holds_kind(self.board_seq(), sq, pt.val()),
    {
        proof { broadcast use PieceType::lemma_val_range; }
        let r = self.by_type_bb[pt.to_i32() as usize];
        assert(r.wf());
        r
    }

    /// The squares with a piece of side `c` and kind `pt`.
    pub fn pieces_cp(&self, c: Color, pt: PieceType) -> (r: Bitboard)
        requires
            self.wf(),
        ensures
            r.wf(),
            forall|sq: int| 0 <= sq < 81 ==> #[trigger] r.has(sq)
                == (holds_color(self.board_seq(), sq, c.val()) && holds_kind(self.board_seq(), sq, pt.val())),
    {
        let a = self.pieces_c(c);
        let b = self.pieces_p(pt);
        let r = a.and(b);
        proof { Bitboard::lemma_and_wf(a, b); }
        r
    }

    /// The squares with a piece of kind `pt0` or `pt1`.
    pub fn pieces_pp(&self, pt0: PieceType, pt1: PieceType) -> (r: Bitboard)
        requires
            self.wf(),
        ensures
            r.wf(),
            forall|sq: int| 0 <= sq < 81 ==> #[trigger] r.has(sq)
                == (holds_kind(self.board_seq(), sq, pt0.val()) || holds_kind(self.board_seq(), sq, pt1.val())),
    {
        let a = self.pieces_p(pt0);
        let b = self.pieces_p(pt1);
        let r = a.or(b);
        proof { Bitboard::lemma_or_wf(a, b); }
        r
    }

    /// The squares with a piece that moves like a gold.
    pub fn pieces_golds(&self) -> (r: Bitboard)
        requires
            self.wf(),
        ensures
            r.wf(),
            forall|sq: int| 0 <= sq < 81 ==> #[trigger] r.has(sq)
                == (self.board_seq()[sq] != Piece::EMPTY && is_gold_kind(kind_at(self.board_seq(), sq))),
    {
        self.golds_bb
    }

    /// The squares with a piece.
    pub fn occupied_bb(&self) -> (r: Bitboard)
        requires
            self.wf(),
        ensures
            r == self.occupancy(),
            r.wf(),
            forall|sq: int| 0 <= sq < 81 ==> #[trigger] r.has(sq) == (self.board_seq()[sq] != Piece::EMPTY),
    {
        let r = self.by_type_bb[0];
        assert(r.wf());
        r
    }

    /// The squares without a piece.
    pub fn empty_bb(&self) -> (r: Bitboard)
        requires
            self.wf(),
        ensures
            r.wf(),
            forall|sq: int| 0 <= sq < 81 ==> #[trigger] r.has(sq) == (self.board_seq()[sq] == Piece::EMPTY),
    {
        let o = self.occupied_bb();
        let all = Bitboard::ALL();
        let n = o.not();
        let r = n.and(all);
        proof { Bitboard::lemma_and_wf(n, all); }
        r
    }

    pub fn hand(&self, c: Color) -> (r: Hand)
        ensures
            r == self.hands_seq()[c.val()],
    {
        proof { broadcast use Color::lemma_val_range; }
        self.hands[c.to_i32() as usize]
    }

    pub fn side_to_move(&self) -> (r: Color)
        ensures
            r == self.spec_side_to_move(),
    {
        self.side_to_move
    }

    pub fn king_square(&self, c: Color) -> (r: Square)
        ensures
            r == self.king_squares_seq()[c.val()],
    {
        proof { broadcast use Color::lemma_val_range; }
        self.king_squares[c.to_i32() as usize]
    }

    pub fn game_ply(&self) -> (r: i32)
        ensures
            r == self.spec_game_ply(),
    {
        self.game_ply
    }
}

/// What an SFEN record says of a position: the piece on each square, the two hands, the side to
/// move, the ply number, and the squares of the first black and white kings.
pub struct SfenModel {
    pub board: Seq<Piece>,
    pub hands: Seq<Hand>,
    pub side_to_move: Color,
    pub game_ply: int,
    pub king_squares: Seq<int>,
}

pub open spec fn is_ascii_digit(c: char) -> bool {
    48 <= (c as u32) && (c as u32) <= 57
}

pub open spec fn is_ascii_alpha(c: char) -> bool {
    (65 <= (c as u32) && (c as u32) <= 90) || (97 <= (c as u32) && (c as u32) <= 122)
}

/// The end of the run of ASCII digits that starts at `i`.
pub open spec fn digit_run_end(s: Seq<char>, i: int) -> int
    decreases s.len() - i,
{
    if 0 <= i < s.len() && is_ascii_digit(s[i]) {
        digit_run_end(s, i + 1)
    } else {
        i
    }
}


/// Whether `c` is a decimal digit of Unicode (general category Nd), the characters that a
/// regular expression's `\d` matches: the ASCII digits and the digits of other scripts.
pub open spec fn is_dec_digit(c: char) -> bool {
    let u = c as u32;
    (0x30 <= u && u <= 0x39) ||
        (0x660 <= u && u <= 0x669) ||
        (0x6f0 <= u && u <= 0x6f9) ||
        (0x7c0 <= u && u <= 0x7c9) ||
        (0x966 <= u && u <= 0x96f) ||
        (0x9e6 <= u && u <= 0x9ef) ||
        (0xa66 <= u && u <= 0xa6f) ||
        (0xae6 <= u && u <= 0xaef) ||
        (0xb66 <= u && u <= 0xb6f) ||
        (0xbe6 <= u && u <= 0xbef) ||
        (0xc66 <= u && u <= 0xc6f) ||
        (0xce6 <= u && u <= 0xcef) ||
        (0xd66 <= u && u <= 0xd6f) ||
        (0xde6 <= u && u <= 0xdef) ||
        (0xe50 <= u && u <= 0xe59) ||
        (0xed0 <= u && u <= 0xed9) ||
        (0xf20 <= u && u <= 0xf29) ||
        (0x1040 <= u && u <= 0x1049) ||
        (0x1090 <= u && u <= 0x1099) ||
        (0x17e0 <= u && u <= 0x17e9) ||
        (0x1810 <= u && u <= 0x1819) ||
        (0x1946 <= u && u <= 0x194f) ||
        (0x19d0 <= u && u <= 0x19d9) ||
        (0x1a80 <= u && u <= 0x1a89) ||
        (0x1a90 <= u && u <= 0x1a99) ||
        (0x1b50 <= u && u <= 0x1b59) ||
        (0x1bb0 <= u && u <= 0x1bb9) ||
        (0x1c40 <= u && u <= 0x1c49) ||
        (0x1c50 <= u && u <= 0x1c59) ||
        (0xa620 <= u && u <= 0xa629) ||
        (0xa8d0 <= u && u <= 0xa8d9) ||
        (0xa900 <= u && u <= 0xa909) ||
        (0xa9d0 <= u && u <= 0xa9d9) ||
        (0xa9f0 <= u && u <= 0xa9f9) ||
        (0xaa50 <= u && u <= 0xaa59) ||
        (0xabf0 <= u && u <= 0xabf9) ||
        (0xff10 <= u && u <= 0xff19) ||
        (0x104a0 <= u && u <= 0x104a9) ||
        (0x10d30 <= u && u <= 0x10d39) ||
        (0x11066 <= u && u <= 0x1106f) ||
        (0x110f0 <= u && u <= 0x110f9) ||
        (0x11136 <= u && u <= 0x1113f) ||
        (0x111d0 <= u && u <= 0x111d9) ||
        (0x112f0 <= u && u <= 0x112f9) ||
        (0x11450 <= u && u <= 0x11459) ||
        (0x114d0 <= u && u <= 0x114d9) ||
        (0x11650 <= u && u <= 0x11659) ||
        (0x116c0 <= u && u <= 0x116c9) ||
        (0x11730 <= u && u <= 0x11739) ||
        (0x118e0 <= u && u <= 0x118e9) ||
        (0x11950 <= u && u <= 0x11959) ||
        (0x11c50 <= u && u <= 0x11c59) ||
        (0x11d50 <= u && u <= 0x11d59) ||
        (0x11da0 <= u && u <= 0x11da9) ||
        (0x11f50 <= u && u <= 0x11f59) ||
        (0x16a60 <= u && u <= 0x16a69) ||
        (0x16ac0 <= u && u <= 0x16ac9) ||
        (0x16b50 <= u && u <= 0x16b59) ||
        (0x1d7ce <= u && u <= 0x1d7ff) ||
        (0x1e140 <= u && u <= 0x1e149) ||
        (0x1e2f0 <= u && u <= 0x1e2f9) ||
        (0x1e4f0 <= u && u <= 0x1e4f9) ||
        (0x1e950 <= u && u <= 0x1e959) ||
        (0x1fbf0 <= u && u <= 0x1fbf9)
}

/// The end of the run of decimal digits that starts at index `i` of `s`.
pub open spec fn dec_run_end(s: Seq<char>, i: int) -> int
    decreases s.len() - i,
{
    if 0 <= i < s.len() && is_dec_digit(s[i]) {
        dec_run_end(s, i + 1)
    } else {
        i
    }
}

fn is_dec_digit_char(c: char) -> (r: bool)
    ensures r == is_dec_digit(c),
{
    let u = c as u32;
    (0x30 <= u && u <= 0x39) ||
        (0x660 <= u && u <= 0x669) ||
        (0x6f0 <= u && u <= 0x6f9) ||
        (0x7c0 <= u && u <= 0x7c9) ||
        (0x966 <= u && u <= 0x96f) ||
        (0x9e6 <= u && u <= 0x9ef) ||
        (0xa66 <= u && u <= 0xa6f) ||
        (0xae6 <= u && u <= 0xaef) ||
        (0xb66 <= u && u <= 0xb6f) ||
        (0xbe6 <= u && u <= 0xbef) ||
        (0xc66 <= u && u <= 0xc6f) ||
        (0xce6 <= u && u <= 0xcef) ||
        (0xd66 <= u && u <= 0xd6f) ||
        (0xde6 <= u && u <= 0xdef) ||
        (0xe50 <= u && u <= 0xe59) ||
        (0xed0 <= u && u <= 0xed9) ||
        (0xf20 <= u && u <= 0xf29) ||
        (0x1040 <= u && u <= 0x1049) ||
        (0x1090 <= u && u <= 0x1099) ||
        (0x17e0 <= u && u <= 0x17e9) ||
        (0x1810 <= u && u <= 0x1819) ||
        (0x1946 <= u && u <= 0x194f) ||
        (0x19d0 <= u && u <= 0x19d9) ||
        (0x1a80 <= u && u <= 0x1a89) ||
        (0x1a90 <= u && u <= 0x1a99) ||
        (0x1b50 <= u && u <= 0x1b59) ||
        (0x1bb0 <= u && u <= 0x1bb9) ||
        (0x1c40 <= u && u <= 0x1c49) ||
        (0x1c50 <= u && u <= 0x1c59) ||
        (0xa620 <= u && u <= 0xa629) ||
        (0xa8d0 <= u && u <= 0xa8d9) ||
        (0xa900 <= u && u <= 0xa909) ||
        (0xa9d0 <= u && u <= 0xa9d9) ||
        (0xa9f0 <= u && u <= 0xa9f9) ||
        (0xaa50 <= u && u <= 0xaa59) ||
        (0xabf0 <= u && u <= 0xabf9) ||
        (0xff10 <= u && u <= 0xff19) ||
        (0x104a0 <= u && u <= 0x104a9) ||
        (0x10d30 <= u && u <= 0x10d39) ||
        (0x11066 <= u && u <= 0x1106f) ||
        (0x110f0 <= u && u <= 0x110f9) ||
        (0x11136 <= u && u <= 0x1113f) ||
        (0x111d0 <= u && u <= 0x111d9) ||
        (0x112f0 <= u && u <= 0x112f9) ||
        (0x11450 <= u && u <= 0x11459) ||
        (0x114d0 <= u && u <= 0x114d9) ||
        (0x11650 <= u && u <= 0x11659) ||
        (0x116c0 <= u && u <= 0x116c9) ||
        (0x11730 <= u && u <= 0x11739) ||
        (0x118e0 <= u && u <= 0x118e9) ||
        (0x11950 <= u && u <= 0x11959) ||
        (0x11c50 <= u && u <= 0x11c59) ||
        (0x11d50 <= u && u <= 0x11d59) ||
        (0x11da0 <= u && u <= 0x11da9) ||
        (0x11f50 <= u && u <= 0x11f59) ||
        (0x16a60 <= u && u <= 0x16a69) ||
        (0x16ac0 <= u && u <= 0x16ac9) ||
        (0x16b50 <= u && u <= 0x16b59) ||
        (0x1d7ce <= u && u <= 0x1d7ff) ||
        (0x1e140 <= u && u <= 0x1e149) ||
        (0x1e2f0 <= u && u <= 0x1e2f9) ||
        (0x1e4f0 <= u && u <= 0x1e4f9) ||
        (0x1e950 <= u && u <= 0x1e959) ||
        (0x1fbf0 <= u && u <= 0x1fbf9)
}

pub proof fn lemma_dec_run_end(s: Seq<char>, i: int)
    requires
        0 <= i,
    ensures
        i <= dec_run_end(s, i),
        i < s.len() ==> dec_run_end(s, i) <= s.len(),
        i < s.len() && is_dec_digit(s[i]) ==> i < dec_run_end(s, i),
        forall|k: int| i <= k < dec_run_end(s, i) ==> #[trigger] is_dec_digit(s[k]),
        dec_run_end(s, i) < s.len() ==> !is_dec_digit(s[dec_run_end(s, i)]),
    decreases s.len() - i,
{
    if 0 <= i < s.len() && is_dec_digit(s[i]) {
        lemma_dec_run_end(s, i + 1);
    }
}

/// A run of decimal digits made of ASCII digits only ends where the run of ASCII digits
/// ends.
proof fn lemma_ascii_run_is_dec_run(s: Seq<char>, i: int)
    requires
        0 <= i,
        forall|k: int| i <= k < dec_run_end(s, i) ==> #[trigger] is_ascii_digit(s[k]),
    ensures
        digit_run_end(s, i) == dec_run_end(s, i),
    decreases s.len() - i,
{
    if 0 <= i < s.len() && is_dec_digit(s[i]) {
        lemma_dec_run_end(s, i);
        assert(is_ascii_digit(s[i]));
        lemma_ascii_run_is_dec_run(s, i + 1);
    }
}

/// Reads the run of decimal digits at `i`: where it ends, and whether it holds ASCII
/// digits only.
fn read_dec_run(s: &str, n: usize, i: usize) -> (r: (usize, bool))
    requires
        n == s@.len(),
        i < n,
        is_dec_digit(s@[i as int]),
    ensures
        r.0 == dec_run_end(s@, i as int),
        r.1 == all_ascii_digits(s@.subrange(i as int, r.0 as int)),
{
    let mut j: usize = i;
    let mut ascii = true;
    proof {
        assert(s@.subrange(i as int, i as int) =~= Seq::<char>::empty());
    }
    while j < n && is_dec_digit_char(s.get_char(j))
        invariant
            i <= j <= n,
            n == s@.len(),
            dec_run_end(s@, i as int) == dec_run_end(s@, j as int),
            ascii == all_ascii_digits(s@.subrange(i as int, j as int)),
        decreases n - j,
    {
        let c = s.get_char(j);
        let ghost before = s@.subrange(i as int, j as int);
        let d = is_digit_char(c);
        proof {
            let after = s@.subrange(i as int, j as int + 1);
            assert(after =~= before.push(c));
            if all_ascii_digits(before) && d {
                assert forall|k: int| 0 <= k < after.len() implies is_ascii_digit(#[trigger] after[k]) by {
                    if k < before.len() { assert(after[k] == before[k]); }
                }
            }
            if !d {
                assert(after[after.len() - 1] == c);
            }
            if !all_ascii_digits(before) {
                let k = choose|k: int| 0 <= k < before.len() && !is_ascii_digit(#[trigger] before[k]);
                assert(after[k] == before[k]);
            }
        }
        if !d {
            ascii = false;
        }
        j = j + 1;
    }
    (j, ascii)
}

/// The number that a string of ASCII digits writes in decimal.
pub open spec fn digits_value(s: Seq<char>) -> int
    decreases s.len(),
{
    if s.len() == 0 {
        0
    } else {
        digits_value(s.drop_last()) * 10 + ((s.last() as u32) - 48)
    }
}

/// How many times `c` occurs in `s` from index `i` on.
pub open spec fn count_from(s: Seq<char>, i: int, c: char) -> int
    decreases s.len() - i,
{
    if 0 <= i < s.len() {
        (if s[i] == c { 1int } else { 0int }) + count_from(s, i + 1, c)
    } else {
        0
    }
}

pub proof fn lemma_digit_run_end(s: Seq<char>, i: int)
    requires
        0 <= i,
    ensures
        i <= digit_run_end(s, i),
        i < s.len() ==> digit_run_end(s, i) <= s.len(),
        i < s.len() && is_ascii_digit(s[i]) ==> i < digit_run_end(s, i),
        forall|k: int| i <= k < digit_run_end(s, i) ==> #[trigger] is_ascii_digit(s[k]),
        digit_run_end(s, i) < s.len() ==> !is_ascii_digit(s[digit_run_end(s, i)]),
    decreases s.len() - i,
{
    if 0 <= i < s.len() && is_ascii_digit(s[i]) {
        lemma_digit_run_end(s, i + 1);
    }
}

/// The square that an SFEN board names by its `file_idx`-th file from the left and its
/// `rank`-th rank from the top.
pub open spec fn sfen_square(file_idx: int, rank: int) -> int {
    (8 - file_idx) * 9 + rank
}

/// The board that the SFEN board text `s` leaves from index `i` on, reading rank `rank` at
/// file `file_idx` onto `board`: a run of ASCII digits skips that many files (a run of decimal
/// digits of any script that is not all ASCII names no piece), a letter (after a `+`
/// for a promoted piece) places a piece, `/` starts the next rank, anything else is passed over.
pub open spec fn board_scan(s: Seq<char>, i: int, rank: int, file_idx: int, board: Seq<Piece>) -> Result<Seq<Piece>, SfenFault>
    decreases s.len() - i,
{
    if i < 0 || i >= s.len() {
        Ok(board)
    } else if s[i] == '/' {
        board_scan(s, i + 1, rank + 1, 0, board)
    } else if is_dec_digit(s[i]) {
        proof { lemma_dec_run_end(s, i); }
        let j = dec_run_end(s, i);
        let tok = s.subrange(i, j);
        let d = digits_value(tok);
        if file_idx >= 9 {
            Err(SfenFault::InvalidNumberOfFiles(file_idx))
        } else if !all_ascii_digits(tok) || d > i64::MAX {
            Err(SfenFault::InvalidPieceCharactors(tok))
        } else if d <= 0 || 9 < d || 9 < file_idx + d {
            Err(SfenFault::InvalidNumberOfEmptySquares(d))
        } else {
            board_scan(s, j, rank, file_idx + d, board)
        }
    } else if is_ascii_alpha(s[i]) || (s[i] == '+' && i + 1 < s.len() && is_ascii_alpha(s[i + 1])) {
        let len: int = if is_ascii_alpha(s[i]) { 1 } else { 2 };
        let tok = s.subrange(i, i + len);
        if file_idx >= 9 {
            Err(SfenFault::InvalidNumberOfFiles(file_idx))
        } else {
            match piece_from_sfen_chars(tok) {
                Some(pc) => board_scan(s, i + len, rank, file_idx + 1, board.update(sfen_square(file_idx, rank), pc)),
                None => Err(SfenFault::InvalidPieceCharactors(tok)),
            }
        }
    } else {
        board_scan(s, i + 1, rank, file_idx, board)
    }
}

/// The most pieces of kind `pt` that one side can hold (more than any count for the king).
pub open spec fn hand_limit(pt: PieceType) -> int {
    match pt {
        PieceType::PAWN => 18,
        PieceType::LANCE | PieceType::KNIGHT | PieceType::SILVER | PieceType::GOLD => 4,
        PieceType::BISHOP | PieceType::ROOK => 2,
        _ => 0x7fff_ffff_ffff_ffff,
    }
}

/// The fault of `n` pieces of the kind of `pt`, too many for the game.
pub open spec fn too_many_fault(pt: PieceType, n: int) -> SfenFault {
    match pt {
        PieceType::PAWN | PieceType::PRO_PAWN => SfenFault::InvalidNumberOfPawns(n),
        PieceType::LANCE | PieceType::PRO_LANCE => SfenFault::InvalidNumberOfLances(n),
        PieceType::KNIGHT | PieceType::PRO_KNIGHT => SfenFault::InvalidNumberOfKnights(n),
        PieceType::SILVER | PieceType::PRO_SILVER => SfenFault::InvalidNumberOfSilvers(n),
        PieceType::BISHOP | PieceType::HORSE => SfenFault::InvalidNumberOfBishops(n),
        PieceType::ROOK | PieceType::DRAGON => SfenFault::InvalidNumberOfRooks(n),
        _ => SfenFault::InvalidNumberOfGolds(n),
    }
}

/// The hands that the SFEN hand text `s` leaves from index `i` on, with `hand_num` the count
/// read last: a run of ASCII digits gives the count of the next piece (a run of decimal digits
/// of any script that is not all ASCII names no piece), a letter adds that many of its
/// piece to its side's hand, anything else is passed over.
pub open spec fn hands_scan(s: Seq<char>, i: int, hand_num: int, hands: Seq<Hand>) -> Result<Seq<Hand>, SfenFault>
    decreases s.len() - i,
{
    if i < 0 || i >= s.len() {
        if hand_num != 1 {
            Err(SfenFault::EndWithHandPieceNumber(hand_num))
        } else {
            Ok(hands)
        }
    } else if is_dec_digit(s[i]) {
        proof { lemma_dec_run_end(s, i); }
        let j = dec_run_end(s, i);
        let tok = s.subrange(i, j);
        let d = digits_value(tok);
        if !all_ascii_digits(tok) || d > i64::MAX {
            Err(SfenFault::InvalidHandPieceCharactors(tok))
        } else if d <= 0 {
            Err(SfenFault::InvalidNumberOfHandPieces(d))
        } else {
            hands_scan(s, j, d, hands)
        }
    } else if is_ascii_alpha(s[i]) {
        let tok = s.subrange(i, i + 1);
        match hand_piece_from_sfen_chars(tok) {
            Some(pc) => {
                let pt = PieceType::from_val(pc.val() % 16);
                let c = pc.val() / 16;
                if pt == PieceType::KING {
                    Err(SfenFault::KingInHand)
                } else if hand_limit(pt) < hand_num {
                    Err(too_many_fault(pt, hand_num))
                } else if hands[c].count(pt) != 0 {
                    Err(SfenFault::SameHandPieceTwice(tok))
                } else {
                    hands_scan(s, i + 1, 1, hands.update(c, Hand(hands[c].0 | ((hand_num as u32) << field_shift(pt)))))
                }
            },
            None => Err(SfenFault::InvalidHandPieceCharactors(tok)),
        }
    } else {
        hands_scan(s, i + 1, hand_num, hands)
    }
}

/// The length of the sign that starts `s`: 1 for a `+` or `-`, else 0.
pub open spec fn sign_len(s: Seq<char>) -> int {
    if s.len() > 0 && (s[0] == '+' || s[0] == '-') { 1 } else { 0 }
}

pub open spec fn all_ascii_digits(s: Seq<char>) -> bool {
    forall|k: int| 0 <= k < s.len() ==> is_ascii_digit(#[trigger] s[k])
}

/// The value of `s` as Rust reads an `i32`: an optional `+` or `-`, then one or more ASCII
/// digits, within the range of `i32`.
pub open spec fn parsed_i32(s: Seq<char>) -> Option<int> {
    let digits = s.subrange(sign_len(s), s.len() as int);
    let v = if sign_len(s) == 1 && s[0] == '-' { -digits_value(digits) } else { digits_value(digits) };
    if digits.len() == 0 || !all_ascii_digits(digits) {
        None
    } else if i32::MIN <= v <= i32::MAX {
        Some(v)
    } else {
        None
    }
}

/// The number of squares among the first `n` of `board` with a piece of kind number `a` or `b`.
pub open spec fn count_kinds(board: Seq<Piece>, a: int, b: int, n: int) -> int
    decreases n,
{
    if n <= 0 {
        0
    } else {
        count_kinds(board, a, b, n - 1) + if board[n - 1] != Piece::EMPTY && (kind_at(board, n - 1) == a || kind_at(board, n - 1) == b) { 1int } else { 0int }
    }
}

/// The pieces of kind `a` and of its promoted kind `b` on the board and in both hands.
pub open spec fn piece_total(board: Seq<Piece>, hands: Seq<Hand>, a: PieceType, b: PieceType) -> int {
    count_kinds(board, a.val(), b.val(), 81) + hands[0].count(a) + hands[1].count(a)
}

/// The first kind whose pieces outnumber what the game has, as a fault.
pub open spec fn piece_count_fault(board: Seq<Piece>, hands: Seq<Hand>) -> Option<SfenFault> {
    let pawns = piece_total(board, hands, PieceType::PAWN, PieceType::PRO_PAWN);
    let lances = piece_total(board, hands, PieceType::LANCE, PieceType::PRO_LANCE);
    let knights = piece_total(board, hands, PieceType::KNIGHT, PieceType::PRO_KNIGHT);
    let silvers = piece_total(board, hands, PieceType::SILVER, PieceType::PRO_SILVER);
    let golds = piece_total(board, hands, PieceType::GOLD, PieceType::GOLD);
    let bishops = piece_total(board, hands, PieceType::BISHOP, PieceType::HORSE);
    let rooks = piece_total(board, hands, PieceType::ROOK, PieceType::DRAGON);
    if pawns > 18 {
        Some(SfenFault::InvalidNumberOfPawns(pawns))
    } else if lances > 4 {
        Some(SfenFault::InvalidNumberOfLances(lances))
    } else if knights > 4 {
        Some(SfenFault::InvalidNumberOfKnights(knights))
    } else if silvers > 4 {
        Some(SfenFault::InvalidNumberOfSilvers(silvers))
    } else if golds > 4 {
        Some(SfenFault::InvalidNumberOfGolds(golds))
    } else if bishops > 2 {
        Some(SfenFault::InvalidNumberOfBishops(bishops))
    } else if rooks > 2 {
        Some(SfenFault::InvalidNumberOfRooks(rooks))
    } else {
        None
    }
}

/// The first square from `sq` on that holds piece `kc`.
pub open spec fn king_from(board: Seq<Piece>, kc: Piece, sq: int) -> Option<int>
    decreases 81 - sq,
{
    if sq < 0 || sq >= 81 {
        None
    } else if board[sq] == kc {
        Some(sq)
    } else {
        king_from(board, kc, sq + 1)
    }
}

pub open spec fn empty_board() -> Seq<Piece> {
    Seq::new(81, |i: int| Piece::EMPTY)
}

pub open spec fn empty_hands() -> Seq<Hand> {
    seq![Hand(0), Hand(0)]
}

/// The characters of each argument.
pub open spec fn args_chars(args: Seq<&str>) -> Seq<Seq<char>> {
    args.map_values(|t: &str| t@)
}

/// What the SFEN arguments (board, side to move, hands, ply, and any more) describe, or the
/// first fault found: too few arguments, a board of other than nine ranks, a fault of the
/// board, a side without king, a side to move other than `b` or `w`, a fault of the hands
/// (`-` for none), a ply that is not a number of at least 1, and too many pieces of a kind.
pub open spec fn parse_sfen(args: Seq<Seq<char>>) -> Result<SfenModel, SfenFault> {
    if args.len() < 4 {
        Err(SfenFault::InvalidNumberOfSections(args.len() as int))
    } else if count_from(args[0], 0, '/') + 1 != 9 {
        Err(SfenFault::InvalidNumberOfRanks(count_from(args[0], 0, '/') + 1))
    } else {
        match board_scan(args[0], 0, 0, 0, empty_board()) {
            Err(f) => Err(f),
            Ok(board) => {
                let bk = king_from(board, Piece::B_KING, 0);
                let wk = king_from(board, Piece::W_KING, 0);
                if bk is None {
                    Err(SfenFault::KingIsNothing(Color::BLACK))
                } else if wk is None {
                    Err(SfenFault::KingIsNothing(Color::WHITE))
                } else if args[1] != seq!['b'] && args[1] != seq!['w'] {
                    Err(SfenFault::InvalidSideToMoveCharactors(args[1]))
                } else {
                    let hands_result = if args[2] == seq!['-'] { Ok(empty_hands()) } else { hands_scan(args[2], 0, 1, empty_hands()) };
                    match hands_result {
                        Err(f) => Err(f),
                        Ok(hands) => {
                            let ply = parsed_i32(args[3]);
                            if ply is None || ply->0 < 1 {
                                Err(SfenFault::InvalidGamePly(args[3]))
                            } else {
                                match piece_count_fault(board, hands) {
                                    Some(f) => Err(f),
                                    None => Ok(SfenModel {
                                        board: board,
                                        hands: hands,
                                        side_to_move: if args[1] == seq!['b'] { Color::BLACK } else { Color::WHITE },
                                        game_ply: ply->0,
                                        king_squares: seq![bk->0, wk->0],
                                    }),
                                }
                            }
                        },
                    }
                }
            },
        }
    }
}

fn is_digit_char(c: char) -> (r: bool)
    ensures
        r == is_ascii_digit(c),
{
    let u = c as u32;
    48 <= u && u <= 57
}

fn is_alpha_char(c: char) -> (r: bool)
    ensures
        r == is_ascii_alpha(c),
{
    let u = c as u32;
    (65 <= u && u <= 90) || (97 <= u && u <= 122)
}

proof fn lemma_count_from_nonneg(s: Seq<char>, i: int, c: char)
    ensures
        count_from(s, i, c) >= 0,
    decreases s.len() - i,
{
    if 0 <= i < s.len() {
        lemma_count_from_nonneg(s, i + 1, c);
    }
}

proof fn lemma_digits_value_nonneg(s: Seq<char>)
    requires
        forall|k: int| 0 <= k < s.len() ==> is_ascii_digit(#[trigger] s[k]),
    ensures
        digits_value(s) >= 0,
    decreases s.len(),
{
    if s.len() > 0 {
        lemma_digits_value_nonneg(s.drop_last());
    }
}

/// The number of times `c` occurs in `s`.
fn count_char(s: &str, c: char) -> (r: usize)
    ensures
        r == count_from(s@, 0, c),
{
    let n = s.unicode_len();
    let mut i: usize = n;
    let mut acc: usize = 0;
    while i > 0
        invariant
            i <= n,
            n == s@.len(),
            acc == count_from(s@, i as int, c),
            acc <= n - i,
        decreases i,
    {
        i = i - 1;
        if s.get_char(i) == c {
            acc = acc + 1;
        }
    }
    acc
}

/// The run of ASCII digits of `s` from `i`: where it ends, its value when that fits in an `i64`,
/// and whether it does not.
fn read_digits(s: &str, n: usize, i: usize) -> (r: (usize, i64, bool))
    requires
        n == s@.len(),
        i < n,
        is_ascii_digit(s@[i as int]),
    ensures
        r.0 == digit_run_end(s@, i as int),
        r.2 == (digits_value(s@.subrange(i as int, r.0 as int)) > i64::MAX),
        !r.2 ==> r.1 == digits_value(s@.subrange(i as int, r.0 as int)),
        r.1 >= 0,
{
    let mut j: usize = i;
    let mut v: i64 = 0;
    let mut over = false;
    proof {
        assert(s@.subrange(i as int, i as int) =~= Seq::<char>::empty());
    }
    while j < n && is_digit_char(s.get_char(j))
        invariant
            i <= j <= n,
            n == s@.len(),
            digit_run_end(s@, i as int) == digit_run_end(s@, j as int),
            forall|k: int| i <= k < j ==> #[trigger] is_ascii_digit(s@[k]),
            over == (digits_value(s@.subrange(i as int, j as int)) > i64::MAX),
            !over ==> v == digits_value(s@.subrange(i as int, j as int)),
            v >= 0,
        decreases n - j,
    {
        let d = (s.get_char(j) as u32 - 48) as i64;
        proof {
            let t = s@.subrange(i as int, j as int + 1);
            assert(t.drop_last() =~= s@.subrange(i as int, j as int));
            assert forall|k: int| 0 <= k < t.len() implies is_ascii_digit(#[trigger] t[k]) by {
                assert(t[k] == s@[i + k]);
            }
            lemma_digits_value_nonneg(t.drop_last());
            assert(digits_value(t) == digits_value(s@.subrange(i as int, j as int)) * 10 + d);
        }
        if !over {
            if v > (i64::MAX - d) / 10 {
                over = true;
                assert(v * 10 + d > i64::MAX) by (nonlinear_arith)
                    requires
                        v > (i64::MAX - d) / 10,
                        0 <= d <= 9;
            } else {
                assert(v * 10 + d <= i64::MAX) by (nonlinear_arith)
                    requires
                        v <= (i64::MAX - d) / 10,
                        0 <= d <= 9,
                        v >= 0;
                v = v * 10 + d;
            }
        } else {
            assert(digits_value(s@.subrange(i as int, j as int)) * 10 + d > i64::MAX) by (nonlinear_arith)
                requires
                    digits_value(s@.subrange(i as int, j as int)) > i64::MAX,
                    0 <= d <= 9;
        }
        j = j + 1;
    }
    (j, v, over)
}

proof fn lemma_count_skip(s: Seq<char>, i: int, j: int, c: char)
    requires
        0 <= i <= j <= s.len(),
        forall|k: int| i <= k < j ==> #[trigger] s[k] != c,
    ensures
        count_from(s, i, c) == count_from(s, j, c),
    decreases j - i,
{
    if i < j {
        lemma_count_skip(s, i + 1, j, c);
    }
}

/// Reads the SFEN board text `s` (of nine ranks) onto `board`, as `board_scan` says.
fn scan_board(s: &str, board: &mut [Piece; 81]) -> (r: Result<(), SfenError>)
    requires
        count_from(s@, 0, '/') == 8,
    ensures
        match r {
            Ok(_) => board_scan(s@, 0, 0, 0, old(board)@) == Ok::<Seq<Piece>, SfenFault>(final(board)@),
            Err(e) => board_scan(s@, 0, 0, 0, old(board)@) == Err::<Seq<Piece>, SfenFault>(e.fault()),
        },
{
    let n = s.unicode_len();
    let mut i: usize = 0;
    let mut rank: usize = 0;
    let mut file_idx: usize = 0;
    while i < n
        invariant
            n == s@.len(),
            i <= n,
            rank + count_from(s@, i as int, '/') == 8,
            file_idx <= 9,
            board_scan(s@, 0, 0, 0, old(board)@) == board_scan(s@, i as int, rank as int, file_idx as int, board@),
        decreases n - i,
    {
        proof {
            lemma_count_from_nonneg(s@, i as int + 1, '/');
        }
        let ch = s.get_char(i);
        if ch == '/' {
            rank = rank + 1;
            file_idx = 0;
            i = i + 1;
        } else if is_dec_digit_char(ch) {
            proof { lemma_dec_run_end(s@, i as int); }
            let (j, ascii) = read_dec_run(s, n, i);
            proof {
                assert forall|k: int| i <= k < j implies #[trigger] s@[k] != '/' by {
                    assert(is_dec_digit(s@[k]));
                }
                lemma_count_skip(s@, i as int, j as int, '/');
            }
            if file_idx >= 9 {
                return Err(SfenError::InvalidNumberOfFiles { files: file_idx });
            }
            if !ascii {
                return Err(SfenError::InvalidPieceCharactors { token: s.substring_char(i, j).to_owned() });
            }
            proof {
                assert forall|k: int| i <= k < dec_run_end(s@, i as int) implies #[trigger] is_ascii_digit(s@[k]) by {
                    assert(s@.subrange(i as int, j as int)[k - i] == s@[k]);
                }
                lemma_ascii_run_is_dec_run(s@, i as int);
            }
            let (j, v, over) = read_digits(s, n, i);
            if over {
                return Err(SfenError::InvalidPieceCharactors { token: s.substring_char(i, j).to_owned() });
            }
            if v <= 0 || 9 < v || 9 < file_idx as i64 + v {
                return Err(SfenError::InvalidNumberOfEmptySquares { empty_squares: v });
            }
            file_idx = file_idx + v as usize;
            i = j;
        } else {
            let alpha = is_alpha_char(ch);
            let plus_piece = !alpha && ch == '+' && i + 1 < n && is_alpha_char(s.get_char(i + 1));
            if alpha || plus_piece {
                let len: usize = if alpha { 1 } else { 2 };
                proof {
                    if !alpha {
                        assert(is_ascii_alpha(s@[i + 1]));
                    }
                    lemma_count_skip(s@, i as int, i + len, '/');
                }
                if file_idx >= 9 {
                    return Err(SfenError::InvalidNumberOfFiles { files: file_idx });
                }
                let tok = s.substring_char(i, i + len);
                match Piece::new_from_str(tok) {
                    Some(pc) => {
                        let sq = (8 - file_idx) * 9 + rank;
                        board[sq] = pc;
                        file_idx = file_idx + 1;
                        i = i + len;
                    },
                    None => {
                        return Err(SfenError::InvalidPieceCharactors { token: tok.to_owned() });
                    },
                }
            } else {
                i = i + 1;
            }
        }
    }
    Ok(())
}

/// The error of `n` pieces of the kind of `pt`, too many for the game.
fn too_many_error(pt: PieceType, n: i64) -> (e: SfenError)
    ensures
        e.fault() == too_many_fault(pt, n as int),
{
    match pt {
        PieceType::PAWN | PieceType::PRO_PAWN => SfenError::InvalidNumberOfPawns { number: n },
        PieceType::LANCE | PieceType::PRO_LANCE => SfenError::InvalidNumberOfLances { number: n },
        PieceType::KNIGHT | PieceType::PRO_KNIGHT => SfenError::InvalidNumberOfKnights { number: n },
        PieceType::SILVER | PieceType::PRO_SILVER => SfenError::InvalidNumberOfSilvers { number: n },
        PieceType::BISHOP | PieceType::HORSE => SfenError::InvalidNumberOfBishops { number: n },
        PieceType::ROOK | PieceType::DRAGON => SfenError::InvalidNumberOfRooks { number: n },
        _ => SfenError::InvalidNumberOfGolds { number: n },
    }
}

/// Reads the SFEN hand text `s` into `hands`, as `hands_scan` says.
fn scan_hands(s: &str, hands: &mut [Hand; 2]) -> (r: Result<(), SfenError>)
    requires
        hands_scan(s@, 0, 1, old(hands)@) != Err::<Seq<Hand>, SfenFault>(SfenFault::KingInHand),
    ensures
        match r {
            Ok(_) => hands_scan(s@, 0, 1, old(hands)@) == Ok::<Seq<Hand>, SfenFault>(final(hands)@),
            Err(e) => hands_scan(s@, 0, 1, old(hands)@) == Err::<Seq<Hand>, SfenFault>(e.fault()),
        },
{
    let n = s.unicode_len();
    let mut i: usize = 0;
    let mut hand_num: i64 = 1;
    while i < n
        invariant
            n == s@.len(),
            i <= n,
            hand_num >= 1,
            hands_scan(s@, 0, 1, old(hands)@) == hands_scan(s@, i as int, hand_num as int, hands@),
            hands_scan(s@, 0, 1, old(hands)@) != Err::<Seq<Hand>, SfenFault>(SfenFault::KingInHand),
        decreases n - i,
    {
        let ch = s.get_char(i);
        if is_dec_digit_char(ch) {
            proof { lemma_dec_run_end(s@, i as int); }
            let (j, ascii) = read_dec_run(s, n, i);
            if !ascii {
                return Err(SfenError::InvalidHandPieceCharactors { token: s.substring_char(i, j).to_owned() });
            }
            proof {
                assert forall|k: int| i <= k < dec_run_end(s@, i as int) implies #[trigger] is_ascii_digit(s@[k]) by {
                    assert(s@.subrange(i as int, j as int)[k - i] == s@[k]);
                }
                lemma_ascii_run_is_dec_run(s@, i as int);
            }
            let (j, v, over) = read_digits(s, n, i);
            if over {
                return Err(SfenError::InvalidHandPieceCharactors { token: s.substring_char(i, j).to_owned() });
            }
            if v <= 0 {
                return Err(SfenError::InvalidNumberOfHandPieces { number: v });
            }
            hand_num = v;
            i = j;
        } else if is_alpha_char(ch) {
            let tok = s.substring_char(i, i + 1);
            match Piece::new_hand_piece_from_str(tok) {
                Some(pc) => {
                    let pt = PieceType::new(pc);
                    let c = Color::new(pc);
                    proof {
                        broadcast use PieceType::lemma_from_val, Color::lemma_val_range;
                        assert(pt == PieceType::from_val(pc.val() % 16));
                    }
                    if pt == PieceType::KING {
                        proof { assert(false); }
                        return Ok(());
                    }
                    let limit: i64 = match pt {
                        PieceType::PAWN => 18,
                        PieceType::LANCE | PieceType::KNIGHT | PieceType::SILVER | PieceType::GOLD => 4,
                        PieceType::BISHOP | PieceType::ROOK => 2,
                        _ => i64::MAX,
                    };
                    if limit < hand_num {
                        return Err(too_many_error(pt, hand_num));
                    }
                    let ci = c.to_i32() as usize;
                    if hands[ci].exist(pt) {
                        return Err(SfenError::SameHandPieceTwice { token: tok.to_owned() });
                    }
                    hands[ci].set(pt, hand_num as u32);
                    hand_num = 1;
                    i = i + 1;
                },
                None => {
                    return Err(SfenError::InvalidHandPieceCharactors { token: tok.to_owned() });
                },
            }
        } else {
            i = i + 1;
        }
    }
    if hand_num != 1 {
        return Err(SfenError::EndWithHandPieceNumber { last_number: hand_num });
    }
    Ok(())
}

/// The value of `s` as Rust reads an `i32`.
fn parse_i32_str(s: &str) -> (r: Option<i32>)
    ensures
        match r {
            Some(v) => parsed_i32(s@) == Some(v as int),
            None => parsed_i32(s@) is None,
        },
{
    let n = s.unicode_len();
    if n == 0 {
        return None;
    }
    let c0 = s.get_char(0);
    let neg = c0 == '-';
    let start: usize = if c0 == '+' || c0 == '-' { 1 } else { 0 };
    let ghost digits = s@.subrange(start as int, s@.len() as int);
    assert(start == sign_len(s@));
    if start >= n {
        assert(digits.len() == 0);
        return None;
    }
    if !is_digit_char(s.get_char(start)) {
        assert(digits[0] == s@[start as int]);
        assert(!all_ascii_digits(digits));
        return None;
    }
    let (j, v, over) = read_digits(s, n, start);
    proof { lemma_digit_run_end(s@, start as int); }
    if j != n {
        assert(digits[j - start] == s@[j as int]);
        assert(!all_ascii_digits(digits));
        return None;
    }
    assert(s@.subrange(start as int, j as int) =~= digits);
    assert(all_ascii_digits(digits)) by {
        assert forall|k: int| 0 <= k < digits.len() implies is_ascii_digit(#[trigger] digits[k]) by {
            assert(digits[k] == s@[start + k]);
        }
    }
    if over {
        return None;
    }
    assert(v == digits_value(digits));
    assert(neg == (sign_len(s@) == 1 && s@[0] == '-'));
    if neg {
        if v > 2147483648 {
            None
        } else {
            Some((-v) as i32)
        }
    } else {
        if v > 2147483647 {
            None
        } else {
            Some(v as i32)
        }
    }
}

/// The number of squares of `board` with a piece of kind `a` or `b`.
fn count_kinds_on(board: &[Piece; 81], a: PieceType, b: PieceType) -> (r: i64)
    ensures
        r == count_kinds(board@, a.val(), b.val(), 81),
        0 <= r <= 81,
{
    let mut k: usize = 0;
    let mut r: i64 = 0;
    while k < 81
        invariant
            k <= 81,
            r == count_kinds(board@, a.val(), b.val(), k as int),
            0 <= r <= k,
        decreases 81 - k,
    {
        let pc = board[k];
        if pc != Piece::EMPTY {
            let pt = PieceType::new(pc);
            if pt == a || pt == b {
                r = r + 1;
            } else {
                proof {
                    broadcast use PieceType::lemma_from_val;
                    assert(pt.val() != a.val() && pt.val() != b.val());
                }
            }
        }
        k = k + 1;
    }
    r
}

/// The pieces of kind `a` and of its promoted kind `b` on the board and in both hands.
fn piece_total_of(board: &[Piece; 81], hands: &[Hand; 2], a: PieceType, b: PieceType) -> (r: i64)
    requires
        1 <= a.val() <= 7,
    ensures
        r == piece_total(board@, hands@, a, b),
{
    let on_board = count_kinds_on(board, a, b);
    let h0 = hands[0].num(a);
    let h1 = hands[1].num(a);
    on_board + h0 as i64 + h1 as i64
}

/// The first kind whose pieces outnumber what the game has, as an error.
fn check_piece_counts(board: &[Piece; 81], hands: &[Hand; 2]) -> (r: Option<SfenError>)
    ensures
        match r {
            Some(e) => piece_count_fault(board@, hands@) == Some(e.fault()),
            None => piece_count_fault(board@, hands@) is None,
        },
{
    let pawns = piece_total_of(board, hands, PieceType::PAWN, PieceType::PRO_PAWN);
    if pawns > 18 {
        return Some(SfenError::InvalidNumberOfPawns { number: pawns });
    }
    let lances = piece_total_of(board, hands, PieceType::LANCE, PieceType::PRO_LANCE);
    if lances > 4 {
        return Some(SfenError::InvalidNumberOfLances { number: lances });
    }
    let knights = piece_total_of(board, hands, PieceType::KNIGHT, PieceType::PRO_KNIGHT);
    if knights > 4 {
        return Some(SfenError::InvalidNumberOfKnights { number: knights });
    }
    let silvers = piece_total_of(board, hands, PieceType::SILVER, PieceType::PRO_SILVER);
    if silvers > 4 {
        return Some(SfenError::InvalidNumberOfSilvers { number: silvers });
    }
    let golds = piece_total_of(board, hands, PieceType::GOLD, PieceType::GOLD);
    if golds > 4 {
        return Some(SfenError::InvalidNumberOfGolds { number: golds });
    }
    let bishops = piece_total_of(board, hands, PieceType::BISHOP, PieceType::HORSE);
    if bishops > 2 {
        return Some(SfenError::InvalidNumberOfBishops { number: bishops });
    }
    let rooks = piece_total_of(board, hands, PieceType::ROOK, PieceType::DRAGON);
    if rooks > 2 {
        return Some(SfenError::InvalidNumberOfRooks { number: rooks });
    }
    None
}

/// The first square of `board` that holds `kc`.
fn find_piece(board: &[Piece; 81], kc: Piece) -> (r: Option<usize>)
    ensures
        match r {
            Some(q) => king_from(board@, kc, 0) == Some(q as int) && q < 81,
            None => king_from(board@, kc, 0) is None,
        },
{
    let mut k: usize = 0;
    while k < 81
        invariant
            k <= 81,
            king_from(board@, kc, 0) == king_from(board@, kc, k as int),
        decreases 81 - k,
    {
        if board[k] == kc {
            return Some(k);
        }
        k = k + 1;
    }
    None
}

proof fn lemma_count_bound(s: Seq<char>, i: int, c: char)
    requires
        0 <= i <= s.len(),
    ensures
        count_from(s, i, c) <= s.len() - i,
    decreases s.len() - i,
{
    if i < s.len() {
        lemma_count_bound(s, i + 1, c);
    }
}

impl PositionBase {
    /// The position as an SFEN model.
    pub closed spec fn model(self) -> SfenModel {
        SfenModel {
            board: self.board@,
            hands: self.hands@,
            side_to_move: self.side_to_move,
            game_ply: self.game_ply as int,
            king_squares: seq![self.king_squares[0].val(), self.king_squares[1].val()],
        }
    }

    /// The position that the SFEN arguments (board, side to move, hands, ply) describe, or the
    /// first fault found in them, as `parse_sfen` says. A king named among the pieces in hand is
    /// not accepted.
    pub fn new_from_sfen_args(sfen_slice: &[&str]) -> (r: Result<PositionBase, SfenError>)
        requires
            parse_sfen(args_chars(sfen_slice@)) != Err::<SfenModel, SfenFault>(SfenFault::KingInHand),
            sfen_slice@.len() == 0 || sfen_slice@[0]@.len() < usize::MAX,
        ensures
            match r {
                Ok(pos) => pos.wf() && parse_sfen(args_chars(sfen_slice@)) == Ok::<SfenModel, SfenFault>(pos.model()),
                Err(e) => parse_sfen(args_chars(sfen_slice@)) == Err::<SfenModel, SfenFault>(e.fault()),
            },
    {
        let ghost args = args_chars(sfen_slice@);
        if sfen_slice.len() < 4 {
            return Err(SfenError::InvalidNumberOfSections { sections: sfen_slice.len() });
        }
        let board_str = sfen_slice[0];
        let side_to_move_str = sfen_slice[1];
        let hands_str = sfen_slice[2];
        let game_ply_str = sfen_slice[3];
        assert(args[0] == board_str@ && args[1] == side_to_move_str@ && args[2] == hands_str@ && args[3] == game_ply_str@);
        let slashes = count_char(board_str, '/');
        proof { lemma_count_from_nonneg(board_str@, 0, '/'); }
        if slashes != 8 {
            assert(slashes <= board_str@.len()) by {
                lemma_count_bound(board_str@, 0, '/');
            }
            return Err(SfenError::InvalidNumberOfRanks { ranks: slashes + 1 });
        }
        let mut board = [Piece::EMPTY; 81];
        assert(board@ =~= empty_board());
        match scan_board(board_str, &mut board) {
            Err(e) => {
                return Err(e);
            },
            Ok(_) => {},
        }
        let bk = find_piece(&board, Piece::B_KING);
        let wk = find_piece(&board, Piece::W_KING);
        let black_king = match bk {
            Some(q) => q,
            None => {
                return Err(SfenError::KingIsNothing { c: Color::BLACK });
            },
        };
        let white_king = match wk {
            Some(q) => q,
            None => {
                return Err(SfenError::KingIsNothing { c: Color::WHITE });
            },
        };
        let side_to_move = if side_to_move_str.unicode_len() == 1 && side_to_move_str.get_char(0) == 'b' {
            assert(side_to_move_str@ =~= seq!['b']);
            Color::BLACK
        } else if side_to_move_str.unicode_len() == 1 && side_to_move_str.get_char(0) == 'w' {
            assert(side_to_move_str@ =~= seq!['w']);
            Color::WHITE
        } else {
            assert(side_to_move_str@ != seq!['b']);
            assert(side_to_move_str@ != seq!['w']);
            return Err(SfenError::InvalidSideToMoveCharactors { chars: side_to_move_str.to_owned() });
        };
        let mut hands = [Hand(0), Hand(0)];
        assert(hands@ =~= empty_hands());
        if hands_str.unicode_len() == 1 && hands_str.get_char(0) == '-' {
            assert(hands_str@ =~= seq!['-']);
        } else {
            assert(hands_str@ != seq!['-']);
            match scan_hands(hands_str, &mut hands) {
                Err(e) => {
                    return Err(e);
                },
                Ok(_) => {},
            }
        }
        let game_ply = match parse_i32_str(game_ply_str) {
            Some(p) => {
                if p < 1 {
                    return Err(SfenError::InvalidGamePly { chars: game_ply_str.to_owned() });
                }
                p
            },
            None => {
                return Err(SfenError::InvalidGamePly { chars: game_ply_str.to_owned() });
            },
        };
        match check_piece_counts(&board, &hands) {
            Some(e) => {
                return Err(e);
            },
            None => {},
        }
        let kings = [Square(black_king as i32), Square(white_king as i32)];
        let pos = PositionBase::from_parts(board, hands, game_ply, kings, side_to_move);
        assert(pos.model().king_squares =~= seq![black_king as int, white_king as int]);
        Ok(pos)
    }
}

/// The decimal count of a run of empty squares, or nothing for none.
pub open spec fn run_chars(empties: int) -> Seq<char> {
    if empties != 0 { int_decimal(empties) } else { seq![] }
}

/// The SFEN text of rank `rank` of `board` from the `fi`-th file from the left on, with
/// `empties` empty squares just passed: pieces in USI letters, runs of empty squares as counts.
pub open spec fn rank_sfen(board: Seq<Piece>, rank: int, fi: int, empties: int) -> Seq<char>
    decreases 9 - fi,
{
    if fi >= 9 {
        run_chars(empties)
    } else if board[sfen_square(fi, rank)] == Piece::EMPTY {
        rank_sfen(board, rank, fi + 1, empties + 1)
    } else {
        run_chars(empties) + board[sfen_square(fi, rank)].usi_chars() + rank_sfen(board, rank, fi + 1, 0)
    }
}

/// The SFEN text of the first `k` ranks of `board`, from the top, separated by `/`.
pub open spec fn board_sfen(board: Seq<Piece>, k: int) -> Seq<char>
    decreases k,
{
    if k <= 0 {
        seq![]
    } else if k == 1 {
        rank_sfen(board, 0, 0, 0)
    } else {
        board_sfen(board, k - 1) + seq!['/'] + rank_sfen(board, k - 1, 0, 0)
    }
}

/// The kinds held in hand in the order of SFEN: rook, bishop, gold, silver, knight, lance, pawn.
pub open spec fn sfen_hand_kind(k: int) -> PieceType {
    if k == 0 {
        PieceType::ROOK
    } else if k == 1 {
        PieceType::BISHOP
    } else if k == 2 {
        PieceType::GOLD
    } else if k == 3 {
        PieceType::SILVER
    } else if k == 4 {
        PieceType::KNIGHT
    } else if k == 5 {
        PieceType::LANCE
    } else {
        PieceType::PAWN
    }
}

/// The SFEN text of `n` pieces of kind `pt` of side `c` in hand: the count when more than one,
/// then the piece letter; nothing for none.
pub open spec fn hand_entry_sfen(c: Color, pt: PieceType, n: int) -> Seq<char> {
    (if n >= 2 { int_decimal(n) } else { seq![] }) + (if n != 0 { Piece::from_val(16 * c.val() + pt.val()).usi_chars() } else { seq![] })
}

/// The SFEN text of the first `k` kinds (in SFEN order) of hand `h` of side `c`.
pub open spec fn hand_sfen(h: Hand, c: Color, k: int) -> Seq<char>
    decreases k,
{
    if k <= 0 {
        seq![]
    } else {
        hand_sfen(h, c, k - 1) + hand_entry_sfen(c, sfen_hand_kind(k - 1), h.count(sfen_hand_kind(k - 1)) as int)
    }
}

/// The SFEN text of both hands: `-` when both are empty.
pub open spec fn hands_sfen(hands: Seq<Hand>) -> Seq<char> {
    if hands[0].0 == 0 && hands[1].0 == 0 {
        seq!['-']
    } else {
        hand_sfen(hands[0], Color::BLACK, 7) + hand_sfen(hands[1], Color::WHITE, 7)
    }
}

/// The SFEN text of a position: board, side to move, hands and ply, separated by spaces.
pub open spec fn position_sfen(m: SfenModel) -> Seq<char> {
    board_sfen(m.board, 9) + (if m.side_to_move == Color::BLACK { seq![' ', 'b', ' '] } else { seq![' ', 'w', ' '] })
        + hands_sfen(m.hands) + seq![' '] + int_decimal(m.game_ply)
}

fn sfen_hand_kind_at(k: usize) -> (pt: PieceType)
    requires
        k < 7,
    ensures
        pt == sfen_hand_kind(k as int),
{
    match k {
        0 => PieceType::ROOK,
        1 => PieceType::BISHOP,
        2 => PieceType::GOLD,
        3 => PieceType::SILVER,
        4 => PieceType::KNIGHT,
        5 => PieceType::LANCE,
        _ => PieceType::PAWN,
    }
}

impl PositionBase {
    /// Appends the SFEN text of rank `rank`.
    fn push_rank_sfen(&self, s: &mut String, rank: usize)
        requires
            rank < 9,
        ensures
            final(s)@ == old(s)@ + rank_sfen(self.board@, rank as int, 0, 0),
    {
        let mut fi: usize = 0;
        let mut empties: i64 = 0;
        while fi < 9
            invariant
                fi <= 9,
                rank < 9,
                0 <= empties <= fi,
                s@ + rank_sfen(self.board@, rank as int, fi as int, empties as int) == old(s)@ + rank_sfen(self.board@, rank as int, 0, 0),
            decreases 9 - fi,
        {
            let pc = self.board[(8 - fi) * 9 + rank];
            if pc == Piece::EMPTY {
                empties = empties + 1;
            } else {
                let ghost before = s@;
                let ghost e = empties as int;
                if empties != 0 {
                    push_decimal(s, empties);
                } else {
                    assert(s@ =~= before + run_chars(e));
                }
                push_str(s, pc.to_usi_str());
                proof {
                    let rest = rank_sfen(self.board@, rank as int, fi + 1, 0);
                    assert(self.board@[sfen_square(fi as int, rank as int)] == pc);
                    assert(rank_sfen(self.board@, rank as int, fi as int, e) == run_chars(e) + pc.usi_chars() + rest);
                    assert(s@ + rest =~= before + rank_sfen(self.board@, rank as int, fi as int, e));
                }
                empties = 0;
            }
            fi = fi + 1;
        }
        let ghost before = s@;
        if empties != 0 {
            push_decimal(s, empties);
        }
        assert(s@ =~= before + rank_sfen(self.board@, rank as int, 9, empties as int));
    }
}

/// Appends the SFEN text of hand `h` of side `c`.
fn push_hand_sfen(s: &mut String, h: Hand, c: Color)
    ensures
        final(s)@ == old(s)@ + hand_sfen(h, c, 7),
{
    let mut k: usize = 0;
    while k < 7
        invariant
            k <= 7,
            s@ == old(s)@ + hand_sfen(h, c, k as int),
        decreases 7 - k,
    {
        let pt = sfen_hand_kind_at(k);
        let num = h.num(pt);
        let ghost before = s@;
        if num >= 2 {
            push_decimal(s, num as i64);
        }
        let ghost mid = s@;
        if num != 0 {
            let pc = Piece::new(c, pt);
            proof {
                broadcast use Piece::lemma_from_val;
                assert(pc == Piece::from_val(16 * c.val() + pt.val()));
            }
            push_str(s, pc.to_usi_str());
        }
        proof {
            assert(s@ =~= before + hand_entry_sfen(c, pt, num as int));
            assert(s@ =~= old(s)@ + hand_sfen(h, c, k as int + 1));
        }
        k = k + 1;
    }
}

impl PositionBase {
    /// The position in SFEN: the board rank by rank from the top, the side to move (`b` or
    /// `w`), the hands (`-` for none) and the ply number.
    pub fn to_sfen(&self) -> (s: String)
        ensures
            s@ == position_sfen(self.model()),
    {
        let mut s = String::new();
        let mut rank: usize = 0;
        while rank < 9
            invariant
                rank <= 9,
                s@ == board_sfen(self.board@, rank as int),
            decreases 9 - rank,
        {
            let ghost before = s@;
            if rank > 0 {
                push_char(&mut s, '/');
            }
            self.push_rank_sfen(&mut s, rank);
            proof {
                if rank > 0 {
                    assert(s@ =~= board_sfen(self.board@, rank as int + 1));
                } else {
                    assert(s@ =~= board_sfen(self.board@, 1));
                }
            }
            rank = rank + 1;
        }
        push_char(&mut s, ' ');
        if self.side_to_move == Color::BLACK {
            push_char(&mut s, 'b');
        } else {
            push_char(&mut s, 'w');
        }
        push_char(&mut s, ' ');
        let ghost after_side = s@;
        if self.hands[0].0 == 0 && self.hands[1].0 == 0 {
            push_char(&mut s, '-');
        } else {
            push_hand_sfen(&mut s, self.hands[0], Color::BLACK);
            push_hand_sfen(&mut s, self.hands[1], Color::WHITE);
        }
        assert(s@ =~= after_side + hands_sfen(self.hands@));
        push_char(&mut s, ' ');
        push_decimal(&mut s, self.game_ply as i64);
        assert(s@ =~= position_sfen(self.model()));
        s
    }
}

/// The CSA cells of rank `rank` of `board` from the `fi`-th file from the left on.
pub open spec fn csa_rank_cells(board: Seq<Piece>, rank: int, fi: int) -> Seq<char>
    decreases 9 - fi,
{
    if fi >= 9 {
        seq![]
    } else {
        board[sfen_square(fi, rank)].csa_chars() + csa_rank_cells(board, rank, fi + 1)
    }
}

/// The CSA board of the first `k` ranks of `board`: the file header line, then a line `P`,
/// the rank number and the nine cells, for each rank from the top.
pub open spec fn csa_board(board: Seq<Piece>, k: int) -> Seq<char>
    decreases k,
{
    if k <= 0 {
        "'  9  8  7  6  5  4  3  2  1"@.push('\n')
    } else {
        csa_board(board, k - 1) + seq!['P'] + int_decimal(k) + csa_rank_cells(board, k - 1, 0) + seq!['\n']
    }
}

/// The kinds held in hand in the order of CSA: pawn, lance, knight, silver, gold, bishop, rook.
pub open spec fn csa_hand_kind(k: int) -> PieceType {
    if k == 0 {
        PieceType::PAWN
    } else if k == 1 {
        PieceType::LANCE
    } else if k == 2 {
        PieceType::KNIGHT
    } else if k == 3 {
        PieceType::SILVER
    } else if k == 4 {
        PieceType::GOLD
    } else if k == 5 {
        PieceType::BISHOP
    } else {
        PieceType::ROOK
    }
}

/// `t` written `n` times.
pub open spec fn repeat_chars(t: Seq<char>, n: int) -> Seq<char>
    decreases n,
{
    if n <= 0 {
        seq![]
    } else {
        repeat_chars(t, n - 1) + t
    }
}

/// The CSA line of `n` pieces of kind `pt` in the hand of side `c`: `P+` or `P-`, then `00` and
/// the kind once for each piece; nothing for none.
pub open spec fn csa_hand_entry(c: Color, pt: PieceType, n: int) -> Seq<char> {
    if n == 0 {
        seq![]
    } else {
        (if c == Color::BLACK { seq!['P', '+'] } else { seq!['P', '-'] }) + repeat_chars(seq!['0', '0'] + pt.csa_chars(), n)
            + seq!['\n']
    }
}

/// The CSA lines of the first `k` kinds (in CSA order) of hand `h` of side `c`.
pub open spec fn csa_hand(h: Hand, c: Color, k: int) -> Seq<char>
    decreases k,
{
    if k <= 0 {
        seq![]
    } else {
        csa_hand(h, c, k - 1) + csa_hand_entry(c, csa_hand_kind(k - 1), h.count(csa_hand_kind(k - 1)) as int)
    }
}

/// The CSA text of a position: the board, the pieces in hand of black then white, and the side
/// to move (`+` or `-`), each line ended by a newline.
pub open spec fn position_csa(m: SfenModel) -> Seq<char> {
    csa_board(m.board, 9) + csa_hand(m.hands[0], Color::BLACK, 7) + csa_hand(m.hands[1], Color::WHITE, 7)
        + (if m.side_to_move == Color::BLACK { seq!['+', '\n'] } else { seq!['-', '\n'] })
}

fn csa_hand_kind_at(k: usize) -> (pt: PieceType)
    requires
        k < 7,
    ensures
        pt == csa_hand_kind(k as int),
{
    match k {
        0 => PieceType::PAWN,
        1 => PieceType::LANCE,
        2 => PieceType::KNIGHT,
        3 => PieceType::SILVER,
        4 => PieceType::GOLD,
        5 => PieceType::BISHOP,
        _ => PieceType::ROOK,
    }
}

/// Appends the CSA lines of hand `h` of side `c`.
fn push_hand_csa(s: &mut String, h: Hand, c: Color)
    ensures
        final(s)@ == old(s)@ + csa_hand(h, c, 7),
{
    let mut k: usize = 0;
    while k < 7
        invariant
            k <= 7,
            s@ == old(s)@ + csa_hand(h, c, k as int),
        decreases 7 - k,
    {
        let pt = csa_hand_kind_at(k);
        let num = h.num(pt);
        let ghost before = s@;
        if num != 0 {
            if c == Color::BLACK {
                push_str(s, "P+");
                proof { reveal_strlit("P+"); }
            } else {
                push_str(s, "P-");
                proof { reveal_strlit("P-"); }
            }
            let ghost unit = seq!['0', '0'] + pt.csa_chars();
            let ghost start = s@;
            let mut i: u32 = 0;
            while i < num
                invariant
                    i <= num,
                    pt != PieceType::OCCUPIED,
                    unit == seq!['0', '0'] + pt.csa_chars(),
                    s@ == start + repeat_chars(unit, i as int),
                decreases num - i,
            {
                push_str(s, "00");
                push_str(s, pt.to_csa_str());
                proof {
                    reveal_strlit("00");
                    assert(s@ =~= start + repeat_chars(unit, i as int + 1));
                }
                i = i + 1;
            }
            push_char(s, '\n');
        }
        proof {
            assert(s@ =~= before + csa_hand_entry(c, pt, num as int));
            assert(s@ =~= old(s)@ + csa_hand(h, c, k as int + 1));
        }
        k = k + 1;
    }
}

impl PositionBase {
    /// The position in CSA notation: a header line of the file numbers, a line `P1` to `P9`
    /// for each rank from the top with the nine cells from the left (` * ` for an empty
    /// square), a line `P+` or `P-` for each kind held in hand (`00` and the kind once for each
    /// piece; black's first, pawn to rook), and `+` or `-` for the side to move.
    pub fn to_csa_string(&self) -> (s: String)
        ensures
            s@ == position_csa(self.model()),
    {
        let mut s = String::new();
        push_str(&mut s, "'  9  8  7  6  5  4  3  2  1");
        push_char(&mut s, '\n');
        let mut rank: usize = 0;
        while rank < 9
            invariant
                rank <= 9,
                s@ == csa_board(self.board@, rank as int),
            decreases 9 - rank,
        {
            let ghost before = s@;
            push_char(&mut s, 'P');
            push_decimal(&mut s, rank as i64 + 1);
            let ghost row_start = s@;
            let mut fi: usize = 0;
            while fi < 9
                invariant
                    fi <= 9,
                    rank < 9,
                    s@ + csa_rank_cells(self.board@, rank as int, fi as int) == row_start + csa_rank_cells(self.board@, rank as int, 0),
                decreases 9 - fi,
            {
                let pc = self.board[(8 - fi) * 9 + rank];
                let ghost mid = s@;
                push_str(&mut s, pc.to_csa_str());
                proof {
                    assert(self.board@[sfen_square(fi as int, rank as int)] == pc);
                    assert(s@ + csa_rank_cells(self.board@, rank as int, fi as int + 1)
                        =~= mid + csa_rank_cells(self.board@, rank as int, fi as int));
                }
                fi = fi + 1;
            }
            push_char(&mut s, '\n');
            proof {
                assert(s@ =~= csa_board(self.board@, rank as int + 1));
            }
            rank = rank + 1;
        }
        push_hand_csa(&mut s, self.hands[0], Color::BLACK);
        push_hand_csa(&mut s, self.hands[1], Color::WHITE);
        if self.side_to_move == Color::BLACK {
            push_char(&mut s, '+');
        } else {
            push_char(&mut s, '-');
        }
        push_char(&mut s, '\n');
        assert(s@ =~= position_csa(self.model()));
        s
    }
}

/// Whether a piece of kind number `k` on `sq` is caught by the attack tables read from `to` for
/// side `opp` (the other side of the piece): the squares from which such a piece reaches `to`.
/// Kings count when `with_king` holds; lances and pawns when `with_lance_pawn` holds.
pub open spec fn caught_from(t: AttackTable, k: int, opp: int, to: int, occ: Bitboard, sq: int, with_king: bool, with_lance_pawn: bool) -> bool {
    ||| with_lance_pawn && k == 1 && t.pawn.table()[2 * to + opp].has(sq)
    ||| with_lance_pawn && k == 2 && in_ray(lance_delta(opp), to, occ, sq)
    ||| k == 3 && t.knight.table()[2 * to + opp].has(sq)
    ||| (k == 4 || (with_king && k == 8) || k == 14) && t.silver.table()[2 * to + opp].has(sq)
    ||| (is_gold_kind(k) || (with_king && k == 8) || k == 13) && t.gold.table()[2 * to + opp].has(sq)
    ||| (k == 5 || k == 13) && magic_lookup(t.bishop, to, occ).has(sq)
    ||| (k == 6 || k == 14) && magic_lookup(t.rook, to, occ).has(sq)
}

impl PositionBase {
    /// The attackers of side `c` computed from the tables as in `caught_from`.
    fn attackers_by(&self, c: Color, to: Square, occupied: &Bitboard, t: &AttackTable, with_king: bool, with_lance_pawn: bool) -> (r: Bitboard)
        requires
            self.wf(),
            t.valid(),
        ensures
            r.wf(),
            forall|sq: int| 0 <= sq < 81 ==> #[trigger] r.has(sq) == (holds_color(self.board_seq(), sq, c.val())
                && caught_from(*t, kind_at(self.board_seq(), sq), 1 - c.val(), to.val(), *occupied, sq, with_king, with_lance_pawn)),
    {
        let opp = c.inverse();
        proof { broadcast use Color::lemma_val_range; }
        let golds = self.pieces_golds();
        let knights = t.attack(PieceType::KNIGHT, opp, to, occupied).and(self.pieces_p(PieceType::KNIGHT));
        let silver_like = if with_king {
            self.pieces_pp(PieceType::SILVER, PieceType::KING).or(self.pieces_p(PieceType::DRAGON))
        } else {
            self.pieces_pp(PieceType::SILVER, PieceType::DRAGON)
        };
        let silvers = t.attack(PieceType::SILVER, opp, to, occupied).and(silver_like);
        let gold_like = if with_king {
            golds.or(self.pieces_pp(PieceType::KING, PieceType::HORSE))
        } else {
            golds.or(self.pieces_p(PieceType::HORSE))
        };
        let gold_hits = t.attack(PieceType::GOLD, opp, to, occupied).and(gold_like);
        let bishops = t.attack(PieceType::BISHOP, opp, to, occupied).and(self.pieces_pp(PieceType::BISHOP, PieceType::HORSE));
        let rooks = t.attack(PieceType::ROOK, opp, to, occupied).and(self.pieces_pp(PieceType::ROOK, PieceType::DRAGON));
        let mut all = knights.or(silvers).or(gold_hits).or(bishops).or(rooks);
        if with_lance_pawn {
            let pawns = t.attack(PieceType::PAWN, opp, to, occupied).and(self.pieces_p(PieceType::PAWN));
            let lances = t.attack(PieceType::LANCE, opp, to, occupied).and(self.pieces_p(PieceType::LANCE));
            all = pawns.or(lances).or(all);
        }
        let own = self.pieces_c(c);
        let r = all.and(own);
        proof {
            Bitboard::lemma_and_wf(all, own);
        }
        r
    }

    /// The pieces of side `color_of_attackers` that attack square `to` with the given occupied
    /// squares, read from the attack tables `t` (a piece reaches `to` where a piece of its kind
    /// of the other side on `to` would reach it).
    pub fn attackers_to(&self, color_of_attackers: Color, to: Square, occupied: &Bitboard, t: &AttackTable) -> (r: Bitboard)
        requires
            self.wf(),
            t.valid(),
        ensures
            r.wf(),
            forall|sq: int| 0 <= sq < 81 ==> #[trigger] r.has(sq) == (holds_color(self.board_seq(), sq, color_of_attackers.val())
                && caught_from(*t, kind_at(self.board_seq(), sq), 1 - color_of_attackers.val(), to.val(), *occupied, sq, true, true)),
    {
        self.attackers_by(color_of_attackers, to, occupied, t, true, true)
    }

    /// The attackers of `to` of side `color_of_attackers`, leaving out the king.
    pub fn attackers_to_except_king(&self, color_of_attackers: Color, to: Square, occupied: &Bitboard, t: &AttackTable) -> (r: Bitboard)
        requires
            self.wf(),
            t.valid(),
        ensures
            r.wf(),
            forall|sq: int| 0 <= sq < 81 ==> #[trigger] r.has(sq) == (holds_color(self.board_seq(), sq, color_of_attackers.val())
                && caught_from(*t, kind_at(self.board_seq(), sq), 1 - color_of_attackers.val(), to.val(), *occupied, sq, false, true)),
    {
        self.attackers_by(color_of_attackers, to, occupied, t, false, true)
    }

    /// The attackers of `to` of side `color_of_attackers`, leaving out the king, lances and pawns.
    pub fn attackers_to_except_king_lance_pawn(&self, color_of_attackers: Color, to: Square, occupied: &Bitboard, t: &AttackTable) -> (r: Bitboard)
        requires
            self.wf(),
            t.valid(),
        ensures
            r.wf(),
            forall|sq: int| 0 <= sq < 81 ==> #[trigger] r.has(sq) == (holds_color(self.board_seq(), sq, color_of_attackers.val())
                && caught_from(*t, kind_at(self.board_seq(), sq), 1 - color_of_attackers.val(), to.val(), *occupied, sq, false, false)),
    {
        self.attackers_by(color_of_attackers, to, occupied, t, false, false)
    }
}

/// Whether a piece of kind number `k` and side `c` on `sq` is caught by the attack tables read
/// from `to`: steppers and lances through the tables of the other side, sliders and king steps
/// through the tables of any side.
pub open spec fn caught_by_any(t: AttackTable, k: int, c: int, to: int, occ: Bitboard, sq: int) -> bool {
    ||| k == 1 && t.pawn.table()[2 * to + (1 - c)].has(sq)
    ||| k == 2 && in_ray(lance_delta(1 - c), to, occ, sq)
    ||| k == 3 && t.knight.table()[2 * to + (1 - c)].has(sq)
    ||| k == 4 && t.silver.table()[2 * to + (1 - c)].has(sq)
    ||| is_gold_kind(k) && t.gold.table()[2 * to + (1 - c)].has(sq)
    ||| (k == 5 || k == 13) && magic_lookup(t.bishop, to, occ).has(sq)
    ||| (k == 6 || k == 14) && magic_lookup(t.rook, to, occ).has(sq)
    ||| (k == 8 || k == 13 || k == 14) && t.king.table()[to].has(sq)
}

impl PositionBase {
    /// The steppers and lances of side `c` that the tables of the other side catch from `to`.
    fn step_attackers(&self, c: Color, to: Square, occupied: &Bitboard, t: &AttackTable) -> (r: Bitboard)
        requires
            self.wf(),
            t.valid(),
        ensures
            r.wf(),
            forall|sq: int| 0 <= sq < 81 ==> #[trigger] r.has(sq) == (holds_color(self.board_seq(), sq, c.val()) && {
                let k = kind_at(self.board_seq(), sq);
                let opp = 1 - c.val();
                ||| k == 1 && t.pawn.table()[2 * to.val() + opp].has(sq)
                ||| k == 2 && in_ray(lance_delta(opp), to.val(), *occupied, sq)
                ||| k == 3 && t.knight.table()[2 * to.val() + opp].has(sq)
                ||| k == 4 && t.silver.table()[2 * to.val() + opp].has(sq)
                ||| is_gold_kind(k) && t.gold.table()[2 * to.val() + opp].has(sq)
            }),
    {
        let opp = c.inverse();
        proof { broadcast use Color::lemma_val_range; }
        let pawns = t.attack(PieceType::PAWN, opp, to, occupied).and(self.pieces_p(PieceType::PAWN));
        let lances = t.attack(PieceType::LANCE, opp, to, occupied).and(self.pieces_p(PieceType::LANCE));
        let knights = t.attack(PieceType::KNIGHT, opp, to, occupied).and(self.pieces_p(PieceType::KNIGHT));
        let silvers = t.attack(PieceType::SILVER, opp, to, occupied).and(self.pieces_p(PieceType::SILVER));
        let golds = t.attack(PieceType::GOLD, opp, to, occupied).and(self.pieces_golds());
        let all = pawns.or(lances).or(knights).or(silvers).or(golds);
        let own = self.pieces_c(c);
        let r = all.and(own);
        proof {
            Bitboard::lemma_and_wf(all, own);
        }
        r
    }

    /// The pieces of both sides that attack square `to` with the given occupied squares, read
    /// from the attack tables `t`.
    pub fn attackers_to_both_color(&self, to: Square, occupied: &Bitboard, t: &AttackTable) -> (r: Bitboard)
        requires
            self.wf(),
            t.valid(),
        ensures
            forall|sq: int| 0 <= sq < 81 ==> #[trigger] r.has(sq) == (self.board_seq()[sq] != Piece::EMPTY
                && caught_by_any(*t, kind_at(self.board_seq(), sq), color_at(self.board_seq(), sq), to.val(), *occupied, sq)),
    {
        proof { broadcast use Piece::lemma_val_range; }
        let black = self.step_attackers(Color::BLACK, to, occupied, t);
        let white = self.step_attackers(Color::WHITE, to, occupied, t);
        let bishops = t.attack(PieceType::BISHOP, Color::BLACK, to, occupied).and(self.pieces_pp(PieceType::BISHOP, PieceType::HORSE));
        let rooks = t.attack(PieceType::ROOK, Color::BLACK, to, occupied).and(self.pieces_pp(PieceType::ROOK, PieceType::DRAGON));
        let kings = t.attack(PieceType::KING, Color::BLACK, to, occupied).and(
            self.pieces_pp(PieceType::KING, PieceType::HORSE).or(self.pieces_p(PieceType::DRAGON)),
        );
        let r = white.or(black).or(bishops).or(rooks).or(kings);
        assert forall|sq: int| 0 <= sq < 81 implies #[trigger] r.has(sq) == (self.board_seq()[sq] != Piece::EMPTY
            && caught_by_any(*t, kind_at(self.board_seq(), sq), color_at(self.board_seq(), sq), to.val(), *occupied, sq)) by {
            assert(self.board_seq()[sq] != Piece::EMPTY ==> color_at(self.board_seq(), sq) == 0 || color_at(self.board_seq(), sq) == 1);
        }
        r
    }
}

/// Whether square `sq` holds a slider of side `c` that reaches `ksq` on an empty board: a lance
/// on its file, a bishop or horse on its diagonals, a rook or dragon on its file and rank.
pub open spec fn is_sniper(t: AttackTable, board: Seq<Piece>, c: int, ksq: int, sq: int) -> bool {
    holds_color(board, sq, c) && {
        let k = kind_at(board, sq);
        ||| k == 2 && in_ray(lance_delta(1 - c), ksq, Bitboard::from_words(0, 0), sq)
        ||| (k == 5 || k == 13) && t.bishop.spec_magics()[ksq].spec_attacks()[0].has(sq)
        ||| (k == 6 || k == 14) && t.rook.spec_magics()[ksq].spec_attacks()[0].has(sq)
    }
}

/// Whether `x` is the one and only occupied square between `ksq` and `s`.
pub open spec fn sole_between(board: Seq<Piece>, ksq: int, s: int, x: int) -> bool {
    &&& 0 <= x < 81
    &&& between_has(ksq, s, x) && board[x] != Piece::EMPTY
    &&& forall|y: int| 0 <= y < 81 && y != x ==> !(#[trigger] between_has(ksq, s, y) && board[y] != Piece::EMPTY)
}

impl PositionBase {
    /// The pieces that stand alone between the king square `ksq` and a slider of side
    /// `color_of_sliders` aimed at it (blockers), and those sliders whose lone piece in between
    /// belongs to the king's side (pinners).
    #[verifier::spinoff_prover]
    #[verifier::rlimit(60)]
    pub fn slider_blockers_and_pinners(&self, color_of_sliders: Color, ksq: Square, t: &AttackTable, between: &BetweenTable) -> (r: (Bitboard, Bitboard))
        requires
            self.wf(),
            t.valid(),
            between.valid(),
        ensures
            r.0.wf(),
            r.1.wf(),
            forall|x: int| 0 <= x < 81 ==> #[trigger] r.0.has(x) == exists|s: int| 0 <= s < 81
                && #[trigger] is_sniper(*t, self.board_seq(), color_of_sliders.val(), ksq.val(), s)
                && sole_between(self.board_seq(), ksq.val(), s, x),
            forall|s: int| 0 <= s < 81 ==> #[trigger] r.1.has(s) == (is_sniper(*t, self.board_seq(), color_of_sliders.val(), ksq.val(), s)
                && exists|x: int| #[trigger] sole_between(self.board_seq(), ksq.val(), s, x)
                    && holds_color(self.board_seq(), x, 1 - color_of_sliders.val())),
    {
        proof { broadcast use Color::lemma_val_range, Square::lemma_val_range; }
        let opp = color_of_sliders.inverse();
        let mut blockers = Bitboard::ZERO();
        let mut pinners = Bitboard::ZERO();
        let lances = t.lance.pseudo_attack(opp, ksq).and(self.pieces_p(PieceType::LANCE));
        let bishops = t.bishop.magic(ksq).pseudo_attack().and(self.pieces_pp(PieceType::BISHOP, PieceType::HORSE));
        let rooks = t.rook.magic(ksq).pseudo_attack().and(self.pieces_pp(PieceType::ROOK, PieceType::DRAGON));
        let own = self.pieces_c(color_of_sliders);
        let all = lances.or(bishops).or(rooks);
        let mut snipers = all.and(own);
        proof { Bitboard::lemma_and_wf(all, own); }
        let occupied = self.occupied_bb();
        let theirs = self.pieces_c(opp);
        let ghost mut last: int = -1;
        loop
            invariant
                self.wf(),
                between.valid(),
                snipers.wf(),
                -1 <= last < 81,
                forall|s: int| 0 <= s < 81 ==> #[trigger] snipers.has(s)
                    == (is_sniper(*t, self.board_seq(), color_of_sliders.val(), ksq.val(), s) && s > last),
                forall|x: int| 0 <= x < 81 ==> #[trigger] blockers.has(x) == exists|s: int| 0 <= s <= last
                    && #[trigger] is_sniper(*t, self.board_seq(), color_of_sliders.val(), ksq.val(), s)
                    && sole_between(self.board_seq(), ksq.val(), s, x),
                forall|s: int| 0 <= s < 81 ==> #[trigger] pinners.has(s) == (s <= last
                    && is_sniper(*t, self.board_seq(), color_of_sliders.val(), ksq.val(), s)
                    && exists|x: int| #[trigger] sole_between(self.board_seq(), ksq.val(), s, x)
                        && holds_color(self.board_seq(), x, 1 - color_of_sliders.val())),
                forall|x: int| 0 <= x < 81 ==> #[trigger] occupied.has(x) == (self.board_seq()[x] != Piece::EMPTY),
                forall|x: int| 0 <= x < 81 ==> #[trigger] theirs.has(x) == holds_color(self.board_seq(), x, 1 - color_of_sliders.val()),
                occupied.wf(),
                blockers.wf(),
                pinners.wf(),
            ensures
                forall|s: int| 0 <= s < 81 ==> !(#[trigger] is_sniper(*t, self.board_seq(), color_of_sliders.val(), ksq.val(), s) && s > last),
            decreases 81 - last,
        {
            let ghost old_snipers = snipers;
            let sq = match snipers.pop_lsb() {
                Some(sq) => sq,
                None => {
                    proof {
                        broadcast use crate::bitboard::group_bits;
                        assert forall|s: int| 0 <= s < 81 implies !(#[trigger] is_sniper(*t, self.board_seq(), color_of_sliders.val(), ksq.val(), s) && s > last) by {
                            assert(!old_snipers.has(s));
                        }
                    }
                    break;
                },
            };
            let ghost prev = last;
            let ghost board = self.board_seq();
            let ghost c = color_of_sliders.val();
            let ghost k = ksq.val();
            proof {
                last = sq.val();
                assert(is_sniper(*t, board, c, k, sq.val()));
                assert forall|s: int| prev < s < sq.val() implies !#[trigger] is_sniper(*t, board, c, k, s) by {
                    assert(!old_snipers.has(s));
                }
            }
            let bm = between.between_mask(ksq, sq);
            let pseudo0 = bm.and(occupied);
            proof { Bitboard::lemma_and_wf(bm, occupied); }
            let mut pseudo = pseudo0;
            let ghost old_blockers = blockers;
            let ghost old_pinners = pinners;
            match pseudo.pop_lsb() {
                Some(x) => {
                    let mut rest = pseudo;
                    match rest.pop_lsb() {
                        None => {
                            proof {
                                broadcast use crate::bitboard::group_bits;
                                assert forall|y: int| 0 <= y < 81 implies #[trigger] pseudo0.has(y) == (y == x.val()) by {
                                    assert(!pseudo.has(y));
                                }
                                assert forall|y: int| 0 <= y < 81 && y != x.val() implies
                                    !(#[trigger] between_has(k, sq.val(), y) && board[y] != Piece::EMPTY) by {
                                    assert(pseudo0.has(y) == (bm.has(y) && occupied.has(y)));
                                }
                                assert(pseudo0.has(x.val()) == (bm.has(x.val()) && occupied.has(x.val())));
                                assert(sole_between(board, k, sq.val(), x.val()));
                            }
                            let xm = Bitboard::square_mask(x);
                            proof { Bitboard::lemma_or_wf(blockers, xm); }
                            blockers = blockers.or(xm);
                            let pinned = theirs.is_set(x);
                            if pinned {
                                pinners.set(sq);
                            }
                            proof {
                                assert forall|z: int| #[trigger] sole_between(board, k, sq.val(), z) implies z == x.val() by {
                                    assert(pseudo0.has(z));
                                }
                                assert forall|y: int| 0 <= y < 81 implies #[trigger] blockers.has(y) == exists|s: int| 0 <= s <= last
                                    && #[trigger] is_sniper(*t, board, c, k, s) && sole_between(board, k, s, y) by {
                                    if y == x.val() {
                                        assert(is_sniper(*t, board, c, k, sq.val()) && sole_between(board, k, sq.val(), y));
                                    }
                                    if exists|s: int| 0 <= s <= last && #[trigger] is_sniper(*t, board, c, k, s) && sole_between(board, k, s, y) {
                                        let s = choose|s: int| 0 <= s <= last && #[trigger] is_sniper(*t, board, c, k, s) && sole_between(board, k, s, y);
                                        if s <= prev {
                                            assert(old_blockers.has(y));
                                        }
                                    }
                                }
                                assert forall|s: int| 0 <= s < 81 implies #[trigger] pinners.has(s) == (s <= last
                                    && is_sniper(*t, board, c, k, s)
                                    && exists|z: int| #[trigger] sole_between(board, k, s, z) && holds_color(board, z, 1 - c)) by {
                                    if s == sq.val() && pinned {
                                        assert(sole_between(board, k, s, x.val()) && holds_color(board, x.val(), 1 - c));
                                    }
                                }
                            }
                        },
                        Some(y2) => {
                            proof {
                                assert forall|z: int| !#[trigger] sole_between(board, k, sq.val(), z) by {
                                    if sole_between(board, k, sq.val(), z) {
                                        assert(pseudo0.has(x.val()));
                                        assert(pseudo0.has(y2.val()));
                                    }
                                }
                                assert forall|y: int| 0 <= y < 81 implies #[trigger] blockers.has(y) == exists|s: int| 0 <= s <= last
                                    && #[trigger] is_sniper(*t, board, c, k, s) && sole_between(board, k, s, y) by {
                                    if exists|s: int| 0 <= s <= last && #[trigger] is_sniper(*t, board, c, k, s) && sole_between(board, k, s, y) {
                                        let s = choose|s: int| 0 <= s <= last && #[trigger] is_sniper(*t, board, c, k, s) && sole_between(board, k, s, y);
                                        assert(s <= prev);
                                        assert(old_blockers.has(y));
                                    }
                                }
                            }
                        },
                    }
                },
                None => {
                    proof {
                        broadcast use crate::bitboard::group_bits;
                        assert forall|z: int| !#[trigger] sole_between(board, k, sq.val(), z) by {
                            if sole_between(board, k, sq.val(), z) {
                                assert(pseudo0.has(z));
                            }
                        }
                        assert forall|y: int| 0 <= y < 81 implies #[trigger] blockers.has(y) == exists|s: int| 0 <= s <= last
                            && #[trigger] is_sniper(*t, board, c, k, s) && sole_between(board, k, s, y) by {
                            if exists|s: int| 0 <= s <= last && #[trigger] is_sniper(*t, board, c, k, s) && sole_between(board, k, s, y) {
                                let s = choose|s: int| 0 <= s <= last && #[trigger] is_sniper(*t, board, c, k, s) && sole_between(board, k, s, y);
                                assert(s <= prev);
                                assert(old_blockers.has(y));
                            }
                        }
                    }
                },
            }
        }
        proof {
            let board = self.board_seq();
            let c = color_of_sliders.val();
            let k = ksq.val();
            assert forall|x: int| 0 <= x < 81 implies #[trigger] blockers.has(x) == exists|s: int| 0 <= s < 81
                && #[trigger] is_sniper(*t, board, c, k, s) && sole_between(board, k, s, x) by {
                if exists|s: int| 0 <= s < 81 && #[trigger] is_sniper(*t, board, c, k, s) && sole_between(board, k, s, x) {
                    let s = choose|s: int| 0 <= s < 81 && #[trigger] is_sniper(*t, board, c, k, s) && sole_between(board, k, s, x);
                    assert(s <= last);
                }
            }
        }
        (blockers, pinners)
    }
}

/// Why a packed position does not decode: a board code or a hand code that is too long.
#[derive(Debug, Clone, Copy, PartialEq, Eq, Structural)]
pub enum HuffmanDecodeError {
    Field(HuffmanCodeForFieldError),
    Hand(HuffmanCodeForHandError),
}

/// Reading a board code from position `p` of stream `s`, with `len` bits of value `value` read:
/// the piece or error found and the position after the code, or `None` when the code runs past
/// the end of the stream.
pub open spec fn field_decode(s: Seq<u8>, p: int, value: u8, len: int) -> Option<(Result<Piece, HuffmanCodeForFieldError>, int)>
    decreases 8 - len,
{
    if len < 0 || p + len >= s.len() * 8 {
        None
    } else {
        let v = value | (stream_bit(s, p + len) << (len as u8));
        let l = len + 1;
        match spec_piece_from_huffman_code(HuffmanCode { value: v, bit_length: l as u8 }) {
            Ok(pc) => Some((Ok(pc), p + l)),
            Err(e) => if e == HuffmanCodeForFieldError::OverMaxBitLength || l >= 8 {
                Some((Err(HuffmanCodeForFieldError::OverMaxBitLength), p + l))
            } else {
                field_decode(s, p, v, l)
            },
        }
    }
}

/// Reading a hand code, as `field_decode` does for the board.
pub open spec fn hand_decode(s: Seq<u8>, p: int, value: u8, len: int) -> Option<(Result<(Color, PieceType), HuffmanCodeForHandError>, int)>
    decreases 7 - len,
{
    if len < 0 || p + len >= s.len() * 8 {
        None
    } else {
        let v = value | (stream_bit(s, p + len) << (len as u8));
        let l = len + 1;
        match spec_hand_piece_from_huffman_code(HuffmanCode { value: v, bit_length: l as u8 }) {
            Ok(x) => Some((Ok(x), p + l)),
            Err(e) => if e == HuffmanCodeForHandError::OverMaxBitLength || l >= 7 {
                Some((Err(HuffmanCodeForHandError::OverMaxBitLength), p + l))
            } else {
                hand_decode(s, p, v, l)
            },
        }
    }
}

/// Decoding the board from position `p` at square `sq` onto `board`, the king squares `kb` and
/// `kw` passed over: the board and the position after it, or the first error, or `None` when a
/// code runs past the end of the stream.
pub open spec fn board_decode(s: Seq<u8>, p: int, sq: int, kb: int, kw: int, board: Seq<Piece>) -> Option<(Result<Seq<Piece>, HuffmanCodeForFieldError>, int)>
    decreases 81 - sq,
{
    if sq < 0 || sq >= 81 {
        Some((Ok(board), p))
    } else if sq == kb || sq == kw {
        board_decode(s, p, sq + 1, kb, kw, board)
    } else {
        match field_decode(s, p, 0, 0) {
            None => None,
            Some((Err(e), q)) => Some((Err(e), q)),
            Some((Ok(pc), q)) => board_decode(s, q, sq + 1, kb, kw, if pc != Piece::EMPTY { board.update(sq, pc) } else { board }),
        }
    }
}

/// Decoding the hands from position `p` to the end of the stream: each code adds one piece of its
/// kind to the hand of the side it reports.
pub open spec fn hands_decode(s: Seq<u8>, p: int, hands: Seq<Hand>) -> Option<Result<Seq<Hand>, HuffmanCodeForHandError>>
    decreases s.len() * 8 - p,
{
    if p < 0 || p >= s.len() * 8 {
        Some(Ok(hands))
    } else {
        match hand_decode(s, p, 0, 0) {
            None => None,
            Some((Err(e), _)) => Some(Err(e)),
            Some((Ok((c, pt)), q)) => if q <= p || q > s.len() * 8 {
                None
            } else {
                hands_decode(s, q, hands.update(c.val(), Hand((hands[c.val()].0 + Hand::one(pt)) as u32)))
            },
        }
    }
}

/// What a packed position decodes to: the side to move (first bit), the squares of the black and
/// white kings (seven bits each), the other squares' pieces, the hands up to the end of the
/// buffer, and the ply; or the first code error; or `None` when a king square is off the board,
/// both kings share a square, or a code runs past the end of the buffer.
pub open spec fn hcp_decode(s: Seq<u8>, ply: i16) -> Option<Result<SfenModel, HuffmanDecodeError>> {
    let side = stream_bit(s, 0);
    let kb = read_bits(s, 1, 7) as int;
    let kw = read_bits(s, 8, 7) as int;
    if kb >= 81 || kw >= 81 || kb == kw {
        None
    } else {
        let board0 = empty_board().update(kb, Piece::B_KING).update(kw, Piece::W_KING);
        match board_decode(s, 15, 0, kb, kw, board0) {
            None => None,
            Some((Err(e), _)) => Some(Err(HuffmanDecodeError::Field(e))),
            Some((Ok(board), p)) => match hands_decode(s, p, empty_hands()) {
                None => None,
                Some(Err(e)) => Some(Err(HuffmanDecodeError::Hand(e))),
                Some(Ok(hands)) => Some(Ok(SfenModel {
                    board: board,
                    hands: hands,
                    side_to_move: Color::from_val(side as int),
                    game_ply: ply as int,
                    king_squares: seq![kb, kw],
                })),
            },
        }
    }
}

proof fn lemma_field_decode_bounds(s: Seq<u8>, p: int, value: u8, len: int)
    requires
        0 <= len < 8,
        0 <= p,
        field_decode(s, p, value, len) is Some,
    ensures
        ({
            let q = match field_decode(s, p, value, len) { Some(x) => x.1, None => 0 };
            p + len < q <= s.len() * 8 && q <= p + 8
        }),
    decreases 8 - len,
{
    let v = value | (stream_bit(s, p + len) << (len as u8));
    let l = len + 1;
    match spec_piece_from_huffman_code(HuffmanCode { value: v, bit_length: l as u8 }) {
        Ok(pc) => {
            assert(l <= 8);
        },
        Err(e) => {
            if e == HuffmanCodeForFieldError::OverMaxBitLength || l >= 8 {
                assert(l <= 8);
            } else {
                lemma_field_decode_bounds(s, p, v, l);
            }
        },
    }
}

proof fn lemma_hand_decode_bounds(s: Seq<u8>, p: int, value: u8, len: int)
    requires
        0 <= len < 7,
        0 <= p,
        hand_decode(s, p, value, len) is Some,
    ensures
        ({
            let r = hand_decode(s, p, value, len)->0;
            let q = r.1;
            &&& p + len < q <= s.len() * 8
            &&& (r.0 matches Ok(x) ==> q >= p + 3 && crate::hand::is_hand_piece_type(x.1))
        }),
    decreases 7 - len,
{
    let v = value | (stream_bit(s, p + len) << (len as u8));
    let l = len + 1;
    match spec_hand_piece_from_huffman_code(HuffmanCode { value: v, bit_length: l as u8 }) {
        Ok(x) => {
            assert(l == 3 || l == 5 || l == 7);
        },
        Err(e) => {
            if e == HuffmanCodeForHandError::OverMaxBitLength || l >= 7 {
            } else {
                lemma_hand_decode_bounds(s, p, v, l);
            }
        },
    }
}

/// Reads one board code, as `field_decode` says.
fn read_field_code(bs: &mut BitStreamReader) -> (r: Result<Piece, HuffmanCodeForFieldError>)
    requires
        old(bs).current_bit < 8,
        field_decode(old(bs).slice@, old(bs).pos(), 0, 0) is Some,
    ensures
        final(bs).slice@ == old(bs).slice@,
        final(bs).current_bit < 8,
        field_decode(old(bs).slice@, old(bs).pos(), 0, 0) == Some((r, final(bs).pos())),
{
    let ghost s = bs.slice@;
    let ghost p0 = bs.pos();
    let mut hc = HuffmanCode { value: 0, bit_length: 0 };
    loop
        invariant
            bs.slice@ == s,
            s == old(bs).slice@,
            p0 == old(bs).pos(),
            bs.current_bit < 8,
            hc.bit_length < 8,
            bs.pos() == p0 + hc.bit_length,
            field_decode(s, p0, 0, 0) == field_decode(s, p0, hc.value, hc.bit_length as int),
            field_decode(s, p0, hc.value, hc.bit_length as int) is Some,
        decreases 8 - hc.bit_length,
    {
        let bit = bs.get_bit_from_lsb();
        hc.value = hc.value | (bit << hc.bit_length);
        hc.bit_length = hc.bit_length + 1;
        match piece_from_huffman_code(&hc) {
            Ok(pc) => {
                return Ok(pc);
            },
            Err(e) => {
                if e == HuffmanCodeForFieldError::OverMaxBitLength || hc.bit_length >= 8 {
                    return Err(HuffmanCodeForFieldError::OverMaxBitLength);
                }
            },
        }
    }
}

/// Reads one hand code, as `hand_decode` says.
fn read_hand_code(bs: &mut BitStreamReader) -> (r: Result<(Color, PieceType), HuffmanCodeForHandError>)
    requires
        old(bs).current_bit < 8,
        hand_decode(old(bs).slice@, old(bs).pos(), 0, 0) is Some,
    ensures
        final(bs).slice@ == old(bs).slice@,
        final(bs).current_bit < 8,
        hand_decode(old(bs).slice@, old(bs).pos(), 0, 0) == Some((r, final(bs).pos())),
{
    let ghost s = bs.slice@;
    let ghost p0 = bs.pos();
    let mut hc = HuffmanCode { value: 0, bit_length: 0 };
    loop
        invariant
            bs.slice@ == s,
            s == old(bs).slice@,
            p0 == old(bs).pos(),
            bs.current_bit < 8,
            hc.bit_length < 7,
            bs.pos() == p0 + hc.bit_length,
            hand_decode(s, p0, 0, 0) == hand_decode(s, p0, hc.value, hc.bit_length as int),
            hand_decode(s, p0, hc.value, hc.bit_length as int) is Some,
        decreases 7 - hc.bit_length,
    {
        let bit = bs.get_bit_from_lsb();
        hc.value = hc.value | (bit << hc.bit_length);
        hc.bit_length = hc.bit_length + 1;
        match hand_piece_from_huffman_code(&hc) {
            Ok(x) => {
                return Ok(x);
            },
            Err(e) => {
                if e == HuffmanCodeForHandError::OverMaxBitLength || hc.bit_length >= 7 {
                    return Err(HuffmanCodeForHandError::OverMaxBitLength);
                }
            },
        }
    }
}

impl PositionBase {
    /// The position packed in `hcp`, as `hcp_decode` says, or the first code that is too long.
    /// A king square off the board, both kings on one square, or a code that runs past the end
    /// of the buffer are not accepted.
    pub fn new_from_huffman_coded_position(hcp: &HuffmanCodedPosition) -> (r: Result<PositionBase, HuffmanDecodeError>)
        requires
            hcp_decode(hcp.buf@, hcp.ply) is Some,
        ensures
            match r {
                Ok(pos) => pos.wf() && hcp_decode(hcp.buf@, hcp.ply) == Some(Ok::<SfenModel, HuffmanDecodeError>(pos.model())),
                Err(e) => hcp_decode(hcp.buf@, hcp.ply) == Some(Err::<SfenModel, HuffmanDecodeError>(e)),
            },
    {
        let ghost s = hcp.buf@;
        let mut bs = BitStreamReader::new(&hcp.buf);
        assert(bs.slice@ == s);
        let side_bit = bs.get_bit_from_lsb();
        let side = if side_bit == 0 { Color::BLACK } else { Color::WHITE };
        let kb = bs.get_bits_from_lsb(7) as usize;
        let kw = bs.get_bits_from_lsb(7) as usize;
        let mut board = [Piece::EMPTY; 81];
        assert(board@ =~= empty_board());
        board[kb] = Piece::B_KING;
        board[kw] = Piece::W_KING;
        let ghost board0 = board@;
        let mut sq: usize = 0;
        while sq < 81
            invariant
                sq <= 81,
                bs.slice@ == s,
                s.len() == 32,
                bs.current_bit < 8,
                kb < 81 && kw < 81,
                kb == read_bits(s, 1, 7) as int,
                kw == read_bits(s, 8, 7) as int,
                board0 == empty_board().update(kb as int, Piece::B_KING).update(kw as int, Piece::W_KING),
                s == hcp.buf@,
                hcp_decode(s, hcp.ply) is Some,
                board_decode(s, 15, 0, kb as int, kw as int, board0) == board_decode(s, bs.pos(), sq as int, kb as int, kw as int, board@),
                board_decode(s, bs.pos(), sq as int, kb as int, kw as int, board@) is Some,
                15 <= bs.pos() <= 256,
            decreases 81 - sq,
        {
            if sq != kb && sq != kw {
                let ghost p = bs.pos();
                proof { lemma_field_decode_bounds(s, p, 0, 0); }
                match read_field_code(&mut bs) {
                    Ok(pc) => {
                        if pc != Piece::EMPTY {
                            board[sq] = pc;
                        }
                    },
                    Err(e) => {
                        return Err(HuffmanDecodeError::Field(e));
                    },
                }
            }
            sq = sq + 1;
        }
        let mut hands = [Hand(0), Hand(0)];
        assert(hands@ =~= empty_hands());
        let ghost p_hands = bs.pos();
        while bs.current_index != 32
            invariant
                bs.slice@ == s,
                s.len() == 32,
                bs.current_bit < 8,
                bs.pos() <= 256,
                hands_decode(s, p_hands, empty_hands()) == hands_decode(s, bs.pos(), hands@),
                hands_decode(s, bs.pos(), hands@) is Some,
                3 * (hands@[0].0 + hands@[1].0) <= bs.pos() * 0x100_0000,
                kb < 81 && kw < 81,
                kb == read_bits(s, 1, 7) as int,
                kw == read_bits(s, 8, 7) as int,
                board0 == empty_board().update(kb as int, Piece::B_KING).update(kw as int, Piece::W_KING),
                s == hcp.buf@,
                hcp_decode(s, hcp.ply) is Some,
                board_decode(s, 15, 0, kb as int, kw as int, board0) == Some((Ok::<Seq<Piece>, HuffmanCodeForFieldError>(board@), p_hands)),
            decreases 256 - bs.pos(),
        {
            let ghost p = bs.pos();
            proof { lemma_hand_decode_bounds(s, p, 0, 0); }
            match read_hand_code(&mut bs) {
                Ok((c, pt)) => {
                    proof {
                        Hand::lemma_one_values(pt);
                        broadcast use Color::lemma_val_range;
                    }
                    let ci = c.to_i32() as usize;
                    hands[ci].plus_one(pt);
                },
                Err(e) => {
                    return Err(HuffmanDecodeError::Hand(e));
                },
            }
        }
        let kings = [Square(kb as i32), Square(kw as i32)];
        let pos = PositionBase::from_parts(board, hands, hcp.ply as i32, kings, side);
        assert(pos.model().king_squares =~= seq![kb as int, kw as int]);
        Ok(pos)
    }
}

/// A board code read from a stream whose next bits are that code decodes to its piece, ending
/// right after the code.
proof fn lemma_decode_field_code(s: Seq<u8>, p: int, pc: Piece, len: int)
    requires
        !pc.is_king_spec(),
        0 <= p,
        0 <= len < field_code(pc).1,
        p + field_code(pc).1 <= s.len() * 8,
        forall|k: int| 0 <= k < field_code(pc).1 ==> #[trigger] stream_bit(s, p + k) == value_bit(field_code(pc).0, k),
    ensures
        field_decode(s, p, low_bits(field_code(pc).0, len as nat), len) == Some((Ok::<Piece, HuffmanCodeForFieldError>(pc), p + field_code(pc).1)),
    decreases field_code(pc).1 - len,
{
    let code = field_code(pc).0;
    let big_l = field_code(pc).1 as int;
    lemma_code_values_fit(pc, Color::BLACK, PieceType::PAWN);
    let value = low_bits(code, len as nat);
    assert(stream_bit(s, p + len) == value_bit(code, len));
    lemma_low_bits_next(code, len as nat);
    let l = len + 1;
    let v = value | (stream_bit(s, p + len) << (len as u8));
    assert(v == low_bits(code, l as nat));
    if l == big_l {
        lemma_low_bits_mod(code, l as nat);
        lemma_field_code_round_trip(pc);
    } else {
        lemma_low_bits_mod(code, l as nat);
        lemma_field_codes_prefix_free(pc, l);
        lemma_decode_field_code(s, p, pc, l);
    }
}

/// A hand code of either side read from a stream whose next bits are that code decodes to its
/// kind, reported as black's, ending right after the code.
proof fn lemma_decode_hand_code(s: Seq<u8>, p: int, c: Color, pt: PieceType, len: int)
    requires
        crate::hand::is_hand_piece_type(pt),
        0 <= p,
        0 <= len < hand_code(c, pt).1,
        p + hand_code(c, pt).1 <= s.len() * 8,
        forall|k: int| 0 <= k < hand_code(c, pt).1 ==> #[trigger] stream_bit(s, p + k) == value_bit(hand_code(c, pt).0, k),
    ensures
        hand_decode(s, p, low_bits(hand_code(c, pt).0, len as nat), len)
            == Some((Ok::<(Color, PieceType), HuffmanCodeForHandError>((Color::BLACK, pt)), p + hand_code(c, pt).1)),
    decreases hand_code(c, pt).1 - len,
{
    let code = hand_code(c, pt).0;
    let big_l = hand_code(c, pt).1 as int;
    lemma_code_values_fit(Piece::EMPTY, c, pt);
    let value = low_bits(code, len as nat);
    assert(stream_bit(s, p + len) == value_bit(code, len));
    lemma_low_bits_next(code, len as nat);
    let l = len + 1;
    let v = value | (stream_bit(s, p + len) << (len as u8));
    assert(v == low_bits(code, l as nat));
    if l == big_l {
        lemma_low_bits_mod(code, l as nat);
        assert(spec_hand_piece_from_huffman_code(HuffmanCode { value: code, bit_length: l as u8 })
            == Ok::<(Color, PieceType), HuffmanCodeForHandError>((Color::BLACK, pt)));
    } else {
        lemma_low_bits_mod(code, l as nat);
        lemma_hand_codes_prefix_free(c, pt, l);
        lemma_decode_hand_code(s, p, c, pt, l);
    }
}

proof fn lemma_board_code_bits_prefix(board: Seq<Piece>, n: int, m: int)
    requires
        0 <= n <= m,
    ensures
        forall|k: int| 0 <= k < board_code_bits(board, n).len() ==> #[trigger] board_code_bits(board, m)[k] == board_code_bits(board, n)[k],
        board_code_bits(board, n).len() <= board_code_bits(board, m).len(),
    decreases m - n,
{
    if n < m {
        lemma_board_code_bits_prefix(board, n, m - 1);
    }
}

/// The board as decoded before square `sq`: the pieces of `board` on the squares before `sq`,
/// the kings on `kb` and `kw`, and nothing elsewhere.
pub open spec fn partial_board(board: Seq<Piece>, sq: int, kb: int, kw: int) -> Seq<Piece> {
    Seq::new(81, |i: int| if i < sq { board[i] } else if i == kb { Piece::B_KING } else if i == kw { Piece::W_KING } else { Piece::EMPTY })
}

/// Whether the kings of `board` stand on `kb` (black) and `kw` (white) and nowhere else.
pub open spec fn kings_exactly_at(board: Seq<Piece>, kb: int, kw: int) -> bool {
    &&& board.len() == 81
    &&& 0 <= kb < 81 && 0 <= kw < 81 && kb != kw
    &&& board[kb] == Piece::B_KING && board[kw] == Piece::W_KING
    &&& forall|i: int| 0 <= i < 81 && i != kb && i != kw ==> !(#[trigger] board[i]).is_king_spec()
}

/// Decoding board codes that were packed from `board` gives `board` back.
proof fn lemma_board_decode_packed(s: Seq<u8>, board: Seq<Piece>, kb: int, kw: int, sq: int)
    requires
        kings_exactly_at(board, kb, kw),
        0 <= sq <= 81,
        15 + board_code_bits(board, 81).len() <= s.len() * 8,
        forall|k: int| 0 <= k < board_code_bits(board, 81).len() ==> #[trigger] stream_bit(s, 15 + k) == board_code_bits(board, 81)[k],
    ensures
        board_decode(s, 15 + board_code_bits(board, sq).len() as int, sq, kb, kw, partial_board(board, sq, kb, kw))
            == Some((Ok::<Seq<Piece>, HuffmanCodeForFieldError>(board), 15 + board_code_bits(board, 81).len() as int)),
    decreases 81 - sq,
{
    let p: int = 15 + board_code_bits(board, sq).len() as int;
    if sq == 81 {
        assert(partial_board(board, 81, kb, kw) =~= board);
    } else {
        lemma_board_code_bits_prefix(board, sq + 1, 81);
        lemma_board_code_bits_prefix(board, sq, sq + 1);
        if sq == kb || sq == kw {
            assert(board_code_bits(board, sq + 1) == board_code_bits(board, sq));
            assert(partial_board(board, sq + 1, kb, kw) =~= partial_board(board, sq, kb, kw));
            lemma_board_decode_packed(s, board, kb, kw, sq + 1);
        } else {
            let pc = board[sq];
            let code = field_code(pc).0;
            let big_l = field_code(pc).1 as int;
            let before = board_code_bits(board, sq);
            assert(board_code_bits(board, sq + 1) == before + code_bits(code, big_l));
            assert forall|k: int| 0 <= k < big_l implies #[trigger] stream_bit(s, p + k) == value_bit(code, k) by {
                assert(stream_bit(s, 15 + (before.len() + k)) == board_code_bits(board, 81)[before.len() + k]);
                assert(board_code_bits(board, sq + 1)[before.len() + k] == code_bits(code, big_l)[k]);
            }
            lemma_low_bits_next(code, 0);
            lemma_decode_field_code(s, p, pc, 0);
            let next = if pc != Piece::EMPTY { partial_board(board, sq, kb, kw).update(sq, pc) } else { partial_board(board, sq, kb, kw) };
            assert(next =~= partial_board(board, sq + 1, kb, kw));
            lemma_board_decode_packed(s, board, kb, kw, sq + 1);
        }
    }
}

proof fn lemma_hand_code_bits_prefix(hands: Seq<Hand>, n: int, m: int)
    requires
        0 <= n <= m,
    ensures
        forall|k: int| 0 <= k < hand_code_bits(hands, n).len() ==> #[trigger] hand_code_bits(hands, m)[k] == hand_code_bits(hands, n)[k],
        hand_code_bits(hands, n).len() <= hand_code_bits(hands, m).len(),
    decreases m - n,
{
    if n < m {
        lemma_hand_code_bits_prefix(hands, n, m - 1);
    }
}

proof fn lemma_repeat_index(b: Seq<u8>, n: nat, i: int, k: int)
    requires
        0 <= i < n,
        0 <= k < b.len(),
    ensures
        repeat_bits(b, n)[i * b.len() + k] == b[k],
        i * b.len() + k < repeat_bits(b, n).len(),
    decreases n,
{
    let l = b.len() as int;
    lemma_repeat_len(b, n);
    lemma_repeat_len(b, (n - 1) as nat);
    if i == n - 1 {
        assert(repeat_bits(b, n) == repeat_bits(b, (n - 1) as nat) + b);
        assert(i * l == (n - 1) * l);
    } else {
        lemma_repeat_index(b, (n - 1) as nat, i, k);
        assert(i * l + k < (n - 1) * l) by (nonlinear_arith)
            requires i < n - 1, 0 <= k < l;
    }
    assert(i * l + k < n * l) by (nonlinear_arith)
        requires i < n, 0 <= k < l;
}

/// The sum over the first `k` kinds in packing order of each count of `h` times the amount that
/// one piece of the kind adds.
pub open spec fn hand_sum(h: Hand, k: int) -> int
    decreases k,
{
    if k <= 0 {
        0
    } else {
        hand_sum(h, k - 1) + h.count(packed_hand_kind(k - 1)) * Hand::one(packed_hand_kind(k - 1))
    }
}

proof fn lemma_hand_sum_mono(h: Hand, k: int, m: int)
    requires
        0 <= k <= m,
    ensures
        0 <= hand_sum(h, k) <= hand_sum(h, m),
    decreases m,
{
    if m > 0 {
        let pt = packed_hand_kind(m - 1);
        assert(h.count(pt) * Hand::one(pt) >= 0) by (nonlinear_arith)
            requires h.count(pt) >= 0, Hand::one(pt) >= 0;
        if k < m {
            lemma_hand_sum_mono(h, k, m - 1);
        } else {
            lemma_hand_sum_mono(h, m - 1, m - 1);
        }
    }
}

/// Over all seven kinds, the sum is the packed word of a hand without stray bits.
proof fn lemma_hand_sum_all(h: Hand)
    requires
        h.wf(),
    ensures
        hand_sum(h, 7) == h.0 as int,
{
    Hand::lemma_word_is_sum_of_fields(h);
    reveal_with_fuel(hand_sum, 8);
}

/// The bits of code `j` of entry `m` lie where `hand_code_pos` says, and the next code follows.
proof fn lemma_hand_entry_bits(s: Seq<u8>, hands: Seq<Hand>, base: int, m: int, j: int)
    requires
        hands.len() == 2,
        0 <= base,
        base + hand_code_bits(hands, 14).len() == s.len() * 8,
        forall|k: int| 0 <= k < hand_code_bits(hands, 14).len() ==> #[trigger] stream_bit(s, base + k) == hand_code_bits(hands, 14)[k],
        0 <= m < 7,
        0 <= j < hands[0].count(packed_hand_kind(m)),
    ensures
        ({
            let pt = packed_hand_kind(m);
            let code = hand_code(Color::BLACK, pt);
            let p = hand_code_pos(hands, base, m, j);
            &&& forall|k: int| 0 <= k < code.1 ==> #[trigger] stream_bit(s, p + k) == value_bit(code.0, k)
            &&& p + code.1 <= s.len() * 8
            &&& hand_code_pos(hands, base, m, j + 1) == p + code.1
        }),
{
    let c = Color::BLACK;
    let pt = packed_hand_kind(m);
    let code = hand_code(c, pt).0;
    let l = hand_code(c, pt).1 as int;
    let count = hands[0].count(pt) as int;
    assert(Color::from_val(m / 7) == c && packed_hand_kind(m % 7) == pt);
    lemma_code_values_fit(Piece::EMPTY, c, pt);
    lemma_hand_code_bits_prefix(hands, m + 1, 14);
    lemma_hand_code_bits_prefix(hands, m, m + 1);
    lemma_repeat_len(code_bits(code, l), count as nat);
    let before = hand_code_bits(hands, m);
    assert(hand_code_bits(hands, m + 1) == before + repeat_bits(code_bits(code, l), count as nat));
    let p = hand_code_pos(hands, base, m, j);
    assert(p == base + before.len() + j * l);
    assert forall|k: int| 0 <= k < l implies #[trigger] stream_bit(s, p + k) == value_bit(code, k) by {
        lemma_repeat_index(code_bits(code, l), count as nat, j, k);
        assert(stream_bit(s, base + (before.len() + (j * l + k))) == hand_code_bits(hands, 14)[before.len() + (j * l + k)]);
        assert(hand_code_bits(hands, m + 1)[before.len() + (j * l + k)] == code_bits(code, l)[k]);
        assert(p + k == base + (before.len() + (j * l + k)));
    }
    lemma_repeat_index(code_bits(code, l), count as nat, j, l - 1);
    assert(hand_code_pos(hands, base, m, j + 1) == p + l) by (nonlinear_arith)
        requires
            hand_code_pos(hands, base, m, j + 1) == base + before.len() + (j + 1) * l,
            p == base + before.len() + j * l;
}

/// The hands as decoded before code `j` of entry `m` (black's seven kinds, then white's).
pub open spec fn partial_hands(h0: Hand, m: int, j: int) -> Seq<Hand> {
    let k = if m < 7 { m } else { 7 };
    let extra = if m < 7 { j * Hand::one(packed_hand_kind(m)) } else { 0 };
    seq![Hand((hand_sum(h0, k) + extra) as u32), Hand(0)]
}

/// Where code `j` of entry `m` of the packed hands starts.
pub open spec fn hand_code_pos(hands: Seq<Hand>, base: int, m: int, j: int) -> int {
    let c = Color::from_val(m / 7);
    let pt = packed_hand_kind(m % 7);
    base + hand_code_bits(hands, m).len() + j * hand_code(c, pt).1
}

#[verifier::spinoff_prover]
#[verifier::rlimit(50)]
/// Decoding hand codes that were packed from black's hand `hands[0]` (white's being empty) up to
/// the end of the stream gives black's hand back, and white's empty.
proof fn lemma_hands_decode_packed(s: Seq<u8>, hands: Seq<Hand>, base: int, m: int, j: int)
    requires
        hands.len() == 2,
        hands[0].wf(),
        hands[1].0 == 0,
        0 <= base,
        base + hand_code_bits(hands, 14).len() == s.len() * 8,
        forall|k: int| 0 <= k < hand_code_bits(hands, 14).len() ==> #[trigger] stream_bit(s, base + k) == hand_code_bits(hands, 14)[k],
        0 <= m <= 14,
        0 <= j,
        m < 14 ==> j <= hands[m / 7].count(packed_hand_kind(m % 7)),
        m == 14 ==> j == 0,
    ensures
        hands_decode(s, hand_code_pos(hands, base, m, j), partial_hands(hands[0], m, j))
            == Some(Ok::<Seq<Hand>, HuffmanCodeForHandError>(seq![hands[0], Hand(0)])),
    decreases 14 - m, (if m < 14 { hands[m / 7].count(packed_hand_kind(m % 7)) as int } else { 0 }) - j,
{
    let h0 = hands[0];
    lemma_hand_sum_all(h0);
    lemma_hand_sum_mono(h0, 0, 7);
    if m == 14 {
        assert(partial_hands(h0, 14, 0) =~= seq![h0, Hand(0)]);
    } else {
        let c = Color::from_val(m / 7);
        let pt = packed_hand_kind(m % 7);
        let code = hand_code(c, pt).0;
        let l = hand_code(c, pt).1 as int;
        let count = hands[m / 7].count(pt) as int;
        lemma_code_values_fit(Piece::EMPTY, c, pt);
        lemma_repeat_len(code_bits(code, l), count as nat);
        assert(hand_code_bits(hands, m + 1) == hand_code_bits(hands, m) + repeat_bits(code_bits(code, l), count as nat));
        if m >= 7 {
            Hand::lemma_empty_counts(pt);
            assert(hands[1] == Hand(0));
        }
        if j == count {
            if m < 7 {
                assert(hand_sum(h0, m + 1) == hand_sum(h0, m) + count * Hand::one(pt));
            }
            assert(hand_code_pos(hands, base, m, j) == hand_code_pos(hands, base, m + 1, 0));
            assert(partial_hands(h0, m, j) =~= partial_hands(h0, m + 1, 0));
            lemma_hands_decode_packed(s, hands, base, m + 1, 0);
        } else {
            assert(m < 7);
            let p = hand_code_pos(hands, base, m, j);
            lemma_hand_entry_bits(s, hands, base, m, j);
            lemma_low_bits_next(code, 0);
            lemma_decode_hand_code(s, p, c, pt, 0);
            lemma_hand_sum_mono(h0, m + 1, 7);
            assert(hand_sum(h0, m + 1) == hand_sum(h0, m) + count * Hand::one(pt));
            assert((j + 1) * Hand::one(pt) <= count * Hand::one(pt)) by (nonlinear_arith)
                requires j + 1 <= count, Hand::one(pt) >= 0;
            let acc = partial_hands(h0, m, j);
            let v0 = hand_sum(h0, m) + j * Hand::one(pt);
            assert(v0 + Hand::one(pt) == hand_sum(h0, m) + (j + 1) * Hand::one(pt)) by (nonlinear_arith)
                requires v0 == hand_sum(h0, m) + j * Hand::one(pt);
            assert(j * Hand::one(pt) >= 0) by (nonlinear_arith)
                requires j >= 0, Hand::one(pt) >= 0;
            lemma_hand_sum_mono(h0, m, m);
            assert(0 <= v0 && v0 + Hand::one(pt) <= h0.0);
            assert(acc[0].0 == v0);
            assert(acc.update(0, Hand((acc[0].0 + Hand::one(pt)) as u32)) =~= partial_hands(h0, m, j + 1));
            lemma_hands_decode_packed(s, hands, base, m, j + 1);
        }
    }
}

/// What the packing gives back: decoding the packing of a position gives the position again, when
/// its kings stand on the squares it keeps for them and nowhere else, black's hand has no stray
/// bits, white holds nothing in hand (the decoding reports every piece in hand as black's), the
/// packing fills the 256 bits exactly, and the ply fits in 16 bits.
pub proof fn lemma_huffman_round_trip(pos: PositionBase, hcp: HuffmanCodedPosition)
    requires
        kings_exactly_at(pos.board_seq(), pos.king_squares_seq()[0].val(), pos.king_squares_seq()[1].val()),
        pos.hands_seq()[0].wf(),
        pos.hands_seq()[1].0 == 0,
        i16::MIN <= pos.spec_game_ply() <= i16::MAX,
        hcp.ply == pos.spec_game_ply() as i16,
        packed_bits(pos.spec_side_to_move(), seq![pos.king_squares_seq()[0].val(), pos.king_squares_seq()[1].val()],
            pos.board_seq(), pos.hands_seq()).len() == 256,
        forall|q: int| 0 <= q < 256 ==> #[trigger] stream_bit(hcp.buf@, q) == packed_bits(pos.spec_side_to_move(),
            seq![pos.king_squares_seq()[0].val(), pos.king_squares_seq()[1].val()], pos.board_seq(), pos.hands_seq())[q],
    ensures
        hcp_decode(hcp.buf@, hcp.ply) == Some(Ok::<SfenModel, HuffmanDecodeError>(pos.model())),
{
    let s = hcp.buf@;
    let side = pos.spec_side_to_move();
    let kb = pos.king_squares_seq()[0].val();
    let kw = pos.king_squares_seq()[1].val();
    let board = pos.board_seq();
    let hands = pos.hands_seq();
    let bits = packed_bits(side, seq![kb, kw], board, hands);
    let head = seq![side.val() as u8] + code_bits(kb as u8, 7) + code_bits(kw as u8, 7);
    let body = board_code_bits(board, 81);
    let tail = hand_code_bits(hands, 14);
    assert(bits == head + body + tail);
    assert(s.len() == 32);
    assert(hands.len() == 2);
    // The side to move and the king squares.
    assert(stream_bit(s, 0) == side.val() as u8);
    assert(Color::from_val(side.val() as u8 as int) == side) by {
        broadcast use Color::lemma_val_range, Color::lemma_from_val;
    }
    assert forall|k: int| 0 <= k < 7 implies #[trigger] stream_bit(s, 1 + k) == value_bit(kb as u8, k) by {
        assert(bits[1 + k] == code_bits(kb as u8, 7)[k]);
    }
    assert forall|k: int| 0 <= k < 7 implies #[trigger] stream_bit(s, 8 + k) == value_bit(kw as u8, k) by {
        assert(bits[8 + k] == code_bits(kw as u8, 7)[k]);
    }
    lemma_read_code(s, 1, kb as u8, 7);
    lemma_read_code(s, 8, kw as u8, 7);
    lemma_low_bits_mod(kb as u8, 7);
    lemma_low_bits_mod(kw as u8, 7);
    assert(read_bits(s, 1, 7) as int == kb);
    assert(read_bits(s, 8, 7) as int == kw);
    // The board.
    let board0 = empty_board().update(kb, Piece::B_KING).update(kw, Piece::W_KING);
    assert(board0 =~= partial_board(board, 0, kb, kw));
    assert forall|k: int| 0 <= k < body.len() implies #[trigger] stream_bit(s, 15 + k) == body[k] by {
        assert(bits[15 + k] == body[k]);
    }
    lemma_board_decode_packed(s, board, kb, kw, 0);
    // The hands.
    let base: int = 15 + body.len() as int;
    assert forall|k: int| 0 <= k < tail.len() implies #[trigger] stream_bit(s, base + k) == tail[k] by {
        assert(bits[base + k] == tail[k]);
    }
    assert(partial_hands(hands[0], 0, 0) =~= empty_hands());
    assert(hand_code_pos(hands, base, 0, 0) == base);
    lemma_hands_decode_packed(s, hands, base, 0, 0);
    assert(seq![hands[0], Hand(0)] =~= hands);
    assert(seq![kb, kw] =~= pos.model().king_squares);
}

/// The USI letters of a piece read back as that piece: one ASCII letter, or `+` and one.
proof fn lemma_usi_chars(pc: Piece)
    requires
        pc != Piece::EMPTY,
    ensures
        (pc.usi_chars().len() == 1 && is_ascii_alpha(pc.usi_chars()[0]))
            || (pc.usi_chars().len() == 2 && pc.usi_chars()[0] == '+' && is_ascii_alpha(pc.usi_chars()[1])),
        piece_from_sfen_chars(pc.usi_chars()) == Some(pc),
{
}

/// The letter of a kind held in hand, of either side, reads back as that piece.
proof fn lemma_hand_letter(c: Color, pt: PieceType)
    requires
        crate::hand::is_hand_piece_type(pt),
    ensures
        ({
            let pc = Piece::from_val(16 * c.val() + pt.val());
            &&& pc.usi_chars().len() == 1
            &&& is_ascii_alpha(pc.usi_chars()[0])
            &&& hand_piece_from_sfen_chars(pc.usi_chars()) == Some(pc)
            &&& pc.val() % 16 == pt.val()
            &&& pc.val() / 16 == c.val()
        }),
{
}

/// The decimal digits of a number are ASCII digits that read back as the number.
proof fn lemma_nat_digits(n: nat)
    ensures
        nat_digits(n).len() >= 1,
        all_ascii_digits(nat_digits(n)),
        digits_value(nat_digits(n)) == n,
        1 <= n <= 9 ==> nat_digits(n).len() == 1,
    decreases n,
{
    let d = (n % 10) as int;
    assert((digit_char(d) as u32) == 48 + d);
    if n < 10 {
        let u = nat_digits(n);
        assert(u.drop_last() =~= Seq::<char>::empty());
        assert(digits_value(u) == digits_value(u.drop_last()) * 10 + ((u.last() as u32) - 48));
    }
    if n >= 10 {
        lemma_nat_digits(n / 10);
        let t = nat_digits(n / 10);
        let u = nat_digits(n);
        assert(u == t.push(digit_char((n % 10) as int)));
        assert(u.drop_last() =~= t);
        assert(digits_value(u) == digits_value(t) * 10 + ((u.last() as u32) - 48));
        assert forall|k: int| 0 <= k < u.len() implies is_ascii_digit(#[trigger] u[k]) by {
            if k < t.len() {
                assert(u[k] == t[k]);
            }
        }
    }
}

/// The board as read up to rank `r` and its `f`-th file from the left: the pieces of `board` on
/// the ranks above and on rank `r` left of that file, and nothing elsewhere.
pub open spec fn scanned_board(board: Seq<Piece>, r: int, f: int) -> Seq<Piece> {
    Seq::new(81, |sq: int| if sq % 9 < r || (sq % 9 == r && 8 - sq / 9 < f) { board[sq] } else { Piece::EMPTY })
}

/// Reading a run count `e` (1 to 9) written at `i`, followed by no digit.
proof fn lemma_scan_run(s: Seq<char>, i: int, r: int, f: int, e: int, b: Seq<Piece>)
    requires
        1 <= e <= 9,
        0 <= f,
        f + e <= 9,
        0 <= i < s.len(),
        s[i] == digit_char(e),
        i + 1 == s.len() || !is_dec_digit(s[i + 1]),
    ensures
        board_scan(s, i, r, f, b) == board_scan(s, i + 1, r, f + e, b),
{
    lemma_nat_digits(e as nat);
    assert(nat_digits(e as nat) == seq![digit_char(e)]);
    assert((digit_char(e) as u32) == 48 + e);
    assert(is_ascii_digit(s[i]));
    assert(is_dec_digit(s[i]));
    assert(dec_run_end(s, i + 1) == i + 1);
    assert(dec_run_end(s, i) == i + 1);
    assert(s.subrange(i, i + 1) =~= nat_digits(e as nat));
    assert(all_ascii_digits(s.subrange(i, i + 1))) by {
        assert(s.subrange(i, i + 1)[0] == s[i]);
    }
}

/// Reading the SFEN text of rank `r` from its `fi`-th file on (with `e` empty squares just
/// before), written at `i` and followed by `/` or the end, fills that part of the rank.
proof fn lemma_scan_rank(s: Seq<char>, i: int, board: Seq<Piece>, r: int, fi: int, e: int)
    requires
        board.len() == 81,
        0 <= r < 9,
        0 <= e <= fi <= 9,
        forall|f: int| fi - e <= f < fi ==> #[trigger] board[sfen_square(f, r)] == Piece::EMPTY,
        0 <= i,
        i + rank_sfen(board, r, fi, e).len() <= s.len(),
        s.subrange(i, i + rank_sfen(board, r, fi, e).len()) == rank_sfen(board, r, fi, e),
        i + rank_sfen(board, r, fi, e).len() == s.len() || s[i + rank_sfen(board, r, fi, e).len()] == '/',
    ensures
        board_scan(s, i, r, fi - e, scanned_board(board, r, fi - e))
            == board_scan(s, i + rank_sfen(board, r, fi, e).len(), r, 9, scanned_board(board, r, 9)),
    decreases 9 - fi,
{
    let t = rank_sfen(board, r, fi, e);
    assert forall|k: int| 0 <= k < t.len() implies s[i + k] == #[trigger] t[k] by {
        assert(s.subrange(i, i + t.len())[k] == s[i + k]);
    }
    let empty_run = scanned_board(board, r, fi - e) =~= scanned_board(board, r, fi);
    assert(empty_run) by {
        assert forall|sq: int| 0 <= sq < 81 implies #[trigger] scanned_board(board, r, fi - e)[sq] == scanned_board(board, r, fi)[sq] by {
            if sq % 9 == r && fi - e <= 8 - sq / 9 < fi {
                assert(sfen_square(8 - sq / 9, r) == sq);
            }
        }
    }
    if fi >= 9 {
        if e != 0 {
            lemma_nat_digits(e as nat);
            assert(t == nat_digits(e as nat));
            assert(t == seq![digit_char(e)]);
            lemma_scan_run(s, i, r, fi - e, e, scanned_board(board, r, fi - e));
        }
    } else {
        let sq = sfen_square(fi, r);
        let pc = board[sq];
        if pc == Piece::EMPTY {
            assert(t == rank_sfen(board, r, fi + 1, e + 1));
            lemma_scan_rank(s, i, board, r, fi + 1, e + 1);
        } else {
            let run = run_chars(e);
            let u = pc.usi_chars();
            let rest = rank_sfen(board, r, fi + 1, 0);
            assert(t == run + u + rest);
            lemma_usi_chars(pc);
            let j = i + run.len();
            if e != 0 {
                lemma_nat_digits(e as nat);
                assert(run == seq![digit_char(e)]);
                assert(s[i] == t[0]);
                assert(s[i + 1] == t[1]);
                assert(t[1] == u[0]);
                lemma_scan_run(s, i, r, fi - e, e, scanned_board(board, r, fi - e));
            }
            assert(t[run.len() as int] == u[0]);
            assert(s[i + run.len()] == t[run.len() as int]);
            assert(s[j] == u[0]);
            if u.len() == 2 {
                assert(t[run.len() as int + 1] == u[1]);
                assert(s[i + (run.len() as int + 1)] == t[run.len() as int + 1]);
            }
            let len: int = if is_ascii_alpha(s[j]) { 1 } else { 2 };
            assert(len == u.len());
            assert(s.subrange(j, j + len) =~= u);
            assert(!is_ascii_digit(s[j]));
            assert(s[j] != '/');
            assert(scanned_board(board, r, fi).update(sq, pc) =~= scanned_board(board, r, fi + 1)) by {
                assert forall|x: int| 0 <= x < 81 implies #[trigger] scanned_board(board, r, fi).update(sq, pc)[x] == scanned_board(board, r, fi + 1)[x] by {
                    if x == sq {
                        assert(x % 9 == r && 8 - x / 9 == fi);
                    }
                }
            }
            let k = j + len;
            assert(s.subrange(k, k + rest.len()) =~= rest) by {
                assert forall|m: int| 0 <= m < rest.len() implies #[trigger] s.subrange(k, k + rest.len())[m] == rest[m] by {
                    assert(t[run.len() + u.len() + m] == rest[m]);
                    assert(s[i + (run.len() + u.len() + m)] == t[run.len() + u.len() + m]);
                }
            }
            lemma_scan_rank(s, k, board, r, fi + 1, 0);
        }
    }
}

proof fn lemma_count_shift(a: Seq<char>, b: Seq<char>, j: int, c: char)
    requires
        0 <= j <= b.len(),
    ensures
        count_from(a + b, a.len() + j, c) == count_from(b, j, c),
    decreases b.len() - j,
{
    if j < b.len() {
        lemma_count_shift(a, b, j + 1, c);
        assert((a + b)[a.len() + j] == b[j]);
    }
}

proof fn lemma_count_concat(a: Seq<char>, b: Seq<char>, i: int, c: char)
    requires
        0 <= i <= a.len(),
    ensures
        count_from(a + b, i, c) == count_from(a, i, c) + count_from(b, 0, c),
    decreases a.len() - i,
{
    if i < a.len() {
        lemma_count_concat(a, b, i + 1, c);
        assert((a + b)[i] == a[i]);
    } else {
        lemma_count_shift(a, b, 0, c);
    }
}

proof fn lemma_count_none(t: Seq<char>, c: char)
    requires
        forall|k: int| 0 <= k < t.len() ==> #[trigger] t[k] != c,
    ensures
        count_from(t, 0, c) == 0,
{
    lemma_count_skip(t, 0, t.len() as int, c);
}

/// The text of a rank holds no `/`.
proof fn lemma_rank_no_slash(board: Seq<Piece>, r: int, fi: int, e: int)
    requires
        0 <= e,
    ensures
        count_from(rank_sfen(board, r, fi, e), 0, '/') == 0,
    decreases 9 - fi,
{
    let t = rank_sfen(board, r, fi, e);
    if e != 0 {
        lemma_nat_digits(e as nat);
    }
    assert forall|k: int| 0 <= k < run_chars(e).len() implies #[trigger] run_chars(e)[k] != '/' by {
        assert(is_ascii_digit(nat_digits(e as nat)[k]));
    }
    lemma_count_none(run_chars(e), '/');
    if fi < 9 {
        let pc = board[sfen_square(fi, r)];
        if pc == Piece::EMPTY {
            lemma_rank_no_slash(board, r, fi + 1, e + 1);
        } else {
            lemma_usi_chars(pc);
            lemma_rank_no_slash(board, r, fi + 1, 0);
            assert forall|k: int| 0 <= k < pc.usi_chars().len() implies #[trigger] pc.usi_chars()[k] != '/' by {}
            lemma_count_none(pc.usi_chars(), '/');
            lemma_count_concat(run_chars(e), pc.usi_chars(), 0, '/');
            lemma_count_concat(run_chars(e) + pc.usi_chars(), rank_sfen(board, r, fi + 1, 0), 0, '/');
        }
    }
}

/// The board text of the first `k` ranks: `k - 1` slashes, and each shorter text is its start,
/// followed by a slash.
proof fn lemma_board_sfen_shape(board: Seq<Piece>, k: int, m: int)
    requires
        1 <= k <= m,
    ensures
        count_from(board_sfen(board, m), 0, '/') == m - 1,
        board_sfen(board, k).len() <= board_sfen(board, m).len(),
        board_sfen(board, m).subrange(0, board_sfen(board, k).len() as int) == board_sfen(board, k),
        k < m ==> board_sfen(board, m)[board_sfen(board, k).len() as int] == '/',
    decreases m,
{
    lemma_rank_no_slash(board, m - 1, 0, 0);
    if m == 1 {
        assert(board_sfen(board, 1).subrange(0, board_sfen(board, 1).len() as int) =~= board_sfen(board, 1));
    } else {
        let prev = board_sfen(board, m - 1);
        let last = rank_sfen(board, m - 1, 0, 0);
        let cur = board_sfen(board, m);
        assert(cur == prev + seq!['/'] + last);
        if k < m {
            lemma_board_sfen_shape(board, k, m - 1);
            assert(cur.subrange(0, board_sfen(board, k).len() as int) =~= prev.subrange(0, board_sfen(board, k).len() as int));
            if k < m - 1 {
                assert(cur[board_sfen(board, k).len() as int] == prev[board_sfen(board, k).len() as int]);
            }
        } else {
            lemma_board_sfen_shape(board, m - 1, m - 1);
            assert(cur.subrange(0, cur.len() as int) =~= cur);
        }
        lemma_board_sfen_shape(board, m - 1, m - 1);
        let slash: Seq<char> = seq!['/'];
        assert(count_from(slash, 1, '/') == 0);
        assert(count_from(slash, 0, '/') == 1);
        lemma_count_concat(prev, seq!['/'], 0, '/');
        lemma_count_concat(prev + seq!['/'], last, 0, '/');
    }
}

/// Reading the SFEN text of a board gives the board back.
proof fn lemma_scan_board_sfen(board: Seq<Piece>, k: int)
    requires
        board.len() == 81,
        1 <= k <= 9,
    ensures
        board_scan(board_sfen(board, 9), 0, 0, 0, empty_board())
            == board_scan(board_sfen(board, 9), board_sfen(board, k).len() as int, k - 1, 9, scanned_board(board, k - 1, 9)),
    decreases k,
{
    let text = board_sfen(board, 9);
    lemma_board_sfen_shape(board, k, 9);
    if k == 1 {
        assert(scanned_board(board, 0, 0) =~= empty_board());
        assert(board_sfen(board, 1) == rank_sfen(board, 0, 0, 0));
        lemma_scan_rank(text, 0, board, 0, 0, 0);
    } else {
        lemma_scan_board_sfen(board, k - 1);
        lemma_board_sfen_shape(board, k - 1, 9);
        let p = board_sfen(board, k - 1).len() as int;
        let t = rank_sfen(board, k - 1, 0, 0);
        assert(board_sfen(board, k) == board_sfen(board, k - 1) + seq!['/'] + t);
        assert(text[p] == '/');
        assert(scanned_board(board, k - 2, 9) =~= scanned_board(board, k - 1, 0));
        assert(text.subrange(p + 1, p + 1 + t.len()) =~= t) by {
            assert forall|m: int| 0 <= m < t.len() implies #[trigger] text.subrange(p + 1, p + 1 + t.len())[m] == t[m] by {
                assert(board_sfen(board, k)[p + 1 + m] == t[m]);
                assert(text.subrange(0, board_sfen(board, k).len() as int)[p + 1 + m] == text[p + 1 + m]);
            }
        }
        lemma_scan_rank(text, p + 1, board, k - 1, 0, 0);
    }
}

proof fn lemma_digit_run_to(t: Seq<char>, i: int, j: int)
    requires
        0 <= i <= j <= t.len(),
        forall|k: int| i <= k < j ==> is_ascii_digit(#[trigger] t[k]),
        j == t.len() || !is_dec_digit(t[j]),
    ensures
        digit_run_end(t, i) == j,
        dec_run_end(t, i) == j,
    decreases j - i,
{
    if i < j {
        assert(is_dec_digit(t[i]));
        lemma_digit_run_to(t, i + 1, j);
    }
}

/// Reading the SFEN entry of kind `k` (in SFEN order) of hand `h` of side `c`, written at `i`,
/// sets that kind's field of the side's hand to its count in `h`.
proof fn lemma_scan_hand_entry(t: Seq<char>, i: int, h: Hand, c: Color, k: int, accs: Seq<Hand>)
    requires
        0 <= k < 7,
        accs.len() == 2,
        accs[c.val()] == Hand(h.0 & sfen_fields_mask(k)),
        h.count(sfen_hand_kind(k)) <= hand_limit(sfen_hand_kind(k)),
        0 <= i,
        i + hand_entry_sfen(c, sfen_hand_kind(k), h.count(sfen_hand_kind(k)) as int).len() <= t.len(),
        t.subrange(i, i + hand_entry_sfen(c, sfen_hand_kind(k), h.count(sfen_hand_kind(k)) as int).len())
            == hand_entry_sfen(c, sfen_hand_kind(k), h.count(sfen_hand_kind(k)) as int),
    ensures
        hands_scan(t, i, 1, accs) == hands_scan(t, i + hand_entry_sfen(c, sfen_hand_kind(k), h.count(sfen_hand_kind(k)) as int).len(), 1,
            accs.update(c.val(), Hand(h.0 & sfen_fields_mask(k + 1)))),
{
    let pt = sfen_hand_kind(k);
    let n = h.count(pt) as int;
    let e = hand_entry_sfen(c, pt, n);
    let acc = accs[c.val()];
    let x = h.0;
    lemma_sfen_fields_bits(x, acc.0);
    broadcast use Color::lemma_val_range;
    // The field of this kind is still empty, and setting it to the count gives the next prefix.
    assert(acc.count(pt) == 0 && (acc.0 | ((n as u32) << field_shift(pt))) == x & sfen_fields_mask(k + 1)) by {
        if k == 0 { } else if k == 1 { } else if k == 2 { } else if k == 3 { } else if k == 4 { } else if k == 5 { } else { }
    }
    assert forall|m: int| 0 <= m < e.len() implies t[i + m] == #[trigger] e[m] by {
        assert(t.subrange(i, i + e.len())[m] == t[i + m]);
    }
    if n == 0 {
        assert(e.len() == 0);
        assert(accs.update(c.val(), Hand(x & sfen_fields_mask(k + 1))) =~= accs);
    } else {
        lemma_hand_letter(c, pt);
        let pc = Piece::from_val(16 * c.val() + pt.val());
        let digits: Seq<char> = if n >= 2 { int_decimal(n) } else { seq![] };
        assert(e == digits + pc.usi_chars());
        let j = i + digits.len();
        assert(t[j] == pc.usi_chars()[0]) by {
            assert(e[digits.len() as int] == pc.usi_chars()[0]);
        }
        assert(PieceType::from_val(pc.val() % 16) == pt) by {
            broadcast use PieceType::lemma_from_val;
        }
        assert(t.subrange(j, j + 1) =~= pc.usi_chars());
        assert(Color::from_val(pc.val() / 16) == c) by {
            broadcast use Color::lemma_from_val;
        }
        let updated = accs.update(c.val(), Hand(acc.0 | ((n as u32) << field_shift(pt))));
        assert(hands_scan(t, j, n, accs) == hands_scan(t, j + 1, 1, updated));
        assert(j + 1 == i + e.len());
        assert(updated == accs.update(c.val(), Hand(x & sfen_fields_mask(k + 1))));
        if n >= 2 {
            lemma_nat_digits(n as nat);
            assert(digits == nat_digits(n as nat));
            assert forall|m: int| i <= m < j implies is_ascii_digit(#[trigger] t[m]) by {
                assert(e[m - i] == digits[m - i]);
                assert(is_ascii_digit(nat_digits(n as nat)[m - i]));
            }
            assert(!is_dec_digit(t[j]));
            lemma_digit_run_to(t, i, j);
            assert(t.subrange(i, j) =~= digits);
            assert(is_ascii_digit(t[i]));
            assert(is_dec_digit(t[i]));
            assert(all_ascii_digits(t.subrange(i, j))) by {
                assert forall|m: int| 0 <= m < j - i implies is_ascii_digit(#[trigger] t.subrange(i, j)[m]) by {
                    assert(t.subrange(i, j)[m] == t[i + m]);
                }
            }
            assert(digits_value(t.subrange(i, j)) == n);
            assert(hands_scan(t, i, 1, accs) == hands_scan(t, j, n, accs));
        }
    }
}

proof fn lemma_hand_sfen_prefix(h: Hand, c: Color, k: int, m: int)
    requires
        0 <= k <= m,
    ensures
        hand_sfen(h, c, k).len() <= hand_sfen(h, c, m).len(),
        hand_sfen(h, c, m).subrange(0, hand_sfen(h, c, k).len() as int) == hand_sfen(h, c, k),
    decreases m - k,
{
    if k < m {
        lemma_hand_sfen_prefix(h, c, k, m - 1);
        let prev = hand_sfen(h, c, m - 1);
        assert(hand_sfen(h, c, m).subrange(0, hand_sfen(h, c, k).len() as int)
            =~= prev.subrange(0, hand_sfen(h, c, k).len() as int));
    } else {
        assert(hand_sfen(h, c, m).subrange(0, hand_sfen(h, c, m).len() as int) =~= hand_sfen(h, c, m));
    }
}

/// Whether each kind of hand `h` is held no more times than the game has pieces of it.
pub open spec fn hand_counts_fit(h: Hand) -> bool {
    forall|k: int| 0 <= k < 7 ==> #[trigger] h.count(sfen_hand_kind(k)) <= hand_limit(sfen_hand_kind(k))
}

/// Reading the SFEN text of hand `h` of side `c` from its `k`-th entry on sets the rest of its
/// fields.
proof fn lemma_scan_hand_side(t: Seq<char>, start: int, h: Hand, c: Color, k: int, accs: Seq<Hand>)
    requires
        0 <= k <= 7,
        accs.len() == 2,
        accs[c.val()] == Hand(h.0 & sfen_fields_mask(k)),
        hand_counts_fit(h),
        0 <= start,
        start + hand_sfen(h, c, 7).len() <= t.len(),
        t.subrange(start, start + hand_sfen(h, c, 7).len()) == hand_sfen(h, c, 7),
    ensures
        hands_scan(t, start + hand_sfen(h, c, k).len(), 1, accs)
            == hands_scan(t, start + hand_sfen(h, c, 7).len(), 1, accs.update(c.val(), Hand(h.0 & sfen_fields_mask(7)))),
    decreases 7 - k,
{
    broadcast use Color::lemma_val_range;
    if k == 7 {
        assert(accs.update(c.val(), Hand(h.0 & sfen_fields_mask(7))) =~= accs);
    } else {
        let pt = sfen_hand_kind(k);
        let entry = hand_entry_sfen(c, pt, h.count(pt) as int);
        let before = hand_sfen(h, c, k);
        let full = hand_sfen(h, c, 7);
        lemma_hand_sfen_prefix(h, c, k + 1, 7);
        assert(hand_sfen(h, c, k + 1) == before + entry);
        let i = start + before.len();
        assert(t.subrange(i, i + entry.len()) =~= entry) by {
            assert forall|m: int| 0 <= m < entry.len() implies #[trigger] t.subrange(i, i + entry.len())[m] == entry[m] by {
                assert(hand_sfen(h, c, k + 1)[before.len() + m] == entry[m]);
                assert(full.subrange(0, hand_sfen(h, c, k + 1).len() as int)[before.len() + m] == full[before.len() + m]);
                assert(t.subrange(start, start + full.len())[before.len() + m] == t[start + (before.len() + m)]);
            }
        }
        assert(h.count(pt) <= hand_limit(pt));
        lemma_scan_hand_entry(t, i, h, c, k, accs);
        let next = accs.update(c.val(), Hand(h.0 & sfen_fields_mask(k + 1)));
        lemma_scan_hand_side(t, start, h, c, k + 1, next);
        assert(next.update(c.val(), Hand(h.0 & sfen_fields_mask(7))) =~= accs.update(c.val(), Hand(h.0 & sfen_fields_mask(7))));
    }
}


/// The first square from `sq` on that holds `kc` is `idx` when `kc` stands there and on none
/// of the squares between.
proof fn lemma_king_from(board: Seq<Piece>, kc: Piece, sq: int, idx: int)
    requires
        0 <= sq <= idx < 81,
        board[idx] == kc,
        forall|i: int| sq <= i < idx ==> #[trigger] board[i] != kc,
    ensures
        king_from(board, kc, sq) == Some(idx),
    decreases idx - sq,
{
    if sq < idx {
        lemma_king_from(board, kc, sq + 1, idx);
    }
}

proof fn lemma_count_kinds_nonneg(board: Seq<Piece>, a: int, b: int, n: int)
    ensures
        count_kinds(board, a, b, n) >= 0,
    decreases n,
{
    if n > 0 {
        lemma_count_kinds_nonneg(board, a, b, n - 1);
    }
}

/// The SFEN text of a hand holds only ASCII digits and letters.
proof fn lemma_hand_sfen_chars(h: Hand, c: Color, k: int)
    ensures
        forall|m: int| 0 <= m < hand_sfen(h, c, k).len() ==>
            is_ascii_digit(#[trigger] hand_sfen(h, c, k)[m]) || is_ascii_alpha(hand_sfen(h, c, k)[m]),
    decreases k,
{
    if k > 0 {
        lemma_hand_sfen_chars(h, c, k - 1);
        let pt = sfen_hand_kind(k - 1);
        let n = h.count(pt) as int;
        let prev = hand_sfen(h, c, k - 1);
        let e = hand_entry_sfen(c, pt, n);
        let digits: Seq<char> = if n >= 2 { int_decimal(n) } else { seq![] };
        let letter: Seq<char> = if n != 0 { Piece::from_val(16 * c.val() + pt.val()).usi_chars() } else { seq![] };
        assert(e == digits + letter);
        if n >= 2 {
            lemma_nat_digits(n as nat);
        }
        lemma_hand_letter(c, pt);
        assert forall|m: int| 0 <= m < hand_sfen(h, c, k).len() implies
            is_ascii_digit(#[trigger] hand_sfen(h, c, k)[m]) || is_ascii_alpha(hand_sfen(h, c, k)[m]) by {
            let t = hand_sfen(h, c, k);
            assert(t == prev + e);
            if m < prev.len() {
                assert(t[m] == prev[m]);
            } else if m < prev.len() + digits.len() {
                assert(t[m] == digits[m - prev.len()]);
                assert(is_ascii_digit(nat_digits(n as nat)[m - prev.len()]));
            } else {
                assert(t[m] == letter[m - prev.len() - digits.len()]);
            }
        }
    }
}

/// The SFEN fields of a position as `to_sfen` writes them: the board, the side to move, the
/// hands and the ply.
pub open spec fn sfen_fields(m: SfenModel) -> Seq<Seq<char>> {
    seq![
        board_sfen(m.board, 9),
        if m.side_to_move == Color::BLACK { seq!['b'] } else { seq!['w'] },
        hands_sfen(m.hands),
        int_decimal(m.game_ply),
    ]
}

/// What SFEN gives back: the text of a position is its four SFEN fields separated by spaces,
/// and reading those fields gives the position again, when its kings stand on the squares it
/// keeps for them and nowhere else, its hands have no stray bits, its ply is at least 1 and it
/// has no more pieces of a kind than the game has.
#[verifier::spinoff_prover]
#[verifier::rlimit(40)]
pub proof fn lemma_sfen_round_trip(pos: PositionBase)
    requires
        kings_exactly_at(pos.board_seq(), pos.king_squares_seq()[0].val(), pos.king_squares_seq()[1].val()),
        pos.hands_seq()[0].wf(),
        pos.hands_seq()[1].wf(),
        pos.spec_game_ply() >= 1,
        piece_count_fault(pos.board_seq(), pos.hands_seq()) is None,
    ensures
        position_sfen(pos.model()) == sfen_fields(pos.model())[0] + seq![' '] + sfen_fields(pos.model())[1] + seq![' ']
            + sfen_fields(pos.model())[2] + seq![' '] + sfen_fields(pos.model())[3],
        parse_sfen(sfen_fields(pos.model())) == Ok::<SfenModel, SfenFault>(pos.model()),
{
    let m = pos.model();
    let args = sfen_fields(m);
    let board = m.board;
    let hands = m.hands;
    let kb = m.king_squares[0];
    let kw = m.king_squares[1];
    broadcast use Color::lemma_val_range;
    // The text.
    let side: Seq<char> = if m.side_to_move == Color::BLACK { seq!['b'] } else { seq!['w'] };
    assert((if m.side_to_move == Color::BLACK { seq![' ', 'b', ' '] } else { seq![' ', 'w', ' '] }) =~= seq![' '] + side + seq![' ']);
    assert(position_sfen(m) =~= args[0] + seq![' '] + args[1] + seq![' '] + args[2] + seq![' '] + args[3]);
    // The board.
    lemma_board_sfen_shape(board, 9, 9);
    lemma_scan_board_sfen(board, 9);
    assert(scanned_board(board, 8, 9) =~= board);
    assert(board_scan(args[0], 0, 0, 0, empty_board()) == Ok::<Seq<Piece>, SfenFault>(board));
    // The kings.
    lemma_king_from(board, Piece::B_KING, 0, kb);
    lemma_king_from(board, Piece::W_KING, 0, kw);
    // The side to move.
    assert(seq!['w'] != seq!['b']) by {
        assert(seq!['w'][0] != seq!['b'][0]);
    }
    // The hands.
    let h0 = hands[0];
    let h1 = hands[1];
    assert(hands.len() == 2);
    lemma_sfen_fields_bits(h0.0, 0);
    lemma_sfen_fields_bits(h1.0, 0);
    assert(Hand(h0.0 & sfen_fields_mask(7)) == h0);
    assert(Hand(h1.0 & sfen_fields_mask(7)) == h1);
    let hands_result = if args[2] == seq!['-'] { Ok(empty_hands()) } else { hands_scan(args[2], 0, 1, empty_hands()) };
    assert(hands_result == Ok::<Seq<Hand>, SfenFault>(hands)) by {
        if h0.0 == 0 && h1.0 == 0 {
            assert(h0 == Hand(0) && h1 == Hand(0));
            assert(hands =~= empty_hands());
        } else {
            let a = hand_sfen(h0, Color::BLACK, 7);
            let b = hand_sfen(h1, Color::WHITE, 7);
            let t = a + b;
            assert(args[2] == t);
            lemma_hand_sfen_chars(h0, Color::BLACK, 7);
            lemma_hand_sfen_chars(h1, Color::WHITE, 7);
            if t == seq!['-'] {
                assert(t[0] == '-');
                if a.len() > 0 {
                    assert(t[0] == a[0]);
                } else {
                    assert(t[0] == b[0]);
                }
                assert(false);
            }
            // Each side holds no more of a kind than the game has.
            lemma_count_kinds_nonneg(board, PieceType::PAWN.val(), PieceType::PRO_PAWN.val(), 81);
            lemma_count_kinds_nonneg(board, PieceType::LANCE.val(), PieceType::PRO_LANCE.val(), 81);
            lemma_count_kinds_nonneg(board, PieceType::KNIGHT.val(), PieceType::PRO_KNIGHT.val(), 81);
            lemma_count_kinds_nonneg(board, PieceType::SILVER.val(), PieceType::PRO_SILVER.val(), 81);
            lemma_count_kinds_nonneg(board, PieceType::GOLD.val(), PieceType::GOLD.val(), 81);
            lemma_count_kinds_nonneg(board, PieceType::BISHOP.val(), PieceType::HORSE.val(), 81);
            lemma_count_kinds_nonneg(board, PieceType::ROOK.val(), PieceType::DRAGON.val(), 81);
            assert(hand_counts_fit(h0) && hand_counts_fit(h1)) by {
                assert forall|k: int| 0 <= k < 7 implies #[trigger] h0.count(sfen_hand_kind(k)) <= hand_limit(sfen_hand_kind(k))
                    && h1.count(sfen_hand_kind(k)) <= hand_limit(sfen_hand_kind(k)) by {
                    if k == 0 { } else if k == 1 { } else if k == 2 { } else if k == 3 { } else if k == 4 { } else if k == 5 { } else { }
                }
            }
            assert(t.subrange(0, a.len() as int) =~= a);
            assert(t.subrange(a.len() as int, (a.len() + b.len()) as int) =~= b);
            let e = empty_hands();
            assert(e[0] == Hand(h0.0 & sfen_fields_mask(0)));
            lemma_scan_hand_side(t, 0, h0, Color::BLACK, 0, e);
            let e1 = e.update(0, h0);
            assert(e1[1] == Hand(h1.0 & sfen_fields_mask(0)));
            lemma_scan_hand_side(t, a.len() as int, h1, Color::WHITE, 0, e1);
            assert(e1.update(1, h1) =~= hands);
        }
    }
    // The ply.
    let p = m.game_ply;
    lemma_nat_digits(p as nat);
    let ds = args[3];
    assert(ds == nat_digits(p as nat));
    assert(is_ascii_digit(ds[0]));
    assert(sign_len(ds) == 0);
    assert(ds.subrange(0, ds.len() as int) =~= ds);
    assert(parsed_i32(ds) == Some(p));
}


/// What the exchange on one square reads of a position: its board, the attack tables, the
/// square fought over and the squares of the two kings.
pub struct SeeContext {
    pub board: Seq<Piece>,
    pub t: AttackTable,
    pub to: int,
    pub kings: Seq<int>,
}

impl PositionBase {
    /// The exchange on square `to` of this position, read from the tables `t`.
    pub open spec fn see_context(self, t: AttackTable, to: int) -> SeeContext {
        SeeContext {
            board: self.board_seq(),
            t: t,
            to: to,
            kings: seq![self.king_squares_seq()[0].val(), self.king_squares_seq()[1].val()],
        }
    }
}

/// Whether `x` is the one piece between the king of side `c` and a slider of the other side
/// aimed at it.
pub open spec fn king_blocker(ctx: SeeContext, c: int, x: int) -> bool {
    exists|s: int| 0 <= s < 81 && #[trigger] is_sniper(ctx.t, ctx.board, 1 - c, ctx.kings[c], s)
        && sole_between(ctx.board, ctx.kings[c], s, x)
}

/// Whether `s` is a slider of the other side whose one piece between it and the king of side
/// `c` belongs to side `c`.
pub open spec fn king_pinner(ctx: SeeContext, c: int, s: int) -> bool {
    is_sniper(ctx.t, ctx.board, 1 - c, ctx.kings[c], s)
        && exists|x: int| #[trigger] sole_between(ctx.board, ctx.kings[c], s, x) && holds_color(ctx.board, x, c)
}

/// Whether square `x` may capture next for side `stm`: an attacker in `att` still on the board
/// of occupancy `occ`, of that side, and no piece shielding the side's own king while every
/// slider that pins a piece of the other side is still on the board.
pub open spec fn see_candidate(ctx: SeeContext, stm: int, occ: Bitboard, att: Set<int>, x: int) -> bool {
    &&& 0 <= x < 81
    &&& att.contains(x) && occ.has(x)
    &&& holds_color(ctx.board, x, stm)
    &&& !((forall|p: int| 0 <= p < 81 && #[trigger] king_pinner(ctx, 1 - stm, p) ==> occ.has(p)) && king_blocker(ctx, stm, x))
}

/// The kinds in the order in which the exchange brings them in: pawn, lance, knight, the
/// promoted pawn, lance and knight, silver, promoted silver, gold, bishop, horse, rook, dragon.
pub open spec fn see_kind(i: int) -> int {
    if i == 0 { 1 } else if i == 1 { 2 } else if i == 2 { 3 } else if i == 3 { 9 } else if i == 4 { 10 }
    else if i == 5 { 11 } else if i == 6 { 4 } else if i == 7 { 12 } else if i == 8 { 7 } else if i == 9 { 5 }
    else if i == 10 { 13 } else if i == 11 { 6 } else { 14 }
}

pub open spec fn has_candidate_kind(ctx: SeeContext, stm: int, occ: Bitboard, att: Set<int>, k: int) -> bool {
    exists|x: int| #[trigger] see_candidate(ctx, stm, occ, att, x) && kind_at(ctx.board, x) == k
}

/// The first place from `i` on in the order of `see_kind` whose kind has a candidate, or 13.
pub open spec fn first_see_kind(ctx: SeeContext, stm: int, occ: Bitboard, att: Set<int>, i: int) -> int
    decreases 13 - i,
{
    if i >= 13 {
        13
    } else if has_candidate_kind(ctx, stm, occ, att, see_kind(i)) {
        i
    } else {
        first_see_kind(ctx, stm, occ, att, i + 1)
    }
}

/// The lowest square from `x` on of a candidate of kind `k`, or 81.
pub open spec fn lowest_candidate(ctx: SeeContext, stm: int, occ: Bitboard, att: Set<int>, k: int, x: int) -> int
    decreases 81 - x,
{
    if x >= 81 {
        81
    } else if see_candidate(ctx, stm, occ, att, x) && kind_at(ctx.board, x) == k {
        x
    } else {
        lowest_candidate(ctx, stm, occ, att, k, x + 1)
    }
}

pub proof fn lemma_first_see_kind(ctx: SeeContext, stm: int, occ: Bitboard, att: Set<int>, i: int)
    requires
        0 <= i <= 13,
    ensures
        i <= first_see_kind(ctx, stm, occ, att, i) <= 13,
        first_see_kind(ctx, stm, occ, att, i) < 13
            ==> has_candidate_kind(ctx, stm, occ, att, see_kind(first_see_kind(ctx, stm, occ, att, i))),
        forall|j: int| i <= j < first_see_kind(ctx, stm, occ, att, i) ==> !has_candidate_kind(ctx, stm, occ, att, #[trigger] see_kind(j)),
    decreases 13 - i,
{
    if i < 13 && !has_candidate_kind(ctx, stm, occ, att, see_kind(i)) {
        lemma_first_see_kind(ctx, stm, occ, att, i + 1);
    }
}

pub proof fn lemma_lowest_candidate(ctx: SeeContext, stm: int, occ: Bitboard, att: Set<int>, k: int, x: int, y: int)
    requires
        0 <= x <= y,
        see_candidate(ctx, stm, occ, att, y),
        kind_at(ctx.board, y) == k,
    ensures
        x <= lowest_candidate(ctx, stm, occ, att, k, x) <= y,
        see_candidate(ctx, stm, occ, att, lowest_candidate(ctx, stm, occ, att, k, x)),
        kind_at(ctx.board, lowest_candidate(ctx, stm, occ, att, k, x)) == k,
        forall|z: int| x <= z < lowest_candidate(ctx, stm, occ, att, k, x)
            ==> !(#[trigger] see_candidate(ctx, stm, occ, att, z) && kind_at(ctx.board, z) == k),
    decreases y - x,
{
    if x < y && !(see_candidate(ctx, stm, occ, att, x) && kind_at(ctx.board, x) == k) {
        lemma_lowest_candidate(ctx, stm, occ, att, k, x + 1, y);
    }
}

/// The pieces that the capture from `sq` uncovers behind it on the line to the square fought
/// over, with occupancy `occ`: lances, rooks and dragons of the side that sends them along a
/// file, rooks and dragons along a rank, bishops and horses along a diagonal.
pub open spec fn see_xray(ctx: SeeContext, sq: int, occ: Bitboard, x: int) -> bool {
    let b = ctx.board;
    match Relation::spec_new(Square::from_val(sq), Square::from_val(ctx.to)) {
        Relation::MISC => false,
        Relation::FILE_NS => in_ray(lance_delta(0), ctx.to, occ, x) && holds_color(b, x, 1)
            && (holds_kind(b, x, 6) || holds_kind(b, x, 14) || holds_kind(b, x, 2)),
        Relation::FILE_SN => in_ray(lance_delta(1), ctx.to, occ, x) && holds_color(b, x, 0)
            && (holds_kind(b, x, 6) || holds_kind(b, x, 14) || holds_kind(b, x, 2)),
        Relation::RANK_EW | Relation::RANK_WE => magic_lookup(ctx.t.rook, ctx.to, occ).has(x)
            && (holds_kind(b, x, 6) || holds_kind(b, x, 14)),
        _ => magic_lookup(ctx.t.bishop, ctx.to, occ).has(x) && (holds_kind(b, x, 5) || holds_kind(b, x, 13)),
    }
}

/// The attackers of the exchange after a capture from `sq` left occupancy `occ1`: those of
/// `att` still on the board, with the pieces that the capture uncovers behind it.
pub open spec fn see_attackers_after(ctx: SeeContext, sq: int, occ1: Bitboard, att: Set<int>) -> Set<int> {
    Set::new(|x: int| 0 <= x < 81 && (att.contains(x) || see_xray(ctx, sq, occ1, x)) && occ1.has(x))
}

/// The exchange from the turn after side `prev` on, with occupancy `occ`, attackers `att`,
/// the balance `swap` that the side to capture must reach and the running answer `res`: the
/// side captures with its least valuable usable attacker while that keeps the balance, the
/// pieces behind it join, and the answer flips with each capture; a side left with its king
/// alone takes only when the other side has no attacker left.
pub open spec fn see_loop(ctx: SeeContext, prev: int, occ: Bitboard, att: Set<int>, swap: int, res: int) -> bool
    decreases bb_count(occ, 81),
{
    let stm = 1 - prev;
    if !(exists|x: int| #[trigger] see_candidate(ctx, stm, occ, att, x)) {
        res != 0
    } else {
        let res1 = 1 - res;
        let i = first_see_kind(ctx, stm, occ, att, 0);
        if i >= 13 {
            let res2 = if exists|x: int| 0 <= x < 81 && #[trigger] att.contains(x) && !holds_color(ctx.board, x, stm) { 1 - res1 } else { res1 };
            res2 != 0
        } else {
            let k = see_kind(i);
            let swap1 = capture_material(k) - swap;
            if swap1 < res1 {
                res1 != 0
            } else {
                let sq = lowest_candidate(ctx, stm, occ, att, k, 0);
                let occ1 = toggled(occ, sq);
                let att1 = see_attackers_after(ctx, sq, occ1, att);
                proof {
                    lemma_first_see_kind(ctx, stm, occ, att, 0);
                    let y = choose|y: int| #[trigger] see_candidate(ctx, stm, occ, att, y) && kind_at(ctx.board, y) == k;
                    lemma_lowest_candidate(ctx, stm, occ, att, k, 0, y);
                    lemma_toggled_count(occ, sq, 81);
                    crate::bitboard::lemma_bb_count_nonneg(occ1, 81);
                }
                see_loop(ctx, stm, occ1, att1, swap1, res1)
            }
        }
    }
}

/// The static exchange on the square that move `m` goes to, with the side `us` to move and
/// the occupancy `occupancy`: whether the exchange started by `m` ends at least `threshold`
/// up for `us`.
pub open spec fn see_ge_spec(ctx: SeeContext, occupancy: Bitboard, us: int, m: Move, threshold: int) -> bool {
    let swap0 = capture_material(ctx.board[ctx.to].val() % 16) - threshold;
    if swap0 < 0 {
        false
    } else {
        let victim = if m.spec_is_drop() { m.dropped_type_field() as int } else { ctx.board[m.from_field() as int].val() % 16 };
        let swap1 = capture_material(victim) - swap0;
        if swap1 <= 0 {
            true
        } else {
            let occ1 = toggled(occupancy, ctx.to);
            let occ2 = if m.spec_is_drop() { occ1 } else { toggled(occ1, m.from_field() as int) };
            let att = Set::new(|x: int| 0 <= x < 81 && ctx.board[x] != Piece::EMPTY
                && caught_by_any(ctx.t, kind_at(ctx.board, x), color_at(ctx.board, x), ctx.to, occ2, x) && occ2.has(x));
            see_loop(ctx, us, occ2, att, swap1, 1)
        }
    }
}


fn see_kind_at(i: usize) -> (pt: PieceType)
    requires
        i < 13,
    ensures
        pt.val() == see_kind(i as int),
        pt != PieceType::OCCUPIED,
{
    match i {
        0 => PieceType::PAWN,
        1 => PieceType::LANCE,
        2 => PieceType::KNIGHT,
        3 => PieceType::PRO_PAWN,
        4 => PieceType::PRO_LANCE,
        5 => PieceType::PRO_KNIGHT,
        6 => PieceType::SILVER,
        7 => PieceType::PRO_SILVER,
        8 => PieceType::GOLD,
        9 => PieceType::BISHOP,
        10 => PieceType::HORSE,
        11 => PieceType::ROOK,
        _ => PieceType::DRAGON,
    }
}

proof fn lemma_first_see_kind_is(ctx: SeeContext, stm: int, occ: Bitboard, att: Set<int>, j: int, i: int)
    requires
        0 <= j <= i <= 13,
        forall|l: int| j <= l < i ==> !has_candidate_kind(ctx, stm, occ, att, #[trigger] see_kind(l)),
        i < 13 ==> has_candidate_kind(ctx, stm, occ, att, see_kind(i)),
    ensures
        first_see_kind(ctx, stm, occ, att, j) == i,
    decreases i - j,
{
    if j < i {
        assert(!has_candidate_kind(ctx, stm, occ, att, see_kind(j)));
        lemma_first_see_kind_is(ctx, stm, occ, att, j + 1, i);
    }
}

proof fn lemma_lowest_candidate_is(ctx: SeeContext, stm: int, occ: Bitboard, att: Set<int>, k: int, x: int, y: int)
    requires
        0 <= x <= y < 81,
        see_candidate(ctx, stm, occ, att, y) && kind_at(ctx.board, y) == k,
        forall|z: int| x <= z < y ==> !(#[trigger] see_candidate(ctx, stm, occ, att, z) && kind_at(ctx.board, z) == k),
    ensures
        lowest_candidate(ctx, stm, occ, att, k, x) == y,
    decreases y - x,
{
    if x < y {
        assert(!(see_candidate(ctx, stm, occ, att, x) && kind_at(ctx.board, x) == k));
        lemma_lowest_candidate_is(ctx, stm, occ, att, k, x + 1, y);
    }
}

impl PositionBase {
    /// The lances, rooks and dragons of the side other than `c` that a lance of side `c` on `to`
    /// would reach with the given occupied squares.
    fn lance_xray_bb(&self, c: Color, to: Square, occupied: &Bitboard, t: &AttackTable) -> (r: Bitboard)
        requires
            self.wf(),
            t.valid(),
        ensures
            r.wf(),
            forall|x: int| 0 <= x < 81 ==> #[trigger] r.has(x) == (in_ray(lance_delta(c.val()), to.val(), *occupied, x)
                && holds_color(self.board_seq(), x, 1 - c.val())
                && (holds_kind(self.board_seq(), x, 6) || holds_kind(self.board_seq(), x, 14) || holds_kind(self.board_seq(), x, 2))),
    {
        let a = t.attack(PieceType::LANCE, c, to, occupied);
        let own = self.pieces_c(c.inverse());
        let kinds = self.pieces_pp(PieceType::ROOK, PieceType::DRAGON).or(self.pieces_p(PieceType::LANCE));
        let p = own.and(kinds);
        proof { Bitboard::lemma_and_wf(own, kinds); Bitboard::lemma_and_wf(a, p); }
        a.and(p)
    }

    /// The rooks and dragons (`rook`) or bishops and horses that a rook or bishop on `to` would
    /// reach with the given occupied squares.
    fn slider_xray_bb(&self, rook: bool, to: Square, occupied: &Bitboard, t: &AttackTable) -> (r: Bitboard)
        requires
            self.wf(),
            t.valid(),
        ensures
            r.wf(),
            rook ==> forall|x: int| 0 <= x < 81 ==> #[trigger] r.has(x) == (magic_lookup(t.rook, to.val(), *occupied).has(x)
                && (holds_kind(self.board_seq(), x, 6) || holds_kind(self.board_seq(), x, 14))),
            !rook ==> forall|x: int| 0 <= x < 81 ==> #[trigger] r.has(x) == (magic_lookup(t.bishop, to.val(), *occupied).has(x)
                && (holds_kind(self.board_seq(), x, 5) || holds_kind(self.board_seq(), x, 13))),
    {
        let (a, p) = if rook {
            (t.attack(PieceType::ROOK, Color::BLACK, to, occupied), self.pieces_pp(PieceType::ROOK, PieceType::DRAGON))
        } else {
            (t.attack(PieceType::BISHOP, Color::BLACK, to, occupied), self.pieces_pp(PieceType::BISHOP, PieceType::HORSE))
        };
        proof { Bitboard::lemma_and_wf(a, p); }
        a.and(p)
    }

    /// The pieces that the capture from `sq` uncovers behind it on the line to `to`, as
    /// `see_xray` says.
    fn see_xray_bb(&self, sq: Square, to: Square, occupied: &Bitboard, t: &AttackTable) -> (r: Bitboard)
        requires
            self.wf(),
            t.valid(),
        ensures
            r.wf(),
            forall|x: int| 0 <= x < 81 ==> #[trigger] r.has(x) == see_xray(self.see_context(*t, to.val()), sq.val(), *occupied, x),
    {
        let rel = Relation::new(sq, to);
        proof {
            broadcast use Square::lemma_from_val;
            assert(rel == Relation::spec_new(Square::from_val(sq.val()), Square::from_val(to.val())));
        }
        let ghost ctx = self.see_context(*t, to.val());
        match rel {
            Relation::MISC => {
                let r = Bitboard::ZERO();
                assert forall|x: int| 0 <= x < 81 implies #[trigger] r.has(x) == see_xray(ctx, sq.val(), *occupied, x) by {}
                r
            },
            Relation::FILE_NS => {
                let r = self.lance_xray_bb(Color::BLACK, to, occupied, t);
                assert forall|x: int| 0 <= x < 81 implies #[trigger] r.has(x) == see_xray(ctx, sq.val(), *occupied, x) by {}
                r
            },
            Relation::FILE_SN => {
                let r = self.lance_xray_bb(Color::WHITE, to, occupied, t);
                assert forall|x: int| 0 <= x < 81 implies #[trigger] r.has(x) == see_xray(ctx, sq.val(), *occupied, x) by {}
                r
            },
            Relation::RANK_EW | Relation::RANK_WE => {
                let r = self.slider_xray_bb(true, to, occupied, t);
                assert forall|x: int| 0 <= x < 81 implies #[trigger] r.has(x) == see_xray(ctx, sq.val(), *occupied, x) by {}
                r
            },
            _ => {
                let r = self.slider_xray_bb(false, to, occupied, t);
                assert forall|x: int| 0 <= x < 81 implies #[trigger] r.has(x) == see_xray(ctx, sq.val(), *occupied, x) by {}
                r
            },
        }
    }

    /// The attackers of side `stm` that may capture next, as `see_candidate` says, given the
    /// blockers of that side's king and the pinners of the other king.
    fn see_usable_attackers(
        &self,
        stm: Color,
        attackers: Bitboard,
        occupied: Bitboard,
        blockers: Bitboard,
        pinners: Bitboard,
        Ghost(ctx): Ghost<SeeContext>,
        Ghost(att): Ghost<Set<int>>,
    ) -> (r: Bitboard)
        requires
            self.wf(),
            attackers.wf(),
            pinners.wf(),
            ctx.board == self.board_seq(),
            forall|x: int| 0 <= x < 81 ==> #[trigger] attackers.has(x) == att.contains(x),
            forall|x: int| #[trigger] att.contains(x) ==> 0 <= x < 81 && occupied.has(x),
            forall|x: int| 0 <= x < 81 ==> #[trigger] blockers.has(x) == king_blocker(ctx, stm.val(), x),
            forall|p: int| 0 <= p < 81 ==> #[trigger] pinners.has(p) == king_pinner(ctx, 1 - stm.val(), p),
        ensures
            r.wf(),
            forall|x: int| 0 <= x < 81 ==> #[trigger] r.has(x) == see_candidate(ctx, stm.val(), occupied, att, x),
    {
        let own = self.pieces_c(stm);
        let sa = attackers.and(own);
        proof { Bitboard::lemma_and_wf(attackers, own); }
        let lost = occupied.notand(pinners);
        proof {
            Bitboard::lemma_and_wf(Bitboard::from_words(!occupied.v[0], !occupied.v[1]), pinners);
            lost.lemma_nonempty();
        }
        let pins_hold = !lost.to_bool();
        assert(pins_hold == forall|p: int| 0 <= p < 81 && #[trigger] king_pinner(ctx, 1 - stm.val(), p) ==> occupied.has(p)) by {
            if !pins_hold {
                let p = choose|p: int| 0 <= p < 81 && #[trigger] lost.has(p);
                assert(king_pinner(ctx, 1 - stm.val(), p) && !occupied.has(p));
            } else {
                assert forall|p: int| 0 <= p < 81 && #[trigger] king_pinner(ctx, 1 - stm.val(), p) implies occupied.has(p) by {
                    assert(!lost.has(p));
                }
            }
        }
        if pins_hold {
            let nb = blockers.not();
            proof { Bitboard::lemma_and_wf(sa, nb); }
            sa.and(nb)
        } else {
            sa
        }
    }

    /// The first place in the order of `see_kind` whose kind has a usable attacker in `sa`
    /// (13 for none), and those attackers of that kind.
    fn see_least_attackers(&self, sa: Bitboard, Ghost(ctx): Ghost<SeeContext>, Ghost(stm): Ghost<int>, Ghost(occ): Ghost<Bitboard>, Ghost(att): Ghost<Set<int>>) -> (r: (usize, Bitboard))
        requires
            self.wf(),
            sa.wf(),
            ctx.board == self.board_seq(),
            forall|x: int| 0 <= x < 81 ==> #[trigger] sa.has(x) == see_candidate(ctx, stm, occ, att, x),
        ensures
            r.0 <= 13,
            r.0 == first_see_kind(ctx, stm, occ, att, 0),
            r.0 < 13 ==> r.1.wf() && (r.1.v[0] != 0 || r.1.v[1] != 0),
            r.0 < 13 ==> forall|x: int| 0 <= x < 81 ==> #[trigger] r.1.has(x)
                == (see_candidate(ctx, stm, occ, att, x) && kind_at(ctx.board, x) == see_kind(r.0 as int)),
    {
        let mut i: usize = 0;
        while i < 13
            invariant
                i <= 13,
                self.wf(),
                sa.wf(),
                ctx.board == self.board_seq(),
                forall|x: int| 0 <= x < 81 ==> #[trigger] sa.has(x) == see_candidate(ctx, stm, occ, att, x),
                forall|l: int| 0 <= l < i ==> !has_candidate_kind(ctx, stm, occ, att, #[trigger] see_kind(l)),
            decreases 13 - i,
        {
            let pt = see_kind_at(i);
            let pbb = self.pieces_p(pt);
            let bb = sa.and(pbb);
            proof {
                Bitboard::lemma_and_wf(sa, pbb);
                bb.lemma_nonempty();
                assert forall|x: int| 0 <= x < 81 implies #[trigger] bb.has(x)
                    == (see_candidate(ctx, stm, occ, att, x) && kind_at(ctx.board, x) == see_kind(i as int)) by {}
            }
            if bb.to_bool() {
                proof {
                    let x = choose|x: int| 0 <= x < 81 && #[trigger] bb.has(x);
                    assert(see_candidate(ctx, stm, occ, att, x) && kind_at(ctx.board, x) == see_kind(i as int));
                    lemma_first_see_kind_is(ctx, stm, occ, att, 0, i as int);
                }
                return (i, bb);
            }
            proof {
                assert forall|x: int| !(#[trigger] see_candidate(ctx, stm, occ, att, x) && kind_at(ctx.board, x) == see_kind(i as int)) by {
                    if see_candidate(ctx, stm, occ, att, x) && kind_at(ctx.board, x) == see_kind(i as int) {
                        assert(bb.has(x));
                    }
                }
            }
            i = i + 1;
        }
        proof { lemma_first_see_kind_is(ctx, stm, occ, att, 0, 13); }
        (13, Bitboard::ZERO())
    }
}


impl PositionBase {
    /// Whether move `m` wins at least `threshold` in the exchange that it starts on the square
    /// it goes to, both sides taking back with their least valuable piece while that pays, as
    /// `see_ge_spec` says; the attackers and the pins are read from the tables `t` and
    /// `between`.
    #[verifier::loop_isolation(false)]
    #[verifier::spinoff_prover]
    #[verifier::rlimit(60)]
    pub fn see_ge(&self, m: Move, threshold: Value, t: &AttackTable, between: &BetweenTable) -> (r: bool)
        requires
            self.wf(),
            t.valid(),
            between.valid(),
            m.to_field() < 81,
            m.spec_is_drop() ==> m.dropped_type_field() < 15,
            !m.spec_is_drop() ==> m.from_field() < 81,
            i32::MIN <= capture_material(self.board_seq()[m.to_field() as int].val() % 16) - threshold.0 <= i32::MAX,
        ensures
            r == see_ge_spec(self.see_context(*t, m.to_field() as int), self.occupancy(), self.spec_side_to_move().val(), m,
                threshold.0 as int),
    {
        proof { broadcast use Color::lemma_val_range; }
        let ghost ctx = self.see_context(*t, m.to_field() as int);
        let to = m.to();
        let mut swap: i32 = capture_piece_value(self.piece_on(to)).0 - threshold.0;
        if swap < 0 {
            return false;
        }
        let is_drop = m.is_drop();
        let next_victim = if is_drop { m.piece_type_dropped() } else { PieceType::new(self.piece_on(m.from())) };
        swap = capture_piece_type_value(next_victim).0 - swap;
        if swap <= 0 {
            return true;
        }
        let mut occupied = self.occupied_bb();
        let tm = Bitboard::square_mask(to);
        proof { Bitboard::lemma_xor_wf(occupied, tm); }
        occupied = occupied.xor_bb(tm);
        if !is_drop {
            let fm = Bitboard::square_mask(m.from());
            proof { Bitboard::lemma_xor_wf(occupied, fm); }
            occupied = occupied.xor_bb(fm);
        }
        let both = self.attackers_to_both_color(to, &occupied, t);
        let mut attackers = both.and(occupied);
        proof { Bitboard::lemma_and_wf(both, occupied); }
        let black_bp = self.slider_blockers_and_pinners(Color::WHITE, self.king_square(Color::BLACK), t, between);
        let white_bp = self.slider_blockers_and_pinners(Color::BLACK, self.king_square(Color::WHITE), t, between);
        let mut side_to_move = self.side_to_move();
        let mut res: i32 = 1;
        let ghost mut att = Set::new(|x: int| 0 <= x < 81 && ctx.board[x] != Piece::EMPTY
            && caught_by_any(ctx.t, kind_at(ctx.board, x), color_at(ctx.board, x), ctx.to, occupied, x) && occupied.has(x));
        proof {
            assert(see_ge_spec(ctx, self.occupancy(), side_to_move.val(), m, threshold.0 as int)
                == see_loop(ctx, side_to_move.val(), occupied, att, swap as int, 1));
        }
        loop
            invariant
                occupied.wf(),
                attackers.wf(),
                forall|x: int| 0 <= x < 81 ==> #[trigger] attackers.has(x) == att.contains(x),
                forall|x: int| #[trigger] att.contains(x) ==> 0 <= x < 81 && occupied.has(x),
                0 <= swap <= 2385,
                res == 0 || res == 1,
                see_loop(ctx, side_to_move.val(), occupied, att, swap as int, res as int)
                    == see_ge_spec(ctx, self.occupancy(), self.spec_side_to_move().val(), m, threshold.0 as int),
            decreases bb_count(occupied, 81),
        {
            let ghost prev = side_to_move.val();
            side_to_move = side_to_move.inverse();
            let stm = side_to_move;
            let (blockers, pinners) = if stm == Color::BLACK { (black_bp.0, white_bp.1) } else { (white_bp.0, black_bp.1) };
            let sa = self.see_usable_attackers(stm, attackers, occupied, blockers, pinners, Ghost(ctx), Ghost(att));
            proof { sa.lemma_nonempty(); }
            if !sa.to_bool() {
                proof {
                    assert(!exists|x: int| #[trigger] see_candidate(ctx, stm.val(), occupied, att, x)) by {
                        if exists|x: int| #[trigger] see_candidate(ctx, stm.val(), occupied, att, x) {
                            let x = choose|x: int| #[trigger] see_candidate(ctx, stm.val(), occupied, att, x);
                            assert(sa.has(x));
                        }
                    }
                }
                return res != 0;
            }
            proof {
                let x = choose|x: int| 0 <= x < 81 && #[trigger] sa.has(x);
                assert(see_candidate(ctx, stm.val(), occupied, att, x));
            }
            res = 1 - res;
            let (i, bb) = self.see_least_attackers(sa, Ghost(ctx), Ghost(stm.val()), Ghost(occupied), Ghost(att));
            if i == 13 {
                let own = self.pieces_c(stm);
                let rest = own.notand(attackers);
                proof {
                    Bitboard::lemma_and_wf(Bitboard::from_words(!own.v[0], !own.v[1]), attackers);
                    rest.lemma_nonempty();
                    assert((rest.v[0] != 0 || rest.v[1] != 0) == exists|x: int| 0 <= x < 81 && #[trigger] att.contains(x) && !holds_color(ctx.board, x, stm.val())) by {
                        if rest.v[0] != 0 || rest.v[1] != 0 {
                            let x = choose|x: int| 0 <= x < 81 && #[trigger] rest.has(x);
                            assert(att.contains(x) && !holds_color(ctx.board, x, stm.val()));
                        }
                        if exists|x: int| 0 <= x < 81 && #[trigger] att.contains(x) && !holds_color(ctx.board, x, stm.val()) {
                            let x = choose|x: int| 0 <= x < 81 && #[trigger] att.contains(x) && !holds_color(ctx.board, x, stm.val());
                            assert(rest.has(x));
                        }
                    }
                }
                if rest.to_bool() {
                    res = 1 - res;
                }
                return res != 0;
            }
            let pt = see_kind_at(i);
            swap = capture_piece_type_value(pt).0 - swap;
            if swap < res {
                return res != 0;
            }
            let sq = bb.lsb_unchecked();
            let ghost k = see_kind(i as int);
            proof {
                assert(see_candidate(ctx, stm.val(), occupied, att, sq.val()) && kind_at(ctx.board, sq.val()) == k);
                assert forall|z: int| 0 <= z < sq.val() implies !(#[trigger] see_candidate(ctx, stm.val(), occupied, att, z) && kind_at(ctx.board, z) == k) by {
                    assert(!bb.has(z));
                }
                lemma_lowest_candidate_is(ctx, stm.val(), occupied, att, k, 0, sq.val());
            }
            let ghost occ_before = occupied;
            let sm = Bitboard::square_mask(sq);
            proof { Bitboard::lemma_xor_wf(occupied, sm); }
            occupied = occupied.xor_bb(sm);
            let xr = self.see_xray_bb(sq, to, &occupied, t);
            let joined = attackers.or(xr);
            proof {
                Bitboard::lemma_or_wf(attackers, xr);
                Bitboard::lemma_and_wf(joined, occupied);
            }
            attackers = joined.and(occupied);
            proof {
                assert(occupied == toggled(occ_before, sq.val()));
                let att1 = Set::new(|x: int| 0 <= x < 81 && (att.contains(x) || see_xray(ctx, sq.val(), occupied, x)) && occupied.has(x));
                assert forall|x: int| 0 <= x < 81 implies #[trigger] attackers.has(x) == att1.contains(x) by {}
                lemma_toggled_count(occ_before, sq.val(), 81);
                crate::bitboard::lemma_bb_count_nonneg(occupied, 81);
                att = att1;
            }
        }
    }
}


/// Whether some piece of side `c` attacks `to` with the occupancy `occ`, as the tables read
/// it.
pub open spec fn attacked_by(ctx: SeeContext, c: int, to: int, occ: Bitboard) -> bool {
    exists|x: int| 0 <= x < 81 && holds_color(ctx.board, x, c)
        && #[trigger] caught_from(ctx.t, kind_at(ctx.board, x), 1 - c, to, occ, x, true, true)
}

/// Whether `e` is a square that the king of the side other than `c` is checked for after a
/// pawn of side `c` is dropped on `sq`: a king step not held by the king's own side, with `sq`
/// toggled in or out.
pub open spec fn pawn_mate_escape(ctx: SeeContext, c: int, sq: int, e: int) -> bool {
    (ctx.t.king.table()[ctx.kings[1 - c]].has(e) && !holds_color(ctx.board, e, 1 - c)) != (e == sq)
}

/// Whether a pawn of side `c` dropped on `sq` mates, with the occupancy `occ`: some piece of
/// side `c` backs the pawn up; no piece of the other side but its king, pawns and lances
/// takes it, a piece that shields its own king counting only on the pawn's file; and every
/// escape square of that king is attacked by side `c` once the pawn stands on `sq`.
pub open spec fn drop_pawn_mate(ctx: SeeContext, occ: Bitboard, c: int, sq: int) -> bool {
    let d = 1 - c;
    &&& attacked_by(ctx, c, sq, occ)
    &&& !exists|x: int| 0 <= x < 81 && holds_color(ctx.board, x, d)
        && #[trigger] caught_from(ctx.t, kind_at(ctx.board, x), c, sq, occ, x, false, false)
        && (!king_blocker(ctx, d, x) || x / 9 == sq / 9)
    &&& forall|e: int| 0 <= e < 81 && #[trigger] pawn_mate_escape(ctx, c, sq, e) ==> attacked_by(ctx, c, e, toggled(occ, sq))
}

impl PositionBase {
    /// Whether a pawn of side `color_of_pawn` dropped on `sq_of_pawn`, in front of the other
    /// king, would mate, as `drop_pawn_mate` says.
    #[verifier::loop_isolation(false)]
    #[verifier::spinoff_prover]
    #[verifier::rlimit(40)]
    pub fn is_drop_pawn_mate(&self, color_of_pawn: Color, sq_of_pawn: Square, t: &AttackTable, between: &BetweenTable) -> (r: bool)
        requires
            self.wf(),
            t.valid(),
            between.valid(),
        ensures
            r == drop_pawn_mate(self.see_context(*t, sq_of_pawn.val()), self.occupancy(), color_of_pawn.val(), sq_of_pawn.val()),
    {
        proof { broadcast use Color::lemma_val_range, Square::lemma_val_range; }
        let ghost ctx = self.see_context(*t, sq_of_pawn.val());
        let ghost c = color_of_pawn.val();
        let occupied = self.occupied_bb();
        let backers = self.attackers_to(color_of_pawn, sq_of_pawn, &occupied, t);
        proof { backers.lemma_nonempty(); }
        if !backers.to_bool() {
            proof {
                assert(!attacked_by(ctx, c, sq_of_pawn.val(), occupied)) by {
                    if attacked_by(ctx, c, sq_of_pawn.val(), occupied) {
                        let x = choose|x: int| 0 <= x < 81 && holds_color(ctx.board, x, c)
                            && #[trigger] caught_from(ctx.t, kind_at(ctx.board, x), 1 - c, sq_of_pawn.val(), occupied, x, true, true);
                        assert(backers.has(x));
                    }
                }
            }
            return false;
        }
        proof {
            let x = choose|x: int| 0 <= x < 81 && #[trigger] backers.has(x);
            assert(holds_color(ctx.board, x, c)
                && caught_from(ctx.t, kind_at(ctx.board, x), 1 - c, sq_of_pawn.val(), occupied, x, true, true));
        }
        let color_of_defense = color_of_pawn.inverse();
        let capture_candidates = self.attackers_to_except_king_lance_pawn(color_of_defense, sq_of_pawn, &occupied, t);
        let ksq = self.king_square(color_of_defense);
        let (pinned, _) = self.slider_blockers_and_pinners(color_of_pawn, ksq, t, between);
        proof {
            assert(ctx.kings[1 - c] == ksq.val());
            assert forall|x: int| 0 <= x < 81 implies #[trigger] pinned.has(x) == king_blocker(ctx, 1 - c, x) by {
                let k = ksq.val();
                let b = self.board_seq();
                assert(1 - (1 - c) == c);
                if pinned.has(x) {
                    let sn = choose|sn: int| 0 <= sn < 81 && #[trigger] is_sniper(*t, b, c, k, sn) && sole_between(b, k, sn, x);
                    assert(is_sniper(ctx.t, ctx.board, 1 - (1 - c), ctx.kings[1 - c], sn));
                }
                if king_blocker(ctx, 1 - c, x) {
                    let sn = choose|sn: int| 0 <= sn < 81 && #[trigger] is_sniper(ctx.t, ctx.board, 1 - (1 - c), ctx.kings[1 - c], sn)
                        && sole_between(ctx.board, ctx.kings[1 - c], sn, x);
                    assert(is_sniper(*t, b, c, k, sn));
                }
            }
        }
        let not_pinned = pinned.not().or(Bitboard::file_mask(File::new(sq_of_pawn)));
        let can_captures = capture_candidates.and(not_pinned);
        proof {
            Bitboard::lemma_and_wf(capture_candidates, not_pinned);
            can_captures.lemma_nonempty();
        }
        if can_captures.to_bool() {
            proof {
                let x = choose|x: int| 0 <= x < 81 && #[trigger] can_captures.has(x);
                assert(holds_color(ctx.board, x, 1 - c)
                    && caught_from(ctx.t, kind_at(ctx.board, x), c, sq_of_pawn.val(), occupied, x, false, false)
                    && (!king_blocker(ctx, 1 - c, x) || x / 9 == sq_of_pawn.val() / 9));
            }
            return false;
        }
        proof {
            assert(!exists|x: int| 0 <= x < 81 && holds_color(ctx.board, x, 1 - c)
                && #[trigger] caught_from(ctx.t, kind_at(ctx.board, x), c, sq_of_pawn.val(), occupied, x, false, false)
                && (!king_blocker(ctx, 1 - c, x) || x / 9 == sq_of_pawn.val() / 9)) by {
                if exists|x: int| 0 <= x < 81 && holds_color(ctx.board, x, 1 - c)
                    && #[trigger] caught_from(ctx.t, kind_at(ctx.board, x), c, sq_of_pawn.val(), occupied, x, false, false)
                    && (!king_blocker(ctx, 1 - c, x) || x / 9 == sq_of_pawn.val() / 9) {
                    let x = choose|x: int| 0 <= x < 81 && holds_color(ctx.board, x, 1 - c)
                        && #[trigger] caught_from(ctx.t, kind_at(ctx.board, x), c, sq_of_pawn.val(), occupied, x, false, false)
                        && (!king_blocker(ctx, 1 - c, x) || x / 9 == sq_of_pawn.val() / 9);
                    assert(can_captures.has(x));
                }
            }
        }
        let steps = t.king.attack(ksq);
        let own = self.pieces_c(color_of_defense);
        let not_own = own.not();
        let near = steps.and(not_own);
        let pm = Bitboard::square_mask(sq_of_pawn);
        proof {
            Bitboard::lemma_and_wf(steps, not_own);
            Bitboard::lemma_xor_wf(near, pm);
        }
        let mut escapes = near.xor_bb(pm);
        let pm2 = Bitboard::square_mask(sq_of_pawn);
        proof { Bitboard::lemma_xor_wf(occupied, pm2); }
        let occupied_after = occupied.xor_bb(pm2);
        assert(occupied_after == toggled(self.occupancy(), sq_of_pawn.val()));
        assert forall|e: int| 0 <= e < 81 implies #[trigger] escapes.has(e) == pawn_mate_escape(ctx, c, sq_of_pawn.val(), e) by {}
        loop
            invariant
                escapes.wf(),
                forall|e: int| 0 <= e < 81 && #[trigger] escapes.has(e) ==> pawn_mate_escape(ctx, c, sq_of_pawn.val(), e),
                forall|e: int| 0 <= e < 81 && #[trigger] pawn_mate_escape(ctx, c, sq_of_pawn.val(), e) && !escapes.has(e)
                    ==> attacked_by(ctx, c, e, occupied_after),
            decreases bb_count(escapes, 81),
        {
            let ghost before = escapes;
            match escapes.pop_lsb() {
                None => {
                    proof {
                        before.lemma_nonempty();
                        assert forall|e: int| 0 <= e < 81 && #[trigger] pawn_mate_escape(ctx, c, sq_of_pawn.val(), e)
                            implies attacked_by(ctx, c, e, occupied_after) by {
                            assert(!before.has(e));
                        }
                    }
                    return true;
                },
                Some(to) => {
                    proof {
                        crate::bitboard::lemma_removed_count(before, escapes, to.val(), 81);
                        crate::bitboard::lemma_bb_count_nonneg(escapes, 81);
                    }
                    let att = self.attackers_to(color_of_pawn, to, &occupied_after, t);
                    proof { att.lemma_nonempty(); }
                    if !att.to_bool() {
                        proof {
                            assert(pawn_mate_escape(ctx, c, sq_of_pawn.val(), to.val()));
                            assert(!attacked_by(ctx, c, to.val(), occupied_after)) by {
                                if attacked_by(ctx, c, to.val(), occupied_after) {
                                    let x = choose|x: int| 0 <= x < 81 && holds_color(ctx.board, x, c)
                                        && #[trigger] caught_from(ctx.t, kind_at(ctx.board, x), 1 - c, to.val(), occupied_after, x, true, true);
                                    assert(att.has(x));
                                }
                            }
                        }
                        return false;
                    }
                    proof {
                        let x = choose|x: int| 0 <= x < 81 && #[trigger] att.has(x);
                        assert(holds_color(ctx.board, x, c)
                            && caught_from(ctx.t, kind_at(ctx.board, x), 1 - c, to.val(), occupied_after, x, true, true));
                    }
                },
            }
        }
    }
}


/// Whether `x` holds a piece of the side other than `us` that attacks the king of `us`, with
/// the occupancy `occ`.
pub open spec fn is_checker(ctx: SeeContext, occ: Bitboard, us: int, x: int) -> bool {
    holds_color(ctx.board, x, 1 - us) && caught_from(ctx.t, kind_at(ctx.board, x), us, ctx.kings[us], occ, x, true, true)
}

pub open spec fn in_check_by(ctx: SeeContext, occ: Bitboard, us: int) -> bool {
    exists|x: int| 0 <= x < 81 && #[trigger] is_checker(ctx, occ, us, x)
}

/// Whether two pieces give check to the king of `us`.
pub open spec fn double_check(ctx: SeeContext, occ: Bitboard, us: int) -> bool {
    exists|x: int, y: int| 0 <= x < y < 81 && #[trigger] is_checker(ctx, occ, us, x) && #[trigger] is_checker(ctx, occ, us, y)
}

/// Whether three pieces give check to the king of `us`, which no game reaches.
pub open spec fn triple_check(ctx: SeeContext, occ: Bitboard, us: int) -> bool {
    exists|x: int, y: int, z: int| 0 <= x < y < z < 81 && #[trigger] is_checker(ctx, occ, us, x)
        && #[trigger] is_checker(ctx, occ, us, y) && #[trigger] is_checker(ctx, occ, us, z)
}

/// Whether a piece other than the king going to `to` answers the check on the king of `us`:
/// no check; or one checker, and `to` between it and the king (or on it, when `capture`).
pub open spec fn answers_check(ctx: SeeContext, occ: Bitboard, us: int, to: int, capture: bool) -> bool {
    if !in_check_by(ctx, occ, us) {
        true
    } else if double_check(ctx, occ, us) {
        false
    } else {
        exists|x: int| 0 <= x < 81 && #[trigger] is_checker(ctx, occ, us, x)
            && (between_has(x, ctx.kings[us], to) || (capture && to == x))
    }
}

/// Whether rank `r`, counted from the side of `us`, lies before the rank numbered `k`
/// (counted from 0 for the farthest rank).
pub open spec fn rank_before(r: int, us: int, k: int) -> bool {
    k > (if us == 0 { r } else { 8 - r })
}

/// Whether a drop by `us` of the piece of move `m` is pseudo-legal: a piece of `us` held in
/// hand, dropped on an empty square that answers any check; a pawn neither on a file where
/// `us` has a pawn nor in front of the other king where it would mate.
pub open spec fn drop_pseudo_legal(ctx: SeeContext, occ: Bitboard, hands: Seq<Hand>, us: int, m: Move) -> bool {
    let pc = m.dropped_field() as int;
    let pt = pc % 16;
    let to = m.to_field() as int;
    let b = ctx.board;
    if pc / 16 != us {
        false
    } else if hands[us].count(PieceType::from_val(pt)) == 0 {
        false
    } else if b[to] != Piece::EMPTY {
        false
    } else if !answers_check(ctx, occ, us, to, false) {
        false
    } else if pt == 1 && exists|x: int| 0 <= x < 81 && #[trigger] holds_color(b, x, us) && holds_kind(b, x, 1) && x / 9 == to / 9 {
        false
    } else if pt == 1 && to + (if us == 0 { -1int } else { 1int }) == ctx.kings[1 - us] && drop_pawn_mate(ctx, occ, us, to) {
        false
    } else {
        true
    }
}

/// Whether a board move by `us` is pseudo-legal: the moved piece of `us` stands on the origin
/// as the move says, the destination holds no piece of `us` and is reached by the piece; a
/// promotion is of a kind that promotes, in or out of the far three ranks (the search does not
/// check that); a move without promotion leaves no pawn, lance or knight where it could not move
/// again (the search also leaves out the non-promotions of pawns, bishops and rooks where they
/// could promote, and of lances to the third rank without capture); and the move answers any
/// check (a king move by going to a square not attacked once it has left its own).
pub open spec fn board_move_pseudo_legal(ctx: SeeContext, occ: Bitboard, us: int, m: Move, searching: bool) -> bool {
    let from = m.from_field() as int;
    let to = m.to_field() as int;
    let b = ctx.board;
    let pc = b[from];
    let pt = pc.val() % 16;
    let rf = from % 9;
    let rt = to % 9;
    if pc == Piece::EMPTY || pc.val() != m.moved_field() || pc.val() / 16 != us {
        false
    } else if holds_color(b, to, us) {
        false
    } else if !table_reaches(ctx.t, pt, us, from, occ, to) {
        false
    } else if m.spec_is_promotion() && !(1 <= pt <= 6) {
        false
    } else if m.spec_is_promotion() && !searching && !in_opponent_field(rf, us) && !in_opponent_field(rt, us) {
        false
    } else if !m.spec_is_promotion() && pt == 1 && (if searching { in_opponent_field(rt, us) } else { rank_before(rt, us, 1) }) {
        false
    } else if !m.spec_is_promotion() && pt == 2 && (if searching {
        rank_before(rt, us, 2) || (rank_before(rt, us, 3) && b[to] == Piece::EMPTY)
    } else {
        rank_before(rt, us, 1)
    }) {
        false
    } else if !m.spec_is_promotion() && pt == 3 && rank_before(rt, us, 2) {
        false
    } else if !m.spec_is_promotion() && (pt == 5 || pt == 6) && searching && (in_opponent_field(rf, us) || in_opponent_field(rt, us)) {
        false
    } else if in_check_by(ctx, occ, us) && pt == 8 {
        !attacked_by(ctx, 1 - us, to, toggled(occ, from))
    } else {
        answers_check(ctx, occ, us, to, true)
    }
}


impl PositionBase {
    /// Whether a piece other than the king of `us` going to `to` answers the check on that
    /// king, as `answers_check` says.
    fn answers_check_exec(&self, us: Color, to: Square, capture: bool, t: &AttackTable, between: &BetweenTable, Ghost(ctx): Ghost<SeeContext>) -> (r: bool)
        requires
            self.wf(),
            t.valid(),
            between.valid(),
            ctx.board == self.board_seq(),
            ctx.t == *t,
            ctx.kings == seq![self.king_squares_seq()[0].val(), self.king_squares_seq()[1].val()],
        ensures
            r == answers_check(ctx, self.occupancy(), us.val(), to.val(), capture),
    {
        proof { broadcast use Color::lemma_val_range; }
        let ksq = self.king_square(us);
        let occ = self.occupied_bb();
        let ghost u = us.val();
        let mut checkers = self.attackers_to(us.inverse(), ksq, &occ, t);
        proof {
            assert(ctx.kings[u] == ksq.val());
            assert forall|x: int| 0 <= x < 81 implies #[trigger] checkers.has(x) == is_checker(ctx, occ, u, x) by {}
        }
        let all = checkers;
        match checkers.pop_lsb() {
            None => {
                proof {
                    all.lemma_nonempty();
                    assert(!in_check_by(ctx, occ, u)) by {
                        if in_check_by(ctx, occ, u) {
                            let x = choose|x: int| 0 <= x < 81 && #[trigger] is_checker(ctx, occ, u, x);
                            assert(all.has(x));
                        }
                    }
                }
                true
            },
            Some(chk) => {
                proof {
                    assert(is_checker(ctx, occ, u, chk.val()));
                    checkers.lemma_nonempty();
                }
                if checkers.to_bool() {
                    proof {
                        let y = choose|y: int| 0 <= y < 81 && #[trigger] checkers.has(y);
                        assert(chk.val() < y);
                        assert(is_checker(ctx, occ, u, y));
                        assert(double_check(ctx, occ, u));
                    }
                    false
                } else {
                    proof {
                        assert forall|y: int| 0 <= y < 81 && #[trigger] is_checker(ctx, occ, u, y) implies y == chk.val() by {
                            assert(all.has(y));
                            if y != chk.val() {
                                assert(checkers.has(y));
                            }
                        }
                        assert(!double_check(ctx, occ, u)) by {
                            if double_check(ctx, occ, u) {
                                let (x, y) = choose|x: int, y: int| 0 <= x < y < 81 && #[trigger] is_checker(ctx, occ, u, x)
                                    && #[trigger] is_checker(ctx, occ, u, y);
                                assert(x == chk.val() && y == chk.val());
                            }
                        }
                    }
                    let bm = between.between_mask(chk, ksq);
                    let r = bm.is_set(to) || (capture && all.is_set(to));
                    proof {
                        let rhs = exists|x: int| 0 <= x < 81 && #[trigger] is_checker(ctx, occ, u, x)
                            && (between_has(x, ctx.kings[u], to.val()) || (capture && to.val() == x));
                        if r {
                            assert(is_checker(ctx, occ, u, chk.val()));
                            if capture && all.has(to.val()) {
                                assert(to.val() == chk.val());
                            }
                        }
                        if rhs {
                            let x = choose|x: int| 0 <= x < 81 && #[trigger] is_checker(ctx, occ, u, x)
                                && (between_has(x, ctx.kings[u], to.val()) || (capture && to.val() == x));
                            assert(x == chk.val());
                        }
                    }
                    r
                }
            },
        }
    }

    /// Whether move `m` is pseudo-legal for the side to move, as `drop_pseudo_legal` and
    /// `board_move_pseudo_legal` say; `searching` selects the stricter rules of the search.
    #[verifier::spinoff_prover]
    #[verifier::rlimit(80)]
    pub fn pseudo_legal(&self, m: Move, searching: bool, t: &AttackTable, between: &BetweenTable) -> (r: bool)
        requires
            self.wf(),
            t.valid(),
            between.valid(),
            m.to_field() < 81,
            m.spec_is_drop() ==> (m.dropped_field() <= 14 || 17 <= m.dropped_field() <= 30),
            m.spec_is_drop() && m.dropped_field() / 16 == self.spec_side_to_move().val()
                ==> crate::hand::is_hand_piece_type(PieceType::from_val(m.dropped_field() as int % 16)),
            !m.spec_is_drop() ==> m.from_field() < 81,
            !triple_check(self.see_context(*t, m.to_field() as int), self.occupancy(), self.spec_side_to_move().val()),
        ensures
            r == if m.spec_is_drop() {
                drop_pseudo_legal(self.see_context(*t, m.to_field() as int), self.occupancy(), self.hands_seq(),
                    self.spec_side_to_move().val(), m)
            } else {
                board_move_pseudo_legal(self.see_context(*t, m.to_field() as int), self.occupancy(),
                    self.spec_side_to_move().val(), m, searching)
            },
    {
        proof { broadcast use Color::lemma_val_range, PieceType::lemma_from_val; }
        let ghost ctx = self.see_context(*t, m.to_field() as int);
        let us = self.side_to_move();
        let ghost u = us.val();
        let occ = self.occupied_bb();
        if m.is_drop() {
            let pc = m.piece_dropped();
            if Color::new(pc) != us {
                return false;
            }
            let pt = PieceType::new(pc);
            proof { assert(pt == PieceType::from_val(m.dropped_field() as int % 16)); }
            if !self.hand(us).exist(pt) {
                return false;
            }
            let to = m.to();
            if self.piece_on(to) != Piece::EMPTY {
                return false;
            }
            if !self.answers_check_exec(us, to, false, t, between, Ghost(ctx)) {
                return false;
            }
            if pt == PieceType::PAWN {
                let own_pawns = self.pieces_cp(us, PieceType::PAWN);
                let fm = Bitboard::file_mask(File::new(to));
                let pawns = own_pawns.and(fm);
                proof {
                    Bitboard::lemma_and_wf(own_pawns, fm);
                    pawns.lemma_nonempty();
                }
                if pawns.to_bool() {
                    proof {
                        let x = choose|x: int| 0 <= x < 81 && #[trigger] pawns.has(x);
                        assert(holds_color(ctx.board, x, u) && holds_kind(ctx.board, x, 1) && x / 9 == to.val() / 9);
                    }
                    return false;
                }
                proof {
                    assert(!exists|x: int| 0 <= x < 81 && #[trigger] holds_color(ctx.board, x, u) && holds_kind(ctx.board, x, 1)
                        && x / 9 == to.val() / 9) by {
                        if exists|x: int| 0 <= x < 81 && #[trigger] holds_color(ctx.board, x, u) && holds_kind(ctx.board, x, 1)
                            && x / 9 == to.val() / 9 {
                            let x = choose|x: int| 0 <= x < 81 && #[trigger] holds_color(ctx.board, x, u) && holds_kind(ctx.board, x, 1)
                                && x / 9 == to.val() / 9;
                            assert(pawns.has(x));
                        }
                    }
                }
                let delta: i32 = if us == Color::BLACK { Square::DELTA_N } else { Square::DELTA_S };
                let them = us.inverse();
                if to.to_i32() + delta == self.king_square(them).to_i32() && self.is_drop_pawn_mate(us, to, t, between) {
                    return false;
                }
            }
            true
        } else {
            let from = m.from();
            let pc_from = self.piece_on(from);
            if pc_from == Piece::EMPTY || pc_from.to_i32() as u32 != (m.0 & Move::MOVED_PIECE_MASK) >> Move::MOVED_PIECE_SHIFT
                || Color::new(pc_from) != us {
                return false;
            }
            let to = m.to();
            if self.pieces_c(us).is_set(to) {
                return false;
            }
            let pt_from = PieceType::new(pc_from);
            let reach = t.attack(pt_from, us, from, &occ);
            let reaches = reach.is_set(to);
            proof {
                assert(reaches == table_reaches(*t, pt_from.val(), u, from.val(), occ, to.val()));
            }
            if !reaches {
                return false;
            }
            let rank_from = Rank::new(from);
            let rank_to = Rank::new(to);
            if m.is_promotion() {
                if !pc_from.is_promotable() {
                    return false;
                }
                if !searching && !rank_from.is_opponent_field(us) && !rank_to.is_opponent_field(us) {
                    return false;
                }
            } else {
                match pt_from {
                    PieceType::PAWN => {
                        if searching {
                            if rank_to.is_opponent_field(us) {
                                return false;
                            }
                        } else if rank_to.is_in_front_of(us, RankAsBlack::RANK2) {
                            return false;
                        }
                    },
                    PieceType::LANCE => {
                        if searching {
                            if rank_to.is_in_front_of(us, RankAsBlack::RANK3)
                                || (rank_to.is_in_front_of(us, RankAsBlack::RANK4) && self.piece_on(to) == Piece::EMPTY) {
                                return false;
                            }
                        } else if rank_to.is_in_front_of(us, RankAsBlack::RANK2) {
                            return false;
                        }
                    },
                    PieceType::KNIGHT => {
                        if rank_to.is_in_front_of(us, RankAsBlack::RANK3) {
                            return false;
                        }
                    },
                    PieceType::BISHOP | PieceType::ROOK => {
                        if searching && (rank_from.is_opponent_field(us) || rank_to.is_opponent_field(us)) {
                            return false;
                        }
                    },
                    _ => {},
                }
            }
            if pt_from == PieceType::KING {
                let ksq = self.king_square(us);
                let checkers = self.attackers_to(us.inverse(), ksq, &occ, t);
                proof {
                    checkers.lemma_nonempty();
                    assert(ctx.kings[u] == ksq.val());
                    assert forall|x: int| 0 <= x < 81 implies #[trigger] checkers.has(x) == is_checker(ctx, occ, u, x) by {}
                }
                if checkers.to_bool() {
                    let fm = Bitboard::square_mask(from);
                    let after = occ.xor_bb(fm);
                    let attackers = self.attackers_to(us.inverse(), to, &after, t);
                    proof {
                        let x = choose|x: int| 0 <= x < 81 && #[trigger] checkers.has(x);
                        assert(is_checker(ctx, occ, u, x));
                        assert(after == toggled(occ, from.val()));
                        attackers.lemma_nonempty();
                        assert((attackers.v[0] != 0 || attackers.v[1] != 0) == attacked_by(ctx, 1 - u, to.val(), after)) by {
                            if attackers.v[0] != 0 || attackers.v[1] != 0 {
                                let y = choose|y: int| 0 <= y < 81 && #[trigger] attackers.has(y);
                                assert(holds_color(ctx.board, y, 1 - u)
                                    && caught_from(ctx.t, kind_at(ctx.board, y), 1 - (1 - u), to.val(), after, y, true, true));
                            }
                            if attacked_by(ctx, 1 - u, to.val(), after) {
                                let y = choose|y: int| 0 <= y < 81 && holds_color(ctx.board, y, 1 - u)
                                    && #[trigger] caught_from(ctx.t, kind_at(ctx.board, y), 1 - (1 - u), to.val(), after, y, true, true);
                                assert(attackers.has(y));
                            }
                        }
                    }
                    return !attackers.to_bool();
                }
                proof {
                    assert(!in_check_by(ctx, occ, u)) by {
                        if in_check_by(ctx, occ, u) {
                            let x = choose|x: int| 0 <= x < 81 && #[trigger] is_checker(ctx, occ, u, x);
                            assert(checkers.has(x));
                        }
                    }
                }
                true
            } else {
                self.answers_check_exec(us, to, true, t, between, Ghost(ctx))
            }
        }
    }
}


impl Move {
    /// Whether the move takes a piece: its destination is occupied before it is made.
    pub fn is_capture(self, pos: &PositionBase) -> (r: bool)
        requires
            self.to_field() < 81,
        ensures
            r == (pos.board_seq()[self.to_field() as int] != Piece::EMPTY),
    {
        pos.piece_on(self.to()) != Piece::EMPTY
    }

    /// Whether the move takes a piece or promotes a pawn (to be asked before the move is made).
    pub fn is_capture_or_pawn_promotion(self, pos: &PositionBase) -> (r: bool)
        requires
            self.to_field() < 81,
            self.spec_is_drop() ==> (self.dropped_field() <= 14 || 17 <= self.dropped_field() <= 30),
            !self.spec_is_drop() ==> (self.moved_field() <= 14 || 17 <= self.moved_field() <= 30),
        ensures
            r == (pos.board_seq()[self.to_field() as int] != Piece::EMPTY
                || (self.spec_is_promotion() && (if self.spec_is_drop() { self.dropped_field() } else { self.moved_field() }) % 16 == 1)),
    {
        self.is_capture(pos) || self.is_pawn_promotion()
    }
}


/// Whether board move `m` by `us` leaves the king of `us` safe (a drop always does): a king
/// move goes to a square not attacked once the king has left its own; another piece either
/// shields nothing or stays on the line through its king.
pub open spec fn legal_spec(ctx: SeeContext, occ: Bitboard, us: int, m: Move) -> bool {
    if m.spec_is_drop() {
        true
    } else {
        let from = m.from_field() as int;
        let to = m.to_field() as int;
        if kind_at(ctx.board, from) == 8 {
            !attacked_by(ctx, 1 - us, to, toggled(occ, from))
        } else {
            !king_blocker(ctx, us, from) || crate::types::spec_is_aligned_and_sq2_is_not_between_sq0_and_sq1(
                Square::from_val(from), Square::from_val(to), Square::from_val(ctx.kings[us]))
        }
    }
}

/// Whether a piece of kind number `pt` on `i` gives check to the king of side `them`: it
/// reaches that king, read from the king as a piece of that kind of side `them`.
pub open spec fn check_square(ctx: SeeContext, occ: Bitboard, them: int, pt: int, i: int) -> bool {
    pt != 0 && pt != 8 && table_reaches(ctx.t, pt, them, ctx.kings[them], occ, i)
}

/// Whether move `m` by `us` gives check: the piece (promoted, if the move promotes) attacks
/// the other king from its destination, or the move uncovers a slider of `us` on that king.
pub open spec fn gives_check_spec(ctx: SeeContext, occ: Bitboard, us: int, m: Move) -> bool {
    let them = 1 - us;
    let to = m.to_field() as int;
    if m.spec_is_drop() {
        check_square(ctx, occ, them, m.dropped_type_field() as int, to)
    } else {
        let from = m.from_field() as int;
        let pc = ctx.board[from].val();
        let pt_to = (if m.spec_is_promotion() { pc + 8 } else { pc }) % 16;
        check_square(ctx, occ, them, pt_to, to)
            || (king_blocker(ctx, them, from) && !crate::types::spec_is_aligned_and_sq2_is_not_between_sq0_and_sq1(
                Square::from_val(from), Square::from_val(to), Square::from_val(ctx.kings[them])))
    }
}

impl PositionBase {
    /// The blockers of the king of side `c`, as `king_blocker` says.
    fn king_blockers(&self, c: Color, t: &AttackTable, between: &BetweenTable, Ghost(ctx): Ghost<SeeContext>) -> (r: Bitboard)
        requires
            self.wf(),
            t.valid(),
            between.valid(),
            ctx.board == self.board_seq(),
            ctx.t == *t,
            ctx.kings == seq![self.king_squares_seq()[0].val(), self.king_squares_seq()[1].val()],
        ensures
            r.wf(),
            forall|x: int| 0 <= x < 81 ==> #[trigger] r.has(x) == king_blocker(ctx, c.val(), x),
    {
        proof { broadcast use Color::lemma_val_range; }
        let ksq = self.king_square(c);
        let (blockers, _) = self.slider_blockers_and_pinners(c.inverse(), ksq, t, between);
        proof {
            let k = c.val();
            assert(ctx.kings[k] == ksq.val());
            assert forall|x: int| 0 <= x < 81 implies #[trigger] blockers.has(x) == king_blocker(ctx, k, x) by {
                let b = self.board_seq();
                assert(1 - (1 - k) == k);
                if blockers.has(x) {
                    let sn = choose|sn: int| 0 <= sn < 81 && #[trigger] is_sniper(*t, b, 1 - k, ksq.val(), sn) && sole_between(b, ksq.val(), sn, x);
                    assert(is_sniper(ctx.t, ctx.board, 1 - k, ctx.kings[k], sn));
                }
                if king_blocker(ctx, k, x) {
                    let sn = choose|sn: int| 0 <= sn < 81 && #[trigger] is_sniper(ctx.t, ctx.board, 1 - k, ctx.kings[k], sn)
                        && sole_between(ctx.board, ctx.kings[k], sn, x);
                    assert(is_sniper(*t, b, 1 - k, ksq.val(), sn));
                }
            }
        }
        blockers
    }

    /// Whether pseudo-legal move `m` leaves the king of the side to move safe, as `legal_spec`
    /// says (a king that moves back onto a square of repetition is not looked at).
    pub fn legal(&self, m: Move, t: &AttackTable, between: &BetweenTable) -> (r: bool)
        requires
            self.wf(),
            t.valid(),
            between.valid(),
            m.to_field() < 81,
            !m.spec_is_drop() ==> m.from_field() < 81,
        ensures
            r == legal_spec(self.see_context(*t, m.to_field() as int), self.occupancy(), self.spec_side_to_move().val(), m),
    {
        proof { broadcast use Color::lemma_val_range, Square::lemma_from_val; }
        let ghost ctx = self.see_context(*t, m.to_field() as int);
        if m.is_drop() {
            return true;
        }
        let from = m.from();
        let to = m.to();
        let us = self.side_to_move();
        let ghost u = us.val();
        if PieceType::new(self.piece_on(from)) == PieceType::KING {
            let them = us.inverse();
            let occ = self.occupied_bb();
            let fm = Bitboard::square_mask(from);
            let after = occ.xor_bb(fm);
            let attackers = self.attackers_to(them, to, &after, t);
            proof {
                assert(after == toggled(occ, from.val()));
                attackers.lemma_nonempty();
                assert((attackers.v[0] != 0 || attackers.v[1] != 0) == attacked_by(ctx, 1 - u, to.val(), after)) by {
                    if attackers.v[0] != 0 || attackers.v[1] != 0 {
                        let y = choose|y: int| 0 <= y < 81 && #[trigger] attackers.has(y);
                        assert(holds_color(ctx.board, y, 1 - u)
                            && caught_from(ctx.t, kind_at(ctx.board, y), 1 - (1 - u), to.val(), after, y, true, true));
                    }
                    if attacked_by(ctx, 1 - u, to.val(), after) {
                        let y = choose|y: int| 0 <= y < 81 && holds_color(ctx.board, y, 1 - u)
                            && #[trigger] caught_from(ctx.t, kind_at(ctx.board, y), 1 - (1 - u), to.val(), after, y, true, true);
                        assert(attackers.has(y));
                    }
                }
            }
            return !attackers.to_bool();
        }
        let blockers = self.king_blockers(us, t, between, Ghost(ctx));
        let ksq = self.king_square(us);
        proof { assert(ctx.kings[u] == ksq.val()); }
        !blockers.is_set(from) || crate::types::is_aligned_and_sq2_is_not_between_sq0_and_sq1(from, to, ksq)
    }

    /// The squares from which a piece of type `pt` of the side other than `them` checks the
    /// king of `them`, as `check_square` says.
    fn check_squares(&self, them: Color, pt: PieceType, t: &AttackTable, Ghost(ctx): Ghost<SeeContext>) -> (r: Bitboard)
        requires
            self.wf(),
            t.valid(),
            ctx.board == self.board_seq(),
            ctx.t == *t,
            ctx.kings == seq![self.king_squares_seq()[0].val(), self.king_squares_seq()[1].val()],
        ensures
            forall|i: int| 0 <= i < 81 ==> #[trigger] r.has(i) == check_square(ctx, self.occupancy(), them.val(), pt.val(), i),
    {
        proof { broadcast use Color::lemma_val_range; }
        let ksq = self.king_square(them);
        proof { assert(ctx.kings[them.val()] == ksq.val()); }
        if pt == PieceType::OCCUPIED || pt == PieceType::KING {
            Bitboard::ZERO()
        } else {
            let occ = self.occupied_bb();
            t.attack(pt, them, ksq, &occ)
        }
    }

    /// Whether pseudo-legal move `m` of the side to move gives check, as `gives_check_spec`
    /// says.
    pub fn gives_check(&self, m: Move, t: &AttackTable, between: &BetweenTable) -> (r: bool)
        requires
            self.wf(),
            t.valid(),
            between.valid(),
            m.to_field() < 81,
            m.spec_is_drop() ==> m.dropped_type_field() < 15,
            !m.spec_is_drop() ==> m.from_field() < 81,
            !m.spec_is_drop() && m.spec_is_promotion() ==> self.board_seq()[m.from_field() as int].spec_is_promotable(),
        ensures
            r == gives_check_spec(self.see_context(*t, m.to_field() as int), self.occupancy(), self.spec_side_to_move().val(), m),
    {
        proof { broadcast use Color::lemma_val_range, Square::lemma_from_val; }
        let ghost ctx = self.see_context(*t, m.to_field() as int);
        let to = m.to();
        let us = self.side_to_move();
        let them = us.inverse();
        if m.is_drop() {
            let pt_to = m.piece_type_dropped();
            return self.check_squares(them, pt_to, t, Ghost(ctx)).is_set(to);
        }
        let from = m.from();
        let pc_from = self.piece_on(from);
        let pc_to = if m.is_promotion() { pc_from.to_promote() } else { pc_from };
        let pt_to = PieceType::new(pc_to);
        if self.check_squares(them, pt_to, t, Ghost(ctx)).is_set(to) {
            return true;
        }
        let blockers = self.king_blockers(them, t, between, Ghost(ctx));
        let ksq = self.king_square(them);
        proof { assert(ctx.kings[them.val()] == ksq.val()); }
        blockers.is_set(from) && !crate::types::is_aligned_and_sq2_is_not_between_sq0_and_sq1(from, to, ksq)
    }
}


/// The pieces of `us` on `board` in the three ranks nearest the other side.
pub open spec fn in_field_own(board: Seq<Piece>, us: int) -> spec_fn(int) -> bool {
    |x: int| holds_color(board, x, us) && in_opponent_field(x % 9, us)
}

/// The bishops, rooks, horses and dragons among them.
pub open spec fn in_field_big(board: Seq<Piece>, us: int) -> spec_fn(int) -> bool {
    |x: int| holds_color(board, x, us) && in_opponent_field(x % 9, us)
        && (holds_kind(board, x, 5) || holds_kind(board, x, 6) || holds_kind(board, x, 13) || holds_kind(board, x, 14))
}

/// The points of `us` for the declaration of a win by entering king: one for each small piece
/// and five for each big one, counting the pieces in hand and those in the three far ranks but
/// the king.
pub open spec fn entering_king_points(board: Seq<Piece>, hands: Seq<Hand>, us: int) -> int {
    let own = count_where(in_field_own(board, us), 81) - 1;
    let big = count_where(in_field_big(board, us), 81);
    let h = hands[us];
    (own - big) + h.count(PieceType::PAWN) + h.count(PieceType::LANCE) + h.count(PieceType::KNIGHT)
        + h.count(PieceType::SILVER) + h.count(PieceType::GOLD) + (big + h.count(PieceType::BISHOP) + h.count(PieceType::ROOK)) * 5
}

/// Whether `us` may declare a win by entering king (the rule of CSA): its king is not in check
/// and stands in the three far ranks, ten of its other pieces stand there too, and its points
/// reach 28 for black or 27 for white.
pub open spec fn entering_king_win(ctx: SeeContext, occ: Bitboard, hands: Seq<Hand>, us: int) -> bool {
    &&& !in_check_by(ctx, occ, us)
    &&& in_opponent_field(ctx.kings[us] % 9, us)
    &&& count_where(in_field_own(ctx.board, us), 81) - 1 >= 10
    &&& entering_king_points(ctx.board, hands, us) >= (if us == 0 { 28int } else { 27int })
}

impl PositionBase {
    /// Whether the side to move may declare a win by entering king, as `entering_king_win`
    /// says (its own time left is not looked at).
    pub fn is_entering_king_win(&self, t: &AttackTable) -> (r: bool)
        requires
            self.wf(),
            t.valid(),
        ensures
            r == entering_king_win(self.see_context(*t, 0), self.occupancy(), self.hands_seq(), self.spec_side_to_move().val()),
    {
        proof { broadcast use Color::lemma_val_range; }
        let ghost ctx = self.see_context(*t, 0);
        let us = self.side_to_move();
        let ghost u = us.val();
        let ksq = self.king_square(us);
        let occ = self.occupied_bb();
        let checkers = self.attackers_to(us.inverse(), ksq, &occ, t);
        proof {
            checkers.lemma_nonempty();
            assert(ctx.kings[u] == ksq.val());
            assert forall|x: int| 0 <= x < 81 implies #[trigger] checkers.has(x) == is_checker(ctx, occ, u, x) by {}
        }
        if checkers.to_bool() {
            proof {
                let x = choose|x: int| 0 <= x < 81 && #[trigger] checkers.has(x);
                assert(is_checker(ctx, occ, u, x));
            }
            return false;
        }
        proof {
            assert(!in_check_by(ctx, occ, u)) by {
                if in_check_by(ctx, occ, u) {
                    let x = choose|x: int| 0 <= x < 81 && #[trigger] is_checker(ctx, occ, u, x);
                    assert(checkers.has(x));
                }
            }
        }
        if !Rank::new(ksq).is_opponent_field(us) {
            return false;
        }
        proof {
            assert(in_opponent_field(ctx.kings[u] % 9, u));
            crate::bitboard::lemma_count_where_bounds(in_field_big(ctx.board, u), 81);
            crate::bitboard::lemma_count_where_bounds(in_field_own(ctx.board, u), 81);
        }
        let field = Bitboard::opponent_field_mask(us);
        let own = self.pieces_c(us);
        let own_bb = own.and(field);
        proof {
            Bitboard::lemma_and_wf(own, field);
            assert forall|x: int| 0 <= x < 81 implies #[trigger] own_bb.has(x) == in_field_own(ctx.board, u)(x) by {
                assert(crate::types::Rank::from_val(x % 9).val() == x % 9);
            }
            crate::bitboard::lemma_bb_count_where(own_bb, in_field_own(ctx.board, u), 81);
            crate::bitboard::lemma_count_ones_squares(own_bb);
        }
        let own_count = own_bb.count_ones();
        let own_pieces_count = own_count as i64 - 1;
        if own_pieces_count < 10 {
            return false;
        }
        let big_kinds = self.pieces_pp(PieceType::BISHOP, PieceType::ROOK).or(self.pieces_pp(PieceType::HORSE, PieceType::DRAGON));
        let big_bb = own_bb.and(big_kinds);
        proof {
            Bitboard::lemma_and_wf(own_bb, big_kinds);
            assert forall|x: int| 0 <= x < 81 implies #[trigger] big_bb.has(x) == in_field_big(ctx.board, u)(x) by {
                assert(crate::types::Rank::from_val(x % 9).val() == x % 9);
            }
            crate::bitboard::lemma_bb_count_where(big_bb, in_field_big(ctx.board, u), 81);
            crate::bitboard::lemma_count_ones_squares(big_bb);
        }
        let own_big = big_bb.count_ones() as i64;
        let own_small = own_pieces_count - own_big;
        let hand = self.hand(us);
        let val: i64 = own_small + hand.num(PieceType::PAWN) as i64 + hand.num(PieceType::LANCE) as i64
            + hand.num(PieceType::KNIGHT) as i64 + hand.num(PieceType::SILVER) as i64 + hand.num(PieceType::GOLD) as i64
            + (own_big + hand.num(PieceType::BISHOP) as i64 + hand.num(PieceType::ROOK) as i64) * 5;
        let thresh: i64 = if us == Color::BLACK { 28 } else { 27 };
        val >= thresh
    }
}


/// The entering-king rule read on bitboards: with `own` the squares of the three far ranks
/// that hold a piece of the side to move and `big` its bishops, rooks, horses and dragons
/// there, the declaration is won exactly when the king is not in check and stands in
/// those ranks, at least ten more pieces stand there, and the points (one for each piece
/// there but the king and the big ones, and for each small piece in hand; five for each
/// big one there or in hand) reach 28 for Black or 27 for White.
pub proof fn lemma_entering_king_win_by_bitboards(pos: PositionBase, t: AttackTable, own: Bitboard, big: Bitboard)
    requires
        pos.wf(),
        own.wf(),
        big.wf(),
        forall|sq: int| 0 <= sq < 81 ==> #[trigger] own.has(sq) == (holds_color(pos.board_seq(), sq, pos.spec_side_to_move().val())
            && crate::types::Rank::from_val(sq % 9).spec_is_opponent_field(pos.spec_side_to_move())),
        forall|sq: int| 0 <= sq < 81 ==> #[trigger] big.has(sq) == (own.has(sq)
            && (holds_kind(pos.board_seq(), sq, 5) || holds_kind(pos.board_seq(), sq, 6)
                || holds_kind(pos.board_seq(), sq, 13) || holds_kind(pos.board_seq(), sq, 14))),
    ensures ({
        let u = pos.spec_side_to_move().val();
        let ctx = pos.see_context(t, 0);
        let n = crate::bitboard::popcount(own.v[0]) + crate::bitboard::popcount(own.v[1]) - 1;
        let b = crate::bitboard::popcount(big.v[0]) + crate::bitboard::popcount(big.v[1]);
        let h = pos.hands_seq()[u];
        entering_king_win(ctx, pos.occupancy(), pos.hands_seq(), u) == (
            !in_check_by(ctx, pos.occupancy(), u)
            && in_opponent_field(ctx.kings[u] % 9, u)
            && n >= 10
            && (n - b) + h.count(PieceType::PAWN) + h.count(PieceType::LANCE) + h.count(PieceType::KNIGHT)
                + h.count(PieceType::SILVER) + h.count(PieceType::GOLD)
                + 5 * (b + h.count(PieceType::BISHOP) + h.count(PieceType::ROOK)) >= (if u == 0 { 28int } else { 27int }))
    }),
{
    broadcast use Color::lemma_val_range;
    let u = pos.spec_side_to_move().val();
    let ctx = pos.see_context(t, 0);
    assert forall|x: int| 0 <= x < 81 implies #[trigger] own.has(x) == in_field_own(ctx.board, u)(x) by {
        assert(crate::types::Rank::from_val(x % 9).val() == x % 9);
        assert(Color::from_val(u) == pos.spec_side_to_move()) by { broadcast use Color::lemma_from_val; }
    }
    assert forall|x: int| 0 <= x < 81 implies #[trigger] big.has(x) == in_field_big(ctx.board, u)(x) by {
        assert(own.has(x) == in_field_own(ctx.board, u)(x));
    }
    crate::bitboard::lemma_bb_count_where(own, in_field_own(ctx.board, u), 81);
    crate::bitboard::lemma_count_ones_squares(own);
    crate::bitboard::lemma_bb_count_where(big, in_field_big(ctx.board, u), 81);
    crate::bitboard::lemma_count_ones_squares(big);
}

/// A higher balance to reach makes the exchange no better for the side that is ahead after an
/// odd number of captures (`res` 1), and no worse for the other.
proof fn lemma_see_loop_monotone(ctx: SeeContext, prev: int, occ: Bitboard, att: Set<int>, s: int, s2: int, res: int)
    requires
        s <= s2,
        res == 0 || res == 1,
    ensures
        res == 1 ==> (see_loop(ctx, prev, occ, att, s2, res) ==> see_loop(ctx, prev, occ, att, s, res)),
        res == 0 ==> (see_loop(ctx, prev, occ, att, s, res) ==> see_loop(ctx, prev, occ, att, s2, res)),
    decreases bb_count(occ, 81),
{
    let stm = 1 - prev;
    if exists|x: int| #[trigger] see_candidate(ctx, stm, occ, att, x) {
        let i = first_see_kind(ctx, stm, occ, att, 0);
        if i < 13 {
            let k = see_kind(i);
            let sq = lowest_candidate(ctx, stm, occ, att, k, 0);
            let occ1 = toggled(occ, sq);
            let att1 = Set::new(|x: int| 0 <= x < 81 && (att.contains(x) || see_xray(ctx, sq, occ1, x)) && occ1.has(x));
            lemma_first_see_kind(ctx, stm, occ, att, 0);
            let y = choose|y: int| #[trigger] see_candidate(ctx, stm, occ, att, y) && kind_at(ctx.board, y) == k;
            lemma_lowest_candidate(ctx, stm, occ, att, k, 0, y);
            lemma_toggled_count(occ, sq, 81);
            crate::bitboard::lemma_bb_count_nonneg(occ1, 81);
            let v = capture_material(k);
            lemma_see_loop_monotone(ctx, stm, occ1, att1, v - s2, v - s, 1 - res);
        }
    }
}

/// What `see_ge` answers shrinks as the threshold grows: a move that wins at least `t2` in the
/// exchange wins at least any `t1` below it.
pub proof fn lemma_see_ge_monotone(ctx: SeeContext, occupancy: Bitboard, us: int, m: Move, t1: int, t2: int)
    requires
        t1 <= t2,
    ensures
        see_ge_spec(ctx, occupancy, us, m, t2) ==> see_ge_spec(ctx, occupancy, us, m, t1),
{
    let swap0 = capture_material(ctx.board[ctx.to].val() % 16) - t1;
    let swap0b = capture_material(ctx.board[ctx.to].val() % 16) - t2;
    let victim = if m.spec_is_drop() { m.dropped_type_field() as int } else { ctx.board[m.from_field() as int].val() % 16 };
    let occ1 = toggled(occupancy, ctx.to);
    let occ2 = if m.spec_is_drop() { occ1 } else { toggled(occ1, m.from_field() as int) };
    let att = Set::new(|x: int| 0 <= x < 81 && ctx.board[x] != Piece::EMPTY
        && caught_by_any(ctx.t, kind_at(ctx.board, x), color_at(ctx.board, x), ctx.to, occ2, x) && occ2.has(x));
    lemma_see_loop_monotone(ctx, us, occ2, att, capture_material(victim) - swap0, capture_material(victim) - swap0b, 1);
}


impl PositionBase {
    /// The pieces that give check to the king of the side to move.
    pub fn checkers(&self, t: &AttackTable) -> (r: Bitboard)
        requires
            self.wf(),
            t.valid(),
        ensures
            r.wf(),
            forall|x: int| 0 <= x < 81 ==> #[trigger] r.has(x)
                == is_checker(self.see_context(*t, 0), self.occupancy(), self.spec_side_to_move().val(), x),
    {
        proof { broadcast use Color::lemma_val_range; }
        let us = self.side_to_move();
        let ksq = self.king_square(us);
        let occ = self.occupied_bb();
        let r = self.attackers_to(us.inverse(), ksq, &occ, t);
        proof {
            let ctx = self.see_context(*t, 0);
            assert(ctx.kings[us.val()] == ksq.val());
        }
        r
    }

    /// Whether the king of the side to move is in check.
    pub fn in_check(&self, t: &AttackTable) -> (r: bool)
        requires
            self.wf(),
            t.valid(),
        ensures
            r == in_check_by(self.see_context(*t, 0), self.occupancy(), self.spec_side_to_move().val()),
    {
        let c = self.checkers(t);
        proof {
            c.lemma_nonempty();
            let ctx = self.see_context(*t, 0);
            let u = self.spec_side_to_move().val();
            if in_check_by(ctx, self.occupancy(), u) {
                let x = choose|x: int| 0 <= x < 81 && #[trigger] is_checker(ctx, self.occupancy(), u, x);
                assert(c.has(x));
            }
        }
        c.to_bool()
    }

    /// The pieces that stand alone between the king of side `c` and a slider of the other side
    /// aimed at it.
    pub fn blockers_for_king(&self, c: Color, t: &AttackTable, between: &BetweenTable) -> (r: Bitboard)
        requires
            self.wf(),
            t.valid(),
            between.valid(),
        ensures
            r.wf(),
            forall|x: int| 0 <= x < 81 ==> #[trigger] r.has(x) == king_blocker(self.see_context(*t, 0), c.val(), x),
    {
        self.king_blockers(c, t, between, Ghost(self.see_context(*t, 0)))
    }

    /// The sliders of the other side whose one piece between them and the king of side `c`
    /// belongs to side `c`.
    pub fn pinners_for_king(&self, c: Color, t: &AttackTable, between: &BetweenTable) -> (r: Bitboard)
        requires
            self.wf(),
            t.valid(),
            between.valid(),
        ensures
            r.wf(),
            forall|s: int| 0 <= s < 81 ==> #[trigger] r.has(s) == king_pinner(self.see_context(*t, 0), c.val(), s),
    {
        proof { broadcast use Color::lemma_val_range; }
        let ksq = self.king_square(c);
        let (_, pinners) = self.slider_blockers_and_pinners(c.inverse(), ksq, t, between);
        proof {
            let ctx = self.see_context(*t, 0);
            let k = c.val();
            assert(ctx.kings[k] == ksq.val());
            assert(1 - (1 - k) == k);
        }
        pinners
    }
}


/// What SFEN gives back the other way: SFEN fields written as `to_sfen` writes them (of a
/// position whose kings stand on the squares it keeps for them and nowhere else, whose hands
/// have no stray bits, whose ply is at least 1 and which has no more pieces of a kind than the
/// game has) are read to a position whose own fields, and whose text, are the same again.
pub proof fn lemma_sfen_text_round_trip(pos: PositionBase, args: Seq<Seq<char>>)
    requires
        kings_exactly_at(pos.board_seq(), pos.king_squares_seq()[0].val(), pos.king_squares_seq()[1].val()),
        pos.hands_seq()[0].wf(),
        pos.hands_seq()[1].wf(),
        pos.spec_game_ply() >= 1,
        piece_count_fault(pos.board_seq(), pos.hands_seq()) is None,
        args == sfen_fields(pos.model()),
    ensures
        parse_sfen(args) is Ok,
        sfen_fields(parse_sfen(args)->Ok_0) == args,
        position_sfen(parse_sfen(args)->Ok_0) == args[0] + seq![' '] + args[1] + seq![' '] + args[2] + seq![' '] + args[3],
{
    lemma_sfen_round_trip(pos);
}


/// The square that USI names by file character `f` and rank character `r`.
pub open spec fn usi_square(f: char, r: char) -> Option<int> {
    if '1' <= f <= '9' && 'a' <= r <= 'i' {
        Some((f as int - '1' as int) * 9 + (r as int - 'a' as int))
    } else {
        None
    }
}

/// The move that USI text `s` names on `board` with side `stm` to move, before any rule is
/// looked at: a drop `P*5e` of a piece of the side to move, or a move `7g7f` of the piece on
/// the origin, with `+` for a promotion.
pub open spec fn usi_move_candidate(s: Seq<char>, board: Seq<Piece>, stm: Color) -> Option<Move> {
    if s.len() < 4 {
        None
    } else {
        match crate::types::piece_type_from_drop_chars(seq![s[0]]) {
            Some(pt) => if s[1] != '*' || s.len() != 4 {
                None
            } else {
                match usi_square(s[2], s[3]) {
                    Some(to) => Some(Move(crate::movetypes::drop_move_word(16 * stm.val() + pt.val(), to) as u32)),
                    None => None,
                }
            },
            None => match (usi_square(s[0], s[1]), usi_square(s[2], s[3])) {
                (Some(from), Some(to)) => {
                    let pc = board[from].val();
                    if crate::movetypes::board_move_word(from, to, pc, false) == 0 {
                        None
                    } else if s.len() == 4 {
                        Some(Move(crate::movetypes::board_move_word(from, to, pc, false) as u32))
                    } else if s.len() == 5 && s[4] == '+' {
                        Some(Move(crate::movetypes::board_move_word(from, to, pc, true) as u32))
                    } else {
                        None
                    }
                },
                _ => None,
            },
        }
    }
}

/// The pseudo-legality of move `m` for side `us`: `drop_pseudo_legal` or
/// `board_move_pseudo_legal`.
pub open spec fn pseudo_legal_spec(ctx: SeeContext, occ: Bitboard, hands: Seq<Hand>, us: int, m: Move, searching: bool) -> bool {
    if m.spec_is_drop() {
        drop_pseudo_legal(ctx, occ, hands, us, m)
    } else {
        board_move_pseudo_legal(ctx, occ, us, m, searching)
    }
}

/// Three checkers do not depend on the square that the exchange context looks at.
pub proof fn lemma_triple_check_any_square(ctx: SeeContext, to: int, occ: Bitboard, us: int)
    ensures
        triple_check(ctx, occ, us) == triple_check(SeeContext { to: to, ..ctx }, occ, us),
{
    let ctx2 = SeeContext { to: to, ..ctx };
    assert forall|x: int| #[trigger] is_checker(ctx, occ, us, x) == is_checker(ctx2, occ, us, x) by {}
    if triple_check(ctx, occ, us) {
        let (x, y, z) = choose|x: int, y: int, z: int| 0 <= x < y < z < 81 && #[trigger] is_checker(ctx, occ, us, x)
            && #[trigger] is_checker(ctx, occ, us, y) && #[trigger] is_checker(ctx, occ, us, z);
        assert(is_checker(ctx2, occ, us, x) && is_checker(ctx2, occ, us, y) && is_checker(ctx2, occ, us, z));
    }
    if triple_check(ctx2, occ, us) {
        let (x, y, z) = choose|x: int, y: int, z: int| 0 <= x < y < z < 81 && #[trigger] is_checker(ctx2, occ, us, x)
            && #[trigger] is_checker(ctx2, occ, us, y) && #[trigger] is_checker(ctx2, occ, us, z);
        assert(is_checker(ctx, occ, us, x) && is_checker(ctx, occ, us, y) && is_checker(ctx, occ, us, z));
    }
}

fn usi_square_of(f: char, r: char) -> (sq: Option<Square>)
    ensures
        match usi_square(f, r) {
            Some(x) => sq matches Some(s) && s.val() == x,
            None => sq is None,
        },
{
    let file = match File::new_from_usi_char(f) {
        Some(x) => x,
        None => return None,
    };
    let rank = match Rank::new_from_usi_char(r) {
        Some(x) => x,
        None => return None,
    };
    Some(Square::new(file, rank))
}

impl Move {
    /// The move that USI text `s` names in `pos`, when it is pseudo-legal (by the rules outside
    /// the search) and legal; `None` otherwise. A drop of a king (`K*` and a square) is not
    /// taken.
    #[verifier::spinoff_prover]
    #[verifier::rlimit(60)]
    pub fn new_from_usi_str(s: &str, pos: &PositionBase, t: &AttackTable, between: &BetweenTable) -> (r: Option<Move>)
        requires
            !(s@.len() == 4 && s@[0] == 'K' && s@[1] == '*' && usi_square(s@[2], s@[3]) is Some),
            pos.wf(),
            t.valid(),
            between.valid(),
            !triple_check(pos.see_context(*t, 0), pos.occupancy(), pos.spec_side_to_move().val()),
        ensures
            r == match usi_move_candidate(s@, pos.board_seq(), pos.spec_side_to_move()) {
                Some(m) => if pseudo_legal_spec(pos.see_context(*t, m.to_field() as int), pos.occupancy(), pos.hands_seq(),
                    pos.spec_side_to_move().val(), m, false)
                    && legal_spec(pos.see_context(*t, m.to_field() as int), pos.occupancy(), pos.spec_side_to_move().val(), m) {
                    Some(m)
                } else {
                    None
                },
                None => None,
            },
    {
        proof { broadcast use Color::lemma_val_range; }
        let n = s.unicode_len();
        if n < 4 {
            return None;
        }
        let c0 = s.get_char(0);
        let c1 = s.get_char(1);
        let c2 = s.get_char(2);
        let c3 = s.get_char(3);
        let head = s.substring_char(0, 1);
        proof { assert(head@ =~= seq![s@[0]]); }
        let us = pos.side_to_move();
        let m = match PieceType::new_from_str_for_drop_move(head) {
            Some(pt) => {
                if c1 != '*' || n != 4 {
                    return None;
                }
                let to = match usi_square_of(c2, c3) {
                    Some(x) => x,
                    None => return None,
                };
                let pc = Piece::new(us, pt);
                let m = Move::new_drop(pc, to);
                proof {
                    broadcast use Square::lemma_val_range, Piece::lemma_val_range;
                    crate::movetypes::lemma_drop_word_bits(pc.val() as u32, to.val() as u32);
                    broadcast use PieceType::lemma_from_val;
                    assert(pt != PieceType::KING);
                    assert(1 <= pt.val() <= 7);
                    assert(pc.val() % 16 == pt.val());
                    assert(PieceType::from_val(pc.val() % 16) == pt);
                }
                m
            },
            None => {
                let from = match usi_square_of(c0, c1) {
                    Some(x) => x,
                    None => return None,
                };
                let to = match usi_square_of(c2, c3) {
                    Some(x) => x,
                    None => return None,
                };
                let pc = pos.piece_on(from);
                if pc == Piece::EMPTY && from.to_i32() == 0 && to.to_i32() == 0 {
                    return None;
                }
                proof {
                    broadcast use Square::lemma_val_range, Piece::lemma_val_range;
                    crate::movetypes::lemma_board_word_bits(from.val() as u32, to.val() as u32, pc.val() as u32, 0);
                    crate::movetypes::lemma_board_word_bits(from.val() as u32, to.val() as u32, pc.val() as u32, 0x80);
                }
                if n == 4 {
                    Move::new_unpromote(from, to, pc)
                } else if n == 5 && s.get_char(4) == '+' {
                    Move::new_promote(from, to, pc)
                } else {
                    return None;
                }
            },
        };
        proof {
            let ctx0 = pos.see_context(*t, 0);
            lemma_triple_check_any_square(ctx0, m.to_field() as int, pos.occupancy(), us.val());
            assert(pos.see_context(*t, m.to_field() as int) == (SeeContext { to: m.to_field() as int, ..ctx0 }));
        }
        if !pos.pseudo_legal(m, false, t, between) || !pos.legal(m, t, between) {
            return None;
        }
        Some(m)
    }
}

} // verus!
