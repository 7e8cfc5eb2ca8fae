use vstd::prelude::*;
use crate::piecevalue::piece_type_value;
use crate::position::PositionBase;
use crate::types::{Color, KeyExcludedTurn, Piece, PieceType, Square, Value};

verus! {

/// Number of pieces that an evaluation list holds: all forty pieces but the two kings.
pub const LIST_NUM: usize = 38;
/// The evaluation tables are kept this many times finer than a `Value`.
pub const FV_SCALE: i32 = 32;

/// A feature index of the KPP/KKP evaluation: a piece on a square, or the n-th piece of
/// one kind in a hand, seen from one side ("F_" for the side the list is built for,
/// "E_" for its opponent).
#[derive(Debug, Clone, Copy, PartialEq, Eq, Structural)]
pub struct EvalIndex(pub usize);

/// First feature index of the board segment that piece number `pc` falls in (zero for the
/// empty square and the kings, which have no board feature).
pub open spec fn board_base(pc: int) -> int {
    if pc == 1 { 90 }
    else if pc == 2 { 252 }
    else if pc == 3 { 414 }
    else if pc == 4 { 576 }
    else if pc == 5 { 900 }
    else if pc == 6 { 1224 }
    else if pc == 7 || (9 <= pc <= 12) { 738 }
    else if pc == 13 { 1062 }
    else if pc == 14 { 1386 }
    else if pc == 17 { 171 }
    else if pc == 18 { 333 }
    else if pc == 19 { 495 }
    else if pc == 20 { 657 }
    else if pc == 21 { 981 }
    else if pc == 22 { 1305 }
    else if pc == 23 || (25 <= pc <= 28) { 819 }
    else if pc == 29 { 1143 }
    else if pc == 30 { 1467 }
    else { 0 }
}

/// First feature index of the hand segment for piece number `pc` (zero for pieces that
/// never stand in a hand).
pub open spec fn hand_base(pc: int) -> int {
    if pc == 1 { 0 }
    else if pc == 2 { 38 }
    else if pc == 3 { 48 }
    else if pc == 4 { 58 }
    else if pc == 5 { 78 }
    else if pc == 6 { 84 }
    else if pc == 7 { 68 }
    else if pc == 17 { 19 }
    else if pc == 18 { 43 }
    else if pc == 19 { 53 }
    else if pc == 20 { 63 }
    else if pc == 21 { 81 }
    else if pc == 22 { 87 }
    else if pc == 23 { 73 }
    else { 0 }
}

/// The feature index `i` seen from the other side: a hand feature swaps to the
/// opponent's segment of the same kind; a board feature swaps to the opponent's segment
/// and its square turns half round.
pub open spec fn inverse_index(i: int) -> int {
    if i < 19 { i + 19 }
    else if i < 38 { i - 19 }
    else if i < 78 { if ((i - 38) / 5) % 2 == 0 { i + 5 } else { i - 5 } }
    else if i < 90 { if ((i - 78) / 3) % 2 == 0 { i + 3 } else { i - 3 } }
    else {
        let seg = (i - 90) / 81;
        let sq = (i - 90) % 81;
        let other = if seg % 2 == 0 { seg + 1 } else { seg - 1 };
        90 + other * 81 + (80 - sq)
    }
}

impl EvalIndex {
    pub const F_HAND_PAWN: usize = 0;
    pub const E_HAND_PAWN: usize = 19;
    pub const F_HAND_LANCE: usize = 38;
    pub const E_HAND_LANCE: usize = 43;
    pub const F_HAND_KNIGHT: usize = 48;
    pub const E_HAND_KNIGHT: usize = 53;
    pub const F_HAND_SILVER: usize = 58;
    pub const E_HAND_SILVER: usize = 63;
    pub const F_HAND_GOLD: usize = 68;
    pub const E_HAND_GOLD: usize = 73;
    pub const F_HAND_BISHOP: usize = 78;
    pub const E_HAND_BISHOP: usize = 81;
    pub const F_HAND_ROOK: usize = 84;
    pub const E_HAND_ROOK: usize = 87;
    pub const FE_HAND_END: usize = 90;
    pub const F_PAWN: usize = 90;
    pub const E_PAWN: usize = 171;
    pub const F_LANCE: usize = 252;
    pub const E_LANCE: usize = 333;
    pub const F_KNIGHT: usize = 414;
    pub const E_KNIGHT: usize = 495;
    pub const F_SILVER: usize = 576;
    pub const E_SILVER: usize = 657;
    pub const F_GOLD: usize = 738;
    pub const E_GOLD: usize = 819;
    pub const F_BISHOP: usize = 900;
    pub const E_BISHOP: usize = 981;
    pub const F_HORSE: usize = 1062;
    pub const E_HORSE: usize = 1143;
    pub const F_ROOK: usize = 1224;
    pub const E_ROOK: usize = 1305;
    pub const F_DRAGON: usize = 1386;
    pub const E_DRAGON: usize = 1467;
    pub const FE_END: usize = 1548;

    /// The first board feature of piece `pc`; a square's number is added to it.
    pub fn new_board(pc: Piece) -> (r: EvalIndex)
        ensures r.0 == board_base(pc.val()),
    {
        let p = pc.to_i32();
        let base: usize = if p == 1 { EvalIndex::F_PAWN }
            else if p == 2 { EvalIndex::F_LANCE }
            else if p == 3 { EvalIndex::F_KNIGHT }
            else if p == 4 { EvalIndex::F_SILVER }
            else if p == 5 { EvalIndex::F_BISHOP }
            else if p == 6 { EvalIndex::F_ROOK }
            else if p == 7 || (9 <= p && p <= 12) { EvalIndex::F_GOLD }
            else if p == 13 { EvalIndex::F_HORSE }
            else if p == 14 { EvalIndex::F_DRAGON }
            else if p == 17 { EvalIndex::E_PAWN }
            else if p == 18 { EvalIndex::E_LANCE }
            else if p == 19 { EvalIndex::E_KNIGHT }
            else if p == 20 { EvalIndex::E_SILVER }
            else if p == 21 { EvalIndex::E_BISHOP }
            else if p == 22 { EvalIndex::E_ROOK }
            else if p == 23 || (25 <= p && p <= 28) { EvalIndex::E_GOLD }
            else if p == 29 { EvalIndex::E_HORSE }
            else if p == 30 { EvalIndex::E_DRAGON }
            else { 0 };
        EvalIndex(base)
    }

    /// The hand feature just below the first piece of kind `pc` in a hand; the count of
    /// such pieces (one or more) is added to it.
    pub fn new_hand(pc: Piece) -> (r: EvalIndex)
        ensures r.0 == hand_base(pc.val()),
    {
        let p = pc.to_i32();
        let base: usize = if p == 1 { EvalIndex::F_HAND_PAWN }
            else if p == 2 { EvalIndex::F_HAND_LANCE }
            else if p == 3 { EvalIndex::F_HAND_KNIGHT }
            else if p == 4 { EvalIndex::F_HAND_SILVER }
            else if p == 5 { EvalIndex::F_HAND_BISHOP }
            else if p == 6 { EvalIndex::F_HAND_ROOK }
            else if p == 7 { EvalIndex::F_HAND_GOLD }
            else if p == 17 { EvalIndex::E_HAND_PAWN }
            else if p == 18 { EvalIndex::E_HAND_LANCE }
            else if p == 19 { EvalIndex::E_HAND_KNIGHT }
            else if p == 20 { EvalIndex::E_HAND_SILVER }
            else if p == 21 { EvalIndex::E_HAND_BISHOP }
            else if p == 22 { EvalIndex::E_HAND_ROOK }
            else if p == 23 { EvalIndex::E_HAND_GOLD }
            else { 0 };
        EvalIndex(base)
    }

    /// This feature seen from the other side.
    pub fn inverse(self) -> (r: EvalIndex)
        requires self.0 < EvalIndex::FE_END,
        ensures r.0 == inverse_index(self.0 as int), r.0 < EvalIndex::FE_END,
    {
        let i = self.0;
        if i < 19 {
            EvalIndex(i + 19)
        } else if i < 38 {
            EvalIndex(i - 19)
        } else if i < 78 {
            if ((i - 38) / 5) % 2 == 0 { EvalIndex(i + 5) } else { EvalIndex(i - 5) }
        } else if i < 90 {
            if ((i - 78) / 3) % 2 == 0 { EvalIndex(i + 3) } else { EvalIndex(i - 3) }
        } else {
            let seg = (i - 90) / 81;
            let sq = (i - 90) % 81;
            let other = if seg % 2 == 0 { seg + 1 } else { seg - 1 };
            EvalIndex(90 + other * 81 + (80 - sq))
        }
    }
}

/// Seen from the other side twice, a feature is itself again.
pub proof fn lemma_inverse_involution(i: int)
    requires 0 <= i < 1548,
    ensures
        0 <= inverse_index(i) < 1548,
        inverse_index(inverse_index(i)) == i,
{
    if i >= 90 {
        let seg = (i - 90) / 81;
        let sq = (i - 90) % 81;
        let other = if seg % 2 == 0 { seg + 1 } else { seg - 1 };
        let j = 90 + other * 81 + (80 - sq);
        assert(0 <= seg < 18 && 0 <= sq < 81);
        assert(0 <= other < 18);
        assert((j - 90) / 81 == other && (j - 90) % 81 == 80 - sq) by (nonlinear_arith)
            requires j == 90 + other * 81 + (80 - sq), 0 <= sq < 81, 0 <= other;
        assert(other % 2 != seg % 2);
        assert(i == 90 + seg * 81 + sq) by (nonlinear_arith)
            requires seg == (i - 90) / 81, sq == (i - 90) % 81, i >= 90;
    } else if i >= 78 {
        let k = (i - 78) / 3;
        assert(0 <= k < 4);
    } else if i >= 38 {
        let k = (i - 38) / 5;
        assert(0 <= k < 8);
    }
}

/// Length of the KPP table: for each square of a king and each pair of features, a
/// board value and a turn value.
pub const KPP_LEN: usize = 388201248;
/// Length of the KKP table: for each pair of king squares and each feature, a board
/// value and a turn value.
pub const KKP_LEN: usize = 20312856;

/// Position in the KPP table of the board value for a king on `sq` and features `i`, `j`
/// (the turn value follows it).
pub open spec fn kpp_index(sq: int, i: int, j: int) -> int {
    ((sq * 1548 + i) * 1548 + j) * 2
}

/// Position in the KKP table of the board value for kings on `sq0`, `sq1` and feature `i`.
pub open spec fn kkp_index(sq0: int, sq1: int, i: int) -> int {
    ((sq0 * 81 + sq1) * 1548 + i) * 2
}

/// The KPP entry (component `c`: 0 board, 1 turn) for a king on `sq` and features `i`, `j`.
pub open spec fn kpp_val(t: Seq<i16>, sq: int, i: int, j: int, c: int) -> int {
    t[kpp_index(sq, i, j) + c] as int
}

/// The KKP entry (component `c`) for kings on `sq0`, `sq1` and feature `i`.
pub open spec fn kkp_val(t: Seq<i16>, sq0: int, sq1: int, i: int, c: int) -> int {
    t[kkp_index(sq0, sq1, i) + c] as int
}

/// Sum, over the first `n` features of list `l`, of the KPP entries pairing feature `e`
/// with each of them, for a king on `sq`.
pub open spec fn row_sum(t: Seq<i16>, sq: int, e: int, l: Seq<EvalIndex>, n: int, c: int) -> int
    decreases n,
{
    if n <= 0 { 0 } else { row_sum(t, sq, e, l, n - 1, c) + kpp_val(t, sq, e, l[n - 1].0 as int, c) }
}

/// Sum of the KPP entries over all pairs `j < i < n` of features of list `l`, for a king
/// on `sq`.
pub open spec fn tri_sum(t: Seq<i16>, sq: int, l: Seq<EvalIndex>, n: int, c: int) -> int
    decreases n,
{
    if n <= 0 { 0 } else { tri_sum(t, sq, l, n - 1, c) + row_sum(t, sq, l[n - 1].0 as int, l, n - 1, c) }
}

/// Sum of the KKP entries over the first `n` features of list `l`, for kings on `sq0`, `sq1`.
pub open spec fn kkp_sum(t: Seq<i16>, sq0: int, sq1: int, l: Seq<EvalIndex>, n: int, c: int) -> int
    decreases n,
{
    if n <= 0 { 0 } else { kkp_sum(t, sq0, sq1, l, n - 1, c) + kkp_val(t, sq0, sq1, l[n - 1].0 as int, c) }
}

pub proof fn lemma_row_sum_bound(t: Seq<i16>, sq: int, e: int, l: Seq<EvalIndex>, n: int, c: int)
    requires 0 <= n,
    ensures -32768 * n <= row_sum(t, sq, e, l, n, c) <= 32767 * n,
    decreases n,
{
    if n > 0 {
        lemma_row_sum_bound(t, sq, e, l, n - 1, c);
    }
}

pub proof fn lemma_tri_sum_bound(t: Seq<i16>, sq: int, l: Seq<EvalIndex>, n: int, c: int)
    requires 0 <= n <= 38,
    ensures -32768 * (n * (n - 1) / 2) <= tri_sum(t, sq, l, n, c) <= 32767 * (n * (n - 1) / 2),
    decreases n,
{
    if n > 0 {
        lemma_tri_sum_bound(t, sq, l, n - 1, c);
        lemma_row_sum_bound(t, sq, l[n - 1].0 as int, l, n - 1, c);
        assert(n * (n - 1) / 2 == (n - 1) * (n - 2) / 2 + (n - 1)) by (nonlinear_arith)
            requires n > 0;
    }
}

pub proof fn lemma_kkp_sum_bound(t: Seq<i16>, sq0: int, sq1: int, l: Seq<EvalIndex>, n: int, c: int)
    requires 0 <= n,
    ensures -32768 * n <= kkp_sum(t, sq0, sq1, l, n, c) <= 32767 * n,
    decreases n,
{
    if n > 0 {
        lemma_kkp_sum_bound(t, sq0, sq1, l, n - 1, c);
    }
}

/// The features of the thirty-eight pieces other than the kings, each seen from Black
/// (`black`) and from White (`white`).
#[derive(Clone)]
pub struct EvalList {
    pub black: Vec<EvalIndex>,
    pub white: Vec<EvalIndex>,
}

impl EvalList {
    /// Both lists hold `LIST_NUM` features, each a valid feature index.
    pub open spec fn wf(&self) -> bool {
        &&& self.black.len() == LIST_NUM
        &&& self.white.len() == LIST_NUM
        &&& forall|k: int| 0 <= k < LIST_NUM ==> #[trigger] self.black@[k].0 < EvalIndex::FE_END
        &&& forall|k: int| 0 <= k < LIST_NUM ==> #[trigger] self.white@[k].0 < EvalIndex::FE_END
    }

    /// A list of `LIST_NUM` zero features.
    pub fn new_zero() -> (r: EvalList)
        ensures
            r.wf(),
            forall|k: int| 0 <= k < LIST_NUM ==> #[trigger] r.black@[k].0 == 0,
            forall|k: int| 0 <= k < LIST_NUM ==> #[trigger] r.white@[k].0 == 0,
    {
        let mut black: Vec<EvalIndex> = Vec::new();
        let mut white: Vec<EvalIndex> = Vec::new();
        let mut k: usize = 0;
        while k < LIST_NUM
            invariant
                k <= LIST_NUM,
                black.len() == k,
                white.len() == k,
                forall|m: int| 0 <= m < k ==> #[trigger] black@[m].0 == 0,
                forall|m: int| 0 <= m < k ==> #[trigger] white@[m].0 == 0,
            decreases LIST_NUM - k,
        {
            black.push(EvalIndex(0));
            white.push(EvalIndex(0));
            k = k + 1;
        }
        EvalList { black, white }
    }

    /// The feature at `list_index`, seen from `base_color`.
    pub fn get(&self, list_index: usize, base_color: Color) -> (r: EvalIndex)
        requires self.wf(), list_index < LIST_NUM,
        ensures
            r == (if base_color == Color::BLACK { self.black@[list_index as int] } else { self.white@[list_index as int] }),
    {
        match base_color {
            Color::BLACK => self.black[list_index],
            Color::WHITE => self.white[list_index],
        }
    }

    /// Puts `eval_index` at `list_index`, seen from `base_color`.
    pub fn set(&mut self, list_index: usize, base_color: Color, eval_index: EvalIndex)
        requires old(self).wf(), list_index < LIST_NUM, eval_index.0 < EvalIndex::FE_END,
        ensures
            final(self).wf(),
            base_color == Color::BLACK ==> final(self).black@ == old(self).black@.update(list_index as int, eval_index)
                && final(self).white@ == old(self).white@,
            base_color == Color::WHITE ==> final(self).white@ == old(self).white@.update(list_index as int, eval_index)
                && final(self).black@ == old(self).black@,
    {
        match base_color {
            Color::BLACK => { self.black.set(list_index, eval_index); }
            Color::WHITE => { self.white.set(list_index, eval_index); }
        }
    }
}

/// The piece number seen from the other side (colour swapped).
pub open spec fn opposite_piece(pc: int) -> int {
    if pc < 16 { pc + 16 } else { pc - 16 }
}

/// The order in which the pieces in hand enter an evaluation list: pawns, lances,
/// knights, silvers, bishops, rooks and golds, Black's before White's.
pub open spec fn hand_order(k: int) -> Piece {
    if k == 0 { Piece::B_PAWN }
    else if k == 1 { Piece::W_PAWN }
    else if k == 2 { Piece::B_LANCE }
    else if k == 3 { Piece::W_LANCE }
    else if k == 4 { Piece::B_KNIGHT }
    else if k == 5 { Piece::W_KNIGHT }
    else if k == 6 { Piece::B_SILVER }
    else if k == 7 { Piece::W_SILVER }
    else if k == 8 { Piece::B_BISHOP }
    else if k == 9 { Piece::W_BISHOP }
    else if k == 10 { Piece::B_ROOK }
    else if k == 11 { Piece::W_ROOK }
    else if k == 12 { Piece::B_GOLD }
    else { Piece::W_GOLD }
}

fn hand_order_piece(k: usize) -> (r: Piece)
    requires k < 14,
    ensures r == hand_order(k as int),
{
    if k == 0 { Piece::B_PAWN }
    else if k == 1 { Piece::W_PAWN }
    else if k == 2 { Piece::B_LANCE }
    else if k == 3 { Piece::W_LANCE }
    else if k == 4 { Piece::B_KNIGHT }
    else if k == 5 { Piece::W_KNIGHT }
    else if k == 6 { Piece::B_SILVER }
    else if k == 7 { Piece::W_SILVER }
    else if k == 8 { Piece::B_BISHOP }
    else if k == 9 { Piece::W_BISHOP }
    else if k == 10 { Piece::B_ROOK }
    else if k == 11 { Piece::W_ROOK }
    else if k == 12 { Piece::B_GOLD }
    else { Piece::W_GOLD }
}

/// How many pieces of kind and colour `pc` stand in the hands of `pos`.
pub open spec fn hand_count(pos: PositionBase, pc: Piece) -> int {
    pos.hands_seq()[pc.val() / 16].count(PieceType::from_val(pc.val() % 16)) as int
}

/// The features of `n` pieces `pc` in hand, counted from one, seen from Black or, with
/// `white_view`, from White.
pub open spec fn hand_run(pc: int, n: int, white_view: bool) -> Seq<EvalIndex> {
    let base = hand_base(if white_view { opposite_piece(pc) } else { pc });
    Seq::new(n as nat, |k: int| EvalIndex((base + k + 1) as usize))
}

/// The features of the pieces in hand, over the first `k` kinds of `hand_order`.
pub open spec fn hand_features(pos: PositionBase, k: int, white_view: bool) -> Seq<EvalIndex>
    decreases k,
{
    if k <= 0 {
        Seq::empty()
    } else {
        let pc = hand_order(k - 1);
        hand_features(pos, k - 1, white_view) + hand_run(pc.val(), hand_count(pos, pc), white_view)
    }
}

/// The features of the pieces but kings on the first `m` squares, in square order.
pub open spec fn board_features(board: Seq<Piece>, m: int, white_view: bool) -> Seq<EvalIndex>
    decreases m,
{
    if m <= 0 {
        Seq::empty()
    } else {
        let pc = board[m - 1];
        let rest = board_features(board, m - 1, white_view);
        if pc != Piece::EMPTY && !pc.is_king_spec() {
            let e = if white_view { board_base(opposite_piece(pc.val())) + (80 - (m - 1)) } else { board_base(pc.val()) + (m - 1) };
            rest.push(EvalIndex(e as usize))
        } else {
            rest
        }
    }
}

/// The features of every piece of `pos` but the kings: those in hand, then those on the
/// board by square number.
pub open spec fn position_features(pos: PositionBase, white_view: bool) -> Seq<EvalIndex> {
    hand_features(pos, 14, white_view) + board_features(pos.board_seq(), 81, white_view)
}

proof fn lemma_hand_features_len(pos: PositionBase, k: int, k2: int)
    requires 0 <= k <= k2,
    ensures
        hand_features(pos, k, false).len() == hand_features(pos, k, true).len(),
        hand_features(pos, k, false).len() <= hand_features(pos, k2, false).len(),
    decreases k2,
{
    if k2 > k {
        lemma_hand_features_len(pos, k, k2 - 1);
    } else if k > 0 {
        lemma_hand_features_len(pos, k - 1, k - 1);
    }
}

proof fn lemma_board_features_len(board: Seq<Piece>, m: int)
    requires 0 <= m,
    ensures board_features(board, m, false).len() == board_features(board, m, true).len(),
    decreases m,
{
    if m > 0 {
        lemma_board_features_len(board, m - 1);
    }
}

impl EvalList {
    /// The list of `pos`: the features of its pieces but the kings (those in hand first,
    /// in `hand_order` and counted from one, then those on the board by square number),
    /// from Black and from White, the rest of the `LIST_NUM` entries zero.
    pub fn new(pos: &PositionBase) -> (r: EvalList)
        requires position_features(*pos, false).len() <= LIST_NUM,
        ensures
            r.wf(),
            r.black@ == position_features(*pos, false)
                + Seq::new((LIST_NUM - position_features(*pos, false).len()) as nat, |k: int| EvalIndex(0)),
            r.white@ == position_features(*pos, true)
                + Seq::new((LIST_NUM - position_features(*pos, true).len()) as nat, |k: int| EvalIndex(0)),
    {
        let ghost total = position_features(*pos, false).len();
        proof {
            lemma_hand_features_len(*pos, 14, 14);
            lemma_board_features_len(pos.board_seq(), 81);
        }
        let mut black: Vec<EvalIndex> = Vec::new();
        let mut white: Vec<EvalIndex> = Vec::new();
        let mut k: usize = 0;
        while k < 14
            invariant
                k <= 14,
                black@ == hand_features(*pos, k as int, false),
                white@ == hand_features(*pos, k as int, true),
                hand_features(*pos, 14, false).len() <= LIST_NUM,
                forall|j: int| 0 <= j < black.len() ==> #[trigger] black@[j].0 < 128,
                forall|j: int| 0 <= j < white.len() ==> #[trigger] white@[j].0 < 128,
            decreases 14 - k,
        {
            let pc = hand_order_piece(k);
            let opp = pc.inverse();
            let c = Color::new(pc);
            let pt = PieceType::new(pc);
            proof {
                broadcast use PieceType::lemma_from_val;
                lemma_hand_features_len(*pos, k as int + 1, 14);
                lemma_hand_features_len(*pos, k as int, k as int);
            }
            let n = pos.hand(c).num(pt);
            let base_b = EvalIndex::new_hand(pc).0;
            let base_w = EvalIndex::new_hand(opp).0;
            let ghost start_b = black@;
            let ghost start_w = white@;
            let mut i: u32 = 0;
            while i < n
                invariant
                    i <= n, n as int == hand_count(*pos, pc), n <= LIST_NUM,
                    pc == hand_order(k as int),
                    base_b as int == hand_base(pc.val()),
                    base_w as int == hand_base(opposite_piece(pc.val())),
                    base_b <= 87, base_w <= 87,
                    black@ == start_b + hand_run(pc.val(), i as int, false),
                    white@ == start_w + hand_run(pc.val(), i as int, true),
                    forall|j: int| 0 <= j < black.len() ==> #[trigger] black@[j].0 < 128,
                    forall|j: int| 0 <= j < white.len() ==> #[trigger] white@[j].0 < 128,
                decreases n - i,
            {
                black.push(EvalIndex(base_b + i as usize + 1));
                white.push(EvalIndex(base_w + i as usize + 1));
                i = i + 1;
                proof {
                    assert(black@ =~= start_b + hand_run(pc.val(), i as int, false));
                    assert(white@ =~= start_w + hand_run(pc.val(), i as int, true));
                }
            }
            k = k + 1;
        }
        let ghost hb = black@;
        let ghost hw = white@;
        let mut sq: usize = 0;
        while sq < 81
            invariant
                sq <= 81,
                hb == hand_features(*pos, 14, false),
                hw == hand_features(*pos, 14, true),
                black@ == hb + board_features(pos.board_seq(), sq as int, false),
                white@ == hw + board_features(pos.board_seq(), sq as int, true),
                forall|j: int| 0 <= j < black.len() ==> #[trigger] black@[j].0 < EvalIndex::FE_END,
                forall|j: int| 0 <= j < white.len() ==> #[trigger] white@[j].0 < EvalIndex::FE_END,
            decreases 81 - sq,
        {
            let pc = pos.piece_on(Square(sq as i32));
            if pc != Piece::EMPTY && !pc.is_king() {
                let opp = pc.inverse();
                let eb = EvalIndex::new_board(pc).0 + sq;
                let ew = EvalIndex::new_board(opp).0 + (80 - sq);
                proof { broadcast use Piece::lemma_val_range; }
                black.push(EvalIndex(eb));
                white.push(EvalIndex(ew));
            }
            sq = sq + 1;
            proof {
                assert(black@ =~= hb + board_features(pos.board_seq(), sq as int, false));
                assert(white@ =~= hw + board_features(pos.board_seq(), sq as int, true));
            }
        }
        proof {
            assert(black@ =~= position_features(*pos, false));
            assert(white@ =~= position_features(*pos, true));
        }
        let ghost fb = black@;
        let ghost fw = white@;
        while black.len() < LIST_NUM
            invariant
                fb.len() <= black.len() <= LIST_NUM,
                fw.len() == fb.len(),
                white.len() == black.len(),
                black@ == fb + Seq::new((black.len() - fb.len()) as nat, |k: int| EvalIndex(0)),
                white@ == fw + Seq::new((white.len() - fw.len()) as nat, |k: int| EvalIndex(0)),
                forall|j: int| 0 <= j < black.len() ==> #[trigger] black@[j].0 < EvalIndex::FE_END,
                forall|j: int| 0 <= j < white.len() ==> #[trigger] white@[j].0 < EvalIndex::FE_END,
            decreases LIST_NUM - black.len(),
        {
            black.push(EvalIndex(0));
            white.push(EvalIndex(0));
            proof {
                assert(black@ =~= fb + Seq::new((black.len() - fb.len()) as nat, |k: int| EvalIndex(0)));
                assert(white@ =~= fw + Seq::new((white.len() - fw.len()) as nat, |k: int| EvalIndex(0)));
            }
        }
        EvalList { black, white }
    }
}

/// The signed material of the pieces on the first `m` squares: Black's count up, White's down.
pub open spec fn board_material(board: Seq<Piece>, m: int) -> int
    decreases m,
{
    if m <= 0 {
        0
    } else {
        let pc = board[m - 1].val();
        board_material(board, m - 1)
            + (if pc == 0 { 0 } else if pc < 16 { crate::piecevalue::material(pc % 16) } else { -crate::piecevalue::material(pc % 16) })
    }
}

/// The signed material of the pieces in hand, over the first `k` kinds pawn to gold.
pub open spec fn hand_material(pos: PositionBase, k: int) -> int
    decreases k,
{
    if k <= 0 {
        0
    } else {
        hand_material(pos, k - 1)
            + (hand_count(pos, hand_order(2 * (k - 1))) - hand_count(pos, hand_order(2 * (k - 1) + 1))) * crate::piecevalue::material(k)
    }
}

/// The material balance of `pos` from Black's side: its pieces on the board and in hand.
pub open spec fn position_material_spec(pos: PositionBase) -> int {
    board_material(pos.board_seq(), 81) + hand_material(pos, 7)
}

proof fn lemma_board_material_bound(board: Seq<Piece>, m: int)
    requires 0 <= m,
    ensures -1395 * m <= board_material(board, m) <= 1395 * m,
    decreases m,
{
    if m > 0 {
        lemma_board_material_bound(board, m - 1);
    }
}

proof fn lemma_hand_count_bound(pos: PositionBase, k: int)
    requires 0 <= k < 14, hand_features(pos, 14, false).len() <= LIST_NUM,
    ensures 0 <= hand_count(pos, hand_order(k)) <= LIST_NUM,
{
    lemma_hand_features_len(pos, k + 1, 14);
    lemma_hand_features_len(pos, k, k);
}

proof fn lemma_hand_material_bound(pos: PositionBase, k: int)
    requires 0 <= k <= 7, hand_features(pos, 14, false).len() <= LIST_NUM,
    ensures -37620 * k <= hand_material(pos, k) <= 37620 * k,
    decreases k,
{
    if k > 0 {
        lemma_hand_material_bound(pos, k - 1);
        lemma_hand_count_bound(pos, 2 * (k - 1));
        lemma_hand_count_bound(pos, 2 * (k - 1) + 1);
        let d = hand_count(pos, hand_order(2 * (k - 1))) - hand_count(pos, hand_order(2 * (k - 1) + 1));
        assert(hand_material(pos, k) == hand_material(pos, k - 1) + d * crate::piecevalue::material(k));
        assert(-38 <= d <= 38);
        assert(0 <= crate::piecevalue::material(k) <= 990);
        let t = d * crate::piecevalue::material(k);
        assert(-37620 <= t <= 37620) by (nonlinear_arith)
            requires -38 <= d <= 38, 0 <= crate::piecevalue::material(k) <= 990, t == d * crate::piecevalue::material(k);
        assert(hand_material(pos, k) == hand_material(pos, k - 1) + t);
        assert(-37620 * (k - 1) <= hand_material(pos, k - 1) <= 37620 * (k - 1));
    }
}

/// The material balance of `pos` from Black's side: the value of each piece on the board
/// (kings count for nothing) and in hand, Black's counted up and White's down.
pub fn position_material(pos: &PositionBase) -> (r: Value)
    requires position_features(*pos, false).len() <= LIST_NUM,
    ensures
        r.0 == position_material_spec(*pos),
        -0x10_0000 <= r.0 <= 0x10_0000,
{
    proof {
        lemma_board_material_bound(pos.board_seq(), 81);
        lemma_hand_material_bound(*pos, 7);
    }
    let mut val: i32 = 0;
    let mut sq: usize = 0;
    while sq < 81
        invariant
            sq <= 81,
            val == board_material(pos.board_seq(), sq as int),
        decreases 81 - sq,
    {
        proof { lemma_board_material_bound(pos.board_seq(), sq as int); }
        let pc = pos.piece_on(Square(sq as i32));
        let p = pc.to_i32();
        if p != 0 {
            let v = piece_type_value(PieceType::new(pc)).0;
            if p < 16 { val = val + v; } else { val = val - v; }
        }
        sq = sq + 1;
    }
    let mut k: usize = 0;
    let mut hv: i32 = 0;
    while k < 7
        invariant
            k <= 7,
            hand_features(*pos, 14, false).len() <= LIST_NUM,
            hv == hand_material(*pos, k as int),
        decreases 7 - k,
    {
        proof {
            lemma_hand_material_bound(*pos, k as int);
            lemma_hand_material_bound(*pos, k as int + 1);
            lemma_hand_count_bound(*pos, 2 * k as int);
            lemma_hand_count_bound(*pos, 2 * k as int + 1);
            broadcast use PieceType::lemma_from_val;
        }
        let pc_b = hand_order_piece(2 * k);
        let pc_w = hand_order_piece(2 * k + 1);
        let pt = PieceType::new(pc_b);
        let nb = pos.hand(Color::new(pc_b)).num(pt);
        let pt_w = PieceType::new(pc_w);
        let nw = pos.hand(Color::new(pc_w)).num(pt_w);
        let v = piece_type_value(pt).0;
        proof {
            assert(pt == PieceType::from_val(pt.val()));
            assert(pt_w == PieceType::from_val(pc_w.val() % 16));
            assert(nb as int == hand_count(*pos, pc_b));
            assert(nw as int == hand_count(*pos, pc_w));
            assert(v == crate::piecevalue::material(k as int + 1));
            let d = nb as int - nw as int;
            assert(-37620 <= d * v <= 37620) by (nonlinear_arith)
                requires -38 <= d <= 38, 0 <= v <= 990;
            assert(hand_material(*pos, k as int + 1) == hand_material(*pos, k as int) + d * v);
        }
        hv = hv + (nb as i32 - nw as i32) * v;
        k = k + 1;
        proof {
            assert(hv == hand_material(*pos, k as int));
        }
    }
    Value(val + hv)
}

impl Evaluator {
    /// The evaluation of `pos` from scratch: its evaluation list, material and king squares
    /// summed into `sum` (key zero), and the score for the side to move divided by
    /// `FV_SCALE` toward zero.
    pub fn evaluate_position(&self, pos: &PositionBase, sum: &mut EvalSum) -> (r: Value)
        requires self.valid(), position_features(*pos, false).len() <= LIST_NUM,
        ensures ({
            let list = EvalList::spec_new(*pos);
            &&& final(sum).terms() == full_terms(self.kpp@, self.kkp@,
                pos.king_squares_seq()[0].val(), pos.king_squares_seq()[1].val(),
                list.0, list.1, position_material_spec(*pos))
            &&& final(sum).key.0 == 0
            &&& r.0 == trunc_div(total(final(sum).terms(), pos.spec_side_to_move()), 32)
        }),
    {
        let list = EvalList::new(pos);
        let material = position_material(pos);
        let sq_bk = pos.king_square(Color::BLACK);
        let sq_wk = pos.king_square(Color::WHITE);
        self.evaluate_at_root(sq_bk, sq_wk, &list, material, pos.side_to_move(), sum)
    }
}

impl EvalList {
    /// The features that `new` lists for `pos`, from Black and from White, padded with zero.
    pub open spec fn spec_new(pos: PositionBase) -> (Seq<EvalIndex>, Seq<EvalIndex>) {
        (
            position_features(pos, false) + Seq::new((LIST_NUM - position_features(pos, false).len()) as nat, |k: int| EvalIndex(0)),
            position_features(pos, true) + Seq::new((LIST_NUM - position_features(pos, true).len()) as nat, |k: int| EvalIndex(0)),
        )
    }
}

/// The KPP and KKP tables of the evaluation, flattened.
pub struct Evaluator {
    pub kpp: Vec<i16>,
    pub kkp: Vec<i16>,
}

impl Evaluator {
    /// Both tables have their full size.
    pub open spec fn valid(&self) -> bool {
        self.kpp.len() == KPP_LEN && self.kkp.len() == KKP_LEN
    }

    /// The KPP entry (board, turn) for a king on `sq` and features `i`, `j`.
    pub fn kpp(&self, sq: Square, i: EvalIndex, j: EvalIndex) -> (r: (i16, i16))
        requires self.valid(), i.0 < EvalIndex::FE_END, j.0 < EvalIndex::FE_END,
        ensures
            r.0 == kpp_val(self.kpp@, sq.val(), i.0 as int, j.0 as int, 0),
            r.1 == kpp_val(self.kpp@, sq.val(), i.0 as int, j.0 as int, 1),
    {
        let s = sq.to_i32() as usize;
        let idx = ((s * 1548 + i.0) * 1548 + j.0) * 2;
        (self.kpp[idx], self.kpp[idx + 1])
    }

    /// The KKP entry (board, turn) for kings on `sq0`, `sq1` and feature `i`.
    pub fn kkp(&self, sq0: Square, sq1: Square, i: EvalIndex) -> (r: (i16, i16))
        requires self.valid(), i.0 < EvalIndex::FE_END,
        ensures
            r.0 == kkp_val(self.kkp@, sq0.val(), sq1.val(), i.0 as int, 0),
            r.1 == kkp_val(self.kkp@, sq0.val(), sq1.val(), i.0 as int, 1),
    {
        let s0 = sq0.to_i32() as usize;
        let s1 = sq1.to_i32() as usize;
        let idx = ((s0 * 81 + s1) * 1548 + i.0) * 2;
        (self.kkp[idx], self.kkp[idx + 1])
    }

    /// Sum over list `l` of the KPP entries pairing feature `e` with each listed feature,
    /// for a king on `sq`.
    fn row(&self, sq: Square, e: EvalIndex, l: &Vec<EvalIndex>, n: usize) -> (r: (i32, i32))
        requires
            self.valid(), e.0 < EvalIndex::FE_END, l.len() == LIST_NUM, n <= LIST_NUM,
            forall|k: int| 0 <= k < LIST_NUM ==> #[trigger] l@[k].0 < EvalIndex::FE_END,
        ensures
            r.0 == row_sum(self.kpp@, sq.val(), e.0 as int, l@, n as int, 0),
            r.1 == row_sum(self.kpp@, sq.val(), e.0 as int, l@, n as int, 1),
    {
        let mut s0: i32 = 0;
        let mut s1: i32 = 0;
        let mut k: usize = 0;
        while k < n
            invariant
                self.valid(), e.0 < EvalIndex::FE_END, l.len() == LIST_NUM,
                forall|m: int| 0 <= m < LIST_NUM ==> #[trigger] l@[m].0 < EvalIndex::FE_END,
                k <= n, n <= LIST_NUM,
                s0 == row_sum(self.kpp@, sq.val(), e.0 as int, l@, k as int, 0),
                s1 == row_sum(self.kpp@, sq.val(), e.0 as int, l@, k as int, 1),
            decreases n - k,
        {
            proof {
                lemma_row_sum_bound(self.kpp@, sq.val(), e.0 as int, l@, k as int, 0);
                lemma_row_sum_bound(self.kpp@, sq.val(), e.0 as int, l@, k as int, 1);
            }
            let v = self.kpp(sq, e, l[k]);
            s0 = s0 + v.0 as i32;
            s1 = s1 + v.1 as i32;
            k = k + 1;
        }
        (s0, s1)
    }

    /// The KKP entries summed over list `l`, for kings on `sq0`, `sq1`.
    fn kkp_row(&self, sq0: Square, sq1: Square, l: &Vec<EvalIndex>) -> (r: (i32, i32))
        requires
            self.valid(), l.len() == LIST_NUM,
            forall|k: int| 0 <= k < LIST_NUM ==> #[trigger] l@[k].0 < EvalIndex::FE_END,
        ensures
            r.0 == kkp_sum(self.kkp@, sq0.val(), sq1.val(), l@, LIST_NUM as int, 0),
            r.1 == kkp_sum(self.kkp@, sq0.val(), sq1.val(), l@, LIST_NUM as int, 1),
    {
        let mut s0: i32 = 0;
        let mut s1: i32 = 0;
        let mut k: usize = 0;
        while k < LIST_NUM
            invariant
                self.valid(), l.len() == LIST_NUM,
                forall|m: int| 0 <= m < LIST_NUM ==> #[trigger] l@[m].0 < EvalIndex::FE_END,
                k <= LIST_NUM,
                s0 == kkp_sum(self.kkp@, sq0.val(), sq1.val(), l@, k as int, 0),
                s1 == kkp_sum(self.kkp@, sq0.val(), sq1.val(), l@, k as int, 1),
            decreases LIST_NUM - k,
        {
            proof {
                lemma_kkp_sum_bound(self.kkp@, sq0.val(), sq1.val(), l@, k as int, 0);
                lemma_kkp_sum_bound(self.kkp@, sq0.val(), sq1.val(), l@, k as int, 1);
            }
            let v = self.kkp(sq0, sq1, l[k]);
            s0 = s0 + v.0 as i32;
            s1 = s1 + v.1 as i32;
            k = k + 1;
        }
        (s0, s1)
    }

    /// The KPP entries summed over all pairs of features of list `l`, for a king on `sq`.
    fn triangle(&self, sq: Square, l: &Vec<EvalIndex>) -> (r: (i32, i32))
        requires
            self.valid(), l.len() == LIST_NUM,
            forall|k: int| 0 <= k < LIST_NUM ==> #[trigger] l@[k].0 < EvalIndex::FE_END,
        ensures
            r.0 == tri_sum(self.kpp@, sq.val(), l@, LIST_NUM as int, 0),
            r.1 == tri_sum(self.kpp@, sq.val(), l@, LIST_NUM as int, 1),
    {
        let mut s0: i32 = 0;
        let mut s1: i32 = 0;
        let mut i: usize = 0;
        while i < LIST_NUM
            invariant
                self.valid(), l.len() == LIST_NUM,
                forall|m: int| 0 <= m < LIST_NUM ==> #[trigger] l@[m].0 < EvalIndex::FE_END,
                i <= LIST_NUM,
                s0 == tri_sum(self.kpp@, sq.val(), l@, i as int, 0),
                s1 == tri_sum(self.kpp@, sq.val(), l@, i as int, 1),
            decreases LIST_NUM - i,
        {
            proof {
                lemma_tri_sum_bound(self.kpp@, sq.val(), l@, i as int, 0);
                lemma_tri_sum_bound(self.kpp@, sq.val(), l@, i as int, 1);
                lemma_row_sum_bound(self.kpp@, sq.val(), l@[i as int].0 as int, l@, i as int, 0);
                lemma_row_sum_bound(self.kpp@, sq.val(), l@[i as int].0 as int, l@, i as int, 1);
                let ii = i as int;
                assert(ii * (ii - 1) / 2 <= 703) by (nonlinear_arith)
                    requires 0 <= ii < 38;
            }
            let v = self.row(sq, l[i], l, i);
            s0 = s0 + v.0;
            s1 = s1 + v.1;
            i = i + 1;
        }
        (s0, s1)
    }
}

/// The six partial sums of the evaluation as integers: KPP seen from Black's king, KPP
/// seen from White's king (on the turned board), and KKP plus material; each a board
/// part and a side-to-move part.
pub struct EvalTerms {
    pub b0: int,
    pub b1: int,
    pub w0: int,
    pub w1: int,
    pub k0: int,
    pub k1: int,
}

pub open spec fn add_terms(a: EvalTerms, b: EvalTerms) -> EvalTerms {
    EvalTerms { b0: a.b0 + b.b0, b1: a.b1 + b.b1, w0: a.w0 + b.w0, w1: a.w1 + b.w1, k0: a.k0 + b.k0, k1: a.k1 + b.k1 }
}

pub open spec fn sub_terms(a: EvalTerms, b: EvalTerms) -> EvalTerms {
    EvalTerms { b0: a.b0 - b.b0, b1: a.b1 - b.b1, w0: a.w0 - b.w0, w1: a.w1 - b.w1, k0: a.k0 - b.k0, k1: a.k1 - b.k1 }
}

/// The score that the partial sums give for `side_to_move`, still in table units.
pub open spec fn total(t: EvalTerms, side_to_move: Color) -> int {
    let board = t.b0 - t.w0 + t.k0;
    (if side_to_move == Color::BLACK { board } else { -board }) + t.b1 + t.w1 + t.k1
}

/// Integer division rounding toward zero, as Rust's `/` does.
pub open spec fn trunc_div(x: int, d: int) -> int {
    if x >= 0 { x / d } else { -((-x) / d) }
}

/// The full evaluation of a position from scratch: kings on `bk` and `wk`, features
/// `bl` (from Black) and `wl` (from White), material `material`.
pub open spec fn full_terms(kpp: Seq<i16>, kkp: Seq<i16>, bk: int, wk: int, bl: Seq<EvalIndex>, wl: Seq<EvalIndex>, material: int) -> EvalTerms {
    EvalTerms {
        b0: tri_sum(kpp, bk, bl, 38, 0),
        b1: tri_sum(kpp, bk, bl, 38, 1),
        w0: tri_sum(kpp, 80 - wk, wl, 38, 0),
        w1: tri_sum(kpp, 80 - wk, wl, 38, 1),
        k0: kkp_sum(kkp, bk, wk, bl, 38, 0) + material * 32,
        k1: kkp_sum(kkp, bk, wk, bl, 38, 1),
    }
}

/// What feature `e` adds to the evaluation against the features listed in `bl`, `wl`
/// (its own pairing with itself included): its KPP row seen from each king and its KKP entry.
pub open spec fn doapc_terms(kpp: Seq<i16>, kkp: Seq<i16>, bk: int, wk: int, e: int, bl: Seq<EvalIndex>, wl: Seq<EvalIndex>) -> EvalTerms {
    EvalTerms {
        b0: row_sum(kpp, bk, e, bl, 38, 0),
        b1: row_sum(kpp, bk, e, bl, 38, 1),
        w0: row_sum(kpp, 80 - wk, inverse_index(e), wl, 38, 0),
        w1: row_sum(kpp, 80 - wk, inverse_index(e), wl, 38, 1),
        k0: kkp_val(kkp, bk, wk, e, 0),
        k1: kkp_val(kkp, bk, wk, e, 1),
    }
}

/// The packing of a pair of `i32` into a `u64`, first one in the low half.
pub open spec fn pack(p: (i32, i32)) -> u64 {
    (p.0 as u32 as u64) | ((p.1 as u32 as u64) << 32u64)
}

/// The partial sums of the evaluation of a position, with the position's key. While
/// kept in the evaluation hash or on the search stack, the key is stored xored with the
/// sums, so that a torn entry is not taken for a valid one.
#[derive(Clone, Copy)]
pub struct EvalSum {
    pub black: (i32, i32),
    pub white: (i32, i32),
    pub kkp: (i32, i32),
    pub key: KeyExcludedTurn,
}

impl EvalSum {
    /// Marks a sum that has not been computed (in the board part of `black`).
    pub const NOT_EVALUATED: i32 = 2147483647;

    pub open spec fn terms(self) -> EvalTerms {
        EvalTerms {
            b0: self.black.0 as int, b1: self.black.1 as int,
            w0: self.white.0 as int, w1: self.white.1 as int,
            k0: self.kkp.0 as int, k1: self.kkp.1 as int,
        }
    }

    /// Every partial sum lies within `-b ..= b`.
    pub open spec fn within(self, b: int) -> bool {
        &&& -b <= self.black.0 <= b && -b <= self.black.1 <= b
        &&& -b <= self.white.0 <= b && -b <= self.white.1 <= b
        &&& -b <= self.kkp.0 <= b && -b <= self.kkp.1 <= b
    }

    /// This sum with its key xored with its packed partial sums.
    pub open spec fn spec_decoded(self) -> EvalSum {
        EvalSum { key: KeyExcludedTurn(self.key.0 ^ pack(self.black) ^ pack(self.white) ^ pack(self.kkp)), ..self }
    }

    pub open spec fn new_spec() -> EvalSum {
        EvalSum { black: (0i32, 0i32), white: (0i32, 0i32), kkp: (0i32, 0i32), key: KeyExcludedTurn(0) }
    }

    /// All sums zero, key zero.
    pub fn new() -> (r: EvalSum)
        ensures r == EvalSum::new_spec(),
    {
        EvalSum { black: (0, 0), white: (0, 0), kkp: (0, 0), key: KeyExcludedTurn(0) }
    }

    /// The score for `side_to_move` in table units: KPP from Black's king less KPP from
    /// White's king plus KKP for the board parts, negated for White, plus the
    /// side-to-move parts.
    pub fn sum(&self, side_to_move: Color) -> (r: Value)
        requires self.within(0x1000_0000),
        ensures r.0 == total(self.terms(), side_to_move),
    {
        let pseudo_value_board = self.black.0 - self.white.0 + self.kkp.0;
        let value_board = if side_to_move == Color::BLACK { pseudo_value_board } else { -pseudo_value_board };
        let value_turn = self.black.1 + self.white.1 + self.kkp.1;
        Value(value_board + value_turn)
    }

    fn pack_pair(p: (i32, i32)) -> (r: u64)
        ensures r == pack(p),
    {
        (p.0 as u32 as u64) | ((p.1 as u32 as u64) << 32u64)
    }

    /// Xors the key with the packed partial sums (its own inverse).
    pub fn decode(&mut self)
        ensures *final(self) == old(self).spec_decoded(),
    {
        let k = self.key.0 ^ EvalSum::pack_pair(self.black) ^ EvalSum::pack_pair(self.white) ^ EvalSum::pack_pair(self.kkp);
        self.key = KeyExcludedTurn(k);
    }

    /// Xors the key with the packed partial sums, as stored.
    pub fn encode(&mut self)
        ensures *final(self) == old(self).spec_decoded(),
    {
        self.decode();
    }

    /// Marks this sum as not computed.
    pub fn set_not_evaluated(&mut self)
        ensures
            *final(self) == (EvalSum { black: (EvalSum::NOT_EVALUATED, old(self).black.1), ..*old(self) }),
    {
        self.black.0 = EvalSum::NOT_EVALUATED;
    }

    /// Whether this sum is marked as not computed.
    pub fn is_not_evaluated(&self) -> (r: bool)
        ensures r == (self.black.0 == EvalSum::NOT_EVALUATED),
    {
        self.black.0 == EvalSum::NOT_EVALUATED
    }
}

impl Evaluator {
    /// What feature `e` adds to the evaluation against the listed features: its KPP row
    /// from each king and its KKP entry (key zero).
    fn doapc(&self, sq_bk: Square, sq_wk: Square, e: EvalIndex, list: &EvalList) -> (r: EvalSum)
        requires self.valid(), list.wf(), e.0 < EvalIndex::FE_END,
        ensures
            r.terms() == doapc_terms(self.kpp@, self.kkp@, sq_bk.val(), sq_wk.val(), e.0 as int, list.black@, list.white@),
            r.within(0x0020_0000),
    {
        let k = self.kkp(sq_bk, sq_wk, e);
        let inv_wk = sq_wk.inverse();
        let inv_e = e.inverse();
        let b = self.row(sq_bk, e, &list.black, LIST_NUM);
        let w = self.row(inv_wk, inv_e, &list.white, LIST_NUM);
        proof {
            lemma_row_sum_bound(self.kpp@, sq_bk.val(), e.0 as int, list.black@, 38, 0);
            lemma_row_sum_bound(self.kpp@, sq_bk.val(), e.0 as int, list.black@, 38, 1);
            lemma_row_sum_bound(self.kpp@, inv_wk.val(), inv_e.0 as int, list.white@, 38, 0);
            lemma_row_sum_bound(self.kpp@, inv_wk.val(), inv_e.0 as int, list.white@, 38, 1);
        }
        EvalSum { black: b, white: w, kkp: (k.0 as i32, k.1 as i32), key: KeyExcludedTurn(0) }
    }

    /// The evaluation of a position from scratch, in table units (no division): kings on
    /// `sq_bk`, `sq_wk`, features `list`, material `material`, for `side_to_move`.
    pub fn evaluate_debug(&self, sq_bk: Square, sq_wk: Square, list: &EvalList, material: Value, side_to_move: Color) -> (r: Value)
        requires self.valid(), list.wf(), -0x10_0000 <= material.0 <= 0x10_0000,
        ensures
            r.0 == total(full_terms(self.kpp@, self.kkp@, sq_bk.val(), sq_wk.val(), list.black@, list.white@, material.0 as int), side_to_move),
    {
        let mut sum = EvalSum::new();
        self.full_sum(sq_bk, sq_wk, list, material, &mut sum);
        sum.sum(side_to_move)
    }

    /// The evaluation of a position from scratch: its partial sums go to `sum` (key zero)
    /// and the score, divided by `FV_SCALE` toward zero, is returned.
    pub fn evaluate_at_root(&self, sq_bk: Square, sq_wk: Square, list: &EvalList, material: Value, side_to_move: Color, sum: &mut EvalSum) -> (r: Value)
        requires self.valid(), list.wf(), -0x10_0000 <= material.0 <= 0x10_0000,
        ensures
            final(sum).terms() == full_terms(self.kpp@, self.kkp@, sq_bk.val(), sq_wk.val(), list.black@, list.white@, material.0 as int),
            final(sum).key.0 == 0,
            r.0 == trunc_div(total(final(sum).terms(), side_to_move), 32),
    {
        self.full_sum(sq_bk, sq_wk, list, material, sum);
        let t = sum.sum(side_to_move);
        Value(div_toward_zero(t.0, FV_SCALE))
    }

    fn full_sum(&self, sq_bk: Square, sq_wk: Square, list: &EvalList, material: Value, sum: &mut EvalSum)
        requires self.valid(), list.wf(), -0x10_0000 <= material.0 <= 0x10_0000,
        ensures
            final(sum).terms() == full_terms(self.kpp@, self.kkp@, sq_bk.val(), sq_wk.val(), list.black@, list.white@, material.0 as int),
            final(sum).key.0 == 0,
            final(sum).within(0x1000_0000),
    {
        let inv_wk = sq_wk.inverse();
        let b = self.triangle(sq_bk, &list.black);
        let w = self.triangle(inv_wk, &list.white);
        let k = self.kkp_row(sq_bk, sq_wk, &list.black);
        proof {
            lemma_tri_sum_bound(self.kpp@, sq_bk.val(), list.black@, 38, 0);
            lemma_tri_sum_bound(self.kpp@, sq_bk.val(), list.black@, 38, 1);
            lemma_tri_sum_bound(self.kpp@, inv_wk.val(), list.white@, 38, 0);
            lemma_tri_sum_bound(self.kpp@, inv_wk.val(), list.white@, 38, 1);
            lemma_kkp_sum_bound(self.kkp@, sq_bk.val(), sq_wk.val(), list.black@, 38, 0);
            lemma_kkp_sum_bound(self.kkp@, sq_bk.val(), sq_wk.val(), list.black@, 38, 1);
        }
        *sum = EvalSum { black: b, white: w, kkp: (k.0 + material.0 * FV_SCALE, k.1), key: KeyExcludedTurn(0) };
    }
}

/// The largest power of two not above `m` (zero for zero).
pub open spec fn floor_pow2(m: nat) -> nat
    decreases m,
{
    if m < 2 { m } else { 2 * floor_pow2(m / 2) }
}

proof fn lemma_floor_pow2_le(m: nat)
    ensures floor_pow2(m) <= m,
    decreases m,
{
    if m >= 2 {
        lemma_floor_pow2_le(m / 2);
    }
}

fn floor_pow2_exec(m: usize) -> (r: usize)
    ensures r == floor_pow2(m as nat),
    decreases m,
{
    proof { lemma_floor_pow2_le(m as nat); }
    if m < 2 { m } else { 2 * floor_pow2_exec(m / 2) }
}

/// The slot of the evaluation hash that key `key` goes to, in a table of `len` slots.
pub open spec fn hash_slot(key: u64, len: nat) -> int {
    (key as int) % (len as int)
}

/// A cache of evaluation sums, found by the position's key.
pub struct EvalHash {
    value: Vec<EvalSum>,
}

impl EvalHash {
    pub closed spec fn entries(&self) -> Seq<EvalSum> {
        self.value@
    }

    /// Every cached sum is small enough to be scored.
    pub open spec fn wf(&self) -> bool {
        forall|k: int| 0 <= k < self.entries().len() ==> #[trigger] self.entries()[k].within(0x1000_0000)
    }

    /// An empty cache.
    pub fn new() -> (r: EvalHash)
        ensures r.entries().len() == 0, r.wf(),
    {
        EvalHash { value: Vec::new() }
    }

    /// Sets every slot to the zero sum with key zero.
    pub fn clear(&mut self)
        ensures
            final(self).entries().len() == old(self).entries().len(),
            final(self).wf(),
            forall|k: int| 0 <= k < final(self).entries().len() ==> #[trigger] final(self).entries()[k] == EvalSum::new_spec(),
    {
        let n = self.value.len();
        let mut k: usize = 0;
        while k < n
            invariant
                n == self.value.len(), k <= n,
                forall|m: int| 0 <= m < k ==> #[trigger] self.value@[m] == EvalSum::new_spec(),
            decreases n - k,
        {
            self.value.set(k, EvalSum::new());
            k = k + 1;
        }
    }

    /// The sum kept in the slot of `key` (as stored: its key still encoded).
    pub fn get(&self, key: KeyExcludedTurn) -> (r: EvalSum)
        requires self.entries().len() > 0,
        ensures r == self.entries()[hash_slot(key.0, self.entries().len())],
    {
        let len = self.value.len();
        let slot = (key.0 % (len as u64)) as usize;
        self.value[slot]
    }

    /// Keeps `entry` in the slot of `key`.
    pub fn set(&mut self, key: KeyExcludedTurn, entry: &EvalSum)
        requires old(self).entries().len() > 0, old(self).wf(), entry.within(0x1000_0000),
        ensures
            final(self).entries() == old(self).entries().update(hash_slot(key.0, old(self).entries().len()), *entry),
            final(self).wf(),
    {
        let len = self.value.len();
        let slot = (key.0 % (len as u64)) as usize;
        self.value.set(slot, *entry);
    }

    /// Makes room for the largest power of two of megabytes not above `mega_byte_size`
    /// (a sum takes 256 bytes), every slot cleared.
    pub fn resize(&mut self, mega_byte_size: usize)
        requires mega_byte_size <= 0x8_0000,
        ensures
            final(self).entries().len() == floor_pow2(mega_byte_size as nat) * 4096,
            final(self).wf(),
            forall|k: int| 0 <= k < final(self).entries().len() ==> #[trigger] final(self).entries()[k] == EvalSum::new_spec(),
    {
        let mb = floor_pow2_exec(mega_byte_size);
        proof { lemma_floor_pow2_le(mega_byte_size as nat); }
        let len = mb * 4096;
        let mut v: Vec<EvalSum> = Vec::new();
        let mut k: usize = 0;
        while k < len
            invariant
                len == mb * 4096, v.len() == k, k <= len,
                forall|m: int| 0 <= m < k ==> #[trigger] v@[m] == EvalSum::new_spec(),
            decreases len - k,
        {
            v.push(EvalSum::new());
            k = k + 1;
        }
        self.value = v;
    }
}

/// A feature that the last move changed: what it is now and what it was.
#[derive(Clone, Copy)]
pub struct ChangedEvalIndex {
    pub new_index: EvalIndex,
    pub old_index: EvalIndex,
}

impl ChangedEvalIndex {
    pub fn zero() -> (r: ChangedEvalIndex)
        ensures r.new_index.0 == 0, r.old_index.0 == 0,
    {
        ChangedEvalIndex { new_index: EvalIndex(0), old_index: EvalIndex(0) }
    }
}

/// What the difference evaluation reads of the position that the last move reached.
#[derive(Clone, Copy)]
pub struct MovedPosition {
    /// The position's key without its side-to-move bit.
    pub key: KeyExcludedTurn,
    pub side_to_move: Color,
    pub sq_bk: Square,
    pub sq_wk: Square,
    /// The material balance, and what the last move changed of it.
    pub material: Value,
    pub material_diff: Value,
    /// Whether the last move moved a king, and whether it captured.
    pub king_moved: bool,
    pub captured: bool,
    /// The moved piece's feature (unused when a king moved) and the captured piece's
    /// feature, which now stands in the mover's hand.
    pub changed: ChangedEvalIndex,
    pub changed_captured: ChangedEvalIndex,
    /// Where in the evaluation list those features stand.
    pub list_index: usize,
    pub list_index_captured: usize,
}

impl MovedPosition {
    /// The position and the evaluation list agree: the listed features at the two list
    /// indices are the new features, every feature is valid, and the material is small.
    pub open spec fn fits(&self, list: EvalList) -> bool {
        &&& list.wf()
        &&& -0x10_0000 <= self.material.0 <= 0x10_0000
        &&& -0x10_0000 <= self.material_diff.0 <= 0x10_0000
        &&& self.changed.new_index.0 < EvalIndex::FE_END && self.changed.old_index.0 < EvalIndex::FE_END
        &&& self.changed_captured.new_index.0 < EvalIndex::FE_END && self.changed_captured.old_index.0 < EvalIndex::FE_END
        &&& self.list_index < LIST_NUM && self.list_index_captured < LIST_NUM
        &&& !self.king_moved ==> list.black@[self.list_index as int] == self.changed.new_index
            && list.white@[self.list_index as int].0 == inverse_index(self.changed.new_index.0 as int)
        &&& self.captured ==> list.black@[self.list_index_captured as int] == self.changed_captured.new_index
            && list.white@[self.list_index_captured as int].0 == inverse_index(self.changed_captured.new_index.0 as int)
        &&& (self.captured && !self.king_moved) ==> self.list_index != self.list_index_captured
    }
}

/// The pair terms of features `e1`, `e2`: their KPP entry from each king.
pub open spec fn pair_terms(kpp: Seq<i16>, bk: int, wk: int, e1: int, e2: int) -> EvalTerms {
    EvalTerms {
        b0: kpp_val(kpp, bk, e1, e2, 0),
        b1: kpp_val(kpp, bk, e1, e2, 1),
        w0: kpp_val(kpp, 80 - wk, inverse_index(e1), inverse_index(e2), 0),
        w1: kpp_val(kpp, 80 - wk, inverse_index(e1), inverse_index(e2), 1),
        k0: 0,
        k1: 0,
    }
}

/// The lists with the feature at `li` put back to `e`.
pub open spec fn with_feature(bl: Seq<EvalIndex>, wl: Seq<EvalIndex>, li: int, e: int) -> (Seq<EvalIndex>, Seq<EvalIndex>) {
    (bl.update(li, EvalIndex(e as usize)), wl.update(li, EvalIndex(inverse_index(e) as usize)))
}

/// The change of the partial sums made by a move that neither moved a king nor captured:
/// the moved piece's new feature against the list, less its old one against the list as
/// it was.
pub open spec fn quiet_diff_terms(kpp: Seq<i16>, kkp: Seq<i16>, p: MovedPosition, bl: Seq<EvalIndex>, wl: Seq<EvalIndex>) -> EvalTerms {
    let bk = p.sq_bk.val();
    let wk = p.sq_wk.val();
    let n = p.changed.new_index.0 as int;
    let o = p.changed.old_index.0 as int;
    let l_old = with_feature(bl, wl, p.list_index as int, o);
    sub_terms(doapc_terms(kpp, kkp, bk, wk, n, bl, wl), doapc_terms(kpp, kkp, bk, wk, o, l_old.0, l_old.1))
}

/// The change of the partial sums made by a capture that did not move a king: both new
/// features against the list (their pair counted once), less both old features against
/// the list as it was (their pair counted once).
pub open spec fn capture_diff_terms(kpp: Seq<i16>, kkp: Seq<i16>, p: MovedPosition, bl: Seq<EvalIndex>, wl: Seq<EvalIndex>) -> EvalTerms {
    let bk = p.sq_bk.val();
    let wk = p.sq_wk.val();
    let n = p.changed.new_index.0 as int;
    let o = p.changed.old_index.0 as int;
    let cn = p.changed_captured.new_index.0 as int;
    let co = p.changed_captured.old_index.0 as int;
    let l1 = with_feature(bl, wl, p.list_index_captured as int, co);
    let l2 = with_feature(l1.0, l1.1, p.list_index as int, o);
    let gained = sub_terms(
        add_terms(doapc_terms(kpp, kkp, bk, wk, n, bl, wl), doapc_terms(kpp, kkp, bk, wk, cn, bl, wl)),
        pair_terms(kpp, bk, wk, n, cn));
    let lost = sub_terms(
        add_terms(doapc_terms(kpp, kkp, bk, wk, o, l2.0, l2.1), doapc_terms(kpp, kkp, bk, wk, co, l2.0, l2.1)),
        pair_terms(kpp, bk, wk, o, co));
    sub_terms(gained, lost)
}

/// The partial sums after a king move: the moved king's side is summed from scratch with
/// the KKP part and material; the other side keeps its sum, changed only by a capture.
pub open spec fn king_move_terms(kpp: Seq<i16>, kkp: Seq<i16>, p: MovedPosition, bl: Seq<EvalIndex>, wl: Seq<EvalIndex>, prev: EvalTerms) -> EvalTerms {
    let bk = p.sq_bk.val();
    let wk = p.sq_wk.val();
    let cn = p.changed_captured.new_index.0 as int;
    let co = p.changed_captured.old_index.0 as int;
    let lic = p.list_index_captured as int;
    if p.side_to_move == Color::BLACK {
        let cb0 = if p.captured { row_sum(kpp, bk, cn, bl, 38, 0) - row_sum(kpp, bk, co, bl.update(lic, EvalIndex(co as usize)), 38, 0) } else { 0 };
        let cb1 = if p.captured { row_sum(kpp, bk, cn, bl, 38, 1) - row_sum(kpp, bk, co, bl.update(lic, EvalIndex(co as usize)), 38, 1) } else { 0 };
        EvalTerms {
            b0: prev.b0 + cb0,
            b1: prev.b1 + cb1,
            w0: tri_sum(kpp, 80 - wk, wl, 38, 0),
            w1: tri_sum(kpp, 80 - wk, wl, 38, 1),
            k0: p.material.0 * 32 - kkp_sum(kkp, 80 - wk, 80 - bk, wl, 38, 0),
            k1: kkp_sum(kkp, 80 - wk, 80 - bk, wl, 38, 1),
        }
    } else {
        let icn = inverse_index(cn);
        let ico = inverse_index(co);
        let cw0 = if p.captured { row_sum(kpp, 80 - wk, icn, wl, 38, 0) - row_sum(kpp, 80 - wk, ico, wl.update(lic, EvalIndex(ico as usize)), 38, 0) } else { 0 };
        let cw1 = if p.captured { row_sum(kpp, 80 - wk, icn, wl, 38, 1) - row_sum(kpp, 80 - wk, ico, wl.update(lic, EvalIndex(ico as usize)), 38, 1) } else { 0 };
        EvalTerms {
            b0: tri_sum(kpp, bk, bl, 38, 0),
            b1: tri_sum(kpp, bk, bl, 38, 1),
            w0: prev.w0 + cw0,
            w1: prev.w1 + cw1,
            k0: p.material.0 * 32 + kkp_sum(kkp, bk, wk, bl, 38, 0),
            k1: kkp_sum(kkp, bk, wk, bl, 38, 1),
        }
    }
}

/// The partial sums of the position that the last move reached, from those of the
/// position before it.
pub open spec fn moved_terms(kpp: Seq<i16>, kkp: Seq<i16>, p: MovedPosition, bl: Seq<EvalIndex>, wl: Seq<EvalIndex>, prev: EvalTerms) -> EvalTerms {
    if p.king_moved {
        king_move_terms(kpp, kkp, p, bl, wl, prev)
    } else {
        let d = if p.captured { capture_diff_terms(kpp, kkp, p, bl, wl) } else { quiet_diff_terms(kpp, kkp, p, bl, wl) };
        let t = add_terms(prev, d);
        EvalTerms { k0: t.k0 + p.material_diff.0 * 32, ..t }
    }
}

impl Evaluator {
    /// Puts feature `e` (seen from Black) back at `li`, with its inverse for White.
    fn put_feature(list: &mut EvalList, li: usize, e: EvalIndex)
        requires old(list).wf(), li < LIST_NUM, e.0 < EvalIndex::FE_END,
        ensures
            final(list).wf(),
            (final(list).black@, final(list).white@) == with_feature(old(list).black@, old(list).white@, li as int, e.0 as int),
    {
        let inv = e.inverse();
        list.set(li, Color::BLACK, e);
        list.set(li, Color::WHITE, inv);
        proof {
            lemma_inverse_involution(e.0 as int);
            assert(EvalIndex((e.0 as int) as usize) == e);
            assert(EvalIndex((inverse_index(e.0 as int)) as usize) == inv);
        }
    }

    /// The change made by a move that neither moved a king nor captured.
    fn quiet_diff(&self, p: &MovedPosition, list: &mut EvalList) -> (d: EvalSum)
        requires self.valid(), p.fits(*old(list)), !p.king_moved,
        ensures
            d.terms() == quiet_diff_terms(self.kpp@, self.kkp@, *p, old(list).black@, old(list).white@),
            d.within(0x0040_0000),
            final(list).wf(),
            final(list).black@ == old(list).black@,
            final(list).white@ == old(list).white@,
    {
        let ghost bl = list.black@;
        let ghost wl = list.white@;
        let li = p.list_index;
        let n = self.doapc(p.sq_bk, p.sq_wk, p.changed.new_index, list);
        Evaluator::put_feature(list, li, p.changed.old_index);
        let o = self.doapc(p.sq_bk, p.sq_wk, p.changed.old_index, list);
        Evaluator::put_feature(list, li, p.changed.new_index);
        proof {
            lemma_inverse_involution(p.changed.new_index.0 as int);
            assert(list.black@ =~= bl);
            assert(list.white@ =~= wl);
        }
        EvalSum {
            black: (n.black.0 - o.black.0, n.black.1 - o.black.1),
            white: (n.white.0 - o.white.0, n.white.1 - o.white.1),
            kkp: (n.kkp.0 - o.kkp.0, n.kkp.1 - o.kkp.1),
            key: KeyExcludedTurn(0),
        }
    }

    /// The change made by a capture that did not move a king.
    fn capture_diff(&self, p: &MovedPosition, list: &mut EvalList) -> (d: EvalSum)
        requires self.valid(), p.fits(*old(list)), !p.king_moved, p.captured,
        ensures
            d.terms() == capture_diff_terms(self.kpp@, self.kkp@, *p, old(list).black@, old(list).white@),
            d.within(0x0100_0000),
            final(list).wf(),
            final(list).black@ == old(list).black@,
            final(list).white@ == old(list).white@,
    {
        let ghost bl = list.black@;
        let ghost wl = list.white@;
        let li = p.list_index;
        let lic = p.list_index_captured;
        let inv_wk = p.sq_wk.inverse();
        let n = self.doapc(p.sq_bk, p.sq_wk, p.changed.new_index, list);
        let cn = self.doapc(p.sq_bk, p.sq_wk, p.changed_captured.new_index, list);
        let pb = self.kpp(p.sq_bk, p.changed.new_index, p.changed_captured.new_index);
        let pw = self.kpp(inv_wk, p.changed.new_index.inverse(), p.changed_captured.new_index.inverse());
        Evaluator::put_feature(list, lic, p.changed_captured.old_index);
        Evaluator::put_feature(list, li, p.changed.old_index);
        let o = self.doapc(p.sq_bk, p.sq_wk, p.changed.old_index, list);
        let co = self.doapc(p.sq_bk, p.sq_wk, p.changed_captured.old_index, list);
        let qb = self.kpp(p.sq_bk, p.changed.old_index, p.changed_captured.old_index);
        let qw = self.kpp(inv_wk, p.changed.old_index.inverse(), p.changed_captured.old_index.inverse());
        Evaluator::put_feature(list, lic, p.changed_captured.new_index);
        Evaluator::put_feature(list, li, p.changed.new_index);
        proof {
            lemma_inverse_involution(p.changed.new_index.0 as int);
            lemma_inverse_involution(p.changed_captured.new_index.0 as int);
            assert(list.black@ =~= bl);
            assert(list.white@ =~= wl);
        }
        EvalSum {
            black: (
                n.black.0 + cn.black.0 - pb.0 as i32 - (o.black.0 + co.black.0 - qb.0 as i32),
                n.black.1 + cn.black.1 - pb.1 as i32 - (o.black.1 + co.black.1 - qb.1 as i32),
            ),
            white: (
                n.white.0 + cn.white.0 - pw.0 as i32 - (o.white.0 + co.white.0 - qw.0 as i32),
                n.white.1 + cn.white.1 - pw.1 as i32 - (o.white.1 + co.white.1 - qw.1 as i32),
            ),
            kkp: (n.kkp.0 + cn.kkp.0 - (o.kkp.0 + co.kkp.0), n.kkp.1 + cn.kkp.1 - (o.kkp.1 + co.kkp.1)),
            key: KeyExcludedTurn(0),
        }
    }

    /// The partial sums after a king move, from `prev`, the sums before it.
    fn king_move_sum(&self, p: &MovedPosition, list: &mut EvalList, prev: &EvalSum) -> (r: EvalSum)
        requires self.valid(), p.fits(*old(list)), p.king_moved, prev.within(0x0800_0000),
        ensures
            r.terms() == king_move_terms(self.kpp@, self.kkp@, *p, old(list).black@, old(list).white@, prev.terms()),
            r.within(0x1000_0000),
            final(list).wf(),
            final(list).black@ == old(list).black@,
            final(list).white@ == old(list).white@,
    {
        let ghost bl = list.black@;
        let ghost wl = list.white@;
        let lic = p.list_index_captured;
        let sq_bk = p.sq_bk;
        let sq_wk = p.sq_wk;
        let inv_wk = sq_wk.inverse();
        let cn_idx = p.changed_captured.new_index;
        let co_idx = p.changed_captured.old_index;
        if p.side_to_move == Color::BLACK {
            let w = self.triangle(inv_wk, &list.white);
            let k = self.kkp_row(inv_wk, sq_bk.inverse(), &list.white);
            let mut b = prev.black;
            if p.captured {
                let plus = self.row(sq_bk, cn_idx, &list.black, LIST_NUM);
                list.set(lic, Color::BLACK, co_idx);
                let minus = self.row(sq_bk, co_idx, &list.black, LIST_NUM);
                list.set(lic, Color::BLACK, cn_idx);
                proof {
                    lemma_row_sum_bound(self.kpp@, sq_bk.val(), cn_idx.0 as int, bl, 38, 0);
                    lemma_row_sum_bound(self.kpp@, sq_bk.val(), cn_idx.0 as int, bl, 38, 1);
                    lemma_row_sum_bound(self.kpp@, sq_bk.val(), co_idx.0 as int, bl.update(lic as int, co_idx), 38, 0);
                    lemma_row_sum_bound(self.kpp@, sq_bk.val(), co_idx.0 as int, bl.update(lic as int, co_idx), 38, 1);
                    assert(EvalIndex((co_idx.0 as int) as usize) == co_idx);
                    assert(list.black@ =~= bl);
                }
                b = (b.0 + plus.0 - minus.0, b.1 + plus.1 - minus.1);
            }
            proof {
                lemma_tri_sum_bound(self.kpp@, inv_wk.val(), wl, 38, 0);
                lemma_tri_sum_bound(self.kpp@, inv_wk.val(), wl, 38, 1);
                lemma_kkp_sum_bound(self.kkp@, inv_wk.val(), 80 - sq_bk.val(), wl, 38, 0);
                lemma_kkp_sum_bound(self.kkp@, inv_wk.val(), 80 - sq_bk.val(), wl, 38, 1);
            }
            EvalSum { black: b, white: w, kkp: (p.material.0 * FV_SCALE - k.0, k.1), key: prev.key }
        } else {
            let bb = self.triangle(sq_bk, &list.black);
            let k = self.kkp_row(sq_bk, sq_wk, &list.black);
            let mut w = prev.white;
            if p.captured {
                let icn = cn_idx.inverse();
                let ico = co_idx.inverse();
                let plus = self.row(inv_wk, icn, &list.white, LIST_NUM);
                list.set(lic, Color::WHITE, ico);
                let minus = self.row(inv_wk, ico, &list.white, LIST_NUM);
                list.set(lic, Color::WHITE, icn);
                proof {
                    lemma_row_sum_bound(self.kpp@, inv_wk.val(), icn.0 as int, wl, 38, 0);
                    lemma_row_sum_bound(self.kpp@, inv_wk.val(), icn.0 as int, wl, 38, 1);
                    lemma_row_sum_bound(self.kpp@, inv_wk.val(), ico.0 as int, wl.update(lic as int, ico), 38, 0);
                    lemma_row_sum_bound(self.kpp@, inv_wk.val(), ico.0 as int, wl.update(lic as int, ico), 38, 1);
                    assert(EvalIndex((inverse_index(co_idx.0 as int)) as usize) == ico);
                    assert(list.white@ =~= wl);
                }
                w = (w.0 + plus.0 - minus.0, w.1 + plus.1 - minus.1);
            }
            proof {
                lemma_tri_sum_bound(self.kpp@, sq_bk.val(), bl, 38, 0);
                lemma_tri_sum_bound(self.kpp@, sq_bk.val(), bl, 38, 1);
                lemma_kkp_sum_bound(self.kkp@, sq_bk.val(), sq_wk.val(), bl, 38, 0);
                lemma_kkp_sum_bound(self.kkp@, sq_bk.val(), sq_wk.val(), bl, 38, 1);
            }
            EvalSum { black: bb, white: w, kkp: (p.material.0 * FV_SCALE + k.0, k.1), key: prev.key }
        }
    }
}

impl Evaluator {
    /// The evaluation of the position that the last move reached, in `Value` units,
    /// computed from the partial sums `prev` of the position before the move.
    ///
    /// `cur` is this position's slot on the search stack. If it already holds a sum, that
    /// sum is scored. Otherwise the evaluation hash is asked first; on a hit (the decoded
    /// key is this position's) the cached sum is taken. Otherwise the sums are computed
    /// from `prev`: after a king move the moved king's side is summed again from scratch
    /// and the result is also cached; after any other move only the moved and captured
    /// pieces' features are updated. The new sum is stored with its key encoded. The
    /// evaluation list is changed on the way and restored.
    pub fn evaluate_difference_calc(&self, p: &MovedPosition, list: &mut EvalList, prev: &EvalSum, cur: &mut EvalSum, ehash: &mut EvalHash) -> (r: Value)
        requires
            self.valid(),
            p.fits(*old(list)),
            old(ehash).wf(), old(ehash).entries().len() > 0,
            !(old(cur).black.0 == EvalSum::NOT_EVALUATED) ==> old(cur).within(0x1000_0000),
            (old(cur).black.0 == EvalSum::NOT_EVALUATED) ==> prev.within(0x0800_0000),
        ensures
            final(list).black@ == old(list).black@,
            final(list).white@ == old(list).white@,
            final(list).wf(),
            final(ehash).wf(),
            final(ehash).entries().len() == old(ehash).entries().len(),
            r.0 == trunc_div(total(final(cur).terms(), p.side_to_move), 32),
            ({
                let slot = hash_slot(p.key.0, old(ehash).entries().len());
                let entry = old(ehash).entries()[slot].spec_decoded();
                if !(old(cur).black.0 == EvalSum::NOT_EVALUATED) {
                    *final(cur) == *old(cur) && final(ehash).entries() == old(ehash).entries()
                } else if entry.key == p.key {
                    *final(cur) == entry && final(ehash).entries() == old(ehash).entries()
                } else {
                    let t = moved_terms(self.kpp@, self.kkp@, *p, old(list).black@, old(list).white@, prev.terms());
                    &&& final(cur).terms() == t
                    &&& final(cur).key == (EvalSum { key: p.key, ..*final(cur) }).spec_decoded().key
                    &&& p.king_moved ==> final(ehash).entries() == old(ehash).entries().update(slot, *final(cur))
                    &&& !p.king_moved ==> final(ehash).entries() == old(ehash).entries()
                }
            }),
    {
        if !cur.is_not_evaluated() {
            let t = cur.sum(p.side_to_move);
            return Value(div_toward_zero(t.0, FV_SCALE));
        }
        let mut entry = ehash.get(p.key);
        proof {
            let slot = hash_slot(p.key.0, ehash.entries().len());
            assert(0 <= slot < ehash.entries().len());
            assert(ehash.entries()[slot].within(0x1000_0000));
        }
        entry.decode();
        if entry.key == p.key {
            *cur = entry;
            let t = cur.sum(p.side_to_move);
            return Value(div_toward_zero(t.0, FV_SCALE));
        }
        if p.king_moved {
            let mut sum = self.king_move_sum(p, list, prev);
            sum.key = p.key;
            sum.encode();
            ehash.set(p.key, &sum);
            *cur = sum;
        } else {
            let d = if p.captured { self.capture_diff(p, list) } else { self.quiet_diff(p, list) };
            let mut sum = EvalSum {
                black: (prev.black.0 + d.black.0, prev.black.1 + d.black.1),
                white: (prev.white.0 + d.white.0, prev.white.1 + d.white.1),
                kkp: (prev.kkp.0 + d.kkp.0 + p.material_diff.0 * FV_SCALE, prev.kkp.1 + d.kkp.1),
                key: p.key,
            };
            sum.encode();
            *cur = sum;
        }
        let t = cur.sum(p.side_to_move);
        Value(div_toward_zero(t.0, FV_SCALE))
    }
}

/// For a king on `sq`, the KPP table is symmetric in its two features and zero where the
/// two features are the same.
pub open spec fn kpp_symmetric(kpp: Seq<i16>, sq: int) -> bool {
    &&& forall|i: int, j: int, c: int| 0 <= i < 1548 && 0 <= j < 1548 && 0 <= c < 2 ==>
        #[trigger] kpp_val(kpp, sq, i, j, c) == kpp_val(kpp, sq, j, i, c)
    &&& forall|i: int, c: int| 0 <= i < 1548 && 0 <= c < 2 ==> #[trigger] kpp_val(kpp, sq, i, i, c) == 0
}

/// Every listed feature is a valid feature index.
pub open spec fn features_valid(l: Seq<EvalIndex>) -> bool {
    forall|k: int| 0 <= k < l.len() ==> #[trigger] l[k].0 < 1548
}

proof fn lemma_row_update(t: Seq<i16>, sq: int, e: int, l: Seq<EvalIndex>, li: int, x: EvalIndex, m: int, c: int)
    requires 0 <= li < l.len(), 0 <= m <= l.len(),
    ensures
        row_sum(t, sq, e, l.update(li, x), m, c) == row_sum(t, sq, e, l, m, c)
            + (if li < m { kpp_val(t, sq, e, x.0 as int, c) - kpp_val(t, sq, e, l[li].0 as int, c) } else { 0 }),
    decreases m,
{
    if m > 0 {
        lemma_row_update(t, sq, e, l, li, x, m - 1, c);
    }
}

proof fn lemma_kkp_update(t: Seq<i16>, sq0: int, sq1: int, l: Seq<EvalIndex>, li: int, x: EvalIndex, m: int, c: int)
    requires 0 <= li < l.len(), 0 <= m <= l.len(),
    ensures
        kkp_sum(t, sq0, sq1, l.update(li, x), m, c) == kkp_sum(t, sq0, sq1, l, m, c)
            + (if li < m { kkp_val(t, sq0, sq1, x.0 as int, c) - kkp_val(t, sq0, sq1, l[li].0 as int, c) } else { 0 }),
    decreases m,
{
    if m > 0 {
        lemma_kkp_update(t, sq0, sq1, l, li, x, m - 1, c);
    }
}

proof fn lemma_tri_update(t: Seq<i16>, sq: int, l: Seq<EvalIndex>, li: int, x: EvalIndex, m: int, c: int)
    requires
        0 <= li < l.len(), 0 <= m <= l.len(), 0 <= c < 2,
        kpp_symmetric(t, sq), features_valid(l), x.0 < 1548,
    ensures
        tri_sum(t, sq, l.update(li, x), m, c) - tri_sum(t, sq, l, m, c) == (if li < m {
            (row_sum(t, sq, x.0 as int, l, m, c) - kpp_val(t, sq, x.0 as int, l[li].0 as int, c))
                - (row_sum(t, sq, l[li].0 as int, l, m, c) - kpp_val(t, sq, l[li].0 as int, l[li].0 as int, c))
        } else { 0 }),
    decreases m,
{
    if m > 0 {
        let l2 = l.update(li, x);
        lemma_tri_update(t, sq, l, li, x, m - 1, c);
        lemma_row_update(t, sq, l2[m - 1].0 as int, l, li, x, m - 1, c);
        let y = l[m - 1].0 as int;
        let xi = x.0 as int;
        let z = l[li].0 as int;
        assert(0 <= y < 1548 && 0 <= z < 1548);
        if m - 1 > li {
            assert(kpp_val(t, sq, y, xi, c) == kpp_val(t, sq, xi, y, c));
            assert(kpp_val(t, sq, y, z, c) == kpp_val(t, sq, z, y, c));
        }
    }
}

/// The difference evaluation of a move that neither moved a king nor captured gives the
/// full evaluation of the new position, when the sums before the move were the full
/// evaluation of the position before it and the tables are symmetric with a zero
/// diagonal for both kings.
pub proof fn lemma_quiet_difference_is_full_evaluation(
    kpp: Seq<i16>, kkp: Seq<i16>, p: MovedPosition, bl: Seq<EvalIndex>, wl: Seq<EvalIndex>, material_before: int,
)
    requires
        kpp_symmetric(kpp, p.sq_bk.val()),
        kpp_symmetric(kpp, 80 - p.sq_wk.val()),
        bl.len() == LIST_NUM, wl.len() == LIST_NUM,
        features_valid(bl), features_valid(wl),
        !p.king_moved, !p.captured,
        p.list_index < LIST_NUM,
        p.changed.new_index.0 < EvalIndex::FE_END, p.changed.old_index.0 < EvalIndex::FE_END,
        bl[p.list_index as int] == p.changed.new_index,
        wl[p.list_index as int].0 == inverse_index(p.changed.new_index.0 as int),
        p.material.0 == material_before + p.material_diff.0,
    ensures ({
        let l_old = with_feature(bl, wl, p.list_index as int, p.changed.old_index.0 as int);
        moved_terms(kpp, kkp, p, bl, wl, full_terms(kpp, kkp, p.sq_bk.val(), p.sq_wk.val(), l_old.0, l_old.1, material_before))
            == full_terms(kpp, kkp, p.sq_bk.val(), p.sq_wk.val(), bl, wl, p.material.0 as int)
    }),
{
    let bk = p.sq_bk.val();
    let wk = p.sq_wk.val();
    let li = p.list_index as int;
    let n = p.changed.new_index.0 as int;
    let o = p.changed.old_index.0 as int;
    lemma_inverse_involution(n);
    lemma_inverse_involution(o);
    let in_ = inverse_index(n);
    let io = inverse_index(o);
    let l_old = with_feature(bl, wl, li, o);
    let ob = l_old.0;
    let ow = l_old.1;
    let nx = EvalIndex(n as usize);
    let nwx = EvalIndex(in_ as usize);
    assert(ob.update(li, nx) =~= bl);
    assert(ow.update(li, nwx) =~= wl);
    assert(features_valid(ob));
    assert(features_valid(ow));
    assert forall|c: int| 0 <= c < 2 implies
        #[trigger] tri_sum(kpp, bk, bl, 38, c) - tri_sum(kpp, bk, ob, 38, c)
            == row_sum(kpp, bk, n, bl, 38, c) - row_sum(kpp, bk, o, ob, 38, c) by {
        lemma_tri_update(kpp, bk, ob, li, nx, 38, c);
        lemma_row_update(kpp, bk, n, ob, li, nx, 38, c);
        assert(kpp_val(kpp, bk, n, n, c) == 0);
        assert(kpp_val(kpp, bk, o, o, c) == 0);
    }
    assert forall|c: int| 0 <= c < 2 implies
        #[trigger] tri_sum(kpp, 80 - wk, wl, 38, c) - tri_sum(kpp, 80 - wk, ow, 38, c)
            == row_sum(kpp, 80 - wk, in_, wl, 38, c) - row_sum(kpp, 80 - wk, io, ow, 38, c) by {
        lemma_tri_update(kpp, 80 - wk, ow, li, nwx, 38, c);
        lemma_row_update(kpp, 80 - wk, in_, ow, li, nwx, 38, c);
        assert(kpp_val(kpp, 80 - wk, in_, in_, c) == 0);
        assert(kpp_val(kpp, 80 - wk, io, io, c) == 0);
    }
    assert forall|c: int| 0 <= c < 2 implies
        #[trigger] kkp_sum(kkp, bk, wk, bl, 38, c) - kkp_sum(kkp, bk, wk, ob, 38, c)
            == kkp_val(kkp, bk, wk, n, c) - kkp_val(kkp, bk, wk, o, c) by {
        lemma_kkp_update(kkp, bk, wk, ob, li, nx, 38, c);
    }
    assert(tri_sum(kpp, bk, bl, 38, 0) - tri_sum(kpp, bk, ob, 38, 0)
        == row_sum(kpp, bk, n, bl, 38, 0) - row_sum(kpp, bk, o, ob, 38, 0));
    assert(tri_sum(kpp, bk, bl, 38, 1) - tri_sum(kpp, bk, ob, 38, 1)
        == row_sum(kpp, bk, n, bl, 38, 1) - row_sum(kpp, bk, o, ob, 38, 1));
    assert(tri_sum(kpp, 80 - wk, wl, 38, 0) - tri_sum(kpp, 80 - wk, ow, 38, 0)
        == row_sum(kpp, 80 - wk, in_, wl, 38, 0) - row_sum(kpp, 80 - wk, io, ow, 38, 0));
    assert(tri_sum(kpp, 80 - wk, wl, 38, 1) - tri_sum(kpp, 80 - wk, ow, 38, 1)
        == row_sum(kpp, 80 - wk, in_, wl, 38, 1) - row_sum(kpp, 80 - wk, io, ow, 38, 1));
    assert(kkp_sum(kkp, bk, wk, bl, 38, 0) - kkp_sum(kkp, bk, wk, ob, 38, 0)
        == kkp_val(kkp, bk, wk, n, 0) - kkp_val(kkp, bk, wk, o, 0));
    assert(kkp_sum(kkp, bk, wk, bl, 38, 1) - kkp_sum(kkp, bk, wk, ob, 38, 1)
        == kkp_val(kkp, bk, wk, n, 1) - kkp_val(kkp, bk, wk, o, 1));
}

proof fn lemma_two_updates(t: Seq<i16>, sq: int, ob: Seq<EvalIndex>, li: int, lic: int, n: EvalIndex, cn: EvalIndex, c: int)
    requires
        ob.len() == 38, 0 <= li < 38, 0 <= lic < 38, li != lic, 0 <= c < 2,
        kpp_symmetric(t, sq), features_valid(ob), n.0 < 1548, cn.0 < 1548,
    ensures ({
        let bl = ob.update(li, n).update(lic, cn);
        let o = ob[li].0 as int;
        let co = ob[lic].0 as int;
        tri_sum(t, sq, bl, 38, c) - tri_sum(t, sq, ob, 38, c)
            == (row_sum(t, sq, n.0 as int, bl, 38, c) + row_sum(t, sq, cn.0 as int, bl, 38, c) - kpp_val(t, sq, n.0 as int, cn.0 as int, c))
                - (row_sum(t, sq, o, ob, 38, c) + row_sum(t, sq, co, ob, 38, c) - kpp_val(t, sq, o, co, c))
    }),
{
    let mid = ob.update(li, n);
    let o = ob[li].0 as int;
    let co = ob[lic].0 as int;
    let ni = n.0 as int;
    let ci = cn.0 as int;
    assert(0 <= o < 1548 && 0 <= co < 1548);
    assert(features_valid(mid));
    assert(mid[lic] == ob[lic]);
    lemma_tri_update(t, sq, ob, li, n, 38, c);
    lemma_tri_update(t, sq, mid, lic, cn, 38, c);
    lemma_row_update(t, sq, ni, mid, lic, cn, 38, c);
    lemma_row_update(t, sq, ni, ob, li, n, 38, c);
    lemma_row_update(t, sq, ci, mid, lic, cn, 38, c);
    lemma_row_update(t, sq, co, ob, li, n, 38, c);
    assert(kpp_val(t, sq, ni, ni, c) == 0);
    assert(kpp_val(t, sq, o, o, c) == 0);
    assert(kpp_val(t, sq, ci, ci, c) == 0);
    assert(kpp_val(t, sq, co, co, c) == 0);
    assert(kpp_val(t, sq, co, ni, c) == kpp_val(t, sq, ni, co, c));
    assert(kpp_val(t, sq, co, o, c) == kpp_val(t, sq, o, co, c));
}

/// The difference evaluation of a capture that did not move a king gives the full
/// evaluation of the new position, when the sums before the move were the full
/// evaluation of the position before it and the tables are symmetric with a zero
/// diagonal for both kings.
pub proof fn lemma_capture_difference_is_full_evaluation(
    kpp: Seq<i16>, kkp: Seq<i16>, p: MovedPosition, bl: Seq<EvalIndex>, wl: Seq<EvalIndex>, material_before: int,
)
    requires
        kpp_symmetric(kpp, p.sq_bk.val()),
        kpp_symmetric(kpp, 80 - p.sq_wk.val()),
        bl.len() == LIST_NUM, wl.len() == LIST_NUM,
        features_valid(bl), features_valid(wl),
        !p.king_moved, p.captured,
        p.list_index < LIST_NUM, p.list_index_captured < LIST_NUM, p.list_index != p.list_index_captured,
        p.changed.new_index.0 < EvalIndex::FE_END, p.changed.old_index.0 < EvalIndex::FE_END,
        p.changed_captured.new_index.0 < EvalIndex::FE_END, p.changed_captured.old_index.0 < EvalIndex::FE_END,
        bl[p.list_index as int] == p.changed.new_index,
        wl[p.list_index as int].0 == inverse_index(p.changed.new_index.0 as int),
        bl[p.list_index_captured as int] == p.changed_captured.new_index,
        wl[p.list_index_captured as int].0 == inverse_index(p.changed_captured.new_index.0 as int),
        p.material.0 == material_before + p.material_diff.0,
    ensures ({
        let l1 = with_feature(bl, wl, p.list_index_captured as int, p.changed_captured.old_index.0 as int);
        let l2 = with_feature(l1.0, l1.1, p.list_index as int, p.changed.old_index.0 as int);
        moved_terms(kpp, kkp, p, bl, wl, full_terms(kpp, kkp, p.sq_bk.val(), p.sq_wk.val(), l2.0, l2.1, material_before))
            == full_terms(kpp, kkp, p.sq_bk.val(), p.sq_wk.val(), bl, wl, p.material.0 as int)
    }),
{
    let bk = p.sq_bk.val();
    let wk = p.sq_wk.val();
    let li = p.list_index as int;
    let lic = p.list_index_captured as int;
    let n = p.changed.new_index.0 as int;
    let o = p.changed.old_index.0 as int;
    let cn = p.changed_captured.new_index.0 as int;
    let co = p.changed_captured.old_index.0 as int;
    lemma_inverse_involution(n);
    lemma_inverse_involution(o);
    lemma_inverse_involution(cn);
    lemma_inverse_involution(co);
    let l1 = with_feature(bl, wl, lic, co);
    let l2 = with_feature(l1.0, l1.1, li, o);
    let ob = l2.0;
    let ow = l2.1;
    let nx = EvalIndex(n as usize);
    let cnx = EvalIndex(cn as usize);
    let nwx = EvalIndex(inverse_index(n) as usize);
    let cnwx = EvalIndex(inverse_index(cn) as usize);
    assert(ob.update(li, nx).update(lic, cnx) =~= bl);
    assert(ow.update(li, nwx).update(lic, cnwx) =~= wl);
    assert(features_valid(ob));
    assert(features_valid(ow));
    assert(ob[li].0 == o && ob[lic].0 == co);
    assert(ow[li].0 == inverse_index(o) && ow[lic].0 == inverse_index(co));
    assert(with_feature(ob, ow, li, o).0 =~= ob);
    assert(with_feature(ob, ow, li, o).1 =~= ow);
    lemma_two_updates(kpp, bk, ob, li, lic, nx, cnx, 0);
    lemma_two_updates(kpp, bk, ob, li, lic, nx, cnx, 1);
    lemma_two_updates(kpp, 80 - wk, ow, li, lic, nwx, cnwx, 0);
    lemma_two_updates(kpp, 80 - wk, ow, li, lic, nwx, cnwx, 1);
    let mid = ob.update(li, nx);
    lemma_kkp_update(kkp, bk, wk, ob, li, nx, 38, 0);
    lemma_kkp_update(kkp, bk, wk, ob, li, nx, 38, 1);
    lemma_kkp_update(kkp, bk, wk, mid, lic, cnx, 38, 0);
    lemma_kkp_update(kkp, bk, wk, mid, lic, cnx, 38, 1);
}

/// For kings on `bk` and `wk`, the KKP table seen from White (kings swapped and turned
/// round, features inverted) has the board value negated and the turn value kept.
pub open spec fn kkp_mirrored(kkp: Seq<i16>, bk: int, wk: int) -> bool {
    forall|e: int| 0 <= e < 1548 ==>
        (#[trigger] kkp_val(kkp, bk, wk, e, 0)) == -kkp_val(kkp, 80 - wk, 80 - bk, inverse_index(e), 0)
        && kkp_val(kkp, bk, wk, e, 1) == kkp_val(kkp, 80 - wk, 80 - bk, inverse_index(e), 1)
}

/// Each feature of White's list is Black's feature seen from the other side.
pub open spec fn lists_mirror(bl: Seq<EvalIndex>, wl: Seq<EvalIndex>) -> bool {
    &&& bl.len() == wl.len()
    &&& forall|k: int| 0 <= k < bl.len() ==> (#[trigger] wl[k]).0 == inverse_index(bl[k].0 as int)
}

proof fn lemma_kkp_mirror_sum(kkp: Seq<i16>, bk: int, wk: int, bl: Seq<EvalIndex>, wl: Seq<EvalIndex>, m: int)
    requires kkp_mirrored(kkp, bk, wk), lists_mirror(bl, wl), features_valid(bl), 0 <= m <= bl.len(),
    ensures
        kkp_sum(kkp, 80 - wk, 80 - bk, wl, m, 0) == -kkp_sum(kkp, bk, wk, bl, m, 0),
        kkp_sum(kkp, 80 - wk, 80 - bk, wl, m, 1) == kkp_sum(kkp, bk, wk, bl, m, 1),
    decreases m,
{
    if m > 0 {
        lemma_kkp_mirror_sum(kkp, bk, wk, bl, wl, m - 1);
        let e = bl[m - 1].0 as int;
        assert(wl[m - 1].0 == inverse_index(e));
        assert(kkp_val(kkp, bk, wk, e, 0) == -kkp_val(kkp, 80 - wk, 80 - bk, inverse_index(e), 0));
    }
}

/// The difference evaluation after a king move gives the full evaluation of the new
/// position, when the sums before the move were the full evaluation of the position
/// before it (the moved king on `king_before`), White's features are Black's seen from
/// the other side, and the tables are symmetric with a zero diagonal and mirrored
/// between the two kings' views.
pub proof fn lemma_king_move_difference_is_full_evaluation(
    kpp: Seq<i16>, kkp: Seq<i16>, p: MovedPosition, bl: Seq<EvalIndex>, wl: Seq<EvalIndex>,
    king_before: Square, material_before: int,
)
    requires
        kpp_symmetric(kpp, p.sq_bk.val()),
        kpp_symmetric(kpp, 80 - p.sq_wk.val()),
        kkp_mirrored(kkp, p.sq_bk.val(), p.sq_wk.val()),
        bl.len() == LIST_NUM, features_valid(bl), features_valid(wl), lists_mirror(bl, wl),
        p.king_moved,
        p.list_index_captured < LIST_NUM,
        p.changed_captured.new_index.0 < EvalIndex::FE_END, p.changed_captured.old_index.0 < EvalIndex::FE_END,
        p.captured ==> bl[p.list_index_captured as int] == p.changed_captured.new_index,
    ensures ({
        let before = if p.captured {
            with_feature(bl, wl, p.list_index_captured as int, p.changed_captured.old_index.0 as int)
        } else {
            (bl, wl)
        };
        let prev = if p.side_to_move == Color::BLACK {
            full_terms(kpp, kkp, p.sq_bk.val(), king_before.val(), before.0, before.1, material_before)
        } else {
            full_terms(kpp, kkp, king_before.val(), p.sq_wk.val(), before.0, before.1, material_before)
        };
        moved_terms(kpp, kkp, p, bl, wl, prev) == full_terms(kpp, kkp, p.sq_bk.val(), p.sq_wk.val(), bl, wl, p.material.0 as int)
    }),
{
    let bk = p.sq_bk.val();
    let wk = p.sq_wk.val();
    let lic = p.list_index_captured as int;
    let cn = p.changed_captured.new_index.0 as int;
    let co = p.changed_captured.old_index.0 as int;
    lemma_inverse_involution(cn);
    lemma_inverse_involution(co);
    lemma_kkp_mirror_sum(kkp, bk, wk, bl, wl, 38);
    if p.captured {
        let before = with_feature(bl, wl, lic, co);
        let ob = before.0;
        let ow = before.1;
        let cnx = EvalIndex(cn as usize);
        let cnwx = EvalIndex(inverse_index(cn) as usize);
        assert(wl[lic].0 == inverse_index(cn));
        assert(ob.update(lic, cnx) =~= bl);
        assert(ow.update(lic, cnwx) =~= wl);
        assert(features_valid(ob));
        assert(features_valid(ow));
        assert(bl.update(lic, EvalIndex(co as usize)) =~= ob);
        assert(wl.update(lic, EvalIndex(inverse_index(co) as usize)) =~= ow);
        assert forall|c: int| 0 <= c < 2 implies
            #[trigger] tri_sum(kpp, bk, bl, 38, c) - tri_sum(kpp, bk, ob, 38, c)
                == row_sum(kpp, bk, cn, bl, 38, c) - row_sum(kpp, bk, co, ob, 38, c) by {
            lemma_tri_update(kpp, bk, ob, lic, cnx, 38, c);
            lemma_row_update(kpp, bk, cn, ob, lic, cnx, 38, c);
            assert(kpp_val(kpp, bk, cn, cn, c) == 0);
            assert(kpp_val(kpp, bk, co, co, c) == 0);
        }
        let icn = inverse_index(cn);
        let ico = inverse_index(co);
        assert forall|c: int| 0 <= c < 2 implies
            #[trigger] tri_sum(kpp, 80 - wk, wl, 38, c) - tri_sum(kpp, 80 - wk, ow, 38, c)
                == row_sum(kpp, 80 - wk, icn, wl, 38, c) - row_sum(kpp, 80 - wk, ico, ow, 38, c) by {
            lemma_tri_update(kpp, 80 - wk, ow, lic, cnwx, 38, c);
            lemma_row_update(kpp, 80 - wk, icn, ow, lic, cnwx, 38, c);
            assert(kpp_val(kpp, 80 - wk, icn, icn, c) == 0);
            assert(kpp_val(kpp, 80 - wk, ico, ico, c) == 0);
        }
        assert(tri_sum(kpp, bk, bl, 38, 0) - tri_sum(kpp, bk, ob, 38, 0)
            == row_sum(kpp, bk, cn, bl, 38, 0) - row_sum(kpp, bk, co, ob, 38, 0));
        assert(tri_sum(kpp, bk, bl, 38, 1) - tri_sum(kpp, bk, ob, 38, 1)
            == row_sum(kpp, bk, cn, bl, 38, 1) - row_sum(kpp, bk, co, ob, 38, 1));
        assert(tri_sum(kpp, 80 - wk, wl, 38, 0) - tri_sum(kpp, 80 - wk, ow, 38, 0)
            == row_sum(kpp, 80 - wk, icn, wl, 38, 0) - row_sum(kpp, 80 - wk, ico, ow, 38, 0));
        assert(tri_sum(kpp, 80 - wk, wl, 38, 1) - tri_sum(kpp, 80 - wk, ow, 38, 1)
            == row_sum(kpp, 80 - wk, icn, wl, 38, 1) - row_sum(kpp, 80 - wk, ico, ow, 38, 1));
    }
}

/// `x / d` rounding toward zero.
pub fn div_toward_zero(x: i32, d: i32) -> (r: i32)
    requires d > 0, x > i32::MIN,
    ensures r == trunc_div(x as int, d as int),
{
    if x >= 0 { x / d } else { -((-x) / d) }
}

} // verus!
