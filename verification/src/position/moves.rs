use vstd::prelude::*;
use crate::hand::{field_capacity, hand_kind, is_capturable_piece_type, lemma_minus_one_counts, lemma_plus_one_counts, Hand};
use crate::kppt::{board_material, hand_count, hand_material, hand_order, position_material_spec};
use crate::piecevalue::{capture_material, material, promote_material};
use crate::movetypes::Move;
use crate::position::{PositionBase, SfenModel};
use crate::types::{Color, Piece, PieceType, Square};

verus! {

/// The colour number of piece number `pc`.
pub open spec fn piece_color(pc: Piece) -> int {
    pc.val() / 16
}

/// The kind of piece `pc`.
pub open spec fn piece_kind(pc: Piece) -> PieceType {
    PieceType::from_val(pc.val() % 16)
}

/// The kind that piece `pc` goes to a hand as when captured: a promoted piece unpromoted.
pub open spec fn captured_kind(pc: Piece) -> PieceType {
    let k = pc.val() % 16;
    PieceType::from_val(if k > 8 { k - 8 } else { k })
}

/// The hand `h` with one more piece of the kind that `pt` becomes in hand.
pub open spec fn hand_plus(h: Hand, pt: PieceType) -> Hand {
    Hand((h.0 + Hand::one(pt)) as u32)
}

/// The hand `h` with one piece less of the kind that `pt` becomes in hand.
pub open spec fn hand_minus(h: Hand, pt: PieceType) -> Hand {
    Hand((h.0 - Hand::one(pt)) as u32)
}

/// Move `m` can be made on `s`: a drop puts a piece of the side to move, which it holds,
/// on an empty square; a board move takes a piece of the side to move to an empty square
/// or onto a piece of the other side other than its king, promoting only a piece that can
/// promote; the hand that takes the captured piece has room for it; the ply count can
/// go on.
pub open spec fn move_applicable(s: SfenModel, m: Move) -> bool {
    let us = s.side_to_move.val();
    let to = m.to_field() as int;
    &&& s.board.len() == 81 && s.hands.len() == 2 && s.king_squares.len() == 2
    &&& 0 <= to < 81
    &&& s.game_ply < i32::MAX
    &&& if m.spec_is_drop() {
        let pc = Piece::from_val(m.dropped_field() as int);
        &&& (1 <= m.dropped_field() <= 7 || 17 <= m.dropped_field() <= 23)
        &&& piece_color(pc) == us
        &&& s.board[to] == Piece::EMPTY
        &&& s.hands[us].0 >= Hand::one(piece_kind(pc))
    } else {
        let from = m.from_field() as int;
        let pc_from = s.board[from];
        let cap = s.board[to];
        &&& 0 <= from < 81 && from != to
        &&& pc_from != Piece::EMPTY && piece_color(pc_from) == us
        &&& cap != Piece::EMPTY ==> piece_color(cap) != us && !cap.is_king_spec()
        &&& cap != Piece::EMPTY ==> s.hands[us].0 + Hand::one(captured_kind(cap)) <= u32::MAX
        &&& m.spec_is_promotion() ==> pc_from.spec_is_promotable()
    }
}

/// The piece that move `m` takes on `s` (empty for a drop or a move to an empty square).
pub open spec fn captured_by(s: SfenModel, m: Move) -> Piece {
    if m.spec_is_drop() { Piece::EMPTY } else { s.board[m.to_field() as int] }
}

/// The position after move `m` on `s`: a drop takes the piece from the hand to the board;
/// a board move lifts the piece, takes what stood on the destination into the mover's
/// hand (unpromoted, as `captured_kind` says), and puts the piece down, promoted if the move promotes, a king
/// keeping track of where it now stands; then the other side is to move and the ply
/// count goes up by one.
pub open spec fn apply_move(s: SfenModel, m: Move) -> SfenModel {
    let us = s.side_to_move.val();
    let them = Color::from_val(1 - us);
    let to = m.to_field() as int;
    if m.spec_is_drop() {
        let pc = Piece::from_val(m.dropped_field() as int);
        SfenModel {
            board: s.board.update(to, pc),
            hands: s.hands.update(us, hand_minus(s.hands[us], piece_kind(pc))),
            side_to_move: them,
            game_ply: s.game_ply + 1,
            king_squares: s.king_squares,
        }
    } else {
        let from = m.from_field() as int;
        let pc_from = s.board[from];
        let cap = s.board[to];
        let pc_to = if m.spec_is_promotion() { Piece::from_val(pc_from.val() + 8) } else { pc_from };
        SfenModel {
            board: s.board.update(from, Piece::EMPTY).update(to, pc_to),
            hands: if cap != Piece::EMPTY { s.hands.update(us, hand_plus(s.hands[us], captured_kind(cap))) } else { s.hands },
            side_to_move: them,
            game_ply: s.game_ply + 1,
            king_squares: if pc_from.is_king_spec() { s.king_squares.update(us, to) } else { s.king_squares },
        }
    }
}

/// Move `m` can be taken back on `s`, where it was the last move and took `captured`.
pub open spec fn move_undoable(s: SfenModel, m: Move, captured: Piece) -> bool {
    let mover = 1 - s.side_to_move.val();
    let to = m.to_field() as int;
    &&& s.board.len() == 81 && s.hands.len() == 2 && s.king_squares.len() == 2
    &&& 0 <= to < 81
    &&& s.game_ply > i32::MIN
    &&& if m.spec_is_drop() {
        let pc = Piece::from_val(m.dropped_field() as int);
        &&& (1 <= m.dropped_field() <= 7 || 17 <= m.dropped_field() <= 23)
        &&& s.board[to] == pc
        &&& s.hands[mover].0 + Hand::one(piece_kind(pc)) <= u32::MAX
    } else {
        let from = m.from_field() as int;
        let pc_to = s.board[to];
        &&& 0 <= from < 81 && from != to
        &&& s.board[from] == Piece::EMPTY
        &&& pc_to != Piece::EMPTY
        &&& m.spec_is_promotion() ==> 9 <= pc_to.val() % 16 <= 14
        &&& captured != Piece::EMPTY ==> !captured.is_king_spec() && s.hands[mover].0 >= Hand::one(captured_kind(captured))
    }
}

/// The position before move `m`, which took `captured`, from the position `s` after it.
pub open spec fn unapply_move(s: SfenModel, m: Move, captured: Piece) -> SfenModel {
    let mover = 1 - s.side_to_move.val();
    let to = m.to_field() as int;
    if m.spec_is_drop() {
        let pc = Piece::from_val(m.dropped_field() as int);
        SfenModel {
            board: s.board.update(to, Piece::EMPTY),
            hands: s.hands.update(mover, hand_plus(s.hands[mover], piece_kind(pc))),
            side_to_move: Color::from_val(mover),
            game_ply: s.game_ply - 1,
            king_squares: s.king_squares,
        }
    } else {
        let from = m.from_field() as int;
        let pc_to = s.board[to];
        let pc_from = if m.spec_is_promotion() { Piece::from_val(pc_to.val() - 8) } else { pc_to };
        SfenModel {
            board: s.board.update(to, captured).update(from, pc_from),
            hands: if captured != Piece::EMPTY { s.hands.update(mover, hand_minus(s.hands[mover], captured_kind(captured))) } else { s.hands },
            side_to_move: Color::from_val(mover),
            game_ply: s.game_ply - 1,
            king_squares: if pc_to.is_king_spec() { s.king_squares.update(mover, from) } else { s.king_squares },
        }
    }
}

/// Taking back a move just made gives the position before it: after `apply_move`, the
/// move can be taken back with the piece it captured, and `unapply_move` restores the
/// board, the hands, the side to move, the ply count and, when the king square that the
/// position keeps for the mover is where a moving king stood, the king squares.
pub proof fn lemma_undo_after_do(s: SfenModel, m: Move)
    requires
        move_applicable(s, m),
        i32::MIN <= s.game_ply,
        !m.spec_is_drop() && s.board[m.from_field() as int].is_king_spec()
            ==> s.king_squares[s.side_to_move.val()] == m.from_field() as int,
    ensures
        move_undoable(apply_move(s, m), m, captured_by(s, m)),
        unapply_move(apply_move(s, m), m, captured_by(s, m)) == s,
{
    broadcast use Piece::lemma_from_val, PieceType::lemma_from_val, Color::lemma_from_val, Color::lemma_val_range;
    let t = apply_move(s, m);
    let u = unapply_move(t, m, captured_by(s, m));
    let us = s.side_to_move.val();
    assert(1 - t.side_to_move.val() == us);
    assert(Color::from_val(us) == s.side_to_move);
    assert(u.board =~= s.board);
    assert(u.hands =~= s.hands);
    assert(u.king_squares =~= s.king_squares);
    if !m.spec_is_drop() && m.spec_is_promotion() {
        let pc_from = s.board[m.from_field() as int];
        assert(1 <= pc_from.val() % 16 <= 6);
        assert(pc_from.val() <= 14 || 17 <= pc_from.val() <= 30) by { broadcast use Piece::lemma_val_range; }
        assert(Piece::from_val(pc_from.val() + 8).val() == pc_from.val() + 8);
    }
}

/// The signed material of piece `pc`: Black's counted up, White's down.
pub open spec fn piece_material(pc: Piece) -> int {
    let v = pc.val();
    if v == 0 { 0 } else if v < 16 { material(v % 16) } else { -material(v % 16) }
}

/// What move `m` changes of the material balance on `s`, from Black's side: a capture
/// gains the captured piece on the board and in hand, a promotion gains the promoted
/// value; a drop changes nothing.
pub open spec fn material_delta(s: SfenModel, m: Move) -> int {
    if m.spec_is_drop() {
        0
    } else {
        let cap = s.board[m.to_field() as int];
        let pc_from = s.board[m.from_field() as int];
        let gain = (if cap != Piece::EMPTY { capture_material(cap.val() % 16) } else { 0 })
            + (if m.spec_is_promotion() { promote_material(pc_from.val() % 16) } else { 0 });
        if s.side_to_move.val() == 0 { gain } else { -gain }
    }
}

proof fn lemma_board_material_update(b: Seq<Piece>, sq: int, pc: Piece, m: int)
    requires 0 <= sq < b.len(), 0 <= m <= b.len(),
    ensures
        board_material(b.update(sq, pc), m) == board_material(b, m)
            + (if sq < m { piece_material(pc) - piece_material(b[sq]) } else { 0 }),
    decreases m,
{
    if m > 0 {
        lemma_board_material_update(b, sq, pc, m - 1);
    }
}

proof fn lemma_hand_material_change(p: PositionBase, q: PositionBase, c: int, j: int, e: int, k: int)
    requires
        0 <= k <= 7,
        0 <= c < 2,
        1 <= j <= 7,
        p.hands_seq().len() == 2,
        q.hands_seq().len() == 2,
        q.hands_seq()[1 - c] == p.hands_seq()[1 - c],
        forall|t: int| 1 <= t <= 7 ==> #[trigger] q.hands_seq()[c].count(PieceType::from_val(t))
            == p.hands_seq()[c].count(PieceType::from_val(t)) + (if t == j { e } else { 0 }),
    ensures
        hand_material(q, k) == hand_material(p, k)
            + (if j <= k { (if c == 0 { e * material(j) } else { -(e * material(j)) }) } else { 0 }),
    decreases k,
{
    if k > 0 {
        lemma_hand_material_change(p, q, c, j, e, k - 1);
        assert(hand_order(2 * (k - 1)).val() == k);
        assert(hand_order(2 * (k - 1) + 1).val() == k + 16);
        let qb = hand_count(q, hand_order(2 * (k - 1)));
        let qw = hand_count(q, hand_order(2 * (k - 1) + 1));
        let pb = hand_count(p, hand_order(2 * (k - 1)));
        let pw = hand_count(p, hand_order(2 * (k - 1) + 1));
        let d = if k == j { e } else { 0 };
        assert(q.hands_seq()[c].count(PieceType::from_val(k)) == p.hands_seq()[c].count(PieceType::from_val(k)) + d);
        if c == 0 {
            assert(qb == pb + d && qw == pw);
        } else {
            assert(qw == pw + d && qb == pb);
        }
        let mk = material(k);
        assert((qb - qw) * mk == (pb - pw) * mk + (if c == 0 { d * mk } else { -(d * mk) })) by (nonlinear_arith)
            requires
                c == 0 ==> qb == pb + d && qw == pw,
                c != 0 ==> qw == pw + d && qb == pb;
    }
}

/// The material balance follows a move: after `apply_move`, the balance of the pieces on
/// the board and in hand is the one before plus `material_delta`, as a position keeps it
/// step by step (hands without stray bits, the dropped kind held, room for the captured
/// kind).
#[verifier::rlimit(40)]
pub proof fn lemma_material_after_move(pos: PositionBase, after: PositionBase, m: Move)
    requires
        move_applicable(pos.model(), m),
        after.model() == apply_move(pos.model(), m),
        pos.hands_seq()[0].wf(),
        pos.hands_seq()[1].wf(),
        m.spec_is_drop() ==> pos.hands_seq()[pos.spec_side_to_move().val()].count(
            piece_kind(Piece::from_val(m.dropped_field() as int))) > 0,
        !m.spec_is_drop() && pos.board_seq()[m.to_field() as int] != Piece::EMPTY
            ==> pos.hands_seq()[pos.spec_side_to_move().val()].count(captured_kind(pos.board_seq()[m.to_field() as int]))
                < field_capacity(captured_kind(pos.board_seq()[m.to_field() as int])),
    ensures
        position_material_spec(after) == position_material_spec(pos) + material_delta(pos.model(), m),
{
    broadcast use Piece::lemma_from_val, PieceType::lemma_from_val, Color::lemma_val_range, Piece::lemma_val_range,
        PieceType::lemma_val_range;
    let s = pos.model();
    let us = s.side_to_move.val();
    let to = m.to_field() as int;
    assert(after.board_seq() == after.model().board);
    assert(after.hands_seq() == after.model().hands);
    assert(pos.board_seq() == s.board);
    assert(pos.hands_seq() == s.hands);
    if m.spec_is_drop() {
        let pc = Piece::from_val(m.dropped_field() as int);
        let pt = piece_kind(pc);
        let h = s.hands[us];
        assert(1 <= pt.val() <= 7);
        assert(hand_kind(pt) == pt);
        lemma_minus_one_counts(h, pt);
        lemma_board_material_update(s.board, to, pc, 81);
        assert forall|t: int| 1 <= t <= 7 implies #[trigger] after.hands_seq()[us].count(PieceType::from_val(t))
            == pos.hands_seq()[us].count(PieceType::from_val(t)) + (if t == pt.val() { -1int } else { 0 }) by {
            let q = PieceType::from_val(t);
            assert(q.val() == t);
            if t != pt.val() {
                assert(q != hand_kind(pt));
            }
        }
        lemma_hand_material_change(pos, after, us, pt.val(), -1, 7);
        assert(piece_material(pc) == (if us == 0 { 1int } else { -1int }) * material(pt.val()));
        assert(piece_material(s.board[to]) == 0);
        assert(after.board_seq() == s.board.update(to, pc));
        assert(board_material(after.board_seq(), 81) == board_material(s.board, 81) + piece_material(pc));
        assert(hand_material(after, 7) == hand_material(pos, 7) - piece_material(pc));
        assert(material_delta(s, m) == 0);
        assert(position_material_spec(after) == position_material_spec(pos) + material_delta(s, m));
    } else {
        let from = m.from_field() as int;
        let pc_from = s.board[from];
        let cap = s.board[to];
        let pc_to = if m.spec_is_promotion() { Piece::from_val(pc_from.val() + 8) } else { pc_from };
        let b1 = s.board.update(from, Piece::EMPTY);
        lemma_board_material_update(s.board, from, Piece::EMPTY, 81);
        lemma_board_material_update(b1, to, pc_to, 81);
        assert(b1[to] == cap);
        assert(piece_color(pc_from) == us);
        assert(piece_material(pc_from) == (if us == 0 { material(pc_from.val() % 16) } else { -material(pc_from.val() % 16) }));
        if m.spec_is_promotion() {
            assert(pc_to.val() == pc_from.val() + 8);
            assert(piece_material(pc_to) == (if us == 0 { material(pc_from.val() % 16 + 8) } else { -material(pc_from.val() % 16 + 8) }));
            assert(promote_material(pc_from.val() % 16) == material(pc_from.val() % 16 + 8) - material(pc_from.val() % 16));
        }
        if cap != Piece::EMPTY {
            let ck = captured_kind(cap);
            let k = cap.val() % 16;
            assert(piece_material(cap) == (if us == 0 { -material(k) } else { material(k) }));
            assert(1 <= ck.val() <= 7);
            assert(hand_kind(ck) == ck);
            assert(capture_material(k) == material(k) + material(ck.val()));
            lemma_plus_one_counts(s.hands[us], ck);
            assert forall|t: int| 1 <= t <= 7 implies #[trigger] after.hands_seq()[us].count(PieceType::from_val(t))
                == pos.hands_seq()[us].count(PieceType::from_val(t)) + (if t == ck.val() { 1int } else { 0 }) by {
                let q = PieceType::from_val(t);
                assert(q.val() == t);
                if t != ck.val() {
                    assert(q != hand_kind(ck));
                }
            }
            lemma_hand_material_change(pos, after, us, ck.val(), 1, 7);
            assert(after.board_seq() == b1.update(to, pc_to));
            assert(board_material(after.board_seq(), 81) == board_material(s.board, 81)
                - piece_material(pc_from) + piece_material(pc_to) - piece_material(cap));
            assert(hand_material(after, 7) == hand_material(pos, 7) + (if us == 0 { material(ck.val()) } else { -material(ck.val()) }));
            assert(position_material_spec(after) == position_material_spec(pos) + material_delta(s, m));
        } else {
            assert(after.hands_seq() == pos.hands_seq());
            assert(piece_material(cap) == 0);
            lemma_hand_material_change(pos, after, us, 1, 0, 7);
            assert(hand_material(after, 7) == hand_material(pos, 7));
            assert(after.board_seq() == b1.update(to, pc_to));
            assert(board_material(after.board_seq(), 81) == board_material(s.board, 81)
                - piece_material(pc_from) + piece_material(pc_to));
        }
    }
}

impl PositionBase {
    /// Makes move `m`: the board, the hands, the king squares, the side to move and the
    /// ply count become those of `apply_move`, the bitboards follow the board. Returns the
    /// captured piece (empty for none).
    pub fn do_move(&mut self, m: Move) -> (captured: Piece)
        requires
            old(self).wf(),
            move_applicable(old(self).model(), m),
        ensures
            final(self).wf(),
            final(self).model() == apply_move(old(self).model(), m),
            captured == captured_by(old(self).model(), m),
    {
        proof {
            broadcast use Piece::lemma_from_val, PieceType::lemma_from_val, Color::lemma_from_val, Color::lemma_val_range;
        }
        let ghost s = self.model();
        let us = self.side_to_move;
        let them = us.inverse();
        let u = us.to_i32() as usize;
        let to = m.to();
        let ti = to.to_i32() as usize;
        let mut board = self.board;
        let mut hands = self.hands;
        let mut king_squares = self.king_squares;
        let captured;
        if m.is_drop() {
            let pc = m.piece_dropped();
            let pt = PieceType::new(pc);
            hands[u].minus_one(pt);
            board[ti] = pc;
            captured = Piece::EMPTY;
        } else {
            let from = m.from();
            let fi = from.to_i32() as usize;
            let pc_from = board[fi];
            let cap = board[ti];
            if cap != Piece::EMPTY {
                hands[u].plus_one(PieceType::new(cap).to_demote_if_possible());
            }
            let pc_to = if m.is_promotion() { pc_from.to_promote() } else { pc_from };
            board[fi] = Piece::EMPTY;
            board[ti] = pc_to;
            if pc_from.is_king() {
                king_squares[u] = to;
            }
            captured = cap;
        }
        let r = PositionBase::from_parts(board, hands, self.game_ply + 1, king_squares, them);
        *self = r;
        proof {
            let t = apply_move(s, m);
            assert(self.model().board =~= t.board);
            assert(self.model().hands =~= t.hands);
            assert(self.model().king_squares =~= t.king_squares);
        }
        captured
    }

    /// Takes back move `m`, which took `captured`: the board, the hands, the king squares,
    /// the side to move and the ply count become those of `unapply_move`.
    pub fn undo_move(&mut self, m: Move, captured: Piece)
        requires
            old(self).wf(),
            move_undoable(old(self).model(), m, captured),
        ensures
            final(self).wf(),
            final(self).model() == unapply_move(old(self).model(), m, captured),
    {
        proof {
            broadcast use Piece::lemma_from_val, PieceType::lemma_from_val, Color::lemma_from_val, Color::lemma_val_range;
        }
        let ghost s = self.model();
        let mover = self.side_to_move.inverse();
        let u = mover.to_i32() as usize;
        let to = m.to();
        let ti = to.to_i32() as usize;
        let mut board = self.board;
        let mut hands = self.hands;
        let mut king_squares = self.king_squares;
        if m.is_drop() {
            let pc = m.piece_dropped();
            hands[u].plus_one(PieceType::new(pc));
            board[ti] = Piece::EMPTY;
        } else {
            let from = m.from();
            let fi = from.to_i32() as usize;
            let pc_to = board[ti];
            if captured != Piece::EMPTY {
                hands[u].minus_one(PieceType::new(captured).to_demote_if_possible());
            }
            let pc_from = if m.is_promotion() { pc_to.to_demote() } else { pc_to };
            board[ti] = captured;
            board[fi] = pc_from;
            if pc_to.is_king() {
                king_squares[u] = from;
            }
        }
        let r = PositionBase::from_parts(board, hands, self.game_ply - 1, king_squares, mover);
        *self = r;
        proof {
            let t = unapply_move(s, m, captured);
            assert(self.model().board =~= t.board);
            assert(self.model().hands =~= t.hands);
            assert(self.model().king_squares =~= t.king_squares);
        }
    }
}

/// What a position keeps of each move made on it, to take the move back.
#[derive(Clone, Copy)]
pub struct StateInfo {
    /// The piece that the move captured (empty for none).
    pub captured_piece: Piece,
}

/// A position with the states of the moves made on it, the last one on top.
pub struct Position {
    pub base: PositionBase,
    pub states: Vec<StateInfo>,
}

impl Position {
    /// The position `base` with one state, for the move that led to it (none captured).
    pub fn new(base: PositionBase) -> (r: Position)
        ensures
            r.base == base,
            r.states@ == seq![StateInfo { captured_piece: Piece::EMPTY }],
    {
        let mut states: Vec<StateInfo> = Vec::new();
        states.push(StateInfo { captured_piece: Piece::EMPTY });
        Position { base, states }
    }

    /// Makes move `m` and keeps a state for it with the piece it captured.
    pub fn do_move(&mut self, m: Move)
        requires
            old(self).base.wf(),
            move_applicable(old(self).base.model(), m),
        ensures
            final(self).base.wf(),
            final(self).base.model() == apply_move(old(self).base.model(), m),
            final(self).states@ == old(self).states@.push(StateInfo { captured_piece: captured_by(old(self).base.model(), m) }),
    {
        let captured = self.base.do_move(m);
        self.states.push(StateInfo { captured_piece: captured });
    }

    /// Takes back move `m`, the last one made, with the piece that its state says it
    /// captured, and drops that state.
    pub fn undo_move(&mut self, m: Move)
        requires
            old(self).base.wf(),
            old(self).states.len() > 0,
            move_undoable(old(self).base.model(), m, old(self).states@.last().captured_piece),
        ensures
            final(self).base.wf(),
            final(self).base.model() == unapply_move(old(self).base.model(), m, old(self).states@.last().captured_piece),
            final(self).states@ == old(self).states@.drop_last(),
    {
        let st = self.states.pop().unwrap();
        self.base.undo_move(m, st.captured_piece);
    }
}

impl PositionBase {
    /// Whether move `m` can be made on this position, as `move_applicable` says.
    pub fn move_applies(&self, m: Move) -> (r: bool)
        ensures r == move_applicable(self.model(), m),
    {
        proof {
            broadcast use Piece::lemma_from_val, PieceType::lemma_from_val, Color::lemma_val_range, Piece::lemma_val_range;
        }
        let to_field = m.0 & 0x7f;
        if to_field >= 81 || self.game_ply == i32::MAX {
            return false;
        }
        let u = self.side_to_move.to_i32() as usize;
        let ti = to_field as usize;
        if m.0 & 0x100 != 0 {
            let d = (m.0 & 0x3e00) >> 9;
            if !((1 <= d && d <= 7) || (17 <= d && d <= 23)) {
                return false;
            }
            let pc = m.piece_dropped();
            if Color::new(pc).to_i32() as usize != u {
                return false;
            }
            if self.board[ti] != Piece::EMPTY {
                return false;
            }
            let pt = PieceType::new(pc);
            proof { Hand::lemma_one_values(pt); }
            let one = Hand::one_of(pt);
            self.hands[u].0 >= one
        } else {
            let from_field = (m.0 & 0xfe00) >> 9;
            if from_field >= 81 || from_field == to_field {
                return false;
            }
            let pc_from = self.board[from_field as usize];
            if pc_from == Piece::EMPTY || Color::new(pc_from).to_i32() as usize != u {
                return false;
            }
            let cap = self.board[ti];
            if cap != Piece::EMPTY {
                if Color::new(cap).to_i32() as usize == u || cap.is_king() {
                    return false;
                }
                let pt = PieceType::new(cap).to_demote_if_possible();
                let one = Hand::one_of(pt);
                if self.hands[u].0 as u64 + one as u64 > u32::MAX as u64 {
                    return false;
                }
            }
            if m.0 & 0x80 != 0 && !pc_from.is_promotable() {
                return false;
            }
            true
        }
    }
}

} // verus!
