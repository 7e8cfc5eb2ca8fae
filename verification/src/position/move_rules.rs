use vstd::prelude::*;
use crate::bitboard::{in_ray, lance_delta, magic_lookup, in_steps, table_reaches, toggled, AttackTable, Bitboard, KingAttackTable, PieceAttackTable};
use crate::hand::Hand;
use crate::movetypes::Move;
use crate::position::{caught_by_any, see_candidate, see_ge_spec, see_loop, is_sniper, king_blocker, sole_between, drop_pseudo_legal, see_attackers_after, see_xray, holds_kind, board_move_pseudo_legal, pseudo_legal_spec, attacked_by, caught_from, drop_pawn_mate, gives_check_spec, pawn_mate_escape, holds_color, is_gold_kind, kind_at, legal_spec, SeeContext};

verus! {

/// Whether kind number `pt` moves in directions that depend on its side: pawns, lances,
/// knights, silvers, golds and the pieces that move as golds.
pub open spec fn colored_step_kind(pt: int) -> bool {
    pt == 1 || pt == 2 || pt == 3 || pt == 4 || is_gold_kind(pt)
}

/// A slide that reaches an empty square `q` goes on one more step when that step stays on
/// the board next to `q`.
proof fn lemma_in_ray_extend(e: int, p: int, occ: Bitboard, q: int)
    requires
        in_ray(e, p, occ, q),
        !occ.has(q),
        0 <= q + e < 81,
        crate::bitboard::adjacent(q, q + e),
    ensures
        in_ray(e, p, occ, q + e),
    decreases (if e > 0 { 81 - p } else { p }),
{
    let next = p + e;
    if q != next {
        lemma_in_ray_extend(e, next, occ, q);
    } else {
        assert(in_ray(e, next, occ, next + e));
    }
}

/// A slide from `a` reaches `b` just when the slide the other way from `b` reaches `a`: both
/// say that the squares strictly between them are empty.
proof fn lemma_in_ray_reverse(d: int, a: int, occ: Bitboard, b: int)
    requires
        d != 0,
        0 <= a < 81,
        in_ray(d, a, occ, b),
    ensures
        in_ray(-d, b, occ, a),
    decreases (if d > 0 { 81 - a } else { a }),
{
    let next = a + d;
    assert(next - d == a);
    if b == next {
        assert(in_ray(-d, next, occ, a));
    } else {
        lemma_in_ray_reverse(d, next, occ, b);
        lemma_in_ray_extend(-d, b, occ, next);
    }
}

/// The moves of a piece of one side are those of the other side turned round: a piece of
/// side `c` on `a` reaches `b` just when a piece of the same kind of the other side on `b`
/// reaches `a` (for a lance, through the same empty squares).
pub proof fn lemma_step_mirror(t: AttackTable, pt: int, c: int, a: int, b: int, occ: Bitboard)
    requires
        t.valid(),
        colored_step_kind(pt),
        0 <= c < 2,
        0 <= a < 81,
        0 <= b < 81,
    ensures
        table_reaches(t, pt, c, a, occ, b) == table_reaches(t, pt, 1 - c, b, occ, a),
{
    if pt == 2 {
        assert(lance_delta(1 - c) == -lance_delta(c));
        if in_ray(lance_delta(c), a, occ, b) {
            lemma_in_ray_reverse(lance_delta(c), a, occ, b);
        }
        if in_ray(lance_delta(1 - c), b, occ, a) {
            lemma_in_ray_reverse(lance_delta(1 - c), b, occ, a);
        }
        return;
    }
    reveal_with_fuel(in_steps, 7);
    assert(PieceAttackTable::BLACK_PAWN_DELTAS@ =~= seq![-1i32]);
    assert(PieceAttackTable::WHITE_PAWN_DELTAS@ =~= seq![1i32]);
    assert(PieceAttackTable::BLACK_KNIGHT_DELTAS@ =~= seq![-11i32, 7i32]);
    assert(PieceAttackTable::WHITE_KNIGHT_DELTAS@ =~= seq![-7i32, 11i32]);
    assert(PieceAttackTable::BLACK_SILVER_DELTAS@ =~= seq![-1i32, -10i32, -8i32, 10i32, 8i32]);
    assert(PieceAttackTable::WHITE_SILVER_DELTAS@ =~= seq![-10i32, -8i32, 1i32, 10i32, 8i32]);
    assert(PieceAttackTable::BLACK_GOLD_DELTAS@ =~= seq![-1i32, -10i32, -9i32, 1i32, 9i32, 8i32]);
    assert(PieceAttackTable::WHITE_GOLD_DELTAS@ =~= seq![-1i32, -9i32, -8i32, 1i32, 10i32, 9i32]);
    let pa = if pt == 1 { t.pawn } else if pt == 3 { t.knight } else if pt == 4 { t.silver } else { t.gold };
    let bl = if pt == 1 { PieceAttackTable::BLACK_PAWN_DELTAS@ } else if pt == 3 { PieceAttackTable::BLACK_KNIGHT_DELTAS@ }
        else if pt == 4 { PieceAttackTable::BLACK_SILVER_DELTAS@ } else { PieceAttackTable::BLACK_GOLD_DELTAS@ };
    let wh = if pt == 1 { PieceAttackTable::WHITE_PAWN_DELTAS@ } else if pt == 3 { PieceAttackTable::WHITE_KNIGHT_DELTAS@ }
        else if pt == 4 { PieceAttackTable::WHITE_SILVER_DELTAS@ } else { PieceAttackTable::WHITE_GOLD_DELTAS@ };
    assert(pa.valid_for(bl, wh));
    assert(pa.table()[2 * a].has(b) == in_steps(bl, bl.len() as int, a, b, 2));
    assert(pa.table()[2 * a + 1].has(b) == in_steps(wh, wh.len() as int, a, b, 2));
    assert(pa.table()[2 * b].has(a) == in_steps(bl, bl.len() as int, b, a, 2));
    assert(pa.table()[2 * b + 1].has(a) == in_steps(wh, wh.len() as int, b, a, 2));
    assert(in_steps(bl, bl.len() as int, a, b, 2) == in_steps(wh, wh.len() as int, b, a, 2));
    assert(in_steps(wh, wh.len() as int, a, b, 2) == in_steps(bl, bl.len() as int, b, a, 2));
}

/// The kind of the piece that move `m` puts on its destination: the dropped kind, or the kind
/// of the moved piece, promoted if the move promotes.
pub open spec fn placed_kind(ctx: SeeContext, m: Move) -> int {
    if m.spec_is_drop() {
        m.dropped_type_field() as int
    } else {
        let pc = ctx.board[m.from_field() as int].val();
        (if m.spec_is_promotion() { pc + 8 } else { pc }) % 16
    }
}

/// A direct check: when the piece that move `m` of `us` puts on its destination is one whose
/// moves depend on its side, and that piece, as a piece of `us`, reaches the king of the
/// other side from there, the move gives check; a drop gives check just then.
pub proof fn lemma_gives_check_direct(ctx: SeeContext, occ: Bitboard, us: int, m: Move)
    requires
        ctx.t.valid(),
        0 <= us < 2,
        ctx.kings.len() == 2,
        0 <= ctx.kings[1 - us] < 81,
        m.to_field() < 81,
        colored_step_kind(placed_kind(ctx, m)),
    ensures
        table_reaches(ctx.t, placed_kind(ctx, m), us, m.to_field() as int, occ, ctx.kings[1 - us])
            ==> gives_check_spec(ctx, occ, us, m),
        m.spec_is_drop() ==> (gives_check_spec(ctx, occ, us, m)
            == table_reaches(ctx.t, placed_kind(ctx, m), us, m.to_field() as int, occ, ctx.kings[1 - us])),
{
    lemma_step_mirror(ctx.t, placed_kind(ctx, m), us, m.to_field() as int, ctx.kings[1 - us], occ);
    assert(1 - (1 - us) == us);
}

/// A king step is a silver step or a gold step of either side turned round: a king on `x`
/// reaches `to` just when a silver or a gold of side `c` on `to` reaches `x`.
pub proof fn lemma_king_step_as_silver_or_gold(t: AttackTable, c: int, x: int, to: int)
    requires
        t.valid(),
        0 <= c < 2,
        0 <= x < 81,
        0 <= to < 81,
    ensures
        t.king.table()[x].has(to) ==> t.silver.table()[2 * to + c].has(x) || t.gold.table()[2 * to + c].has(x),
{
    reveal_with_fuel(in_steps, 9);
    assert(KingAttackTable::DELTAS@ =~= seq![-1i32, -10i32, -9i32, -8i32, 1i32, 10i32, 9i32, 8i32]);
    assert(PieceAttackTable::BLACK_SILVER_DELTAS@ =~= seq![-1i32, -10i32, -8i32, 10i32, 8i32]);
    assert(PieceAttackTable::WHITE_SILVER_DELTAS@ =~= seq![-10i32, -8i32, 1i32, 10i32, 8i32]);
    assert(PieceAttackTable::BLACK_GOLD_DELTAS@ =~= seq![-1i32, -10i32, -9i32, 1i32, 9i32, 8i32]);
    assert(PieceAttackTable::WHITE_GOLD_DELTAS@ =~= seq![-1i32, -9i32, -8i32, 1i32, 10i32, 9i32]);
    assert(t.king.table()[x].has(to) == in_steps(KingAttackTable::DELTAS@, 8, x, to, 1));
    if c == 0 {
        assert(t.silver.table()[2 * to].has(x) == in_steps(PieceAttackTable::BLACK_SILVER_DELTAS@, 5, to, x, 2));
        assert(t.gold.table()[2 * to].has(x) == in_steps(PieceAttackTable::BLACK_GOLD_DELTAS@, 6, to, x, 2));
    } else {
        assert(t.silver.table()[2 * to + 1].has(x) == in_steps(PieceAttackTable::WHITE_SILVER_DELTAS@, 5, to, x, 2));
        assert(t.gold.table()[2 * to + 1].has(x) == in_steps(PieceAttackTable::WHITE_GOLD_DELTAS@, 6, to, x, 2));
    }
}

/// A king may not step onto a square that a piece of the other side attacks once the king has
/// left its own square: when a king, pawn, lance, knight, silver, gold or piece moving as a
/// gold of the other side reaches the destination of king move `m`, the move is not legal.
pub proof fn lemma_king_move_into_attack(ctx: SeeContext, occ: Bitboard, us: int, m: Move, x: int)
    requires
        ctx.t.valid(),
        0 <= us < 2,
        ctx.board.len() == 81,
        !m.spec_is_drop(),
        m.from_field() < 81,
        m.to_field() < 81,
        kind_at(ctx.board, m.from_field() as int) == 8,
        0 <= x < 81,
        holds_color(ctx.board, x, 1 - us),
        kind_at(ctx.board, x) == 8 || colored_step_kind(kind_at(ctx.board, x)),
        table_reaches(ctx.t, kind_at(ctx.board, x), 1 - us, x, toggled(occ, m.from_field() as int), m.to_field() as int),
    ensures
        !legal_spec(ctx, occ, us, m),
{
    let to = m.to_field() as int;
    let after = toggled(occ, m.from_field() as int);
    let k = kind_at(ctx.board, x);
    assert(1 - (1 - us) == us);
    if k == 8 {
        lemma_king_step_as_silver_or_gold(ctx.t, us, x, to);
    } else {
        lemma_step_mirror(ctx.t, k, 1 - us, x, to, after);
    }
    assert(caught_from(ctx.t, k, 1 - (1 - us), to, after, x, true, true));
    assert(attacked_by(ctx, 1 - us, to, after));
}

/// A pawn dropped by side `c` on the empty square `sq`, a step of the other king, mates when it is backed, no
/// piece of the other side but its king reaches it, and every step of that king other than
/// `sq` and other than the squares its own side holds is attacked by `c` once the pawn stands
/// there: squares the king's own pieces hold are no escape.
pub proof fn lemma_drop_pawn_mate_when_hemmed(ctx: SeeContext, occ: Bitboard, c: int, sq: int)
    requires
        0 <= c < 2,
        0 <= sq < 81,
        ctx.board.len() == 81,
        ctx.kings.len() == 2,
        0 <= ctx.kings[1 - c] < 81,
        ctx.t.king.table()[ctx.kings[1 - c]].has(sq),
        ctx.board[sq] == crate::types::Piece::EMPTY,
        attacked_by(ctx, c, sq, occ),
        forall|x: int| 0 <= x < 81 && holds_color(ctx.board, x, 1 - c) && kind_at(ctx.board, x) != 8
            ==> !#[trigger] caught_from(ctx.t, kind_at(ctx.board, x), c, sq, occ, x, true, true),
        forall|e: int| 0 <= e < 81 && e != sq && #[trigger] ctx.t.king.table()[ctx.kings[1 - c]].has(e)
            && !holds_color(ctx.board, e, 1 - c) ==> attacked_by(ctx, c, e, toggled(occ, sq)),
    ensures
        drop_pawn_mate(ctx, occ, c, sq),
{
    let d = 1 - c;
    assert forall|x: int| 0 <= x < 81 && holds_color(ctx.board, x, d)
        implies !#[trigger] caught_from(ctx.t, kind_at(ctx.board, x), c, sq, occ, x, false, false) by {
        if kind_at(ctx.board, x) != 8 {
            assert(!caught_from(ctx.t, kind_at(ctx.board, x), c, sq, occ, x, true, true));
        }
    }
    assert forall|e: int| 0 <= e < 81 && #[trigger] pawn_mate_escape(ctx, c, sq, e)
        implies attacked_by(ctx, c, e, toggled(occ, sq)) by {
        assert(e != sq);
        assert(ctx.t.king.table()[ctx.kings[d]].has(e));
    }
}

/// A pawn drop of side `c` on `sq` does not mate when nothing of `c` backs the pawn, or when
/// the other king has a step, other than `sq` and not held by its own side, that `c` does not
/// attack once the pawn stands on `sq`.
pub proof fn lemma_drop_pawn_no_mate(ctx: SeeContext, occ: Bitboard, c: int, sq: int, e: int)
    requires
        0 <= c < 2,
        0 <= sq < 81,
        ctx.kings.len() == 2,
        0 <= ctx.kings[1 - c] < 81,
    ensures
        !attacked_by(ctx, c, sq, occ) ==> !drop_pawn_mate(ctx, occ, c, sq),
        0 <= e < 81 && e != sq && ctx.t.king.table()[ctx.kings[1 - c]].has(e) && !holds_color(ctx.board, e, 1 - c)
            && !attacked_by(ctx, c, e, toggled(occ, sq)) ==> !drop_pawn_mate(ctx, occ, c, sq),
{
    if 0 <= e < 81 && e != sq && ctx.t.king.table()[ctx.kings[1 - c]].has(e) && !holds_color(ctx.board, e, 1 - c) {
        assert(pawn_mate_escape(ctx, c, sq, e));
    }
}

/// Whether rank `r` (0 the first rank, 8 the ninth) is one of the `n` ranks farthest from side
/// `us`.
pub open spec fn far_rank(r: int, us: int, n: int) -> bool {
    if us == 0 { r < n } else { r >= 9 - n }
}

/// No piece is left where it could never move again: a board move of `us` that does not
/// promote is not pseudo-legal when it takes a knight to one of the two farthest ranks, or a
/// pawn or a lance to the farthest rank, whether or not the search asks.
pub proof fn lemma_no_dead_piece(ctx: SeeContext, occ: Bitboard, hands: Seq<Hand>, us: int, m: Move, searching: bool)
    requires
        0 <= us < 2,
        !m.spec_is_drop(),
        !m.spec_is_promotion(),
        m.from_field() < 81,
        m.to_field() < 81,
        ({
            let k = kind_at(ctx.board, m.from_field() as int);
            let r = (m.to_field() % 9) as int;
            (k == 3 && far_rank(r, us, 2)) || ((k == 1 || k == 2) && far_rank(r, us, 1))
        }),
    ensures
        !pseudo_legal_spec(ctx, occ, hands, us, m, searching),
{
    assert(!board_move_pseudo_legal(ctx, occ, us, m, searching));
}

/// In the exchange on `ctx.to`, a capture from `sq` that leaves occupancy `occ1` brings in the
/// sliders it uncovers: along the file of `sq` and `ctx.to`, a lance, rook or dragon of the side
/// `c` that moves toward `ctx.to` from the side where `sq` stands, with the line from `ctx.to`
/// to it clear; along the rank, a rook or dragon that the rook slide from `ctx.to` reaches;
/// along a diagonal, a bishop or horse that the bishop slide from `ctx.to` reaches.
pub proof fn lemma_exchange_uncovers_sliders(ctx: SeeContext, sq: int, occ1: Bitboard, att: Set<int>, x: int, c: int)
    requires
        0 <= sq < 81,
        0 <= ctx.to < 81,
        sq != ctx.to,
        0 <= x < 81,
        0 <= c < 2,
        occ1.has(x),
    ensures
        sq / 9 == ctx.to / 9 && (if c == 1 { sq % 9 < ctx.to % 9 } else { sq % 9 > ctx.to % 9 })
            && holds_color(ctx.board, x, c)
            && (holds_kind(ctx.board, x, 2) || holds_kind(ctx.board, x, 6) || holds_kind(ctx.board, x, 14))
            && in_ray(-lance_delta(c), ctx.to, occ1, x)
            ==> see_attackers_after(ctx, sq, occ1, att).contains(x),
        sq % 9 == ctx.to % 9 && (holds_kind(ctx.board, x, 6) || holds_kind(ctx.board, x, 14))
            && magic_lookup(ctx.t.rook, ctx.to, occ1).has(x)
            ==> see_attackers_after(ctx, sq, occ1, att).contains(x),
        sq / 9 != ctx.to / 9 && (sq % 9 - ctx.to % 9 == sq / 9 - ctx.to / 9 || sq % 9 - ctx.to % 9 == ctx.to / 9 - sq / 9)
            && (holds_kind(ctx.board, x, 5) || holds_kind(ctx.board, x, 13))
            && magic_lookup(ctx.t.bishop, ctx.to, occ1).has(x)
            ==> see_attackers_after(ctx, sq, occ1, att).contains(x),
{
    broadcast use crate::types::Square::lemma_from_val;
    assert(crate::types::Square::from_val(sq).val() == sq);
    assert(crate::types::Square::from_val(ctx.to).val() == ctx.to);
    if sq / 9 == ctx.to / 9 && (if c == 1 { sq % 9 < ctx.to % 9 } else { sq % 9 > ctx.to % 9 })
        && holds_color(ctx.board, x, c)
        && (holds_kind(ctx.board, x, 2) || holds_kind(ctx.board, x, 6) || holds_kind(ctx.board, x, 14))
        && in_ray(-lance_delta(c), ctx.to, occ1, x) {
        assert(see_xray(ctx, sq, occ1, x));
    }
    if sq % 9 == ctx.to % 9 && (holds_kind(ctx.board, x, 6) || holds_kind(ctx.board, x, 14))
        && magic_lookup(ctx.t.rook, ctx.to, occ1).has(x) {
        assert(sq / 9 != ctx.to / 9);
        assert(see_xray(ctx, sq, occ1, x));
    }
    if sq / 9 != ctx.to / 9 && (sq % 9 - ctx.to % 9 == sq / 9 - ctx.to / 9 || sq % 9 - ctx.to % 9 == ctx.to / 9 - sq / 9)
        && (holds_kind(ctx.board, x, 5) || holds_kind(ctx.board, x, 13))
        && magic_lookup(ctx.t.bishop, ctx.to, occ1).has(x) {
        assert(sq % 9 != ctx.to % 9);
        assert(see_xray(ctx, sq, occ1, x));
    }
}

/// What a pseudo-legal move at least is: a board move takes a piece of `us` standing on its
/// origin, as the move names it, to a square it reaches and that holds no piece of `us`; a
/// drop puts a piece of `us` that `us` holds in hand on an empty square.
pub proof fn lemma_pseudo_legal_moves_own_piece(ctx: SeeContext, occ: Bitboard, hands: Seq<Hand>, us: int, m: Move, searching: bool)
    requires
        pseudo_legal_spec(ctx, occ, hands, us, m, searching),
    ensures
        !m.spec_is_drop() ==> ({
            let from = m.from_field() as int;
            let to = m.to_field() as int;
            &&& holds_color(ctx.board, from, us)
            &&& ctx.board[from].val() == m.moved_field()
            &&& !holds_color(ctx.board, to, us)
            &&& table_reaches(ctx.t, kind_at(ctx.board, from), us, from, occ, to)
        }),
        m.spec_is_drop() ==> ({
            &&& m.dropped_field() / 16 == us
            &&& hands[us].count(crate::types::PieceType::from_val((m.dropped_field() % 16) as int)) > 0
            &&& ctx.board[m.to_field() as int] == crate::types::Piece::EMPTY
        }),
{
    if m.spec_is_drop() {
        assert(drop_pseudo_legal(ctx, occ, hands, us, m));
    } else {
        assert(board_move_pseudo_legal(ctx, occ, us, m, searching));
    }
}

/// A pinned piece stays on its line: when the piece that board move `m` of `us` moves is not
/// the king and is the only piece between the king of `us` and a slider of the other side
/// aimed at it, the move is legal just when it goes to a square in the same direction from the
/// king; a piece that is no such lone piece may go anywhere.
pub proof fn lemma_pinned_piece_stays_on_line(ctx: SeeContext, occ: Bitboard, us: int, m: Move, s: int)
    requires
        0 <= us < 2,
        !m.spec_is_drop(),
        kind_at(ctx.board, m.from_field() as int) != 8,
    ensures
        0 <= s < 81 && is_sniper(ctx.t, ctx.board, 1 - us, ctx.kings[us], s)
            && sole_between(ctx.board, ctx.kings[us], s, m.from_field() as int)
            ==> (legal_spec(ctx, occ, us, m) == (
                crate::types::Relation::spec_new(crate::types::Square::from_val(m.from_field() as int), crate::types::Square::from_val(ctx.kings[us]))
                    != crate::types::Relation::MISC
                && crate::types::Relation::spec_new(crate::types::Square::from_val(m.from_field() as int), crate::types::Square::from_val(ctx.kings[us]))
                    == crate::types::Relation::spec_new(crate::types::Square::from_val(m.to_field() as int), crate::types::Square::from_val(ctx.kings[us])))),
        (forall|y: int| 0 <= y < 81 ==> !(#[trigger] is_sniper(ctx.t, ctx.board, 1 - us, ctx.kings[us], y)
            && sole_between(ctx.board, ctx.kings[us], y, m.from_field() as int)))
            ==> legal_spec(ctx, occ, us, m),
{
    if 0 <= s < 81 && is_sniper(ctx.t, ctx.board, 1 - us, ctx.kings[us], s)
        && sole_between(ctx.board, ctx.kings[us], s, m.from_field() as int) {
        assert(king_blocker(ctx, us, m.from_field() as int));
    }
}

/// A discovered check: when board move `m` of `us` moves the only piece between the other
/// king and a slider of `us` aimed at it, and goes to a square not in the same direction from
/// that king, the move gives check.
pub proof fn lemma_gives_check_discovered(ctx: SeeContext, occ: Bitboard, us: int, m: Move, s: int)
    requires
        0 <= us < 2,
        !m.spec_is_drop(),
        0 <= s < 81,
        is_sniper(ctx.t, ctx.board, us, ctx.kings[1 - us], s),
        sole_between(ctx.board, ctx.kings[1 - us], s, m.from_field() as int),
        !(crate::types::Relation::spec_new(crate::types::Square::from_val(m.from_field() as int), crate::types::Square::from_val(ctx.kings[1 - us]))
                != crate::types::Relation::MISC
            && crate::types::Relation::spec_new(crate::types::Square::from_val(m.from_field() as int), crate::types::Square::from_val(ctx.kings[1 - us]))
                == crate::types::Relation::spec_new(crate::types::Square::from_val(m.to_field() as int), crate::types::Square::from_val(ctx.kings[1 - us]))),
    ensures
        gives_check_spec(ctx, occ, us, m),
{
    assert(1 - (1 - us) == us);
    assert(is_sniper(ctx.t, ctx.board, 1 - (1 - us), ctx.kings[1 - us], s));
    assert(king_blocker(ctx, 1 - us, m.from_field() as int));
}

/// Two rules of pawn drops: no pawn goes to a file where `us` already has an unpromoted pawn,
/// and no pawn dropped straight in front of the other king mates it.
pub proof fn lemma_pawn_drop_rules(ctx: SeeContext, occ: Bitboard, hands: Seq<Hand>, us: int, m: Move, x: int)
    requires
        0 <= us < 2,
        m.spec_is_drop(),
        m.dropped_field() % 16 == 1,
    ensures
        0 <= x < 81 && holds_color(ctx.board, x, us) && kind_at(ctx.board, x) == 1 && x / 9 == m.to_field() / 9
            ==> !pseudo_legal_spec(ctx, occ, hands, us, m, false) && !pseudo_legal_spec(ctx, occ, hands, us, m, true),
        m.to_field() + (if us == 0 { -1int } else { 1int }) == ctx.kings[1 - us]
            && drop_pawn_mate(ctx, occ, us, m.to_field() as int)
            ==> !pseudo_legal_spec(ctx, occ, hands, us, m, false) && !pseudo_legal_spec(ctx, occ, hands, us, m, true),
{
    if 0 <= x < 81 && holds_color(ctx.board, x, us) && kind_at(ctx.board, x) == 1 && x / 9 == m.to_field() / 9 {
        assert(holds_kind(ctx.board, x, 1));
        assert(!drop_pseudo_legal(ctx, occ, hands, us, m));
    }
}

/// The occupancy once move `m` has left its origin and the piece on its destination is taken
/// off: the board on which the exchange on the destination is read.
pub open spec fn exchange_occupancy(occ: Bitboard, m: Move) -> Bitboard {
    let occ1 = toggled(occ, m.to_field() as int);
    if m.spec_is_drop() { occ1 } else { toggled(occ1, m.from_field() as int) }
}

/// The static exchange never wins more than the piece that move `m` takes first; and when no
/// piece of the other side can take back on the destination, it wins just that piece:
/// `see_ge` then holds exactly for the thresholds up to the value of that capture.
pub proof fn lemma_see_ge_bounds(ctx: SeeContext, occ: Bitboard, us: int, m: Move, threshold: int)
    requires
        0 <= us < 2,
        ctx.to == m.to_field(),
        0 <= ctx.to < 81,
        ctx.board.len() == 81,
    ensures
        see_ge_spec(ctx, occ, us, m, threshold)
            ==> threshold <= crate::piecevalue::capture_material(ctx.board[ctx.to].val() % 16),
        (forall|x: int| 0 <= x < 81 && holds_color(ctx.board, x, 1 - us)
            ==> !#[trigger] caught_by_any(ctx.t, kind_at(ctx.board, x), 1 - us, ctx.to, exchange_occupancy(occ, m), x))
            ==> (see_ge_spec(ctx, occ, us, m, threshold)
                == (threshold <= crate::piecevalue::capture_material(ctx.board[ctx.to].val() % 16))),
{
    let occ2 = exchange_occupancy(occ, m);
    let att = Set::new(|x: int| 0 <= x < 81 && ctx.board[x] != crate::types::Piece::EMPTY
        && caught_by_any(ctx.t, kind_at(ctx.board, x), crate::position::color_at(ctx.board, x), ctx.to, occ2, x) && occ2.has(x));
    if forall|x: int| 0 <= x < 81 && holds_color(ctx.board, x, 1 - us)
        ==> !#[trigger] caught_by_any(ctx.t, kind_at(ctx.board, x), 1 - us, ctx.to, occ2, x) {
        assert(!exists|x: int| #[trigger] see_candidate(ctx, 1 - us, occ2, att, x)) by {
            if exists|x: int| #[trigger] see_candidate(ctx, 1 - us, occ2, att, x) {
                let x = choose|x: int| #[trigger] see_candidate(ctx, 1 - us, occ2, att, x);
                assert(holds_color(ctx.board, x, 1 - us));
                assert(att.contains(x));
                assert(caught_by_any(ctx.t, kind_at(ctx.board, x), 1 - us, ctx.to, occ2, x));
            }
        }
        assert(see_loop(ctx, us, occ2, att, crate::piecevalue::capture_material(
            (if m.spec_is_drop() { m.dropped_type_field() as int } else { ctx.board[m.from_field() as int].val() % 16 }))
            - (crate::piecevalue::capture_material(ctx.board[ctx.to].val() % 16) - threshold), 1));
    }
}

/// A pawn drop of side `c` on `sq` does not mate when a piece of the other side, other than
/// its king, a pawn or a lance, reaches `sq` and is not the only piece between its own king and a
/// slider of `c` aimed at that king: that piece takes the pawn.
pub proof fn lemma_drop_pawn_taken(ctx: SeeContext, occ: Bitboard, c: int, sq: int, x: int)
    requires
        0 <= c < 2,
        0 <= x < 81,
        holds_color(ctx.board, x, 1 - c),
        caught_from(ctx.t, kind_at(ctx.board, x), c, sq, occ, x, false, false),
        forall|s: int| 0 <= s < 81 ==> !(#[trigger] is_sniper(ctx.t, ctx.board, c, ctx.kings[1 - c], s)
            && sole_between(ctx.board, ctx.kings[1 - c], s, x)),
    ensures
        !drop_pawn_mate(ctx, occ, c, sq),
{
    assert(1 - (1 - c) == c);
    assert(!king_blocker(ctx, 1 - c, x)) by {
        if king_blocker(ctx, 1 - c, x) {
            let s = choose|s: int| 0 <= s < 81 && #[trigger] is_sniper(ctx.t, ctx.board, 1 - (1 - c), ctx.kings[1 - c], s)
                && sole_between(ctx.board, ctx.kings[1 - c], s, x);
            assert(is_sniper(ctx.t, ctx.board, c, ctx.kings[1 - c], s));
        }
    }
}

} // verus!
