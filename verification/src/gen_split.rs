//! Capture and quiet generation split the pseudo-legal moves between them.

use vstd::prelude::*;
use vstd::seq_lib::lemma_multiset_commutative;
use vstd::multiset::Multiset;
use crate::types::Color;
use crate::types::Move;
use crate::types::PieceType;
use crate::bitboard::bit;
use crate::bitboard::has;
use crate::bitboard::lsb_spec;
use crate::bitboard::clear_lsb;
use crate::bitboard::king_spec;
use crate::bitboard::attacks_spec;
use crate::bitboard::lemma_bit_or;
use crate::bitboard::lemma_bit_and;
use crate::bitboard::lemma_bit_not;
use crate::bitboard::lemma_bit_zero;
use crate::bitboard::lemma_bits_ext;
use crate::bitboard::lemma_lsb;
use crate::bitboard::lemma_clear_lsb;
use crate::movegen::targets;
use crate::movegen::promos;
use crate::movegen::promo_block;
use crate::movegen::piece_moves;
use crate::movegen::pawn_moves_spec;
use crate::movegen::pawn_push_part;
use crate::movegen::pawn_promo_part;
use crate::movegen::pawn_cap_part;
use crate::movegen::pawn_sets;
use crate::movegen::castles_spec;
use crate::movegen::gen_all_spec;
use crate::movegen::gen_by_target_spec;
use crate::movegen::gen_target;
use crate::movegen::gen_code;
use crate::movegen::GenType;
use crate::position::PositionView;
use crate::position::wf;
use crate::position::king_sq;
use crate::position::occupied;
use crate::position::pieces_of;
use crate::position::pieces_ct;
use crate::position::flip;
use crate::position::lemma_board_views_agree;

verus! {

proof fn lemma_union_zero(b: u64)
    ensures
        0u64 | b == b,
        b | 0u64 == b,
{
    assert forall|i: u64| i < 64 implies #[trigger] bit(0u64 | b, i) == bit(b, i) by {
        lemma_bit_or(0u64, b, i);
        lemma_bit_zero(i);
    }
    lemma_bits_ext(0u64 | b, b);
    assert forall|i: u64| i < 64 implies #[trigger] bit(b | 0u64, i) == bit(b, i) by {
        lemma_bit_or(b, 0u64, i);
        lemma_bit_zero(i);
    }
    lemma_bits_ext(b | 0u64, b);
}

/// The lowest square of a union of disjoint boards, and the union left after
/// taking it off, when it comes from the first board.
proof fn lemma_lsb_union(b1: u64, b2: u64)
    requires
        b1 & b2 == 0,
        b1 != 0,
        has(b1, lsb_spec(b1 | b2)),
    ensures
        lsb_spec(b1) == lsb_spec(b1 | b2),
        clear_lsb(b1 | b2) == clear_lsb(b1) | b2,
        clear_lsb(b1) & b2 == 0,
{
    let b = b1 | b2;
    lemma_bit_or(b1, b2, lsb_spec(b1) as u64);
    assert(b != 0) by {
        lemma_lsb(b1);
        if b == 0 {
            lemma_bit_zero(lsb_spec(b1) as u64);
        }
    }
    lemma_lsb(b);
    lemma_lsb(b1);
    let t = lsb_spec(b);
    if lsb_spec(b1) < t {
        lemma_bit_or(b1, b2, lsb_spec(b1) as u64);
    }
    if t < lsb_spec(b1) {
        assert(!bit(b1, t as u64));
    }
    lemma_clear_lsb(b);
    lemma_clear_lsb(b1);
    assert forall|i: u64| i < 64 implies #[trigger] bit(clear_lsb(b), i) == bit(clear_lsb(b1) | b2, i) by {
        lemma_bit_or(b1, b2, i);
        lemma_bit_or(clear_lsb(b1), b2, i);
        lemma_bit_and(b1, b2, i);
        lemma_bit_zero(i);
    }
    lemma_bits_ext(clear_lsb(b), clear_lsb(b1) | b2);
    assert forall|i: u64| i < 64 implies #[trigger] bit(clear_lsb(b1) & b2, i) == bit(0u64, i) by {
        lemma_bit_and(clear_lsb(b1), b2, i);
        lemma_bit_and(b1, b2, i);
        lemma_bit_zero(i);
    }
    lemma_bits_ext(clear_lsb(b1) & b2, 0u64);
}

proof fn lemma_and_comm_zero(b1: u64, b2: u64)
    ensures
        (b1 & b2 == 0) == (b2 & b1 == 0),
        b1 | b2 == b2 | b1,
{
    assert forall|i: u64| i < 64 implies #[trigger] bit(b1 & b2, i) == bit(b2 & b1, i) by {
        lemma_bit_and(b1, b2, i);
        lemma_bit_and(b2, b1, i);
    }
    lemma_bits_ext(b1 & b2, b2 & b1);
    assert forall|i: u64| i < 64 implies #[trigger] bit(b1 | b2, i) == bit(b2 | b1, i) by {
        lemma_bit_or(b1, b2, i);
        lemma_bit_or(b2, b1, i);
    }
    lemma_bits_ext(b1 | b2, b2 | b1);
}

proof fn lemma_empty_multiset(s: Seq<Move>)
    requires
        s.len() == 0,
    ensures
        s.to_multiset() =~= Multiset::empty(),
{
    broadcast use vstd::seq_lib::group_to_multiset_ensures;
    vstd::multiset::lemma_multiset_empty_len(s.to_multiset());
}

/// The moves from `from` to the squares of two disjoint boards are those to
/// the squares of their union.
proof fn lemma_targets_split(from: int, b1: u64, b2: u64)
    requires
        b1 & b2 == 0,
    ensures
        targets(from, b1 | b2).to_multiset() == targets(from, b1).to_multiset().add(targets(from, b2).to_multiset()),
    decreases b1 | b2,
{
    let b = b1 | b2;
    lemma_union_zero(b1);
    lemma_union_zero(b2);
    if b1 == 0 {
        lemma_empty_multiset(targets(from, b1));
        assert(targets(from, b1).to_multiset().add(targets(from, b2).to_multiset()) =~= targets(from, b2).to_multiset());
    } else if b2 == 0 {
        lemma_empty_multiset(targets(from, b2));
        assert(targets(from, b1).to_multiset().add(targets(from, b2).to_multiset()) =~= targets(from, b1).to_multiset());
    } else {
        lemma_and_comm_zero(b1, b2);
        assert(b != 0) by {
            lemma_lsb(b1);
            lemma_bit_or(b1, b2, lsb_spec(b1) as u64);
            if b == 0 {
                lemma_bit_zero(lsb_spec(b1) as u64);
            }
        }
        lemma_lsb(b);
        lemma_bit_or(b1, b2, lsb_spec(b) as u64);
        lemma_clear_lsb(b);
        lemma_clear_lsb(b1);
        lemma_clear_lsb(b2);
        let m = seq![crate::movegen::mv_normal(from, lsb_spec(b))];
        if has(b1, lsb_spec(b)) {
            lemma_lsb_union(b1, b2);
            lemma_targets_split(from, clear_lsb(b1), b2);
            lemma_multiset_commutative(m, targets(from, clear_lsb(b)));
            lemma_multiset_commutative(m, targets(from, clear_lsb(b1)));
            assert(targets(from, b) == m + targets(from, clear_lsb(b)));
            assert(targets(from, b1) == m + targets(from, clear_lsb(b1)));
            assert(targets(from, b).to_multiset() =~= targets(from, b1).to_multiset().add(targets(from, b2).to_multiset()));
        } else {
            lemma_lsb_union(b2, b1);
            lemma_and_comm_zero(clear_lsb(b2), b1);
            lemma_and_comm_zero(b1, clear_lsb(b2));
            assert(b1 | clear_lsb(b2) == clear_lsb(b));
            lemma_targets_split(from, b1, clear_lsb(b2));
            lemma_multiset_commutative(m, targets(from, clear_lsb(b)));
            lemma_multiset_commutative(m, targets(from, clear_lsb(b2)));
            assert(targets(from, b) == targets(from, b2 | b1));
            assert(targets(from, b) == m + targets(from, clear_lsb(b2 | b1)));
            assert(targets(from, b2) == m + targets(from, clear_lsb(b2)));
            assert(clear_lsb(b2) | b1 == b1 | clear_lsb(b2));
            assert(targets(from, b).to_multiset() =~= targets(from, b1).to_multiset().add(targets(from, b2).to_multiset()));
        }
    }
}

/// Restricting a board to two disjoint targets splits it in two disjoint parts.
proof fn lemma_and_split(a: u64, t1: u64, t2: u64)
    requires
        t1 & t2 == 0,
    ensures
        (a & t1) | (a & t2) == a & (t1 | t2),
        (a & t1) & (a & t2) == 0,
{
    assert forall|i: u64| i < 64 implies #[trigger] bit((a & t1) | (a & t2), i) == bit(a & (t1 | t2), i) by {
        lemma_bit_or(a & t1, a & t2, i);
        lemma_bit_and(a, t1, i);
        lemma_bit_and(a, t2, i);
        lemma_bit_and(a, t1 | t2, i);
        lemma_bit_or(t1, t2, i);
    }
    lemma_bits_ext((a & t1) | (a & t2), a & (t1 | t2));
    assert forall|i: u64| i < 64 implies #[trigger] bit((a & t1) & (a & t2), i) == bit(0u64, i) by {
        lemma_bit_and(a & t1, a & t2, i);
        lemma_bit_and(a, t1, i);
        lemma_bit_and(a, t2, i);
        lemma_bit_and(t1, t2, i);
        lemma_bit_zero(i);
    }
    lemma_bits_ext((a & t1) & (a & t2), 0u64);
}

/// The moves from `from` to the squares of `a` within each of two disjoint
/// targets are those to the squares of `a` within their union.
proof fn lemma_restricted_targets_split(from: int, a: u64, t1: u64, t2: u64)
    requires
        t1 & t2 == 0,
    ensures
        targets(from, a & (t1 | t2)).to_multiset() == targets(from, a & t1).to_multiset().add(
            targets(from, a & t2).to_multiset(),
        ),
{
    lemma_and_split(a, t1, t2);
    lemma_targets_split(from, a & t1, a & t2);
}

/// Piece moves to two disjoint targets are the piece moves to their union.
proof fn lemma_piece_moves_split(pcs: u64, pt: PieceType, occ: u64, t1: u64, t2: u64)
    requires
        t1 & t2 == 0,
    ensures
        piece_moves(pcs, pt, occ, t1 | t2).to_multiset() == piece_moves(pcs, pt, occ, t1).to_multiset().add(
            piece_moves(pcs, pt, occ, t2).to_multiset(),
        ),
    decreases pcs,
{
    if pcs == 0 {
        lemma_empty_multiset(piece_moves(pcs, pt, occ, t1 | t2));
        lemma_empty_multiset(piece_moves(pcs, pt, occ, t1));
        lemma_empty_multiset(piece_moves(pcs, pt, occ, t2));
        assert(Multiset::<Move>::empty().add(Multiset::empty()) =~= Multiset::empty());
    } else {
        lemma_clear_lsb(pcs);
        let from = lsb_spec(pcs);
        let a = attacks_spec(pt, from, occ);
        lemma_piece_moves_split(clear_lsb(pcs), pt, occ, t1, t2);
        lemma_restricted_targets_split(from, a, t1, t2);
        let r = piece_moves(clear_lsb(pcs), pt, occ, t1 | t2);
        let r1 = piece_moves(clear_lsb(pcs), pt, occ, t1);
        let r2 = piece_moves(clear_lsb(pcs), pt, occ, t2);
        lemma_multiset_commutative(targets(from, a & (t1 | t2)), r);
        lemma_multiset_commutative(targets(from, a & t1), r1);
        lemma_multiset_commutative(targets(from, a & t2), r2);
        assert(piece_moves(pcs, pt, occ, t1 | t2).to_multiset() =~= piece_moves(pcs, pt, occ, t1).to_multiset().add(
            piece_moves(pcs, pt, occ, t2).to_multiset(),
        ));
    }
}

/// The queen promotions and the under-promotions together are all promotions.
proof fn lemma_promos_split(b: u64, d: int)
    ensures
        promos(b, d, true, true).to_multiset() == promos(b, d, true, false).to_multiset().add(
            promos(b, d, false, true).to_multiset(),
        ),
    decreases b,
{
    if b == 0 {
        lemma_empty_multiset(promos(b, d, true, true));
        lemma_empty_multiset(promos(b, d, true, false));
        lemma_empty_multiset(promos(b, d, false, true));
        assert(Multiset::<Move>::empty().add(Multiset::empty()) =~= Multiset::empty());
    } else {
        lemma_clear_lsb(b);
        let t = lsb_spec(b);
        lemma_promos_split(clear_lsb(b), d);
        let both = promo_block(t - d, t, true, true);
        let q = promo_block(t - d, t, true, false);
        let u = promo_block(t - d, t, false, true);
        assert(both == q + u);
        lemma_multiset_commutative(q, u);
        lemma_multiset_commutative(both, promos(clear_lsb(b), d, true, true));
        lemma_multiset_commutative(q, promos(clear_lsb(b), d, true, false));
        lemma_multiset_commutative(u, promos(clear_lsb(b), d, false, true));
        assert(promos(b, d, true, true).to_multiset() =~= promos(b, d, true, false).to_multiset().add(
            promos(b, d, false, true).to_multiset(),
        ));
    }
}

/// The seven parts of `gen_by_target_spec`, in order.
spec fn gen_parts(v: PositionView, gt: GenType, t: u64) -> Seq<Seq<Move>> {
    let b = v.board;
    let us = v.side_to_move;
    let ksq = king_sq(b, us);
    let occ = occupied(b);
    seq![
        pawn_moves_spec(v, us == Color::White, gen_code(gt), t),
        piece_moves(pieces_ct(b, us, PieceType::Knight), PieceType::Knight, occ, t),
        piece_moves(pieces_ct(b, us, PieceType::Bishop), PieceType::Bishop, occ, t),
        piece_moves(pieces_ct(b, us, PieceType::Rook), PieceType::Rook, occ, t),
        piece_moves(pieces_ct(b, us, PieceType::Queen), PieceType::Queen, occ, t),
        targets(ksq, king_spec(ksq) & t),
        castles_spec(v, gt),
    ]
}

/// Pawn moves: captures and quiets together give all moves.
proof fn lemma_pawn_split(v: PositionView, white: bool, tc: u64, tq: u64, tn: u64)
    ensures
        pawn_moves_spec(v, white, 3, tn).to_multiset() == pawn_moves_spec(v, white, 0, tc).to_multiset().add(
            pawn_moves_spec(v, white, 1, tq).to_multiset(),
        ),
{
    reveal(pawn_moves_spec);
    let ps = pawn_sets(v, white, 3, tn);
    assert(pawn_sets(v, white, 0, tc) == ps);
    assert(pawn_sets(v, white, 1, tq) == ps);
    let pu_n = pawn_push_part(v, white, 3, tn);
    let pu_c = pawn_push_part(v, white, 0, tc);
    let pu_q = pawn_push_part(v, white, 1, tq);
    let pr_n = pawn_promo_part(v, white, 3, tn);
    let pr_c = pawn_promo_part(v, white, 0, tc);
    let pr_q = pawn_promo_part(v, white, 1, tq);
    let ca_n = pawn_cap_part(v, white, 3, tn);
    let ca_c = pawn_cap_part(v, white, 0, tc);
    let ca_q = pawn_cap_part(v, white, 1, tq);
    assert(pu_c.len() == 0);
    assert(pu_q == pu_n);
    assert(ca_q.len() == 0);
    assert(ca_c == ca_n);
    lemma_empty_multiset(pu_c);
    lemma_empty_multiset(ca_q);
    if ps.on7 != 0 {
        lemma_promos_split(ps.promo_right, ps.up_right);
        lemma_promos_split(ps.promo_left, ps.up_left);
        lemma_promos_split(ps.promo_push, ps.up);
        let a_n = promos(ps.promo_right, ps.up_right, true, true);
        let a_c = promos(ps.promo_right, ps.up_right, true, false);
        let a_q = promos(ps.promo_right, ps.up_right, false, true);
        let b_n = promos(ps.promo_left, ps.up_left, true, true);
        let b_c = promos(ps.promo_left, ps.up_left, true, false);
        let b_q = promos(ps.promo_left, ps.up_left, false, true);
        let c_n = promos(ps.promo_push, ps.up, true, true);
        let c_c = promos(ps.promo_push, ps.up, true, false);
        let c_q = promos(ps.promo_push, ps.up, false, true);
        assert(pr_n == a_n + b_n + c_n);
        assert(pr_c == a_c + b_c + c_c);
        assert(pr_q == a_q + b_q + c_q);
        lemma_multiset_commutative(a_n, b_n);
        lemma_multiset_commutative(a_n + b_n, c_n);
        lemma_multiset_commutative(a_c, b_c);
        lemma_multiset_commutative(a_c + b_c, c_c);
        lemma_multiset_commutative(a_q, b_q);
        lemma_multiset_commutative(a_q + b_q, c_q);
        assert(pr_n.to_multiset() =~= pr_c.to_multiset().add(pr_q.to_multiset()));
    } else {
        lemma_empty_multiset(pr_n);
        lemma_empty_multiset(pr_c);
        lemma_empty_multiset(pr_q);
        assert(pr_n.to_multiset() =~= pr_c.to_multiset().add(pr_q.to_multiset()));
    }
    lemma_multiset_commutative(pu_n, pr_n);
    lemma_multiset_commutative(pu_n + pr_n, ca_n);
    lemma_multiset_commutative(pu_c, pr_c);
    lemma_multiset_commutative(pu_c + pr_c, ca_c);
    lemma_multiset_commutative(pu_q, pr_q);
    lemma_multiset_commutative(pu_q + pr_q, ca_q);
    assert(pawn_moves_spec(v, white, 3, tn).to_multiset() =~= pawn_moves_spec(v, white, 0, tc).to_multiset().add(
        pawn_moves_spec(v, white, 1, tq).to_multiset(),
    ));
}

/// The target squares of capture and of quiet generation are disjoint and
/// together are those of all-move generation.
proof fn lemma_targets_partition(v: PositionView)
    requires
        wf(v),
    ensures
        gen_target(v, GenType::Captures) & gen_target(v, GenType::Quiets) == 0,
        gen_target(v, GenType::Captures) | gen_target(v, GenType::Quiets) == gen_target(v, GenType::NonEvasions),
{
    let b = v.board;
    let us = v.side_to_move;
    let tc = gen_target(v, GenType::Captures);
    let tq = gen_target(v, GenType::Quiets);
    let tn = gen_target(v, GenType::NonEvasions);
    lemma_board_views_agree(b);
    assert forall|i: u64| i < 64 implies #[trigger] bit(tc & tq, i) == bit(0u64, i) by {
        lemma_bit_and(tc, tq, i);
        lemma_bit_not(occupied(b), i);
        lemma_bit_or(b.by_color[0], b.by_color[1], i);
        lemma_bit_zero(i);
        if us == Color::White {
        } else {
        }
    }
    assert forall|i: u64| i < 64 implies #[trigger] bit(tc | tq, i) == bit(tn, i) by {
        lemma_bit_or(tc, tq, i);
        lemma_bit_not(occupied(b), i);
        lemma_bit_not(pieces_of(b, us), i);
        lemma_bit_or(b.by_color[0], b.by_color[1], i);
        lemma_bit_and(b.by_color[0], b.by_color[1], i);
        lemma_bit_zero(i);
        if us == Color::White {
        } else {
        }
    }
    lemma_bits_ext(tc & tq, 0u64);
    lemma_bits_ext(tc | tq, tn);
}

/// Capture and quiet generation split the pseudo-legal moves: the moves the
/// two give together are, counted with multiplicity, exactly the moves that
/// all-move generation gives.
pub proof fn lemma_captures_quiets_partition(v: PositionView)
    requires
        wf(v),
    ensures
        gen_all_spec(v, GenType::Captures).to_multiset().add(gen_all_spec(v, GenType::Quiets).to_multiset())
            == gen_all_spec(v, GenType::NonEvasions).to_multiset(),
{
    let b = v.board;
    let us = v.side_to_move;
    let ksq = king_sq(b, us);
    let occ = occupied(b);
    let tc = gen_target(v, GenType::Captures);
    let tq = gen_target(v, GenType::Quiets);
    let tn = gen_target(v, GenType::NonEvasions);
    lemma_targets_partition(v);
    let white = us == Color::White;
    lemma_pawn_split(v, white, tc, tq, tn);
    lemma_piece_moves_split(pieces_ct(b, us, PieceType::Knight), PieceType::Knight, occ, tc, tq);
    lemma_piece_moves_split(pieces_ct(b, us, PieceType::Bishop), PieceType::Bishop, occ, tc, tq);
    lemma_piece_moves_split(pieces_ct(b, us, PieceType::Rook), PieceType::Rook, occ, tc, tq);
    lemma_piece_moves_split(pieces_ct(b, us, PieceType::Queen), PieceType::Queen, occ, tc, tq);
    lemma_restricted_targets_split(ksq, king_spec(ksq), tc, tq);
    let cc = castles_spec(v, GenType::Captures);
    assert(cc.len() == 0);
    lemma_empty_multiset(cc);
    assert(castles_spec(v, GenType::Quiets) == castles_spec(v, GenType::NonEvasions));
    assert forall|gt: GenType, t: u64| gt != GenType::Evasions implies #[trigger] gen_by_target_spec(v, gt, t).to_multiset()
        =~= gen_parts(v, gt, t)[0].to_multiset().add(gen_parts(v, gt, t)[1].to_multiset()).add(gen_parts(v, gt, t)[2].to_multiset()).add(
        gen_parts(v, gt, t)[3].to_multiset(),
    ).add(gen_parts(v, gt, t)[4].to_multiset()).add(gen_parts(v, gt, t)[5].to_multiset()).add(gen_parts(v, gt, t)[6].to_multiset()) by {
        let p = gen_parts(v, gt, t);
        let white = v.side_to_move == Color::White;
        assert(gen_by_target_spec(v, gt, t) == p[0] + p[1] + p[2] + p[3] + p[4] + p[5] + p[6]);
        lemma_multiset_commutative(p[0], p[1]);
        lemma_multiset_commutative(p[0] + p[1], p[2]);
        lemma_multiset_commutative(p[0] + p[1] + p[2], p[3]);
        lemma_multiset_commutative(p[0] + p[1] + p[2] + p[3], p[4]);
        lemma_multiset_commutative(p[0] + p[1] + p[2] + p[3] + p[4], p[5]);
        lemma_multiset_commutative(p[0] + p[1] + p[2] + p[3] + p[4] + p[5], p[6]);
    }
    let mn = gen_by_target_spec(v, GenType::NonEvasions, tn).to_multiset();
    let mc = gen_by_target_spec(v, GenType::Captures, tc).to_multiset();
    let mq = gen_by_target_spec(v, GenType::Quiets, tq).to_multiset();
    assert(mn == mc.add(mq));
}

} // verus!
