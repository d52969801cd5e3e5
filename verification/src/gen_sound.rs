//! What capture generation and quiet generation may give: captures take an
//! enemy piece (or capture en passant, or promote to a queen); quiet moves go
//! to empty squares (or castle, or under-promote).

use vstd::prelude::*;
use crate::types::Color;
use crate::types::Move;
use crate::types::PieceType;
use crate::types::piece_color;
use crate::bitboard::has;
use crate::bitboard::lsb_spec;
use crate::bitboard::clear_lsb;
use crate::bitboard::king_spec;
use crate::bitboard::attacks_spec;
use crate::bitboard::lemma_bit_and;
use crate::bitboard::lemma_bit_not;
use crate::bitboard::lemma_lsb;
use crate::bitboard::lemma_clear_lsb;
use crate::movegen::targets;
use crate::movegen::pushes;
use crate::movegen::promos;
use crate::movegen::promo_block;
use crate::movegen::eps;
use crate::movegen::piece_moves;
use crate::movegen::mv_normal;
use crate::movegen::mv_promo;
use crate::movegen::mv_ep;
use crate::movegen::mv_castle;
use crate::movegen::pawn_sets;
use crate::movegen::pawn_moves_spec;
use crate::movegen::pawn_push_part;
use crate::movegen::pawn_promo_part;
use crate::movegen::pawn_cap_part;
use crate::movegen::pawn_ep_part;
use crate::movegen::pawn_gen_ok;
use crate::movegen::shift_in_range;
use crate::movegen::castles_spec;
use crate::movegen::castle_part;
use crate::movegen::gen_all_spec;
use crate::movegen::gen_ok;
use crate::movegen::gen_target;
use crate::movegen::gen_code;
use crate::movegen::GenType;
use crate::position::PositionView;
use crate::position::wf;
use crate::position::flip;
use crate::position::occupied;
use crate::position::pieces_of;
use crate::position::pieces_ct;
use crate::position::king_sq;
use crate::position::lemma_board_views_agree;

verus! {

/// Every move of `s` satisfies `p`.
pub open spec fn all_moves(s: Seq<Move>, p: spec_fn(Move) -> bool) -> bool {
    forall|j: int| 0 <= j < s.len() ==> p(#[trigger] s[j])
}

proof fn lemma_all_add(a: Seq<Move>, b: Seq<Move>, p: spec_fn(Move) -> bool)
    requires
        all_moves(a, p),
        all_moves(b, p),
    ensures
        all_moves(a + b, p),
{
    assert forall|j: int| 0 <= j < (a + b).len() implies p(#[trigger] (a + b)[j]) by {
        if j < a.len() {
            assert((a + b)[j] == a[j]);
        } else {
            assert((a + b)[j] == b[j - a.len()]);
        }
    }
}

/// A normal move between two squares, to a square where `cond` holds.
pub open spec fn normal_into(m: Move, cond: spec_fn(int) -> bool) -> bool {
    exists|f: int, t: int| 0 <= f < 64 && 0 <= t < 64 && cond(t) && #[trigger] mv_normal(f, t) == m
}

/// A promotion between two squares to a piece `pt` allowed by `ok`.
pub open spec fn promo_into(m: Move, ok: spec_fn(PieceType) -> bool) -> bool {
    exists|f: int, t: int, pt: PieceType| 0 <= f < 64 && 0 <= t < 64 && ok(pt) && #[trigger] mv_promo(f, t, pt) == m
}

proof fn lemma_targets_into(from: int, b: u64, cond: spec_fn(int) -> bool)
    requires
        0 <= from < 64,
        forall|t: int| #[trigger] has(b, t) ==> cond(t),
    ensures
        all_moves(targets(from, b), |m: Move| normal_into(m, cond)),
    decreases b,
{
    let p = |m: Move| normal_into(m, cond);
    if b != 0 {
        lemma_lsb(b);
        lemma_clear_lsb(b);
        let t = lsb_spec(b);
        assert forall|s: int| #[trigger] has(clear_lsb(b), s) implies cond(s) by {
            assert(has(b, s));
        }
        lemma_targets_into(from, clear_lsb(b), cond);
        let first = seq![mv_normal(from, t)];
        assert(p(first[0])) by {
            assert(cond(t));
            assert(mv_normal(from, t) == first[0]);
        }
        lemma_all_add(first, targets(from, clear_lsb(b)), p);
        assert(targets(from, b) == first + targets(from, clear_lsb(b)));
    }
}

proof fn lemma_pushes_into(b: u64, d: int, cond: spec_fn(int) -> bool)
    requires
        shift_in_range(b, d),
        forall|t: int| #[trigger] has(b, t) ==> cond(t),
    ensures
        all_moves(pushes(b, d), |m: Move| normal_into(m, cond)),
    decreases b,
{
    let p = |m: Move| normal_into(m, cond);
    if b != 0 {
        lemma_lsb(b);
        lemma_clear_lsb(b);
        let t = lsb_spec(b);
        assert forall|s: int| #[trigger] has(clear_lsb(b), s) implies cond(s) && 0 <= s - d < 64 by {
            assert(has(b, s));
        }
        lemma_pushes_into(clear_lsb(b), d, cond);
        let first = seq![mv_normal(t - d, t)];
        assert(p(first[0])) by {
            assert(cond(t));
            assert(mv_normal(t - d, t) == first[0]);
        }
        lemma_all_add(first, pushes(clear_lsb(b), d), p);
        assert(pushes(b, d) == first + pushes(clear_lsb(b), d));
    }
}

proof fn lemma_piece_moves_into(pcs: u64, pt: PieceType, occ: u64, tg: u64, cond: spec_fn(int) -> bool)
    requires
        forall|t: int| #[trigger] has(tg, t) ==> cond(t),
    ensures
        all_moves(piece_moves(pcs, pt, occ, tg), |m: Move| normal_into(m, cond)),
    decreases pcs,
{
    let p = |m: Move| normal_into(m, cond);
    if pcs != 0 {
        lemma_lsb(pcs);
        lemma_clear_lsb(pcs);
        let from = lsb_spec(pcs);
        let a = attacks_spec(pt, from, occ) & tg;
        assert forall|t: int| #[trigger] has(a, t) implies cond(t) by {
            lemma_bit_and(attacks_spec(pt, from, occ), tg, t as u64);
            assert(has(tg, t));
        }
        lemma_targets_into(from, a, cond);
        lemma_piece_moves_into(clear_lsb(pcs), pt, occ, tg, cond);
        lemma_all_add(targets(from, a), piece_moves(clear_lsb(pcs), pt, occ, tg), p);
    }
}

proof fn lemma_promos_into(b: u64, d: int, q: bool, u: bool, ok: spec_fn(PieceType) -> bool)
    requires
        shift_in_range(b, d),
        forall|t: int| #[trigger] has(b, t) ==> 0 <= t < 64,
        q ==> ok(PieceType::Queen),
        u ==> ok(PieceType::Rook) && ok(PieceType::Bishop) && ok(PieceType::Knight),
    ensures
        all_moves(promos(b, d, q, u), |m: Move| promo_into(m, ok)),
    decreases b,
{
    let p = |m: Move| promo_into(m, ok);
    if b != 0 {
        lemma_lsb(b);
        lemma_clear_lsb(b);
        let t = lsb_spec(b);
        let f = t - d;
        assert(0 <= f < 64);
        assert forall|s: int| #[trigger] has(clear_lsb(b), s) implies 0 <= s - d < 64 && 0 <= s < 64 by {
            assert(has(b, s));
        }
        lemma_promos_into(clear_lsb(b), d, q, u, ok);
        let blk = promo_block(f, t, q, u);
        assert forall|j: int| 0 <= j < blk.len() implies p(#[trigger] blk[j]) by {
            let pt = if q && j == 0 {
                PieceType::Queen
            } else {
                let k = if q { j - 1 } else { j };
                if k == 0 {
                    PieceType::Rook
                } else if k == 1 {
                    PieceType::Bishop
                } else {
                    PieceType::Knight
                }
            };
            assert(blk[j] == mv_promo(f, t, pt));
            assert(ok(pt));
        }
        lemma_all_add(blk, promos(clear_lsb(b), d, q, u), p);
    }
}

proof fn lemma_eps_into(b: u64, ep: int)
    ensures
        all_moves(eps(b, ep), |m: Move| ep_into(m, ep)),
    decreases b,
{
    let p = |m: Move| ep_into(m, ep);
    if b != 0 {
        lemma_lsb(b);
        lemma_clear_lsb(b);
        lemma_eps_into(clear_lsb(b), ep);
        let first = seq![mv_ep(lsb_spec(b), ep)];
        assert(p(first[0])) by {
            assert(mv_ep(lsb_spec(b), ep) == first[0]);
        }
        lemma_all_add(first, eps(clear_lsb(b), ep), p);
        assert(eps(b, ep) == first + eps(clear_lsb(b), ep));
    }
}

/// An en-passant capture from a square onto `ep`.
pub open spec fn ep_into(m: Move, ep: int) -> bool {
    exists|f: int| 0 <= f < 64 && #[trigger] mv_ep(f, ep) == m
}

/// An enemy piece stands on `t`.
pub open spec fn enemy_on(v: PositionView, t: int) -> bool {
    v.board.squares[t] matches Some(q) && piece_color(q) == flip(v.side_to_move)
}

/// A move capture generation may give: a normal move onto an enemy piece, an
/// en-passant capture onto the en-passant square, or a promotion to a queen.
pub open spec fn capture_move(v: PositionView, m: Move) -> bool {
    ||| normal_into(m, |t: int| enemy_on(v, t))
    ||| (v.state.ep_square matches Some(e) && ep_into(m, e as int))
    ||| promo_into(m, |pt: PieceType| pt == PieceType::Queen)
}

/// A move quiet generation may give: a normal move onto an empty square, a
/// castling move, or a promotion to rook, bishop or knight.
pub open spec fn quiet_move(v: PositionView, m: Move) -> bool {
    ||| normal_into(m, |t: int| v.board.squares[t] is None)
    ||| exists|f: int, t: int| #[trigger] mv_castle(f, t) == m
    ||| promo_into(m, |pt: PieceType| pt == PieceType::Rook || pt == PieceType::Bishop || pt == PieceType::Knight)
}

/// Capture generation gives captures only: every move it gives takes an
/// enemy piece on its target square, captures en passant, or promotes to a
/// queen.
pub proof fn lemma_captures_capture(v: PositionView)
    requires
        wf(v),
        gen_ok(v, GenType::Captures),
    ensures
        all_moves(gen_all_spec(v, GenType::Captures), |m: Move| capture_move(v, m)),
{
    let b = v.board;
    let us = v.side_to_move;
    let them = flip(us);
    let white = us == Color::White;
    let tg = gen_target(v, GenType::Captures);
    let occ = occupied(b);
    let cap = |m: Move| capture_move(v, m);
    let en = |t: int| enemy_on(v, t);
    lemma_board_views_agree(b);
    assert forall|t: int| #[trigger] has(tg, t) implies en(t) by {
        assert(has(b.by_color[them as int], t) <==> (b.squares[t] matches Some(q) && piece_color(q) as int == them as int));
    }
    // Pieces and king.
    let ksq = king_sq(b, us);
    lemma_lsb(pieces_ct(b, us, PieceType::King));
    let kt = king_spec(ksq) & tg;
    assert forall|t: int| #[trigger] has(kt, t) implies en(t) by {
        lemma_bit_and(king_spec(ksq), tg, t as u64);
        assert(has(tg, t));
    }
    lemma_targets_into(ksq, kt, en);
    lemma_piece_moves_into(pieces_ct(b, us, PieceType::Knight), PieceType::Knight, occ, tg, en);
    lemma_piece_moves_into(pieces_ct(b, us, PieceType::Bishop), PieceType::Bishop, occ, tg, en);
    lemma_piece_moves_into(pieces_ct(b, us, PieceType::Rook), PieceType::Rook, occ, tg, en);
    lemma_piece_moves_into(pieces_ct(b, us, PieceType::Queen), PieceType::Queen, occ, tg, en);
    let nk = piece_moves(pieces_ct(b, us, PieceType::Knight), PieceType::Knight, occ, tg);
    let bs = piece_moves(pieces_ct(b, us, PieceType::Bishop), PieceType::Bishop, occ, tg);
    let rk = piece_moves(pieces_ct(b, us, PieceType::Rook), PieceType::Rook, occ, tg);
    let qn = piece_moves(pieces_ct(b, us, PieceType::Queen), PieceType::Queen, occ, tg);
    let kg = targets(ksq, kt);
    assert forall|m: Move| normal_into(m, en) implies cap(m) by {}
    assert(all_moves(nk, cap));
    assert(all_moves(bs, cap));
    assert(all_moves(rk, cap));
    assert(all_moves(qn, cap));
    assert(all_moves(kg, cap));
    // Pawns.
    reveal(pawn_gen_ok);
    reveal(pawn_moves_spec);
    let ps = pawn_sets(v, white, 0, tg);
    let push = pawn_push_part(v, white, 0, tg);
    let promo = pawn_promo_part(v, white, 0, tg);
    let capt = pawn_cap_part(v, white, 0, tg);
    assert(push.len() == 0);
    assert(all_moves(push, cap));
    let qo = |pt: PieceType| pt == PieceType::Queen;
    assert forall|m: Move| promo_into(m, qo) implies cap(m) by {}
    if ps.on7 != 0 {
        assert forall|t: int| #[trigger] has(ps.promo_right, t) implies 0 <= t < 64 by {}
        assert forall|t: int| #[trigger] has(ps.promo_left, t) implies 0 <= t < 64 by {}
        assert forall|t: int| #[trigger] has(ps.promo_push, t) implies 0 <= t < 64 by {}
        lemma_promos_into(ps.promo_right, ps.up_right, true, false, qo);
        lemma_promos_into(ps.promo_left, ps.up_left, true, false, qo);
        lemma_promos_into(ps.promo_push, ps.up, true, false, qo);
        let a = promos(ps.promo_right, ps.up_right, true, false);
        let c = promos(ps.promo_left, ps.up_left, true, false);
        let d = promos(ps.promo_push, ps.up, true, false);
        assert(all_moves(a, cap));
        assert(all_moves(c, cap));
        assert(all_moves(d, cap));
        lemma_all_add(a, c, cap);
        lemma_all_add(a + c, d, cap);
        assert(promo == a + c + d);
    }
    assert(all_moves(promo, cap));
    assert forall|t: int| #[trigger] has(ps.cap_right, t) implies en(t) by {
        lemma_bit_and(if white { crate::bitboard::sh_north_east(ps.not7) } else { crate::bitboard::sh_south_west(ps.not7) }, pieces_of(b, them), t as u64);
        assert(has(tg, t));
    }
    assert forall|t: int| #[trigger] has(ps.cap_left, t) implies en(t) by {
        lemma_bit_and(if white { crate::bitboard::sh_north_west(ps.not7) } else { crate::bitboard::sh_south_east(ps.not7) }, pieces_of(b, them), t as u64);
        assert(has(tg, t));
    }
    lemma_pushes_into(ps.cap_right, ps.up_right, en);
    lemma_pushes_into(ps.cap_left, ps.up_left, en);
    let cr = pushes(ps.cap_right, ps.up_right);
    let cl = pushes(ps.cap_left, ps.up_left);
    let e = pawn_ep_part(v, white, 0, tg);
    assert(all_moves(cr, cap));
    assert(all_moves(cl, cap));
    match v.state.ep_square {
        Some(ep) => {
            let att = crate::movegen::ep_attackers(v, white, ps.not7, ep as int);
            lemma_eps_into(att, ep as int);
            assert(e == eps(att, ep as int));
            assert forall|j: int| 0 <= j < e.len() implies cap(#[trigger] e[j]) by {
                assert(ep_into(e[j], ep as int));
            }
        },
        None => {
            assert(e.len() == 0);
        },
    }
    lemma_all_add(cr, cl, cap);
    lemma_all_add(cr + cl, e, cap);
    assert(capt == cr + cl + e);
    lemma_all_add(push, promo, cap);
    lemma_all_add(push + promo, capt, cap);
    let pw = pawn_moves_spec(v, white, 0, tg);
    assert(pw == push + promo + capt);
    // Castling: none.
    let cs = castles_spec(v, GenType::Captures);
    assert(cs.len() == 0);
    assert(all_moves(cs, cap));
    lemma_all_add(pw, nk, cap);
    lemma_all_add(pw + nk, bs, cap);
    lemma_all_add(pw + nk + bs, rk, cap);
    lemma_all_add(pw + nk + bs + rk, qn, cap);
    lemma_all_add(pw + nk + bs + rk + qn, kg, cap);
    lemma_all_add(pw + nk + bs + rk + qn + kg, cs, cap);
    assert(gen_all_spec(v, GenType::Captures) == pw + nk + bs + rk + qn + kg + cs);
}

/// Quiet generation gives quiet moves only: every move it gives goes to an
/// empty square, castles, or promotes to a rook, bishop or knight.
pub proof fn lemma_quiets_quiet(v: PositionView)
    requires
        wf(v),
        gen_ok(v, GenType::Quiets),
    ensures
        all_moves(gen_all_spec(v, GenType::Quiets), |m: Move| quiet_move(v, m)),
{
    let b = v.board;
    let us = v.side_to_move;
    let white = us == Color::White;
    let tg = gen_target(v, GenType::Quiets);
    let occ = occupied(b);
    let qm = |m: Move| quiet_move(v, m);
    let em = |t: int| v.board.squares[t] is None;
    lemma_board_views_agree(b);
    let empty = !occ;
    assert forall|t: int| #[trigger] has(empty, t) implies em(t) by {
        lemma_bit_not(occ, t as u64);
        assert(has(occ, t) == false);
    }
    assert(tg == empty);
    // Pieces and king.
    let ksq = king_sq(b, us);
    lemma_lsb(pieces_ct(b, us, PieceType::King));
    let kt = king_spec(ksq) & tg;
    assert forall|t: int| #[trigger] has(kt, t) implies em(t) by {
        lemma_bit_and(king_spec(ksq), tg, t as u64);
        assert(has(tg, t));
    }
    lemma_targets_into(ksq, kt, em);
    lemma_piece_moves_into(pieces_ct(b, us, PieceType::Knight), PieceType::Knight, occ, tg, em);
    lemma_piece_moves_into(pieces_ct(b, us, PieceType::Bishop), PieceType::Bishop, occ, tg, em);
    lemma_piece_moves_into(pieces_ct(b, us, PieceType::Rook), PieceType::Rook, occ, tg, em);
    lemma_piece_moves_into(pieces_ct(b, us, PieceType::Queen), PieceType::Queen, occ, tg, em);
    let nk = piece_moves(pieces_ct(b, us, PieceType::Knight), PieceType::Knight, occ, tg);
    let bs = piece_moves(pieces_ct(b, us, PieceType::Bishop), PieceType::Bishop, occ, tg);
    let rk = piece_moves(pieces_ct(b, us, PieceType::Rook), PieceType::Rook, occ, tg);
    let qn = piece_moves(pieces_ct(b, us, PieceType::Queen), PieceType::Queen, occ, tg);
    let kg = targets(ksq, kt);
    assert forall|m: Move| normal_into(m, em) implies qm(m) by {}
    assert(all_moves(nk, qm));
    assert(all_moves(bs, qm));
    assert(all_moves(rk, qm));
    assert(all_moves(qn, qm));
    assert(all_moves(kg, qm));
    // Pawns.
    reveal(pawn_gen_ok);
    reveal(pawn_moves_spec);
    let ps = pawn_sets(v, white, 1, tg);
    let push = pawn_push_part(v, white, 1, tg);
    let promo = pawn_promo_part(v, white, 1, tg);
    let capt = pawn_cap_part(v, white, 1, tg);
    let sh1 = if white { crate::bitboard::sh_north(ps.not7) } else { crate::bitboard::sh_south(ps.not7) };
    assert forall|t: int| #[trigger] has(ps.push1, t) implies em(t) by {
        lemma_bit_and(sh1, empty, t as u64);
        assert(has(empty, t));
    }
    let r3: u64 = if white { crate::bitboard::RANK_3_BB } else { crate::bitboard::RANK_6_BB };
    let sh2 = if white { crate::bitboard::sh_north(ps.push1 & r3) } else { crate::bitboard::sh_south(ps.push1 & r3) };
    assert forall|t: int| #[trigger] has(ps.push2, t) implies em(t) by {
        lemma_bit_and(sh2, empty, t as u64);
        assert(has(empty, t));
    }
    lemma_pushes_into(ps.push1, ps.up, em);
    lemma_pushes_into(ps.push2, 2 * ps.up, em);
    let p1 = pushes(ps.push1, ps.up);
    let p2 = pushes(ps.push2, 2 * ps.up);
    assert(all_moves(p1, qm));
    assert(all_moves(p2, qm));
    lemma_all_add(p1, p2, qm);
    assert(push == p1 + p2);
    let uo = |pt: PieceType| pt == PieceType::Rook || pt == PieceType::Bishop || pt == PieceType::Knight;
    assert forall|m: Move| promo_into(m, uo) implies qm(m) by {}
    if ps.on7 != 0 {
        assert forall|t: int| #[trigger] has(ps.promo_right, t) implies 0 <= t < 64 by {}
        assert forall|t: int| #[trigger] has(ps.promo_left, t) implies 0 <= t < 64 by {}
        assert forall|t: int| #[trigger] has(ps.promo_push, t) implies 0 <= t < 64 by {}
        lemma_promos_into(ps.promo_right, ps.up_right, false, true, uo);
        lemma_promos_into(ps.promo_left, ps.up_left, false, true, uo);
        lemma_promos_into(ps.promo_push, ps.up, false, true, uo);
        let a = promos(ps.promo_right, ps.up_right, false, true);
        let c = promos(ps.promo_left, ps.up_left, false, true);
        let d = promos(ps.promo_push, ps.up, false, true);
        assert(all_moves(a, qm));
        assert(all_moves(c, qm));
        assert(all_moves(d, qm));
        lemma_all_add(a, c, qm);
        lemma_all_add(a + c, d, qm);
        assert(promo == a + c + d);
    }
    assert(all_moves(promo, qm));
    assert(capt.len() == 0);
    assert(all_moves(capt, qm));
    lemma_all_add(push, promo, qm);
    lemma_all_add(push + promo, capt, qm);
    let pw = pawn_moves_spec(v, white, 1, tg);
    assert(pw == push + promo + capt);
    // Castling.
    let cs = castles_spec(v, GenType::Quiets);
    assert forall|j: int| 0 <= j < cs.len() implies qm(#[trigger] cs[j]) by {
        let k = castle_part(v, true);
        let q = castle_part(v, false);
        if cs.len() > 0 {
            assert(cs == k + q);
            if j < k.len() {
                assert(cs[j] == k[j]);
                assert(k[j] == mv_castle(king_sq(b, us), v.castling_rook_sq[2 * (us as int)]->Some_0 as int));
            } else {
                assert(cs[j] == q[j - k.len()]);
                assert(q[j - k.len()] == mv_castle(
                    king_sq(b, us),
                    v.castling_rook_sq[2 * (us as int) + 1]->Some_0 as int,
                ));
            }
        }
    }
    lemma_all_add(pw, nk, qm);
    lemma_all_add(pw + nk, bs, qm);
    lemma_all_add(pw + nk + bs, rk, qm);
    lemma_all_add(pw + nk + bs + rk, qn, qm);
    lemma_all_add(pw + nk + bs + rk + qn, kg, qm);
    lemma_all_add(pw + nk + bs + rk + qn + kg, cs, qm);
    assert(gen_all_spec(v, GenType::Quiets) == pw + nk + bs + rk + qn + kg + cs);
}

} // verus!
