//! What the legality test means for king moves and en-passant captures: it
//! passes exactly when the king is not attacked on the board after the move.

use vstd::prelude::*;
use crate::types::Color;
use crate::types::PieceType;
use crate::types::Move;
use crate::types::file_of;
use crate::types::rank_of;
use crate::types::mv_from;
use crate::types::mv_to;
use crate::types::mv_kind;
use crate::types::piece_pt;
use crate::types::piece_color;
use crate::types::piece_of;
use crate::types::pt_num;
use crate::bitboard::bit;
use crate::bitboard::has;
use crate::bitboard::ray;
use crate::bitboard::ray_from;
use crate::bitboard::on_board;
use crate::bitboard::delta_df;
use crate::bitboard::delta_dr;
use crate::bitboard::rook_spec;
use crate::bitboard::bishop_spec;
use crate::bitboard::knight_spec;
use crate::bitboard::king_spec;
use crate::bitboard::jump;
use crate::bitboard::jumps_spec;
use crate::bitboard::pawn_attacks_spec;
use crate::bitboard::sh_north_east;
use crate::bitboard::sh_north_west;
use crate::bitboard::sh_south_east;
use crate::bitboard::sh_south_west;
use crate::bitboard::FILE_A_BB;
use crate::bitboard::FILE_H_BB;
use crate::bitboard::lemma_bit_or;
use crate::bitboard::lemma_bit_and;
use crate::bitboard::lemma_bit_zero;
use crate::bitboard::lemma_bit_single;
use crate::bitboard::lemma_shl_bit;
use crate::bitboard::lemma_shr_bit;
use crate::bitboard::lemma_bit_xor;
use crate::magic::lemma_slider_agree;
use crate::magic::slider_spec;
use crate::position::BoardView;
use crate::position::PositionView;
use crate::position::board_wf;
use crate::position::wf;
use crate::position::attackers_spec;
use crate::position::pieces_of;
use crate::position::occupied;
use crate::position::flip;
use crate::position::is_legal_spec;
use crate::position::board_after;
use crate::position::board_after_ok;
use crate::position::remove_spec;
use crate::position::move_spec;
use crate::position::lemma_remove_wf;
use crate::position::lemma_move_wf;
use crate::position::lemma_move_fields;
use crate::position::ep_victim_sq;
use crate::position::king_sq;
use crate::position::king_present;
use crate::position::pieces_ct;
use crate::bitboard::lemma_lsb;
use crate::bitboard::lemma_bits_ext;
use crate::movegen::swap_filter;
use crate::movegen::legal_moves_spec;
use crate::movegen::legal_kind;
use crate::movegen::gen_all_spec;
use crate::movegen::gen_by_target_spec;
use crate::movegen::gen_target;
use crate::movegen::targets;
use crate::movegen::mv_normal;
use crate::movegen::GenType;
use crate::bitboard::lemma_clear_lsb;
use crate::bitboard::lemma_bit_not;
use crate::bitboard::lsb_spec;
use crate::bitboard::clear_lsb;
use crate::bitboard::pop_count;

verus! {

/// Every square of a ray lies strictly further along the ray's direction.
proof fn lemma_ray_ahead(o: u64, f: int, r: int, df: int, dr: int, n: nat, t: int)
    requires
        -1 <= df <= 1,
        -1 <= dr <= 1,
        has(ray(o, f, r, df, dr, n), t),
    ensures
        dr > 0 ==> rank_of(t) > r,
        dr < 0 ==> rank_of(t) < r,
        dr == 0 ==> rank_of(t) == r,
        df > 0 ==> file_of(t) > f,
        df < 0 ==> file_of(t) < f,
        df == 0 ==> file_of(t) == f,
    decreases n,
{
    if n == 0 || !on_board(f + df, r + dr) {
        lemma_bit_zero(t as u64);
    } else {
        let s = 8 * (r + dr) + (f + df);
        let b = 1u64 << (s as u64);
        let rest = ray(o, f + df, r + dr, df, dr, (n - 1) as nat);
        lemma_bit_single(s as u64, t as u64);
        if has(o, s) {
        } else {
            lemma_bit_or(b, rest, t as u64);
            if t != s {
                lemma_ray_ahead(o, f + df, r + dr, df, dr, (n - 1) as nat, t);
            }
        }
    }
}

proof fn lemma_ray_from_excludes(o: u64, s: int, d: int)
    requires
        0 <= s < 64,
        d == 8 || d == -8 || d == 1 || d == -1 || d == 9 || d == -9 || d == 7 || d == -7,
    ensures
        has(ray_from(o, s, d), s) == false,
{
    if has(ray_from(o, s, d), s) {
        lemma_ray_ahead(o, file_of(s), rank_of(s), delta_df(d), delta_dr(d), 7, s);
    }
}

proof fn lemma_or4_excl(a: u64, b: u64, c: u64, d: u64, t: u64)
    requires
        t < 64,
        bit(a, t) == false,
        bit(b, t) == false,
        bit(c, t) == false,
        bit(d, t) == false,
    ensures
        bit((((0u64 | a) | b) | c) | d, t) == false,
{
    lemma_bit_zero(t);
    lemma_bit_or(0u64, a, t);
    lemma_bit_or(0u64 | a, b, t);
    lemma_bit_or((0u64 | a) | b, c, t);
    lemma_bit_or(((0u64 | a) | b) | c, d, t);
}

/// A slider does not attack its own square.
proof fn lemma_slider_excludes(is_rook: bool, o: u64, s: int)
    requires
        0 <= s < 64,
    ensures
        has(slider_spec(is_rook, s, o), s) == false,
{
    if is_rook {
        lemma_ray_from_excludes(o, s, 8);
        lemma_ray_from_excludes(o, s, -8);
        lemma_ray_from_excludes(o, s, 1);
        lemma_ray_from_excludes(o, s, -1);
        lemma_or4_excl(ray_from(o, s, 8), ray_from(o, s, -8), ray_from(o, s, 1), ray_from(o, s, -1), s as u64);
    } else {
        lemma_ray_from_excludes(o, s, 9);
        lemma_ray_from_excludes(o, s, -9);
        lemma_ray_from_excludes(o, s, 7);
        lemma_ray_from_excludes(o, s, -7);
        lemma_or4_excl(ray_from(o, s, 9), ray_from(o, s, -9), ray_from(o, s, 7), ray_from(o, s, -7), s as u64);
    }
}

/// A pawn does not attack its own square.
proof fn lemma_pawn_excludes(c: Color, s: int)
    requires
        0 <= s < 64,
    ensures
        has(pawn_attacks_spec(c, 1u64 << (s as u64)), s) == false,
{
    let x = 1u64 << (s as u64);
    let t = s as u64;
    lemma_bit_single(t, t);
    if t >= 9 {
        lemma_bit_single(t, (t - 9) as u64);
        lemma_bit_and(x, !FILE_H_BB, (t - 9) as u64);
    }
    if t >= 7 {
        lemma_bit_single(t, (t - 7) as u64);
        lemma_bit_and(x, !FILE_A_BB, (t - 7) as u64);
    }
    if t + 9 < 64 {
        lemma_bit_single(t, (t + 9) as u64);
        lemma_bit_and(x, !FILE_A_BB, (t + 9) as u64);
    }
    if t + 7 < 64 {
        lemma_bit_single(t, (t + 7) as u64);
        lemma_bit_and(x, !FILE_H_BB, (t + 7) as u64);
    }
    lemma_shl_bit(x & !FILE_H_BB, 9, t);
    lemma_shl_bit(x & !FILE_A_BB, 7, t);
    lemma_shr_bit(x & !FILE_H_BB, 7, t);
    lemma_shr_bit(x & !FILE_A_BB, 9, t);
    lemma_bit_or(sh_north_east(x), sh_north_west(x), t);
    lemma_bit_or(sh_south_east(x), sh_south_west(x), t);
}

proof fn lemma_jumps_excludes(s: int, deltas: Seq<i8>, n: nat)
    requires
        0 <= s < 64,
        n <= deltas.len(),
        forall|j: int| 0 <= j < deltas.len() ==> #[trigger] deltas[j] != 0,
    ensures
        has(jumps_spec(s, deltas, n), s) == false,
    decreases n,
{
    if n == 0 {
        lemma_bit_zero(s as u64);
    } else {
        lemma_jumps_excludes(s, deltas, (n - 1) as nat);
        let d = deltas[n - 1] as int;
        if 0 <= s + d < 64 && crate::bitboard::dist(s, s + d) <= 2 {
            lemma_bit_single((s + d) as u64, s as u64);
        } else {
            lemma_bit_zero(s as u64);
        }
        lemma_bit_or(jumps_spec(s, deltas, (n - 1) as nat), jump(s, d), s as u64);
    }
}

/// A knight or king does not attack its own square.
proof fn lemma_steppers_exclude(s: int)
    requires
        0 <= s < 64,
    ensures
        has(knight_spec(s), s) == false,
        has(king_spec(s), s) == false,
{
    let kn = seq![-17i8, -15i8, -10i8, -6i8, 6i8, 10i8, 15i8, 17i8];
    let kg = seq![-9i8, -8i8, -7i8, -1i8, 1i8, 7i8, 8i8, 9i8];
    assert forall|j: int| 0 <= j < kn.len() implies #[trigger] kn[j] != 0 by {}
    assert forall|j: int| 0 <= j < kg.len() implies #[trigger] kg[j] != 0 by {}
    lemma_jumps_excludes(s, kn, 8);
    lemma_jumps_excludes(s, kg, 8);
}

/// Whether the piece on `t` attacks `sq` over the board `o`.
pub open spec fn attacker_at(b: BoardView, sq: int, o: u64, t: int) -> bool {
    match b.squares[t] {
        None => false,
        Some(p) => {
            let pt = piece_pt(p);
            if pt == PieceType::Pawn {
                if piece_color(p) == Color::White {
                    has(pawn_attacks_spec(Color::Black, 1u64 << (sq as u64)), t)
                } else {
                    has(pawn_attacks_spec(Color::White, 1u64 << (sq as u64)), t)
                }
            } else if pt == PieceType::Knight {
                has(knight_spec(sq), t)
            } else if pt == PieceType::King {
                has(king_spec(sq), t)
            } else if pt == PieceType::Bishop {
                has(bishop_spec(sq, o), t)
            } else if pt == PieceType::Rook {
                has(rook_spec(sq, o), t)
            } else {
                has(bishop_spec(sq, o), t) || has(rook_spec(sq, o), t)
            }
        },
    }
}

/// The attackers of a square, square by square: on consistent pieces, a
/// square `t` is among the attackers of `sq` over the board `o` exactly when
/// the piece on `t`, of either colour, attacks `sq` (a pawn one step
/// diagonally forward, a knight or king by its step, a slider along its ray
/// with the squares strictly between empty in `o`).
pub proof fn lemma_attackers_bit(b: BoardView, sq: int, o: u64, t: int)
    requires
        board_wf(b),
        0 <= sq < 64,
        0 <= t < 64,
    ensures
        has(attackers_spec(b, sq, o), t) == attacker_at(b, sq, o, t),
{
    let i = t as u64;
    let s = 1u64 << (sq as u64);
    let p1 = pawn_attacks_spec(Color::Black, s) & (b.by_type[1] & b.by_color[0]);
    let p2 = pawn_attacks_spec(Color::White, s) & (b.by_type[1] & b.by_color[1]);
    let n = knight_spec(sq) & b.by_type[2];
    let k = king_spec(sq) & b.by_type[6];
    let bq = bishop_spec(sq, o) & (b.by_type[3] | b.by_type[5]);
    let rq = rook_spec(sq, o) & (b.by_type[4] | b.by_type[5]);
    assert(attackers_spec(b, sq, o) == ((((p1 | p2) | n) | k) | bq) | rq);
    lemma_bit_or((((p1 | p2) | n) | k) | bq, rq, i);
    lemma_bit_or(((p1 | p2) | n) | k, bq, i);
    lemma_bit_or((p1 | p2) | n, k, i);
    lemma_bit_or(p1 | p2, n, i);
    lemma_bit_or(p1, p2, i);
    lemma_bit_and(pawn_attacks_spec(Color::Black, s), b.by_type[1] & b.by_color[0], i);
    lemma_bit_and(b.by_type[1], b.by_color[0], i);
    lemma_bit_and(pawn_attacks_spec(Color::White, s), b.by_type[1] & b.by_color[1], i);
    lemma_bit_and(b.by_type[1], b.by_color[1], i);
    lemma_bit_and(knight_spec(sq), b.by_type[2], i);
    lemma_bit_and(king_spec(sq), b.by_type[6], i);
    lemma_bit_and(bishop_spec(sq, o), b.by_type[3] | b.by_type[5], i);
    lemma_bit_or(b.by_type[3], b.by_type[5], i);
    lemma_bit_and(rook_spec(sq, o), b.by_type[4] | b.by_type[5], i);
    lemma_bit_or(b.by_type[4], b.by_type[5], i);
    assert(has(b.by_type[1], t) <==> (b.squares[t] matches Some(p) && pt_num(piece_pt(p)) == 1));
    assert(has(b.by_type[2], t) <==> (b.squares[t] matches Some(p) && pt_num(piece_pt(p)) == 2));
    assert(has(b.by_type[3], t) <==> (b.squares[t] matches Some(p) && pt_num(piece_pt(p)) == 3));
    assert(has(b.by_type[4], t) <==> (b.squares[t] matches Some(p) && pt_num(piece_pt(p)) == 4));
    assert(has(b.by_type[5], t) <==> (b.squares[t] matches Some(p) && pt_num(piece_pt(p)) == 5));
    assert(has(b.by_type[6], t) <==> (b.squares[t] matches Some(p) && pt_num(piece_pt(p)) == 6));
    assert(has(b.by_color[0], t) <==> (b.squares[t] matches Some(p) && piece_color(p) as int == 0));
    assert(has(b.by_color[1], t) <==> (b.squares[t] matches Some(p) && piece_color(p) as int == 1));
}

/// Legality of king moves: a king move other than castling passes
/// `is_legal` exactly when, on the board after the move, no piece of the
/// opponent attacks the square the king moved to.
pub proof fn lemma_king_move_legal(v: PositionView, m: Move)
    requires
        wf(v),
        mv_kind(m) == 0,
        mv_from(m) != mv_to(m),
        v.board.squares[mv_from(m)] == Some(piece_of(v.side_to_move, PieceType::King)),
    ensures
        is_legal_spec(v, m) <==> attackers_spec(
            board_after(v.board, v.side_to_move, m),
            mv_to(m),
            occupied(board_after(v.board, v.side_to_move, m)),
        ) & pieces_of(board_after(v.board, v.side_to_move, m), flip(v.side_to_move)) == 0,
{
    reveal(board_after);
    lemma_move_fields(m);
    let b = v.board;
    let us = v.side_to_move;
    let them = flip(us);
    let from = mv_from(m);
    let to = mv_to(m);
    let king = piece_of(us, PieceType::King);
    let b1 = if b.squares[to] is Some { remove_spec(b, to) } else { b };
    if b.squares[to] is Some {
        lemma_remove_wf(b, to);
    }
    lemma_move_wf(b1, from, to);
    let b2 = move_spec(b1, from, to);
    assert(b2 == board_after(b, us, m));
    assert(b2.squares == b.squares.update(to, None).update(from, None).update(to, Some(king)));
    assert(piece_pt(king) == PieceType::King && piece_color(king) == us) by {
        if us == Color::White {
        } else {
        }
    }
    let occ = occupied(b);
    let o1 = occ ^ (1u64 << (from as u64));
    let o2 = occupied(b2);
    let x1 = attackers_spec(b, to, o1) & pieces_of(b, them);
    let x2 = attackers_spec(b2, to, o2) & pieces_of(b2, them);
    // The two boards agree off the king's new square.
    assert forall|t: int| 0 <= t < 64 && t != to implies #[trigger] has(o1, t) == has(o2, t) by {
        let i = t as u64;
        lemma_bit_xor(occ, 1u64 << (from as u64), i);
        lemma_bit_single(from as u64, i);
        lemma_bit_or(b.by_color[0], b.by_color[1], i);
        lemma_bit_or(b2.by_color[0], b2.by_color[1], i);
        assert(has(b.by_color[0], t) <==> (b.squares[t] matches Some(p) && piece_color(p) as int == 0));
        assert(has(b.by_color[1], t) <==> (b.squares[t] matches Some(p) && piece_color(p) as int == 1));
        assert(has(b2.by_color[0], t) <==> (b2.squares[t] matches Some(p) && piece_color(p) as int == 0));
        assert(has(b2.by_color[1], t) <==> (b2.squares[t] matches Some(p) && piece_color(p) as int == 1));
    }
    assert forall|t: int| #[trigger] has(slider_spec(true, to, o1), t) implies has(o1, t) == has(o2, t) by {
        lemma_slider_excludes(true, o1, to);
    }
    assert forall|t: int| #[trigger] has(slider_spec(false, to, o1), t) implies has(o1, t) == has(o2, t) by {
        lemma_slider_excludes(false, o1, to);
    }
    lemma_slider_agree(true, to, o1, o2);
    lemma_slider_agree(false, to, o1, o2);
    assert forall|i: u64| i < 64 implies #[trigger] bit(x1, i) == bit(x2, i) by {
        let t = i as int;
        lemma_bit_and(attackers_spec(b, to, o1), pieces_of(b, them), i);
        lemma_bit_and(attackers_spec(b2, to, o2), pieces_of(b2, them), i);
        lemma_attackers_bit(b, to, o1, t);
        lemma_attackers_bit(b2, to, o2, t);
        assert(has(b.by_color[them as int], t) <==> (b.squares[t] matches Some(p) && piece_color(p) as int == them as int));
        assert(has(b2.by_color[them as int], t) <==> (b2.squares[t] matches Some(p) && piece_color(p) as int == them as int));
        if t == to {
            lemma_pawn_excludes(Color::White, to);
            lemma_pawn_excludes(Color::Black, to);
            lemma_steppers_exclude(to);
            lemma_slider_excludes(true, o1, to);
            lemma_slider_excludes(false, o1, to);
            lemma_slider_excludes(true, o2, to);
            lemma_slider_excludes(false, o2, to);
            assert(!attacker_at(b, to, o1, t));
            assert(!attacker_at(b2, to, o2, t));
        } else if t == from {
        } else {
            assert(b2.squares[t] == b.squares[t]);
            assert(attacker_at(b, to, o1, t) == attacker_at(b2, to, o2, t));
        }
    }
    lemma_bits_ext(x1, x2);
    assert(is_legal_spec(v, m) == (x1 == 0));
}

/// Whether a piece that attacks without sliding (pawn, knight, king) stands on `t`.
pub open spec fn stepper_at(b: BoardView, t: int) -> bool {
    b.squares[t] matches Some(p) && (piece_pt(p) == PieceType::Pawn || piece_pt(p) == PieceType::Knight
        || piece_pt(p) == PieceType::King)
}

/// Legality of en-passant captures: when no enemy pawn, knight or king other
/// than the captured pawn attacks our king, an en-passant capture passes
/// `is_legal` exactly when, on the board after the capture, no piece of the
/// opponent attacks our king (which has not moved).
pub proof fn lemma_en_passant_legal(v: PositionView, m: Move)
    requires
        wf(v),
        mv_kind(m) == 2,
        mv_from(m) != mv_to(m),
        0 <= ep_victim_sq(v.side_to_move, mv_to(m)) < 64,
        ep_victim_sq(v.side_to_move, mv_to(m)) != mv_from(m),
        v.board.squares[mv_from(m)] == Some(piece_of(v.side_to_move, PieceType::Pawn)),
        v.board.squares[mv_to(m)] is None,
        v.board.squares[ep_victim_sq(v.side_to_move, mv_to(m))] == Some(piece_of(flip(v.side_to_move), PieceType::Pawn)),
        king_present(v.board, v.side_to_move),
        forall|t: int|
            0 <= t < 64 && t != ep_victim_sq(v.side_to_move, mv_to(m)) && #[trigger] stepper_at(v.board, t)
                && piece_color(v.board.squares[t]->Some_0) == flip(v.side_to_move) ==> !attacker_at(
                v.board,
                king_sq(v.board, v.side_to_move),
                occupied(v.board),
                t,
            ),
    ensures
        king_sq(board_after(v.board, v.side_to_move, m), v.side_to_move) == king_sq(v.board, v.side_to_move),
        is_legal_spec(v, m) <==> attackers_spec(
            board_after(v.board, v.side_to_move, m),
            king_sq(v.board, v.side_to_move),
            occupied(board_after(v.board, v.side_to_move, m)),
        ) & pieces_of(board_after(v.board, v.side_to_move, m), flip(v.side_to_move)) == 0,
{
    reveal(board_after);
    lemma_move_fields(m);
    let b = v.board;
    let us = v.side_to_move;
    let them = flip(us);
    let from = mv_from(m);
    let to = mv_to(m);
    let cs = ep_victim_sq(us, to);
    let pawn = piece_of(us, PieceType::Pawn);
    assert(piece_pt(pawn) == PieceType::Pawn && piece_color(pawn) == us) by {
        if us == Color::White {
        } else {
        }
    }
    assert(piece_pt(piece_of(them, PieceType::Pawn)) == PieceType::Pawn && piece_color(piece_of(them, PieceType::Pawn)) == them) by {
        if us == Color::White {
        } else {
        }
    }
    lemma_remove_wf(b, cs);
    let b1 = remove_spec(b, cs);
    lemma_move_wf(b1, from, to);
    let b2 = move_spec(b1, from, to);
    assert(b2 == board_after(b, us, m));
    assert(b2.squares == b.squares.update(cs, None).update(from, None).update(to, Some(pawn)));
    let ksq = king_sq(b, us);
    lemma_lsb(pieces_ct(b, us, PieceType::King));
    // The king bitboard is unchanged.
    assert forall|i: u64| i < 64 implies #[trigger] bit(pieces_ct(b2, us, PieceType::King), i) == bit(
        pieces_ct(b, us, PieceType::King),
        i,
    ) by {
        let t = i as int;
        lemma_bit_and(b.by_type[6], b.by_color[us as int], i);
        lemma_bit_and(b2.by_type[6], b2.by_color[us as int], i);
        assert(has(b.by_type[6], t) <==> (b.squares[t] matches Some(p) && pt_num(piece_pt(p)) == 6));
        assert(has(b2.by_type[6], t) <==> (b2.squares[t] matches Some(p) && pt_num(piece_pt(p)) == 6));
        assert(has(b.by_color[us as int], t) <==> (b.squares[t] matches Some(p) && piece_color(p) as int == us as int));
        assert(has(b2.by_color[us as int], t) <==> (b2.squares[t] matches Some(p) && piece_color(p) as int == us as int));
    }
    lemma_bits_ext(pieces_ct(b2, us, PieceType::King), pieces_ct(b, us, PieceType::King));
    // The board after is the board the legality test looks at.
    let occ = occupied(b);
    let o = ((occ ^ (1u64 << (from as u64))) ^ (1u64 << (cs as u64))) | (1u64 << (to as u64));
    let o2 = occupied(b2);
    assert forall|i: u64| i < 64 implies #[trigger] bit(o2, i) == bit(o, i) by {
        let t = i as int;
        lemma_bit_or(occ ^ (1u64 << (from as u64)) ^ (1u64 << (cs as u64)), 1u64 << (to as u64), i);
        lemma_bit_xor(occ ^ (1u64 << (from as u64)), 1u64 << (cs as u64), i);
        lemma_bit_xor(occ, 1u64 << (from as u64), i);
        lemma_bit_single(from as u64, i);
        lemma_bit_single(cs as u64, i);
        lemma_bit_single(to as u64, i);
        lemma_bit_or(b.by_color[0], b.by_color[1], i);
        lemma_bit_or(b2.by_color[0], b2.by_color[1], i);
        assert(has(b.by_color[0], t) <==> (b.squares[t] matches Some(p) && piece_color(p) as int == 0));
        assert(has(b.by_color[1], t) <==> (b.squares[t] matches Some(p) && piece_color(p) as int == 1));
        assert(has(b2.by_color[0], t) <==> (b2.squares[t] matches Some(p) && piece_color(p) as int == 0));
        assert(has(b2.by_color[1], t) <==> (b2.squares[t] matches Some(p) && piece_color(p) as int == 1));
    }
    lemma_bits_ext(o2, o);
    let rq = pieces_ct(b, them, PieceType::Rook) | pieces_ct(b, them, PieceType::Queen);
    let bq = pieces_ct(b, them, PieceType::Bishop) | pieces_ct(b, them, PieceType::Queen);
    let x0 = (rook_spec(ksq, o) & rq) | (bishop_spec(ksq, o) & bq);
    let x2 = attackers_spec(b2, ksq, o2) & pieces_of(b2, them);
    assert forall|i: u64| i < 64 implies #[trigger] bit(x0, i) == bit(x2, i) by {
        let t = i as int;
        lemma_bit_or(rook_spec(ksq, o) & rq, bishop_spec(ksq, o) & bq, i);
        lemma_bit_and(rook_spec(ksq, o), rq, i);
        lemma_bit_and(bishop_spec(ksq, o), bq, i);
        lemma_bit_or(pieces_ct(b, them, PieceType::Rook), pieces_ct(b, them, PieceType::Queen), i);
        lemma_bit_or(pieces_ct(b, them, PieceType::Bishop), pieces_ct(b, them, PieceType::Queen), i);
        lemma_bit_and(b.by_type[3], b.by_color[them as int], i);
        lemma_bit_and(b.by_type[4], b.by_color[them as int], i);
        lemma_bit_and(b.by_type[5], b.by_color[them as int], i);
        assert(has(b.by_type[3], t) <==> (b.squares[t] matches Some(p) && pt_num(piece_pt(p)) == 3));
        assert(has(b.by_type[4], t) <==> (b.squares[t] matches Some(p) && pt_num(piece_pt(p)) == 4));
        assert(has(b.by_type[5], t) <==> (b.squares[t] matches Some(p) && pt_num(piece_pt(p)) == 5));
        assert(has(b.by_color[them as int], t) <==> (b.squares[t] matches Some(p) && piece_color(p) as int == them as int));
        lemma_bit_and(attackers_spec(b2, ksq, o2), pieces_of(b2, them), i);
        lemma_attackers_bit(b2, ksq, o2, t);
        assert(has(b2.by_color[them as int], t) <==> (b2.squares[t] matches Some(p) && piece_color(p) as int == them as int));
        if t == from || t == to || t == cs {
        } else {
            assert(b2.squares[t] == b.squares[t]);
            if stepper_at(b, t) && piece_color(b.squares[t]->Some_0) == them {
                assert(!attacker_at(b, ksq, occ, t));
            }
        }
    }
    lemma_bits_ext(x0, x2);
    assert(is_legal_spec(v, m) == (x0 == 0));
}

/// The filter keeps the first `i` moves, and every move it keeps from index
/// `i` on passes the legality test and was among the moves from `i` on.
proof fn lemma_swap_filter_sound(v: PositionView, s: Seq<Move>, i: int)
    requires
        0 <= i <= s.len(),
    ensures
        i <= swap_filter(v, s, i).len() <= s.len(),
        forall|j: int| 0 <= j < i ==> #[trigger] swap_filter(v, s, i)[j] == s[j],
        forall|j: int|
            i <= j < swap_filter(v, s, i).len() ==> is_legal_spec(v, #[trigger] swap_filter(v, s, i)[j]) && exists|k: int|
                i <= k < s.len() && s[k] == swap_filter(v, s, i)[j],
    decreases s.len() - i,
{
    if i >= s.len() {
    } else if !is_legal_spec(v, s[i]) {
        let s2 = s.update(i, s.last()).drop_last();
        lemma_swap_filter_sound(v, s2, i);
        let r = swap_filter(v, s2, i);
        assert forall|j: int| i <= j < r.len() implies exists|k: int| i <= k < s.len() && s[k] == #[trigger] r[j] by {
            let k2 = choose|k: int| i <= k < s2.len() && s2[k] == r[j];
            if k2 == i {
                assert(s[s.len() - 1] == r[j]);
            } else {
                assert(s[k2] == r[j]);
            }
        }
    } else {
        lemma_swap_filter_sound(v, s, i + 1);
        let r = swap_filter(v, s, i + 1);
        assert(r[i] == s[i]);
    }
}

/// Soundness of legal generation for king moves: every king move (other than
/// castling) that the legal generator appends leaves the king's new square
/// unattacked by the opponent on the board after the move.
pub proof fn lemma_legal_king_move_safe(v: PositionView, start: Seq<Move>, j: int)
    requires
        wf(v),
        start.len() <= j < legal_moves_spec(v, start).len(),
        mv_kind(legal_moves_spec(v, start)[j]) == 0,
        mv_from(legal_moves_spec(v, start)[j]) != mv_to(legal_moves_spec(v, start)[j]),
        v.board.squares[mv_from(legal_moves_spec(v, start)[j])] == Some(piece_of(v.side_to_move, PieceType::King)),
    ensures
        ({
            let m = legal_moves_spec(v, start)[j];
            let after = board_after(v.board, v.side_to_move, m);
            attackers_spec(after, mv_to(m), occupied(after)) & pieces_of(after, flip(v.side_to_move)) == 0
        }),
{
    let s = start + crate::movegen::gen_all_spec(v, crate::movegen::legal_kind(v));
    lemma_swap_filter_sound(v, s, start.len() as int);
    let m = legal_moves_spec(v, start)[j];
    assert(is_legal_spec(v, m));
    lemma_king_move_legal(v, m);
}

/// The filter keeps, from index `i` on, every move there that passes the
/// legality test.
pub proof fn lemma_swap_filter_complete(v: PositionView, s: Seq<Move>, i: int, k: int)
    requires
        0 <= i <= k < s.len(),
        is_legal_spec(v, s[k]),
    ensures
        exists|j: int| i <= j < swap_filter(v, s, i).len() && swap_filter(v, s, i)[j] == s[k],
    decreases s.len() - i,
{
    lemma_swap_filter_sound(v, s, i);
    if !is_legal_spec(v, s[i]) {
        let s2 = s.update(i, s.last()).drop_last();
        if k == s.len() - 1 {
            lemma_swap_filter_complete(v, s2, i, i);
        } else {
            assert(k != i);
            assert(s2[k] == s[k]);
            lemma_swap_filter_complete(v, s2, i, k);
        }
    } else if k == i {
        lemma_swap_filter_sound(v, s, i + 1);
        assert(swap_filter(v, s, i) == swap_filter(v, s, i + 1));
        assert(swap_filter(v, s, i)[i] == s[i]);
    } else {
        lemma_swap_filter_complete(v, s, i + 1, k);
    }
}

/// `targets(from, b)` lists the move from `from` to every square of `b`.
pub proof fn lemma_targets_contains(from: int, b: u64, t: int)
    requires
        has(b, t),
    ensures
        targets(from, b).contains(mv_normal(from, t)),
    decreases b,
{
    lemma_bit_zero(t as u64);
    crate::bitboard::lemma_lsb(b);
    lemma_clear_lsb(b);
    if t == lsb_spec(b) {
        assert(targets(from, b)[0] == mv_normal(from, t));
    } else {
        lemma_targets_contains(from, clear_lsb(b), t);
        let rest = targets(from, clear_lsb(b));
        let j = choose|j: int| 0 <= j < rest.len() && rest[j] == mv_normal(from, t);
        assert(targets(from, b)[j + 1] == mv_normal(from, t));
    }
}

proof fn lemma_contains_right(a: Seq<Move>, b: Seq<Move>, x: Move)
    requires
        b.contains(x),
    ensures
        (a + b).contains(x),
{
    let j = choose|j: int| 0 <= j < b.len() && b[j] == x;
    assert((a + b)[a.len() + j] == x);
}

proof fn lemma_contains_left(a: Seq<Move>, b: Seq<Move>, x: Move)
    requires
        a.contains(x),
    ensures
        (a + b).contains(x),
{
    let j = choose|j: int| 0 <= j < a.len() && a[j] == x;
    assert((a + b)[j] == x);
}

/// The origin, target and kind of a normal move.
pub proof fn lemma_normal_fields(from: int, to: int)
    requires
        0 <= from < 64,
        0 <= to < 64,
    ensures
        mv_from(mv_normal(from, to)) == from,
        mv_to(mv_normal(from, to)) == to,
        mv_kind(mv_normal(from, to)) == 0,
{
    assert(0 <= from * 64 + to < 4096 && (from * 64 + to) / 64 == from && (from * 64 + to) % 64 == to
        && (from * 64 + to) / 16384 == 0) by (nonlinear_arith)
        requires
            0 <= from < 64,
            0 <= to < 64,
    ;
    assert(crate::types::mv_pack(0, 0, from, to) == from * 64 + to);
}

/// Completeness of legal generation for king steps: a step of our king to a
/// neighbouring square that holds none of our pieces, after which no enemy
/// piece attacks the king, is among the moves the legal generator appends.
pub proof fn lemma_safe_king_step_generated(v: PositionView, start: Seq<Move>, to: int)
    requires
        wf(v),
        king_present(v.board, v.side_to_move),
        has(king_spec(king_sq(v.board, v.side_to_move)), to),
        has(pieces_of(v.board, v.side_to_move), to) == false,
        ({
            let m = mv_normal(king_sq(v.board, v.side_to_move), to);
            let after = board_after(v.board, v.side_to_move, m);
            attackers_spec(after, to, occupied(after)) & pieces_of(after, flip(v.side_to_move)) == 0
        }),
    ensures
        exists|j: int|
            start.len() <= j < legal_moves_spec(v, start).len() && legal_moves_spec(v, start)[j] == mv_normal(
                king_sq(v.board, v.side_to_move),
                to,
            ),
{
    let b = v.board;
    let us = v.side_to_move;
    let ksq = king_sq(b, us);
    let m = mv_normal(ksq, to);
    let kings = pieces_ct(b, us, PieceType::King);
    lemma_lsb(kings);
    lemma_bit_and(b.by_type[6], b.by_color[us as int], ksq as u64);
    assert(has(b.by_type[6], ksq) <==> (b.squares[ksq] matches Some(p) && pt_num(piece_pt(p)) == 6));
    assert(has(b.by_color[us as int], ksq) <==> (b.squares[ksq] matches Some(p) && piece_color(p) as int == us as int));
    assert(b.squares[ksq] == Some(piece_of(us, PieceType::King))) by {
        let p = b.squares[ksq]->Some_0;
        assert(piece_pt(p) == PieceType::King);
        assert(piece_color(p) == us);
        assert(p == crate::types::Piece::WKing || p == crate::types::Piece::BKing);
    }
    lemma_steppers_exclude(ksq);
    lemma_normal_fields(ksq, to);
    lemma_king_move_legal(v, m);
    assert(is_legal_spec(v, m));
    // The king step is generated.
    let own = pieces_of(b, us);
    lemma_bit_and(king_spec(ksq), !own, to as u64);
    lemma_bit_not(own, to as u64);
    lemma_targets_contains(ksq, king_spec(ksq) & !own, to);
    let gt = legal_kind(v);
    let g = gen_all_spec(v, gt);
    if gt == GenType::Evasions && pop_count(v.state.checkers_bb) > 1 {
        assert(g.contains(m));
    } else {
        assert(gt == GenType::Evasions || gen_target(v, gt) == !own);
        let t = gen_target(v, gt);
        let kt = king_spec(ksq) & (if gt == GenType::Evasions { !pieces_of(b, us) } else { t });
        assert(kt == king_spec(ksq) & !own);
        let occ = occupied(b);
        let pre = crate::movegen::pawn_moves_spec(v, us == Color::White, crate::movegen::gen_code(gt), t)
            + crate::movegen::piece_moves(pieces_ct(b, us, PieceType::Knight), PieceType::Knight, occ, t)
            + crate::movegen::piece_moves(pieces_ct(b, us, PieceType::Bishop), PieceType::Bishop, occ, t)
            + crate::movegen::piece_moves(pieces_ct(b, us, PieceType::Rook), PieceType::Rook, occ, t)
            + crate::movegen::piece_moves(pieces_ct(b, us, PieceType::Queen), PieceType::Queen, occ, t);
        lemma_contains_right(pre, targets(ksq, kt), m);
        lemma_contains_left(pre + targets(ksq, kt), crate::movegen::castles_spec(v, gt), m);
        assert(g == (pre + targets(ksq, kt)) + crate::movegen::castles_spec(v, gt));
    }
    assert(g.contains(m));
    let s = start + g;
    let jg = choose|jg: int| 0 <= jg < g.len() && g[jg] == m;
    assert(s[start.len() + jg] == m);
    lemma_swap_filter_complete(v, s, start.len() as int, start.len() + jg);
    assert(legal_moves_spec(v, start) == swap_filter(v, s, start.len() as int));
}

proof fn lemma_promo_fields(from: int, to: int, pt: PieceType)
    requires
        0 <= from < 64,
        0 <= to < 64,
    ensures
        mv_from(crate::movegen::mv_promo(from, to, pt)) == from,
        mv_to(crate::movegen::mv_promo(from, to, pt)) == to,
        mv_kind(crate::movegen::mv_promo(from, to, pt)) == 1,
{
    let p = (pt_num(pt) - 2) % 4;
    assert(0 <= p < 4);
    let x = 16384 + p * 4096 + from * 64 + to;
    assert(0 <= x < 32768 && (x / 64) % 64 == from && x % 64 == to && x / 16384 == 1) by (nonlinear_arith)
        requires
            x == 16384 + p * 4096 + from * 64 + to,
            0 <= p < 4,
            0 <= from < 64,
            0 <= to < 64,
    ;
    assert(crate::types::mv_pack(1, p, from, to) == x);
}

/// Promotions of an unpinned pawn are legal moves: when the side to move is
/// not in check and the pawn on its seventh rank blocks nothing from its own
/// king, the legal generator gives each promotion to queen, rook, bishop and
/// knight onto the empty square ahead and onto each forward diagonal square
/// holding an enemy piece.
pub proof fn lemma_promotions_legal(v: PositionView, start: Seq<Move>, from: int, df: int, pt: PieceType)
    requires
        wf(v),
        0 <= from < 64,
        v.board.squares[from] == Some(piece_of(v.side_to_move, PieceType::Pawn)),
        rank_of(from) == (if v.side_to_move == Color::White { 6int } else { 1int }),
        crate::gen_complete::promotion_piece(pt),
        -1 <= df <= 1,
        0 <= file_of(from) + df < 8,
        df == 0 ==> v.board.squares[from + (if v.side_to_move == Color::White { 8int } else { -8int })] is None,
        df != 0 ==> (v.board.squares[from + (if v.side_to_move == Color::White { 8int } else { -8int }) + df] matches Some(
            q,
        ) && piece_color(q) == flip(v.side_to_move)),
        v.state.checkers_bb == 0,
        v.state.blockers_for_king[v.side_to_move as int] & (1u64 << (from as u64)) == 0,
    ensures
        exists|j: int|
            start.len() <= j < legal_moves_spec(v, start).len() && legal_moves_spec(v, start)[j]
                == crate::movegen::mv_promo(
                from,
                from + (if v.side_to_move == Color::White { 8int } else { -8int }) + df,
                pt,
            ),
{
    let us = v.side_to_move;
    let to = from + (if us == Color::White { 8int } else { -8int }) + df;
    let m = crate::movegen::mv_promo(from, to, pt);
    crate::gen_complete::lemma_promotions_generated(v, from, df, pt);
    lemma_promo_fields(from, to, pt);
    assert(piece_pt(piece_of(us, PieceType::Pawn)) == PieceType::Pawn) by {
        if us == Color::White {
        } else {
        }
    }
    assert(is_legal_spec(v, m));
    assert(legal_kind(v) == GenType::NonEvasions);
    let g = gen_all_spec(v, legal_kind(v));
    let s = start + g;
    let jg = choose|jg: int| 0 <= jg < g.len() && g[jg] == m;
    assert(s[start.len() + jg] == m);
    lemma_swap_filter_complete(v, s, start.len() as int, start.len() + jg);
    assert(legal_moves_spec(v, start) == swap_filter(v, s, start.len() as int));
}

/// Moves of unpinned pieces are legal when not in check: a generated move
/// (not en passant, not castling) of a piece other than the king, when the
/// side to move is not in check and the piece blocks nothing from its own
/// king, is among the moves the legal generator gives.
pub proof fn lemma_unpinned_move_legal(v: PositionView, start: Seq<Move>, m: Move)
    requires
        gen_all_spec(v, GenType::NonEvasions).contains(m),
        mv_kind(m) == 0 || mv_kind(m) == 1,
        v.board.squares[mv_from(m)] matches Some(p) && piece_pt(p) != PieceType::King,
        v.state.checkers_bb == 0,
        v.state.blockers_for_king[v.side_to_move as int] & (1u64 << (mv_from(m) as u64)) == 0,
    ensures
        exists|j: int| start.len() <= j < legal_moves_spec(v, start).len() && legal_moves_spec(v, start)[j] == m,
{
    assert(is_legal_spec(v, m));
    assert(legal_kind(v) == GenType::NonEvasions);
    let g = gen_all_spec(v, legal_kind(v));
    let s = start + g;
    let jg = choose|jg: int| 0 <= jg < g.len() && g[jg] == m;
    assert(s[start.len() + jg] == m);
    lemma_swap_filter_complete(v, s, start.len() as int, start.len() + jg);
    assert(legal_moves_spec(v, start) == swap_filter(v, s, start.len() as int));
}

/// Taking the checking piece is a legal evasion: in check by a single piece,
/// the legal generator gives its capture by every knight, bishop, rook or
/// queen of the side to move that attacks it and blocks nothing from its own
/// king.
pub proof fn lemma_checker_capture_legal(v: PositionView, start: Seq<Move>, pt: PieceType, from: int)
    requires
        wf(v),
        v.state.checkers_bb != 0,
        pop_count(v.state.checkers_bb) <= 1,
        pt == PieceType::Knight || pt == PieceType::Bishop || pt == PieceType::Rook || pt == PieceType::Queen,
        0 <= from < 64,
        v.board.squares[from] == Some(piece_of(v.side_to_move, pt)),
        has(crate::bitboard::attacks_spec(pt, from, occupied(v.board)), lsb_spec(v.state.checkers_bb)),
        v.state.blockers_for_king[v.side_to_move as int] & (1u64 << (from as u64)) == 0,
    ensures
        exists|j: int|
            start.len() <= j < legal_moves_spec(v, start).len() && legal_moves_spec(v, start)[j] == mv_normal(
                from,
                lsb_spec(v.state.checkers_bb),
            ),
{
    let c = lsb_spec(v.state.checkers_bb);
    lemma_lsb(v.state.checkers_bb);
    crate::gen_complete::lemma_checker_capture_generated(v, pt, from);
    let m = mv_normal(from, c);
    lemma_normal_fields(from, c);
    assert(piece_pt(piece_of(v.side_to_move, pt)) == pt) by {
        if v.side_to_move == Color::White {
        } else {
        }
    }
    assert(is_legal_spec(v, m));
    assert(legal_kind(v) == GenType::Evasions);
    let g = gen_all_spec(v, legal_kind(v));
    let s = start + g;
    let jg = choose|jg: int| 0 <= jg < g.len() && g[jg] == m;
    assert(s[start.len() + jg] == m);
    lemma_swap_filter_complete(v, s, start.len() as int, start.len() + jg);
    assert(legal_moves_spec(v, start) == swap_filter(v, s, start.len() as int));
}

} // verus!
