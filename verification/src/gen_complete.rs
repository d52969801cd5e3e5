//! Moves the generator is certain to give: the promotions of a pawn on its
//! seventh rank.

use vstd::prelude::*;
use crate::types::Color;
use crate::types::Move;
use crate::types::PieceType;
use crate::types::piece_of;
use crate::types::piece_color;
use crate::types::file_of;
use crate::types::rank_of;
use crate::bitboard::bit;
use crate::bitboard::has;
use crate::bitboard::lsb_spec;
use crate::bitboard::clear_lsb;
use crate::bitboard::rank_mask;
use crate::bitboard::lemma_bit_and;
use crate::bitboard::lemma_bit_not;
use crate::bitboard::lemma_bit_zero;
use crate::bitboard::lemma_lsb;
use crate::bitboard::lemma_clear_lsb;
use crate::bitboard::lemma_rank_mask;
use crate::bitboard::lemma_shl_bit;
use crate::bitboard::lemma_shr_bit;
use crate::bitboard::lemma_off_file;
use crate::bitboard::FILE_A_BB;
use crate::bitboard::FILE_H_BB;
use crate::movegen::promos;
use crate::movegen::promo_block;
use crate::movegen::mv_promo;
use crate::movegen::pawn_sets;
use crate::movegen::pawn_moves_spec;
use crate::movegen::pawn_push_part;
use crate::movegen::pawn_promo_part;
use crate::movegen::pawn_cap_part;
use crate::movegen::gen_all_spec;
use crate::movegen::gen_by_target_spec;
use crate::movegen::gen_target;
use crate::movegen::gen_code;
use crate::movegen::castles_spec;
use crate::movegen::piece_moves;
use crate::movegen::targets;
use crate::movegen::GenType;
use crate::bitboard::king_spec;
use crate::bitboard::attacks_spec;
use crate::position::PositionView;
use crate::position::wf;
use crate::position::flip;
use crate::position::occupied;
use crate::position::pieces_of;
use crate::position::pieces_ct;
use crate::position::king_sq;
use crate::position::lemma_board_views_agree;

verus! {

/// A promotion piece: queen, rook, bishop or knight.
pub open spec fn promotion_piece(pt: PieceType) -> bool {
    pt == PieceType::Queen || pt == PieceType::Rook || pt == PieceType::Bishop || pt == PieceType::Knight
}

proof fn lemma_contains_right(a: Seq<Move>, b: Seq<Move>, x: Move)
    requires
        b.contains(x),
    ensures
        (a + b).contains(x),
{
    let j = choose|j: int| 0 <= j < b.len() && b[j] == x;
    assert((a + b)[a.len() + j] == x);
}

proof fn lemma_contains_left(a: Seq<Move>, b: Seq<Move>, x: Move)
    requires
        a.contains(x),
    ensures
        (a + b).contains(x),
{
    let j = choose|j: int| 0 <= j < a.len() && a[j] == x;
    assert((a + b)[j] == x);
}

/// `promos(b, d, true, true)` holds the four promotions onto every square of `b`.
proof fn lemma_promos_contains(b: u64, d: int, to: int, pt: PieceType)
    requires
        has(b, to),
        promotion_piece(pt),
    ensures
        promos(b, d, true, true).contains(mv_promo(to - d, to, pt)),
    decreases b,
{
    lemma_bit_zero(to as u64);
    lemma_lsb(b);
    lemma_clear_lsb(b);
    let blk = promo_block(lsb_spec(b) - d, lsb_spec(b), true, true);
    let rest = promos(clear_lsb(b), d, true, true);
    assert(promos(b, d, true, true) == blk + rest);
    if to == lsb_spec(b) {
        assert(blk.contains(mv_promo(to - d, to, pt))) by {
            if pt == PieceType::Queen {
                assert(blk[0] == mv_promo(to - d, to, pt));
            } else if pt == PieceType::Rook {
                assert(blk[1] == mv_promo(to - d, to, pt));
            } else if pt == PieceType::Bishop {
                assert(blk[2] == mv_promo(to - d, to, pt));
            } else {
                assert(blk[3] == mv_promo(to - d, to, pt));
            }
        }
        lemma_contains_left(blk, rest, mv_promo(to - d, to, pt));
    } else {
        lemma_promos_contains(clear_lsb(b), d, to, pt);
        lemma_contains_right(blk, rest, mv_promo(to - d, to, pt));
    }
}

/// Promotions are generated: for a pawn of the side to move on its seventh
/// rank (rank 7 for white, rank 2 for black), all-move generation gives the
/// promotions to queen, rook, bishop and knight onto the square ahead when it
/// is empty (`df == 0`), and onto each forward diagonal square on the board
/// (`df` is -1 or 1) that holds an enemy piece.
pub proof fn lemma_promotions_generated(v: PositionView, from: int, df: int, pt: PieceType)
    requires
        wf(v),
        0 <= from < 64,
        v.board.squares[from] == Some(piece_of(v.side_to_move, PieceType::Pawn)),
        rank_of(from) == (if v.side_to_move == Color::White { 6int } else { 1int }),
        promotion_piece(pt),
        -1 <= df <= 1,
        0 <= file_of(from) + df < 8,
        df == 0 ==> v.board.squares[from + (if v.side_to_move == Color::White { 8int } else { -8int })] is None,
        df != 0 ==> (v.board.squares[from + (if v.side_to_move == Color::White { 8int } else { -8int }) + df] matches Some(
            q,
        ) && piece_color(q) == flip(v.side_to_move)),
    ensures
        gen_all_spec(v, GenType::NonEvasions).contains(
            mv_promo(from, from + (if v.side_to_move == Color::White { 8int } else { -8int }) + df, pt),
        ),
{
    let b = v.board;
    let us = v.side_to_move;
    let them = flip(us);
    let white = us == Color::White;
    let up: int = if white { 8 } else { -8 };
    let to = from + up + df;
    let t = gen_target(v, GenType::NonEvasions);
    let ps = pawn_sets(v, white, 3, t);
    lemma_board_views_agree(b);
    // The pawn is on its seventh rank.
    let pawns = pieces_ct(b, us, PieceType::Pawn);
    let r7: u64 = if white { rank_mask(6) } else { rank_mask(1) };
    assert(has(pawns, from));
    lemma_bit_and(pawns, r7, from as u64);
    if white {
        lemma_rank_mask(6, from as u64);
    } else {
        lemma_rank_mask(1, from as u64);
    }
    assert(ps.on7 == pawns & r7);
    assert(has(ps.on7, from));
    let on7 = ps.on7;
    // The target square is among the promotion squares.
    let i = to as u64;
    lemma_bit_not(occupied(b), i);
    assert(has(occupied(b), to) <==> b.squares[to] is Some);
    assert(0 <= to < 64);
    assert(has(b.by_color[them as int], to) <==> (b.squares[to] matches Some(q) && piece_color(q) as int == them as int));
    assert(has(pieces_of(b, them), to) <==> (b.squares[to] matches Some(q) && piece_color(q) == them));
    let (set, d) = if df == 0 {
        (ps.promo_push, ps.up)
    } else if df == 1 {
        if white { (ps.promo_right, ps.up_right) } else { (ps.promo_left, ps.up_left) }
    } else {
        if white { (ps.promo_left, ps.up_left) } else { (ps.promo_right, ps.up_right) }
    };
    assert(to - d == from);
    lemma_off_file(on7, from as u64);
    if white {
        lemma_shl_bit(on7, 8, i);
        lemma_shl_bit(on7 & !FILE_H_BB, 9, i);
        lemma_shl_bit(on7 & !FILE_A_BB, 7, i);
    } else {
        lemma_shr_bit(on7, 8, i);
        lemma_shr_bit(on7 & !FILE_A_BB, 9, i);
        lemma_shr_bit(on7 & !FILE_H_BB, 7, i);
    }
    lemma_bit_and(crate::bitboard::sh_north(on7), !occupied(b), i);
    lemma_bit_and(crate::bitboard::sh_south(on7), !occupied(b), i);
    lemma_bit_and(crate::bitboard::sh_north_east(on7), pieces_of(b, them), i);
    lemma_bit_and(crate::bitboard::sh_north_west(on7), pieces_of(b, them), i);
    lemma_bit_and(crate::bitboard::sh_south_east(on7), pieces_of(b, them), i);
    lemma_bit_and(crate::bitboard::sh_south_west(on7), pieces_of(b, them), i);
    assert(has(set, to));
    lemma_promos_contains(set, d, to, pt);
    let m = mv_promo(from, to, pt);
    // The promotion part of the pawn moves holds it.
    let a = promos(ps.promo_right, ps.up_right, true, true);
    let bb = promos(ps.promo_left, ps.up_left, true, true);
    let c = promos(ps.promo_push, ps.up, true, true);
    assert(on7 != 0) by {
        if on7 == 0 {
            lemma_bit_zero(from as u64);
        }
    }
    assert(pawn_promo_part(v, white, 3, t) == a + bb + c);
    if df == 0 {
        lemma_contains_right(a + bb, c, m);
    } else if (df == 1) == white {
        lemma_contains_left(a, bb, m);
        lemma_contains_left(a + bb, c, m);
    } else {
        lemma_contains_right(a, bb, m);
        lemma_contains_left(a + bb, c, m);
    }
    reveal(pawn_moves_spec);
    let pm = pawn_moves_spec(v, white, 3, t);
    lemma_contains_right(pawn_push_part(v, white, 3, t), pawn_promo_part(v, white, 3, t), m);
    lemma_contains_left(
        pawn_push_part(v, white, 3, t) + pawn_promo_part(v, white, 3, t),
        pawn_cap_part(v, white, 3, t),
        m,
    );
    assert(pm.contains(m));
    // All-move generation starts with the pawn moves.
    let ksq = king_sq(b, us);
    let occ = occupied(b);
    let g = gen_all_spec(v, GenType::NonEvasions);
    let p1 = pm + piece_moves(pieces_ct(b, us, PieceType::Knight), PieceType::Knight, occ, t);
    let p2 = p1 + piece_moves(pieces_ct(b, us, PieceType::Bishop), PieceType::Bishop, occ, t);
    let p3 = p2 + piece_moves(pieces_ct(b, us, PieceType::Rook), PieceType::Rook, occ, t);
    let p4 = p3 + piece_moves(pieces_ct(b, us, PieceType::Queen), PieceType::Queen, occ, t);
    let p5 = p4 + targets(ksq, king_spec(ksq) & t);
    assert(g == p5 + castles_spec(v, GenType::NonEvasions));
    lemma_contains_left(pm, piece_moves(pieces_ct(b, us, PieceType::Knight), PieceType::Knight, occ, t), m);
    lemma_contains_left(p1, piece_moves(pieces_ct(b, us, PieceType::Bishop), PieceType::Bishop, occ, t), m);
    lemma_contains_left(p2, piece_moves(pieces_ct(b, us, PieceType::Rook), PieceType::Rook, occ, t), m);
    lemma_contains_left(p3, piece_moves(pieces_ct(b, us, PieceType::Queen), PieceType::Queen, occ, t), m);
    lemma_contains_left(p4, targets(ksq, king_spec(ksq) & t), m);
    lemma_contains_left(p5, castles_spec(v, GenType::NonEvasions), m);
}

/// The seven parts of all-move generation, in order: pawn, knight, bishop,
/// rook, queen and king moves, then castling.
pub open spec fn all_move_parts(v: PositionView) -> Seq<Seq<Move>> {
    let b = v.board;
    let us = v.side_to_move;
    let ksq = king_sq(b, us);
    let occ = occupied(b);
    let t = gen_target(v, GenType::NonEvasions);
    seq![
        pawn_moves_spec(v, us == Color::White, 3, t),
        piece_moves(pieces_ct(b, us, PieceType::Knight), PieceType::Knight, occ, t),
        piece_moves(pieces_ct(b, us, PieceType::Bishop), PieceType::Bishop, occ, t),
        piece_moves(pieces_ct(b, us, PieceType::Rook), PieceType::Rook, occ, t),
        piece_moves(pieces_ct(b, us, PieceType::Queen), PieceType::Queen, occ, t),
        targets(ksq, king_spec(ksq) & t),
        castles_spec(v, GenType::NonEvasions),
    ]
}

/// A move of any part of all-move generation is generated.
proof fn lemma_part_generated(v: PositionView, k: int, m: Move)
    requires
        0 <= k < 7,
        all_move_parts(v)[k].contains(m),
    ensures
        gen_all_spec(v, GenType::NonEvasions).contains(m),
{
    let p = all_move_parts(v);
    let g = gen_all_spec(v, GenType::NonEvasions);
    assert(g == p[0] + p[1] + p[2] + p[3] + p[4] + p[5] + p[6]);
    let j = choose|j: int| 0 <= j < p[k].len() && p[k][j] == m;
    let off: int = if k == 0 {
        0
    } else if k == 1 {
        p[0].len() as int
    } else if k == 2 {
        (p[0].len() + p[1].len()) as int
    } else if k == 3 {
        (p[0].len() + p[1].len() + p[2].len()) as int
    } else if k == 4 {
        (p[0].len() + p[1].len() + p[2].len() + p[3].len()) as int
    } else if k == 5 {
        (p[0].len() + p[1].len() + p[2].len() + p[3].len() + p[4].len()) as int
    } else {
        (p[0].len() + p[1].len() + p[2].len() + p[3].len() + p[4].len() + p[5].len()) as int
    };
    assert(g[off + j] == m);
}

/// `piece_moves` gives, for every piece of `pcs`, the move to every square of
/// its attacks within the target.
proof fn lemma_piece_moves_contains(pcs: u64, pt: PieceType, occ: u64, t: u64, from: int, to: int)
    requires
        has(pcs, from),
        has(attacks_spec(pt, from, occ) & t, to),
    ensures
        piece_moves(pcs, pt, occ, t).contains(crate::movegen::mv_normal(from, to)),
    decreases pcs,
{
    lemma_bit_zero(from as u64);
    lemma_lsb(pcs);
    lemma_clear_lsb(pcs);
    let f0 = lsb_spec(pcs);
    let first = targets(f0, attacks_spec(pt, f0, occ) & t);
    let rest = piece_moves(clear_lsb(pcs), pt, occ, t);
    assert(piece_moves(pcs, pt, occ, t) == first + rest);
    if from == f0 {
        crate::legality::lemma_targets_contains(from, attacks_spec(pt, from, occ) & t, to);
        lemma_contains_left(first, rest, crate::movegen::mv_normal(from, to));
    } else {
        lemma_piece_moves_contains(clear_lsb(pcs), pt, occ, t, from, to);
        lemma_contains_right(first, rest, crate::movegen::mv_normal(from, to));
    }
}

/// Piece moves are generated: for a knight, bishop, rook or queen of the side
/// to move, all-move generation gives the move to every square the piece
/// attacks over the board that holds none of its side's pieces.
pub proof fn lemma_piece_moves_generated(v: PositionView, pt: PieceType, from: int, to: int)
    requires
        wf(v),
        pt == PieceType::Knight || pt == PieceType::Bishop || pt == PieceType::Rook || pt == PieceType::Queen,
        0 <= from < 64,
        0 <= to < 64,
        v.board.squares[from] == Some(piece_of(v.side_to_move, pt)),
        has(attacks_spec(pt, from, occupied(v.board)), to),
        !(v.board.squares[to] matches Some(q) && piece_color(q) == v.side_to_move),
    ensures
        gen_all_spec(v, GenType::NonEvasions).contains(crate::movegen::mv_normal(from, to)),
{
    let b = v.board;
    let us = v.side_to_move;
    let t = gen_target(v, GenType::NonEvasions);
    let occ = occupied(b);
    lemma_board_views_agree(b);
    assert(has(pieces_ct(b, us, pt), from));
    assert(has(b.by_color[us as int], to) <==> (b.squares[to] matches Some(q) && piece_color(q) as int == us as int));
    lemma_bit_not(pieces_of(b, us), to as u64);
    lemma_bit_and(attacks_spec(pt, from, occ), t, to as u64);
    lemma_piece_moves_contains(pieces_ct(b, us, pt), pt, occ, t, from, to);
    let k: int = if pt == PieceType::Knight {
        1
    } else if pt == PieceType::Bishop {
        2
    } else if pt == PieceType::Rook {
        3
    } else {
        4
    };
    assert(all_move_parts(v)[k] == piece_moves(pieces_ct(b, us, pt), pt, occ, t));
    lemma_part_generated(v, k, crate::movegen::mv_normal(from, to));
}

/// `pushes(b, d)` gives the move onto every square of `b` from `d` squares back.
proof fn lemma_pushes_contains(b: u64, d: int, to: int)
    requires
        has(b, to),
    ensures
        crate::movegen::pushes(b, d).contains(crate::movegen::mv_normal(to - d, to)),
    decreases b,
{
    lemma_bit_zero(to as u64);
    lemma_lsb(b);
    lemma_clear_lsb(b);
    let m = crate::movegen::mv_normal(to - d, to);
    let first = seq![crate::movegen::mv_normal(lsb_spec(b) - d, lsb_spec(b))];
    let rest = crate::movegen::pushes(clear_lsb(b), d);
    assert(crate::movegen::pushes(b, d) == first + rest);
    if to == lsb_spec(b) {
        assert(first[0] == m);
        lemma_contains_left(first, rest, m);
    } else {
        lemma_pushes_contains(clear_lsb(b), d, to);
        lemma_contains_right(first, rest, m);
    }
}

/// A move of one of the three pawn parts is among the pawn moves, and so generated.
proof fn lemma_pawn_part_generated(v: PositionView, k: int, m: Move)
    requires
        0 <= k < 3,
        k == 0 ==> pawn_push_part(v, v.side_to_move == Color::White, 3, gen_target(v, GenType::NonEvasions)).contains(m),
        k == 1 ==> pawn_promo_part(v, v.side_to_move == Color::White, 3, gen_target(v, GenType::NonEvasions)).contains(m),
        k == 2 ==> pawn_cap_part(v, v.side_to_move == Color::White, 3, gen_target(v, GenType::NonEvasions)).contains(m),
    ensures
        gen_all_spec(v, GenType::NonEvasions).contains(m),
{
    let white = v.side_to_move == Color::White;
    let t = gen_target(v, GenType::NonEvasions);
    let a = pawn_push_part(v, white, 3, t);
    let b = pawn_promo_part(v, white, 3, t);
    let c = pawn_cap_part(v, white, 3, t);
    reveal(pawn_moves_spec);
    if k == 0 {
        lemma_contains_left(a, b, m);
        lemma_contains_left(a + b, c, m);
    } else if k == 1 {
        lemma_contains_right(a, b, m);
        lemma_contains_left(a + b, c, m);
    } else {
        lemma_contains_right(a + b, c, m);
    }
    assert(all_move_parts(v)[0] == a + b + c);
    lemma_part_generated(v, 0, m);
}

/// Pawn pushes are generated: for a pawn of the side to move that is not on
/// its seventh rank, all-move generation gives the step onto the empty square
/// ahead, and, from its second rank (rank 2 for white, rank 7 for black), the
/// double step when both squares ahead are empty.
pub proof fn lemma_pawn_pushes_generated(v: PositionView, from: int, double: bool)
    requires
        wf(v),
        0 <= from < 64,
        v.board.squares[from] == Some(piece_of(v.side_to_move, PieceType::Pawn)),
        rank_of(from) != (if v.side_to_move == Color::White { 6int } else { 1int }),
        0 <= from + (if v.side_to_move == Color::White { 8int } else { -8int }) < 64,
        v.board.squares[from + (if v.side_to_move == Color::White { 8int } else { -8int })] is None,
        double ==> rank_of(from) == (if v.side_to_move == Color::White { 1int } else { 6int }),
        double ==> v.board.squares[from + (if v.side_to_move == Color::White { 16int } else { -16int })] is None,
    ensures
        gen_all_spec(v, GenType::NonEvasions).contains(
            crate::movegen::mv_normal(
                from,
                from + (if v.side_to_move == Color::White { 8int } else { -8int }) * (if double { 2int } else { 1int }),
            ),
        ),
{
    let b = v.board;
    let us = v.side_to_move;
    let white = us == Color::White;
    let up: int = if white { 8 } else { -8 };
    let t = gen_target(v, GenType::NonEvasions);
    let ps = pawn_sets(v, white, 3, t);
    lemma_board_views_agree(b);
    let pawns = pieces_ct(b, us, PieceType::Pawn);
    let r7: u64 = if white { rank_mask(6) } else { rank_mask(1) };
    let r3: u64 = if white { rank_mask(2) } else { rank_mask(5) };
    assert(has(pawns, from));
    lemma_bit_and(pawns, !r7, from as u64);
    lemma_bit_not(r7, from as u64);
    if white {
        lemma_rank_mask(6, from as u64);
    } else {
        lemma_rank_mask(1, from as u64);
    }
    assert(ps.not7 == pawns & !r7);
    let not7 = ps.not7;
    assert(has(not7, from));
    let empty = !occupied(b);
    let mid = from + up;
    let mi = mid as u64;
    lemma_bit_not(occupied(b), mi);
    assert(has(occupied(b), mid) <==> b.squares[mid] is Some);
    if white {
        lemma_shl_bit(not7, 8, mi);
    } else {
        lemma_shr_bit(not7, 8, mi);
    }
    let sh1 = if white { crate::bitboard::sh_north(not7) } else { crate::bitboard::sh_south(not7) };
    lemma_bit_and(sh1, empty, mi);
    assert(ps.push1 == sh1 & empty);
    assert(has(ps.push1, mid));
    let a = crate::movegen::pushes(ps.push1, ps.up);
    let c = crate::movegen::pushes(ps.push2, 2 * ps.up);
    assert(pawn_push_part(v, white, 3, t) == a + c);
    if !double {
        lemma_pushes_contains(ps.push1, ps.up, mid);
        lemma_contains_left(a, c, crate::movegen::mv_normal(from, mid));
        lemma_pawn_part_generated(v, 0, crate::movegen::mv_normal(from, mid));
        assert(mid == from + up * 1);
    } else {
        let to = mid + up;
        let ti = to as u64;
        if white {
            lemma_rank_mask(2, mi);
        } else {
            lemma_rank_mask(5, mi);
        }
        lemma_bit_and(ps.push1, r3, mi);
        let pr = ps.push1 & r3;
        if white {
            lemma_shl_bit(pr, 8, ti);
        } else {
            lemma_shr_bit(pr, 8, ti);
        }
        lemma_bit_not(occupied(b), ti);
        assert(has(occupied(b), to) <==> b.squares[to] is Some);
        let sh2 = if white { crate::bitboard::sh_north(pr) } else { crate::bitboard::sh_south(pr) };
        lemma_bit_and(sh2, empty, ti);
        assert(ps.push2 == sh2 & empty);
        assert(has(ps.push2, to));
        lemma_pushes_contains(ps.push2, 2 * ps.up, to);
        assert(to - 2 * ps.up == from);
        lemma_contains_right(a, c, crate::movegen::mv_normal(from, to));
        lemma_pawn_part_generated(v, 0, crate::movegen::mv_normal(from, to));
        assert(to == from + up * 2);
    }
}

/// Pawn captures are generated: for a pawn of the side to move that is not
/// on its seventh rank, all-move generation gives the capture onto each
/// forward diagonal square on the board (`df` is -1 or 1) holding an enemy
/// piece.
pub proof fn lemma_pawn_captures_generated(v: PositionView, from: int, df: int)
    requires
        wf(v),
        0 <= from < 64,
        v.board.squares[from] == Some(piece_of(v.side_to_move, PieceType::Pawn)),
        rank_of(from) != (if v.side_to_move == Color::White { 6int } else { 1int }),
        df == -1 || df == 1,
        0 <= file_of(from) + df < 8,
        0 <= from + (if v.side_to_move == Color::White { 8int } else { -8int }) + df < 64,
        v.board.squares[from + (if v.side_to_move == Color::White { 8int } else { -8int }) + df] matches Some(q)
            && piece_color(q) == flip(v.side_to_move),
    ensures
        gen_all_spec(v, GenType::NonEvasions).contains(
            crate::movegen::mv_normal(from, from + (if v.side_to_move == Color::White { 8int } else { -8int }) + df),
        ),
{
    let b = v.board;
    let us = v.side_to_move;
    let them = flip(us);
    let white = us == Color::White;
    let up: int = if white { 8 } else { -8 };
    let to = from + up + df;
    let i = to as u64;
    let t = gen_target(v, GenType::NonEvasions);
    let ps = pawn_sets(v, white, 3, t);
    lemma_board_views_agree(b);
    let pawns = pieces_ct(b, us, PieceType::Pawn);
    let r7: u64 = if white { rank_mask(6) } else { rank_mask(1) };
    assert(has(pawns, from));
    lemma_bit_and(pawns, !r7, from as u64);
    lemma_bit_not(r7, from as u64);
    if white {
        lemma_rank_mask(6, from as u64);
    } else {
        lemma_rank_mask(1, from as u64);
    }
    assert(ps.not7 == pawns & !r7);
    let not7 = ps.not7;
    assert(has(not7, from));
    assert(has(b.by_color[them as int], to) <==> (b.squares[to] matches Some(q) && piece_color(q) as int == them as int));
    lemma_off_file(not7, from as u64);
    if white {
        lemma_shl_bit(not7 & !FILE_H_BB, 9, i);
        lemma_shl_bit(not7 & !FILE_A_BB, 7, i);
    } else {
        lemma_shr_bit(not7 & !FILE_A_BB, 9, i);
        lemma_shr_bit(not7 & !FILE_H_BB, 7, i);
    }
    lemma_bit_and(crate::bitboard::sh_north_east(not7), pieces_of(b, them), i);
    lemma_bit_and(crate::bitboard::sh_north_west(not7), pieces_of(b, them), i);
    lemma_bit_and(crate::bitboard::sh_south_east(not7), pieces_of(b, them), i);
    lemma_bit_and(crate::bitboard::sh_south_west(not7), pieces_of(b, them), i);
    let m = crate::movegen::mv_normal(from, to);
    let a = crate::movegen::pushes(ps.cap_right, ps.up_right);
    let bb = crate::movegen::pushes(ps.cap_left, ps.up_left);
    let e = crate::movegen::pawn_ep_part(v, white, 3, t);
    assert(pawn_cap_part(v, white, 3, t) == a + bb + e);
    if (df == 1) == white {
        assert(has(ps.cap_right, to));
        lemma_pushes_contains(ps.cap_right, ps.up_right, to);
        assert(to - ps.up_right == from);
        lemma_contains_left(a, bb, m);
    } else {
        assert(has(ps.cap_left, to));
        lemma_pushes_contains(ps.cap_left, ps.up_left, to);
        assert(to - ps.up_left == from);
        lemma_contains_right(a, bb, m);
    }
    lemma_contains_left(a + bb, e, m);
    lemma_pawn_part_generated(v, 2, m);
}

/// The target squares of evasions hold the checking piece's square.
proof fn lemma_between_holds_end(k: int, s: int)
    requires
        0 <= s < 64,
    ensures
        has(crate::bitboard::between_spec(k, s), s),
{
    let b2 = 1u64 << (s as u64);
    crate::bitboard::lemma_bit_single(s as u64, s as u64);
    let r = crate::bitboard::rook_spec(k, b2) & crate::bitboard::rook_spec(s, 1u64 << (k as u64));
    let q = crate::bitboard::bishop_spec(k, b2) & crate::bitboard::bishop_spec(s, 1u64 << (k as u64));
    crate::bitboard::lemma_bit_or(r, b2, s as u64);
    crate::bitboard::lemma_bit_or(q, b2, s as u64);
}

/// Evasions by capture are generated: in check by a single piece, evasion
/// generation gives the capture of the checking piece by every knight,
/// bishop, rook or queen of the side to move that attacks it.
pub proof fn lemma_checker_capture_generated(v: PositionView, pt: PieceType, from: int)
    requires
        wf(v),
        v.state.checkers_bb != 0,
        crate::bitboard::pop_count(v.state.checkers_bb) <= 1,
        pt == PieceType::Knight || pt == PieceType::Bishop || pt == PieceType::Rook || pt == PieceType::Queen,
        0 <= from < 64,
        v.board.squares[from] == Some(piece_of(v.side_to_move, pt)),
        has(attacks_spec(pt, from, occupied(v.board)), lsb_spec(v.state.checkers_bb)),
    ensures
        gen_all_spec(v, GenType::Evasions).contains(crate::movegen::mv_normal(from, lsb_spec(v.state.checkers_bb))),
{
    let b = v.board;
    let us = v.side_to_move;
    let c = lsb_spec(v.state.checkers_bb);
    lemma_lsb(v.state.checkers_bb);
    let ksq = king_sq(b, us);
    let t = gen_target(v, GenType::Evasions);
    let occ = occupied(b);
    lemma_board_views_agree(b);
    assert(has(pieces_ct(b, us, pt), from));
    lemma_between_holds_end(ksq, c);
    assert(t == crate::bitboard::between_spec(ksq, c));
    lemma_bit_and(attacks_spec(pt, from, occ), t, c as u64);
    lemma_piece_moves_contains(pieces_ct(b, us, pt), pt, occ, t, from, c);
    let m = crate::movegen::mv_normal(from, c);
    let p0 = pawn_moves_spec(v, us == Color::White, gen_code(GenType::Evasions), t);
    let nk = piece_moves(pieces_ct(b, us, PieceType::Knight), PieceType::Knight, occ, t);
    let bs = piece_moves(pieces_ct(b, us, PieceType::Bishop), PieceType::Bishop, occ, t);
    let rk = piece_moves(pieces_ct(b, us, PieceType::Rook), PieceType::Rook, occ, t);
    let qn = piece_moves(pieces_ct(b, us, PieceType::Queen), PieceType::Queen, occ, t);
    let kg = targets(ksq, king_spec(ksq) & !pieces_of(b, us));
    let cs = castles_spec(v, GenType::Evasions);
    let g = gen_all_spec(v, GenType::Evasions);
    assert(g == p0 + nk + bs + rk + qn + kg + cs);
    if pt == PieceType::Knight {
        lemma_contains_right(p0, nk, m);
        lemma_contains_left(p0 + nk, bs, m);
        lemma_contains_left(p0 + nk + bs, rk, m);
    } else if pt == PieceType::Bishop {
        lemma_contains_right(p0 + nk, bs, m);
        lemma_contains_left(p0 + nk + bs, rk, m);
    } else if pt == PieceType::Rook {
        lemma_contains_right(p0 + nk + bs, rk, m);
    }
    if pt == PieceType::Queen {
        lemma_contains_right(p0 + nk + bs + rk, qn, m);
    } else {
        lemma_contains_left(p0 + nk + bs + rk, qn, m);
    }
    lemma_contains_left(p0 + nk + bs + rk + qn, kg, m);
    lemma_contains_left(p0 + nk + bs + rk + qn + kg, cs, m);
}

/// `eps(b, ep)` gives the capture onto `ep` from every square of `b`.
proof fn lemma_eps_contains(b: u64, ep: int, f: int)
    requires
        has(b, f),
    ensures
        crate::movegen::eps(b, ep).contains(crate::movegen::mv_ep(f, ep)),
    decreases b,
{
    lemma_bit_zero(f as u64);
    lemma_lsb(b);
    lemma_clear_lsb(b);
    let m = crate::movegen::mv_ep(f, ep);
    let first = seq![crate::movegen::mv_ep(lsb_spec(b), ep)];
    let rest = crate::movegen::eps(clear_lsb(b), ep);
    assert(crate::movegen::eps(b, ep) == first + rest);
    if f == lsb_spec(b) {
        assert(first[0] == m);
        lemma_contains_left(first, rest, m);
    } else {
        lemma_eps_contains(clear_lsb(b), ep, f);
        lemma_contains_right(first, rest, m);
    }
}

/// En-passant captures are generated: when the en-passant square is set,
/// all-move generation gives the en-passant capture onto it from each pawn of
/// the side to move (not on its seventh rank) standing diagonally behind it.
pub proof fn lemma_en_passant_generated(v: PositionView, from: int, df: int)
    requires
        wf(v),
        0 <= from < 64,
        v.board.squares[from] == Some(piece_of(v.side_to_move, PieceType::Pawn)),
        rank_of(from) != (if v.side_to_move == Color::White { 6int } else { 1int }),
        df == -1 || df == 1,
        0 <= file_of(from) + df < 8,
        v.state.ep_square matches Some(e) && e as int == from + (if v.side_to_move == Color::White { 8int } else {
            -8int
        }) + df,
    ensures
        gen_all_spec(v, GenType::NonEvasions).contains(
            crate::movegen::mv_ep(from, v.state.ep_square->Some_0 as int),
        ),
{
    let b = v.board;
    let us = v.side_to_move;
    let white = us == Color::White;
    let ep = v.state.ep_square->Some_0 as int;
    let t = gen_target(v, GenType::NonEvasions);
    let ps = pawn_sets(v, white, 3, t);
    lemma_board_views_agree(b);
    let pawns = pieces_ct(b, us, PieceType::Pawn);
    let r7: u64 = if white { rank_mask(6) } else { rank_mask(1) };
    assert(has(pawns, from));
    lemma_bit_and(pawns, !r7, from as u64);
    lemma_bit_not(r7, from as u64);
    if white {
        lemma_rank_mask(6, from as u64);
    } else {
        lemma_rank_mask(1, from as u64);
    }
    assert(ps.not7 == pawns & !r7);
    let not7 = ps.not7;
    assert(has(not7, from));
    // The pawn attacks the en-passant square.
    let eb = 1u64 << (ep as u64);
    let fi = from as u64;
    crate::bitboard::lemma_bit_single(ep as u64, ep as u64);
    lemma_off_file(eb, ep as u64);
    if white {
        lemma_shr_bit(eb & !FILE_H_BB, 7, fi);
        lemma_shr_bit(eb & !FILE_A_BB, 9, fi);
        crate::bitboard::lemma_bit_or(crate::bitboard::sh_south_east(eb), crate::bitboard::sh_south_west(eb), fi);
    } else {
        lemma_shl_bit(eb & !FILE_H_BB, 9, fi);
        lemma_shl_bit(eb & !FILE_A_BB, 7, fi);
        crate::bitboard::lemma_bit_or(crate::bitboard::sh_north_east(eb), crate::bitboard::sh_north_west(eb), fi);
    }
    let pa = crate::bitboard::pawn_attacks_spec(if white { Color::Black } else { Color::White }, eb);
    assert(has(pa, from));
    lemma_bit_and(not7, pa, fi);
    let att = crate::movegen::ep_attackers(v, white, not7, ep);
    assert(att == not7 & pa);
    assert(has(att, from));
    lemma_eps_contains(att, ep, from);
    let m = crate::movegen::mv_ep(from, ep);
    let e = crate::movegen::pawn_ep_part(v, white, 3, t);
    assert(e == crate::movegen::eps(att, ep));
    let a = crate::movegen::pushes(ps.cap_right, ps.up_right);
    let bb = crate::movegen::pushes(ps.cap_left, ps.up_left);
    assert(pawn_cap_part(v, white, 3, t) == a + bb + e);
    lemma_contains_right(a + bb, e, m);
    lemma_pawn_part_generated(v, 2, m);
}

/// Where a side's castling rook square and path for a wing are kept.
pub open spec fn castle_slot(c: Color, kingside: bool) -> int {
    2 * (c as int) + (if kingside { 0int } else { 1int })
}

/// Castling is generated: when the side to move holds the right to castle on
/// a wing and every square of that wing's castling path is empty, all-move
/// generation gives castling there, from the king's square to the castling
/// rook's square.
pub proof fn lemma_castling_generated(v: PositionView, kingside: bool)
    requires
        wf(v),
        v.castling_path.len() == 4,
        v.state.castling_rights & crate::types::castle_mask(v.side_to_move, kingside) != 0,
        forall|s: int|
            0 <= s < 64 && #[trigger] has(
                v.castling_path[castle_slot(v.side_to_move, kingside)],
                s,
            ) ==> v.board.squares[s] is None,
    ensures
        gen_all_spec(v, GenType::NonEvasions).contains(
            crate::movegen::mv_castle(
                king_sq(v.board, v.side_to_move),
                v.castling_rook_sq[castle_slot(v.side_to_move, kingside)]->Some_0 as int,
            ),
        ),
{
    let b = v.board;
    let us = v.side_to_move;
    let i = castle_slot(us, kingside);
    let path = v.castling_path[i];
    let occ = occupied(b);
    lemma_board_views_agree(b);
    assert forall|j: u64| j < 64 implies #[trigger] bit(occ & path, j) == bit(0u64, j) by {
        lemma_bit_and(occ, path, j);
        lemma_bit_zero(j);
        assert(has(occ, j as int) <==> b.squares[j as int] is Some);
        if has(path, j as int) {
            assert(b.squares[j as int] is None);
        }
    }
    crate::bitboard::lemma_bits_ext(occ & path, 0u64);
    crate::position::lemma_and_u8(v.state.castling_rights, 0, 0);
    let m = crate::movegen::mv_castle(king_sq(b, us), v.castling_rook_sq[i]->Some_0 as int);
    let k = crate::movegen::castle_part(v, true);
    let q = crate::movegen::castle_part(v, false);
    let cs = castles_spec(v, GenType::NonEvasions);
    assert(cs == k + q);
    if kingside {
        assert(k[0] == m);
        lemma_contains_left(k, q, m);
    } else {
        assert(q[0] == m);
        lemma_contains_right(k, q, m);
    }
    lemma_part_generated(v, 6, m);
}

} // verus!
