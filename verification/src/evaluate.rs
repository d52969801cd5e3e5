//! Static evaluation: material with piece-square tables, mobility, the
//! bishop pair and rooks on files without own pawns, from the side to move.

use vstd::prelude::*;
use crate::bitboard::{attacks_bb, attacks_spec, file_bb, file_mask, has, pop_count, popcount, square_bb, bit};
use crate::position::{BoardView, Position, PositionView, flip, occupied, pieces_of, pieces_ct};
use crate::types::{
    Color, Piece, PieceType, Square, Value, file_of, piece_color, piece_pt, piece_value, piece_value_spec, rank_of,
};

verus! {

/// Piece-square table of the pawns, from white's side (a1 first).
pub const PAWN_PST: [i32; 64] = [
      0,   0,   0,   0,   0,   0,   0,   0,
     50,  50,  50,  50,  50,  50,  50,  50,
     10,  10,  20,  30,  30,  20,  10,  10,
      5,   5,  10,  25,  25,  10,   5,   5,
      0,   0,   0,  20,  20,   0,   0,   0,
      5,  -5, -10,   0,   0, -10,  -5,   5,
      5,  10,  10, -20, -20,  10,  10,   5,
      0,   0,   0,   0,   0,   0,   0,   0,
];

/// Piece-square table of the knights.
pub const KNIGHT_PST: [i32; 64] = [
    -50, -40, -30, -30, -30, -30, -40, -50,
    -40, -20,   0,   0,   0,   0, -20, -40,
    -30,   0,  10,  15,  15,  10,   0, -30,
    -30,   5,  15,  20,  20,  15,   5, -30,
    -30,   0,  15,  20,  20,  15,   0, -30,
    -30,   5,  10,  15,  15,  10,   5, -30,
    -40, -20,   0,   5,   5,   0, -20, -40,
    -50, -40, -30, -30, -30, -30, -40, -50,
];

/// Piece-square table of the bishops.
pub const BISHOP_PST: [i32; 64] = [
    -20, -10, -10, -10, -10, -10, -10, -20,
    -10,   0,   0,   0,   0,   0,   0, -10,
    -10,   0,   5,  10,  10,   5,   0, -10,
    -10,   5,   5,  10,  10,   5,   5, -10,
    -10,   0,  10,  10,  10,  10,   0, -10,
    -10,  10,  10,  10,  10,  10,  10, -10,
    -10,   5,   0,   0,   0,   0,   5, -10,
    -20, -10, -10, -10, -10, -10, -10, -20,
];

/// Piece-square table of the rooks.
pub const ROOK_PST: [i32; 64] = [
      0,   0,   0,   0,   0,   0,   0,   0,
      5,  10,  10,  10,  10,  10,  10,   5,
     -5,   0,   0,   0,   0,   0,   0,  -5,
     -5,   0,   0,   0,   0,   0,   0,  -5,
     -5,   0,   0,   0,   0,   0,   0,  -5,
     -5,   0,   0,   0,   0,   0,   0,  -5,
     -5,   0,   0,   0,   0,   0,   0,  -5,
      0,   0,   0,   5,   5,   0,   0,   0,
];

/// Piece-square table of the queens.
pub const QUEEN_PST: [i32; 64] = [
    -20, -10, -10,  -5,  -5, -10, -10, -20,
    -10,   0,   0,   0,   0,   0,   0, -10,
    -10,   0,   5,   5,   5,   5,   0, -10,
     -5,   0,   5,   5,   5,   5,   0,  -5,
      0,   0,   5,   5,   5,   5,   0,  -5,
    -10,   5,   5,   5,   5,   5,   0, -10,
    -10,   0,   5,   0,   0,   0,   0, -10,
    -20, -10, -10,  -5,  -5, -10, -10, -20,
];

/// Piece-square table of the king in the middlegame.
pub const KING_PST_MG: [i32; 64] = [
    -30, -40, -40, -50, -50, -40, -40, -30,
    -30, -40, -40, -50, -50, -40, -40, -30,
    -30, -40, -40, -50, -50, -40, -40, -30,
    -30, -40, -40, -50, -50, -40, -40, -30,
    -20, -30, -30, -40, -40, -30, -30, -20,
    -10, -20, -20, -20, -20, -20, -20, -10,
     20,  20,   0,   0,   0,   0,  20,  20,
     20,  30,  10,   0,   0,  10,  30,  20,
];

/// The table square for a piece of colour `c` on square `sq`: the square
/// itself for white, mirrored across the middle ranks for black.
pub open spec fn pst_index(sq: int, c: Color) -> int {
    if c == Color::White {
        sq
    } else {
        8 * (7 - rank_of(sq)) + file_of(sq)
    }
}

/// The table value of a piece of type `pt` and colour `c` on `sq`.
pub open spec fn pst_spec(pt: PieceType, sq: int, c: Color) -> int {
    let i = pst_index(sq, c);
    match pt {
        PieceType::Pawn => PAWN_PST[i] as int,
        PieceType::Knight => KNIGHT_PST[i] as int,
        PieceType::Bishop => BISHOP_PST[i] as int,
        PieceType::Rook => ROOK_PST[i] as int,
        PieceType::Queen => QUEEN_PST[i] as int,
        PieceType::King => KING_PST_MG[i] as int,
    }
}

/// Material and table value of the piece on `sq`, positive for `us`.
pub open spec fn material_term(b: BoardView, us: Color, sq: int) -> int {
    match b.squares[sq] {
        None => 0,
        Some(p) => {
            let v = piece_value_spec(piece_pt(p)) + pst_spec(piece_pt(p), sq, piece_color(p));
            if piece_color(p) == us {
                v
            } else {
                -v
            }
        },
    }
}

/// The material terms of squares `0..n`.
pub open spec fn material_sum(b: BoardView, us: Color, n: int) -> int
    decreases n,
{
    if n <= 0 {
        0
    } else {
        material_sum(b, us, n - 1) + material_term(b, us, n - 1)
    }
}

/// The squares a piece of colour `c` on `sq` attacks that hold no piece of
/// `c`, counted for knights, bishops, rooks and queens.
pub open spec fn mobility_term(b: BoardView, c: Color, sq: int) -> int {
    match b.squares[sq] {
        Some(p) => if piece_color(p) == c && piece_pt(p) != PieceType::Pawn && piece_pt(p) != PieceType::King {
            pop_count(attacks_spec(piece_pt(p), sq, occupied(b)) & !pieces_of(b, c)) as int
        } else {
            0
        },
        None => 0,
    }
}

/// The mobility of the pieces of colour `c` on squares `0..n`.
pub open spec fn mobility_sum(b: BoardView, c: Color, n: int) -> int
    decreases n,
{
    if n <= 0 {
        0
    } else {
        mobility_sum(b, c, n - 1) + mobility_term(b, c, n - 1)
    }
}

/// 20 for a rook of colour `c` on `sq` whose file holds no pawn of `c`.
pub open spec fn open_rook_term(b: BoardView, c: Color, sq: int) -> int {
    if has(pieces_ct(b, c, PieceType::Rook), sq) && pieces_ct(b, c, PieceType::Pawn) & file_mask(file_of(sq)) == 0 {
        20
    } else {
        0
    }
}

/// The open-file bonus of the rooks of colour `c` on squares `0..n`.
pub open spec fn open_rook_sum(b: BoardView, c: Color, n: int) -> int
    decreases n,
{
    if n <= 0 {
        0
    } else {
        open_rook_sum(b, c, n - 1) + open_rook_term(b, c, n - 1)
    }
}

/// 30 when colour `c` has at least two bishops.
pub open spec fn bishop_pair_term(b: BoardView, c: Color) -> int {
    if pop_count(pieces_ct(b, c, PieceType::Bishop)) >= 2 {
        30
    } else {
        0
    }
}

/// The evaluation of a position from the side to move's point of view.
pub open spec fn evaluate_spec(v: PositionView) -> int {
    let b = v.board;
    let us = v.side_to_move;
    let them = flip(us);
    material_sum(b, us, 64) + 2 * (mobility_sum(b, us, 64) - mobility_sum(b, them, 64)) + bishop_pair_term(b, us)
        - bishop_pair_term(b, them) + open_rook_sum(b, us, 64) - open_rook_sum(b, them, 64)
}

/// The table value of a piece of type `pt` and colour `color` on `sq`.
fn pst_value(pt: PieceType, sq: Square, color: Color) -> (r: Value)
    ensures
        r == pst_spec(pt, sq as int, color),
        -50 <= r <= 50,
{
    let sq_idx = if color == Color::White {
        sq.index()
    } else {
        sq.flip_rank().index()
    };
    match pt {
        PieceType::Pawn => PAWN_PST[sq_idx],
        PieceType::Knight => KNIGHT_PST[sq_idx],
        PieceType::Bishop => BISHOP_PST[sq_idx],
        PieceType::Rook => ROOK_PST[sq_idx],
        PieceType::Queen => QUEEN_PST[sq_idx],
        PieceType::King => KING_PST_MG[sq_idx],
    }
}

/// The material terms of all squares, for `us`.
fn material_score(pos: &Position, us: Color) -> (r: Value)
    ensures
        r == material_sum(pos@.board, us, 64),
        -60800 <= r <= 60800,
{
    let mut score: Value = 0;
    let mut sq_idx: usize = 0;
    while sq_idx < 64
        invariant
            sq_idx <= 64,
            score == material_sum(pos@.board, us, sq_idx as int),
            -950 * sq_idx <= score <= 950 * sq_idx,
        decreases 64 - sq_idx,
    {
        let sq = Square::from_index(sq_idx);
        if let Some(piece) = pos.piece_on(sq) {
            let color = piece.color();
            let pt = piece.piece_type();
            let value = piece_value(pt) + pst_value(pt, sq, color);
            if color == us {
                score = score + value;
            } else {
                score = score - value;
            }
        }
        sq_idx = sq_idx + 1;
    }
    score
}

/// The mobility of both sides: (`us`, the other side).
fn mobility_scores(pos: &Position, us: Color) -> (r: (Value, Value))
    ensures
        r.0 == mobility_sum(pos@.board, us, 64),
        r.1 == mobility_sum(pos@.board, flip(us), 64),
        0 <= r.0 <= 4096,
        0 <= r.1 <= 4096,
{
    let mut our_mobility: Value = 0;
    let mut their_mobility: Value = 0;
    let occ = pos.pieces();
    let mut sq_idx: usize = 0;
    while sq_idx < 64
        invariant
            sq_idx <= 64,
            occ == occupied(pos@.board),
            our_mobility == mobility_sum(pos@.board, us, sq_idx as int),
            their_mobility == mobility_sum(pos@.board, flip(us), sq_idx as int),
            0 <= our_mobility <= 64 * sq_idx,
            0 <= their_mobility <= 64 * sq_idx,
        decreases 64 - sq_idx,
    {
        let sq = Square::from_index(sq_idx);
        if let Some(piece) = pos.piece_on(sq) {
            let pt = piece.piece_type();
            if pt != PieceType::Pawn && pt != PieceType::King {
                let attacks = attacks_bb(pt, sq, occ);
                let mob = popcount(attacks & !pos.pieces_c(piece.color()));
                if piece.color() == us {
                    our_mobility = our_mobility + mob as Value;
                } else {
                    their_mobility = their_mobility + mob as Value;
                }
            }
        }
        sq_idx = sq_idx + 1;
    }
    (our_mobility, their_mobility)
}

/// The open-file bonus of the rooks of `color`.
fn open_rook_score(pos: &Position, color: Color) -> (r: Value)
    ensures
        r == open_rook_sum(pos@.board, color, 64),
        0 <= r <= 1280,
{
    let rooks = pos.pieces_cp(color, PieceType::Rook);
    let pawns = pos.pieces_cp(color, PieceType::Pawn);
    let mut score: Value = 0;
    let mut sq_idx: usize = 0;
    while sq_idx < 64
        invariant
            sq_idx <= 64,
            rooks == pieces_ct(pos@.board, color, PieceType::Rook),
            pawns == pieces_ct(pos@.board, color, PieceType::Pawn),
            score == open_rook_sum(pos@.board, color, sq_idx as int),
            0 <= score <= 20 * sq_idx,
        decreases 64 - sq_idx,
    {
        let sq = Square::from_index(sq_idx);
        let sq_bit = square_bb(sq);
        proof {
            crate::bitboard::lemma_empty_iff(rooks & sq_bit);
            assert forall|i: u64| i < 64 implies #[trigger] bit(rooks & sq_bit, i) == (bit(rooks, i) && bit(sq_bit, i)) by {
                crate::bitboard::lemma_bit_and(rooks, sq_bit, i);
            }
        }
        let fmask = file_bb(sq.file());
        proof {
            assert(bit(sq_bit, sq_idx as u64));
            let s64 = sq_idx as u64;
            if rooks & sq_bit != 0 {
                let i = choose|i: u64| i < 64 && #[trigger] bit(rooks & sq_bit, i);
                assert(bit(rooks & sq_bit, i));
                assert(bit(sq_bit, i));
                assert(i == s64);
            } else {
                assert(!bit(rooks & sq_bit, s64));
            }
            assert((rooks & sq_bit != 0) == has(rooks, sq_idx as int));
            assert(fmask == file_mask(file_of(sq_idx as int)));
            assert(open_rook_sum(pos@.board, color, sq_idx as int + 1) == open_rook_sum(pos@.board, color, sq_idx as int)
                + open_rook_term(pos@.board, color, sq_idx as int));
        }
        if rooks & sq_bit != 0 {
            if pawns & fmask == 0 {
                score = score + 20;
            }
        }
        sq_idx = sq_idx + 1;
    }
    score
}

/// The static evaluation of the position, from the side to move's point
/// of view.
pub fn evaluate(pos: &Position) -> (r: Value)
    ensures
        r == evaluate_spec(pos@),
{
    let us = pos.side_to_move();
    let them = us.flip();
    let mut score = material_score(pos, us);
    let (our_mobility, their_mobility) = mobility_scores(pos, us);
    score = score + (our_mobility - their_mobility) * 2;
    if popcount(pos.pieces_cp(us, PieceType::Bishop)) >= 2 {
        score = score + 30;
    }
    if popcount(pos.pieces_cp(them, PieceType::Bishop)) >= 2 {
        score = score - 30;
    }
    score = score + open_rook_score(pos, us);
    score = score - open_rook_score(pos, them);
    score
}

/// The evaluation used by the search; it is the static evaluation.
pub fn evaluate_nnue(pos: &Position) -> (r: Value)
    ensures
        r == evaluate_spec(pos@),
{
    evaluate(pos)
}

proof fn lemma_material_flip(b: BoardView, us: Color, n: int)
    ensures
        material_sum(b, flip(us), n) == -material_sum(b, us, n),
    decreases n,
{
    if n > 0 {
        lemma_material_flip(b, us, n - 1);
    }
}

/// Seen from the other side, a position evaluates to the negated score.
pub proof fn lemma_evaluate_side_symmetric(v: PositionView)
    ensures
        evaluate_spec(PositionView { side_to_move: flip(v.side_to_move), ..v }) == -evaluate_spec(v),
{
    lemma_material_flip(v.board, v.side_to_move, 64);
    assert(flip(flip(v.side_to_move)) == v.side_to_move);
}

proof fn lemma_material_put_upto(b: BoardView, us: Color, p: Piece, s: int, n: int)
    requires
        0 <= s < b.squares.len(),
        b.squares[s] is None,
        n <= b.squares.len(),
    ensures
        material_sum(BoardView { squares: b.squares.update(s, Some(p)), ..b }, us, n) == material_sum(b, us, n) + (
        if 0 <= s < n {
            material_term(BoardView { squares: b.squares.update(s, Some(p)), ..b }, us, s)
        } else {
            0
        }),
    decreases n,
{
    if n > 0 {
        lemma_material_put_upto(b, us, p, s, n - 1);
    }
}

/// Material counts each piece at its type's value: putting a piece on an
/// empty square raises the material sum, seen from `us`, by the piece's value
/// (pawn 100, knight 320, bishop 330, rook 500, queen 900, king 0) plus its
/// table value on that square when it is a piece of `us`, and lowers it by as
/// much when it is the opponent's.
pub proof fn lemma_material_put(b: BoardView, us: Color, p: Piece, s: int)
    requires
        b.squares.len() == 64,
        0 <= s < 64,
        b.squares[s] is None,
    ensures
        ({
            let value: int = match piece_pt(p) {
                PieceType::Pawn => 100,
                PieceType::Knight => 320,
                PieceType::Bishop => 330,
                PieceType::Rook => 500,
                PieceType::Queen => 900,
                PieceType::King => 0,
            };
            let delta = value + pst_spec(piece_pt(p), s, piece_color(p));
            material_sum(BoardView { squares: b.squares.update(s, Some(p)), ..b }, us, 64) == material_sum(b, us, 64)
                + (if piece_color(p) == us { delta } else { -delta })
        }),
{
    lemma_material_put_upto(b, us, p, s, 64);
}

} // verus!
