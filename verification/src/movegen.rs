//! Move generation: pseudo-legal moves by kind (captures, quiets, evasions,
//! all) and the legal moves filtered from them.

use vstd::prelude::*;
use crate::bitboard::{
    bit, has, lsb_spec, clear_lsb, lemma_clear_lsb, pop_lsb, lsb, more_than_one, pop_count, square_bb,
    attacks_bb, attacks_spec, king_attacks_bb, king_spec, between_bb, between_spec, pawn_attacks_bb_sq,
    pawn_attacks_spec, shift_north, shift_south, shift_north_east, shift_north_west, shift_south_east,
    shift_south_west, sh_north, sh_south, sh_north_east, sh_north_west, sh_south_east, sh_south_west,
    RANK_2_BB, RANK_3_BB, RANK_6_BB, RANK_7_BB, lemma_bit_and, lemma_bit_not,
};
use crate::position::{
    Position, PositionView, BoardView, occupied, pieces_of, pieces_ct, king_sq, king_present, flip,
    is_legal_spec, is_legal_ok,
};
use crate::types::castle_mask;
use crate::types::{Bitboard, Color, Move, PieceType, Square, mv_pack, pt_num};

verus! {

pub const MAX_MOVES: usize = 256;

/// A list of at most 256 moves.
pub struct MoveList {
    moves: Vec<Move>,
}

impl View for MoveList {
    type V = Seq<Move>;

    closed spec fn view(&self) -> Seq<Move> {
        self.moves@
    }
}

impl MoveList {
    pub fn new() -> (r: MoveList)
        ensures
            r@ == Seq::<Move>::empty(),
    {
        MoveList { moves: Vec::new() }
    }

    /// Appends a move; the list must not be full.
    pub fn push(&mut self, m: Move)
        requires
            old(self)@.len() < MAX_MOVES,
        ensures
            final(self)@ == old(self)@.push(m),
    {
        self.moves.push(m);
    }

    pub fn len(&self) -> (r: usize)
        ensures
            r == self@.len(),
    {
        self.moves.len()
    }

    pub fn is_empty(&self) -> (r: bool)
        ensures
            r == (self@.len() == 0),
    {
        self.moves.len() == 0
    }

    pub fn get(&self, index: usize) -> (r: Move)
        requires
            index < self@.len(),
        ensures
            r == self@[index as int],
    {
        self.moves[index]
    }

    pub fn as_slice(&self) -> (r: &[Move])
        ensures
            r@ == self@,
    {
        self.moves.as_slice()
    }

    /// Replaces the move at `i` by the last one and drops the last.
    fn swap_remove_at(&mut self, i: usize)
        requires
            i < old(self)@.len(),
        ensures
            final(self)@ == old(self)@.update(i as int, old(self)@.last()).drop_last(),
    {
        let last = self.moves.pop().unwrap();
        if i < self.moves.len() {
            self.moves.set(i, last);
        }
        proof {
            assert(self.moves@ =~= old(self)@.update(i as int, old(self)@.last()).drop_last());
        }
    }
}

/// Kinds of move generation.
#[derive(Debug, Copy, Clone, PartialEq, Eq, Structural)]
pub enum GenType {
    Captures,
    Quiets,
    Evasions,
    NonEvasions,
    Legal,
}

/// The squares of a bitboard, lowest first.
pub open spec fn bb_seq(b: u64) -> Seq<int>
    decreases b,
{
    if b == 0 {
        Seq::empty()
    } else {
        proof {
            lemma_clear_lsb(b);
        }
        seq![lsb_spec(b)] + bb_seq(clear_lsb(b))
    }
}

pub open spec fn mv_normal(from: int, to: int) -> Move {
    Move(mv_pack(0, 0, from, to) as u16)
}

pub open spec fn mv_promo(from: int, to: int, pt: PieceType) -> Move {
    Move(mv_pack(1, (pt_num(pt) - 2) % 4, from, to) as u16)
}

pub open spec fn mv_ep(from: int, to: int) -> Move {
    Move(mv_pack(2, 0, from, to) as u16)
}

pub open spec fn mv_castle(from: int, to: int) -> Move {
    Move(mv_pack(3, 0, from, to) as u16)
}

/// For every target square `to` of `b`, lowest first, the normal move from `to - d`.
pub open spec fn pushes(b: u64, d: int) -> Seq<Move>
    decreases b,
{
    if b == 0 {
        Seq::empty()
    } else {
        proof {
            lemma_clear_lsb(b);
        }
        seq![mv_normal(lsb_spec(b) - d, lsb_spec(b))] + pushes(clear_lsb(b), d)
    }
}

/// The promotions from `from` to `to`: the queen one if `queen`, then the
/// rook, bishop and knight ones if `under`.
pub open spec fn promo_block(from: int, to: int, queen: bool, under: bool) -> Seq<Move> {
    (if queen { seq![mv_promo(from, to, PieceType::Queen)] } else { Seq::empty() }) + (if under {
        seq![
            mv_promo(from, to, PieceType::Rook),
            mv_promo(from, to, PieceType::Bishop),
            mv_promo(from, to, PieceType::Knight),
        ]
    } else {
        Seq::empty()
    })
}

/// For every target square `to` of `b`, the promotions from `to - d`.
pub open spec fn promos(b: u64, d: int, queen: bool, under: bool) -> Seq<Move>
    decreases b,
{
    if b == 0 {
        Seq::empty()
    } else {
        proof {
            lemma_clear_lsb(b);
        }
        promo_block(lsb_spec(b) - d, lsb_spec(b), queen, under) + promos(clear_lsb(b), d, queen, under)
    }
}

/// For every origin square of `b`, the en-passant capture onto `ep`.
pub open spec fn eps(b: u64, ep: int) -> Seq<Move>
    decreases b,
{
    if b == 0 {
        Seq::empty()
    } else {
        proof {
            lemma_clear_lsb(b);
        }
        seq![mv_ep(lsb_spec(b), ep)] + eps(clear_lsb(b), ep)
    }
}

/// For every target square of `b`, the normal move from `from`.
pub open spec fn targets(from: int, b: u64) -> Seq<Move>
    decreases b,
{
    if b == 0 {
        Seq::empty()
    } else {
        proof {
            lemma_clear_lsb(b);
        }
        seq![mv_normal(from, lsb_spec(b))] + targets(from, clear_lsb(b))
    }
}

/// Every square of `b` minus `d` is a square.
pub open spec fn shift_in_range(b: u64, d: int) -> bool {
    forall|s: int| #[trigger] has(b, s) ==> 0 <= s - d < 64
}

proof fn lemma_clear_lsb_has(b: u64)
    requires
        b != 0,
    ensures
        forall|s: int| #[trigger] has(clear_lsb(b), s) ==> has(b, s),
        has(b, lsb_spec(b)),
        clear_lsb(b) < b,
{
    lemma_clear_lsb(b);
    crate::bitboard::lemma_lsb(b);
    assert forall|s: int| #[trigger] has(clear_lsb(b), s) implies has(b, s) by {
        assert(bit(clear_lsb(b), s as u64));
    }
}

proof fn lemma_move_new(from: int, to: int, m: Move)
    requires
        0 <= from < 64,
        0 <= to < 64,
        m.0 == mv_pack(0, 0, from, to),
    ensures
        m == mv_normal(from, to),
{
}

/// Pushes, for every target square of `b`, the normal move from `to - d`.
fn push_shifted(list: &mut MoveList, b: Bitboard, d: i8)
    requires
        -16 <= d <= 16,
        shift_in_range(b, d as int),
        old(list)@.len() + pushes(b, d as int).len() <= MAX_MOVES,
    ensures
        final(list)@ == old(list)@ + pushes(b, d as int),
{
    let mut bb = b;
    while bb != 0
        invariant
            -16 <= d <= 16,
            forall|s: int| #[trigger] has(bb, s) ==> has(b, s),
            shift_in_range(b, d as int),
            list@ + pushes(bb, d as int) == old(list)@ + pushes(b, d as int),
            list@.len() + pushes(bb, d as int).len() <= MAX_MOVES,
        decreases bb,
    {
        proof {
            lemma_clear_lsb_has(bb);
        }
        let ghost before = bb;
        let to = pop_lsb(&mut bb);
        let from = Square::from_index((to.index() as i8 - d) as usize);
        let m = Move::new(from, to);
        proof {
            lemma_move_new(from as int, to as int, m);
            assert(pushes(before, d as int) == seq![m] + pushes(bb, d as int));
        }
        list.push(m);
        proof {
            assert(list@ + pushes(bb, d as int) =~= old(list)@ + pushes(b, d as int));
        }
    }
    proof {
        assert(list@ =~= list@ + pushes(0, d as int));
    }
}


proof fn lemma_move_promo(from: int, to: int, pt: PieceType, m: Move)
    requires
        0 <= from < 64,
        0 <= to < 64,
        pt != PieceType::Pawn,
        m.0 == mv_pack(1, (pt_num(pt) - 2) % 4, from, to),
    ensures
        m == mv_promo(from, to, pt),
{
}

/// Pushes the promotions onto each target square of `b` from `to - d`:
/// the queen, and the others when `under`.
fn push_promotions(list: &mut MoveList, b: Bitboard, d: i8, queen: bool, under: bool)
    requires
        -16 <= d <= 16,
        shift_in_range(b, d as int),
        old(list)@.len() + promos(b, d as int, queen, under).len() <= MAX_MOVES,
    ensures
        final(list)@ == old(list)@ + promos(b, d as int, queen, under),
{
    let mut bb = b;
    while bb != 0
        invariant
            -16 <= d <= 16,
            forall|s: int| #[trigger] has(bb, s) ==> has(b, s),
            shift_in_range(b, d as int),
            list@ + promos(bb, d as int, queen, under) == old(list)@ + promos(b, d as int, queen, under),
            list@.len() + promos(bb, d as int, queen, under).len() <= MAX_MOVES,
        decreases bb,
    {
        proof {
            lemma_clear_lsb_has(bb);
        }
        let ghost before = bb;
        let ghost l0 = list@;
        let to = pop_lsb(&mut bb);
        let from = Square::from_index((to.index() as i8 - d) as usize);
        if queen {
            let q = Move::new_promotion(from, to, PieceType::Queen);
            proof {
                lemma_move_promo(from as int, to as int, PieceType::Queen, q);
            }
            list.push(q);
        }
        if under {
            let r = Move::new_promotion(from, to, PieceType::Rook);
            let bi = Move::new_promotion(from, to, PieceType::Bishop);
            let n = Move::new_promotion(from, to, PieceType::Knight);
            proof {
                lemma_move_promo(from as int, to as int, PieceType::Rook, r);
                lemma_move_promo(from as int, to as int, PieceType::Bishop, bi);
                lemma_move_promo(from as int, to as int, PieceType::Knight, n);
            }
            list.push(r);
            list.push(bi);
            list.push(n);
        }
        proof {
            assert(list@ =~= l0 + promo_block(from as int, to as int, queen, under));
            assert(list@ + promos(bb, d as int, queen, under) =~= old(list)@ + promos(b, d as int, queen, under));
        }
    }
    proof {
        assert(list@ =~= list@ + promos(0, d as int, queen, under));
    }
}

/// Pushes the en-passant captures onto `ep` from each square of `b`.
fn push_en_passants(list: &mut MoveList, b: Bitboard, ep: Square)
    requires
        old(list)@.len() + eps(b, ep as int).len() <= MAX_MOVES,
    ensures
        final(list)@ == old(list)@ + eps(b, ep as int),
{
    let mut bb = b;
    while bb != 0
        invariant
            list@ + eps(bb, ep as int) == old(list)@ + eps(b, ep as int),
            list@.len() + eps(bb, ep as int).len() <= MAX_MOVES,
        decreases bb,
    {
        proof {
            lemma_clear_lsb_has(bb);
        }
        let ghost before = bb;
        let from = pop_lsb(&mut bb);
        let m = Move::new_en_passant(from, ep);
        list.push(m);
        proof {
            assert(list@ + eps(bb, ep as int) =~= old(list)@ + eps(b, ep as int));
        }
    }
    proof {
        assert(list@ =~= list@ + eps(0, ep as int));
    }
}

/// Pushes the normal moves from `from` to each square of `b`.
fn push_targets(list: &mut MoveList, from: Square, b: Bitboard)
    requires
        old(list)@.len() + targets(from as int, b).len() <= MAX_MOVES,
    ensures
        final(list)@ == old(list)@ + targets(from as int, b),
{
    let mut bb = b;
    while bb != 0
        invariant
            list@ + targets(from as int, bb) == old(list)@ + targets(from as int, b),
            list@.len() + targets(from as int, bb).len() <= MAX_MOVES,
        decreases bb,
    {
        proof {
            lemma_clear_lsb_has(bb);
        }
        let to = pop_lsb(&mut bb);
        let m = Move::new(from, to);
        proof {
            lemma_move_new(from as int, to as int, m);
        }
        list.push(m);
        proof {
            assert(list@ + targets(from as int, bb) =~= old(list)@ + targets(from as int, b));
        }
    }
    proof {
        assert(list@ =~= list@ + targets(from as int, 0));
    }
}

/// For every piece of `pcs`, lowest first, its moves to the squares it attacks in `target`.
pub open spec fn piece_moves(pcs: u64, pt: PieceType, occ: u64, target: u64) -> Seq<Move>
    decreases pcs,
{
    if pcs == 0 {
        Seq::empty()
    } else {
        proof {
            lemma_clear_lsb(pcs);
        }
        let from = lsb_spec(pcs);
        targets(from, attacks_spec(pt, from, occ) & target) + piece_moves(clear_lsb(pcs), pt, occ, target)
    }
}

/// Generates the moves of the pieces of type `pt` of `us` to squares of `target`.
fn generate_piece_moves(pos: &Position, list: &mut MoveList, us: Color, pt: PieceType, target: Bitboard)
    requires
        old(list)@.len() + piece_moves(pieces_ct(pos@.board, us, pt), pt, occupied(pos@.board), target).len()
            <= MAX_MOVES,
    ensures
        final(list)@ == old(list)@ + piece_moves(pieces_ct(pos@.board, us, pt), pt, occupied(pos@.board), target),
{
    let mut pieces = pos.pieces_cp(us, pt);
    let ghost all = pieces;
    let occupied = pos.pieces();
    while pieces != 0
        invariant
            occupied == crate::position::occupied(pos@.board),
            list@ + piece_moves(pieces, pt, occupied, target) == old(list)@ + piece_moves(all, pt, occupied, target),
            list@.len() + piece_moves(pieces, pt, occupied, target).len() <= MAX_MOVES,
        decreases pieces,
    {
        proof {
            lemma_clear_lsb_has(pieces);
        }
        let ghost l0 = list@;
        let from = pop_lsb(&mut pieces);
        let attacks = attacks_bb(pt, from, occupied) & target;
        push_targets(list, from, attacks);
        proof {
            assert(list@ + piece_moves(pieces, pt, occupied, target) =~= old(list)@ + piece_moves(all, pt, occupied, target));
        }
    }
    proof {
        assert(list@ =~= list@ + piece_moves(0, pt, occupied, target));
    }
}


/// The bitboards pawn generation works with, for `white` (or black), the
/// generation code `g` (0 captures, 1 quiets, 2 evasions, 3 all) and `target`.
pub struct PawnSets {
    pub up: int,
    pub up_right: int,
    pub up_left: int,
    pub on7: u64,
    pub not7: u64,
    pub push1: u64,
    pub push2: u64,
    pub promo_right: u64,
    pub promo_left: u64,
    pub promo_push: u64,
    pub cap_right: u64,
    pub cap_left: u64,
}

pub open spec fn pawn_sets(v: PositionView, white: bool, g: int, target: u64) -> PawnSets {
    let b = v.board;
    let us = if white { Color::White } else { Color::Black };
    let them = flip(us);
    let rank_7 = if white { RANK_7_BB } else { RANK_2_BB };
    let rank_3 = if white { RANK_3_BB } else { RANK_6_BB };
    let empty = !occupied(b);
    let enemies = if g == 2 { v.state.checkers_bb } else { pieces_of(b, them) };
    let pawns = pieces_ct(b, us, PieceType::Pawn);
    let on7 = pawns & rank_7;
    let not7 = pawns & !rank_7;
    let b1 = (if white { sh_north(not7) } else { sh_south(not7) }) & empty;
    let b2 = (if white { sh_north(b1 & rank_3) } else { sh_south(b1 & rank_3) }) & empty;
    let p3 = (if white { sh_north(on7) } else { sh_south(on7) }) & empty;
    PawnSets {
        up: if white { 8 } else { -8 },
        up_right: if white { 9 } else { -9 },
        up_left: if white { 7 } else { -7 },
        on7,
        not7,
        push1: if g == 2 { b1 & target } else { b1 },
        push2: if g == 2 { b2 & target } else { b2 },
        promo_right: (if white { sh_north_east(on7) } else { sh_south_west(on7) }) & enemies,
        promo_left: (if white { sh_north_west(on7) } else { sh_south_east(on7) }) & enemies,
        promo_push: if g == 2 { p3 & target } else { p3 },
        cap_right: (if white { sh_north_east(not7) } else { sh_south_west(not7) }) & enemies,
        cap_left: (if white { sh_north_west(not7) } else { sh_south_east(not7) }) & enemies,
    }
}

/// The pawns of `not7` that could take en passant on `ep`.
pub open spec fn ep_attackers(v: PositionView, white: bool, not7: u64, ep: int) -> u64 {
    not7 & pawn_attacks_spec(if white { Color::Black } else { Color::White }, 1u64 << (ep as u64))
}

/// The pawn pushes generated (single and double).
pub open spec fn pawn_push_part(v: PositionView, white: bool, g: int, target: u64) -> Seq<Move> {
    let ps = pawn_sets(v, white, g, target);
    if g != 0 { pushes(ps.push1, ps.up) + pushes(ps.push2, 2 * ps.up) } else { Seq::empty() }
}

/// The promotions generated. Capture generation takes the promotions to a
/// queen, capturing or not; quiet generation takes those to rook, bishop and
/// knight, capturing or not; evasions and all moves take every promotion.
pub open spec fn pawn_promo_part(v: PositionView, white: bool, g: int, target: u64) -> Seq<Move> {
    let ps = pawn_sets(v, white, g, target);
    if ps.on7 != 0 {
        promos(ps.promo_right, ps.up_right, g != 1, g != 0) + promos(ps.promo_left, ps.up_left, g != 1, g != 0) + promos(
            ps.promo_push,
            ps.up,
            g != 1,
            g != 0,
        )
    } else {
        Seq::empty()
    }
}

/// The en-passant captures generated; when evading a check, only if the
/// captured pawn or the en-passant square is among the target squares.
pub open spec fn pawn_ep_part(v: PositionView, white: bool, g: int, target: u64) -> Seq<Move> {
    let ps = pawn_sets(v, white, g, target);
    match v.state.ep_square {
        Some(ep) => if g == 2 && target & ((1u64 << ((ep as int - ps.up) as u64)) | (1u64 << (ep as u64))) == 0 {
            Seq::empty()
        } else {
            eps(ep_attackers(v, white, ps.not7, ep as int), ep as int)
        },
        None => Seq::empty(),
    }
}

/// The pawn captures generated (not promoting), with en passant.
pub open spec fn pawn_cap_part(v: PositionView, white: bool, g: int, target: u64) -> Seq<Move> {
    let ps = pawn_sets(v, white, g, target);
    if g == 0 || g == 2 || g == 3 {
        pushes(ps.cap_right, ps.up_right) + pushes(ps.cap_left, ps.up_left) + pawn_ep_part(v, white, g, target)
    } else {
        Seq::empty()
    }
}

/// The pawn moves generated: pushes, promotions, captures and en passant.
#[verifier::opaque]
pub open spec fn pawn_moves_spec(v: PositionView, white: bool, g: int, target: u64) -> Seq<Move> {
    pawn_push_part(v, white, g, target) + pawn_promo_part(v, white, g, target) + pawn_cap_part(v, white, g, target)
}

/// Pawn generation does not fail: every origin it computes is a square.
#[verifier::opaque]
pub open spec fn pawn_gen_ok(v: PositionView, white: bool, g: int, target: u64) -> bool {
    pawn_gen_ok_parts(v, white, g, target)
}

pub open spec fn pawn_gen_ok_parts(v: PositionView, white: bool, g: int, target: u64) -> bool {
    let ps = pawn_sets(v, white, g, target);
    &&& g != 0 ==> shift_in_range(ps.push1, ps.up) && shift_in_range(ps.push2, 2 * ps.up)
    &&& ps.on7 != 0 ==> shift_in_range(ps.promo_right, ps.up_right) && shift_in_range(ps.promo_left, ps.up_left)
        && shift_in_range(ps.promo_push, ps.up)
    &&& (g == 0 || g == 2 || g == 3) ==> shift_in_range(ps.cap_right, ps.up_right) && shift_in_range(
        ps.cap_left,
        ps.up_left,
    )
    &&& (g == 2 && v.state.ep_square is Some) ==> 0 <= v.state.ep_square->Some_0 as int - ps.up < 64
}

fn generate_pawn_pushes(pos: &Position, list: &mut MoveList, white: bool, g: u8, target: Bitboard)
    requires
        g < 4,
        pawn_gen_ok_parts(pos@, white, g as int, target),
        old(list)@.len() + pawn_push_part(pos@, white, g as int, target).len() <= MAX_MOVES,
    ensures
        final(list)@ == old(list)@ + pawn_push_part(pos@, white, g as int, target),
{
    let us = if white { Color::White } else { Color::Black };
    let rank_7 = if white { RANK_7_BB } else { RANK_2_BB };
    let rank_3 = if white { RANK_3_BB } else { RANK_6_BB };
    let up: i8 = if white { 8 } else { -8 };
    let empty_squares = !pos.pieces();
    let pawns_not_on_7 = pos.pieces_cp(us, PieceType::Pawn) & !rank_7;
    if g != 0 {
        let mut b1 = if white { shift_north(pawns_not_on_7) } else { shift_south(pawns_not_on_7) } & empty_squares;
        let mut b2 = if white { shift_north(b1 & rank_3) } else { shift_south(b1 & rank_3) } & empty_squares;
        if g == 2 {
            b1 = b1 & target;
            b2 = b2 & target;
        }
        push_shifted(list, b1, up);
        push_shifted(list, b2, up + up);
    } else {
        proof {
            assert(list@ =~= old(list)@ + pawn_push_part(pos@, white, g as int, target));
        }
    }
}

fn generate_pawn_promotions(pos: &Position, list: &mut MoveList, white: bool, g: u8, target: Bitboard)
    requires
        g < 4,
        pawn_gen_ok_parts(pos@, white, g as int, target),
        old(list)@.len() + pawn_promo_part(pos@, white, g as int, target).len() <= MAX_MOVES,
    ensures
        final(list)@ == old(list)@ + pawn_promo_part(pos@, white, g as int, target),
{
    let us = if white { Color::White } else { Color::Black };
    let them = us.flip();
    let rank_7 = if white { RANK_7_BB } else { RANK_2_BB };
    let up: i8 = if white { 8 } else { -8 };
    let up_right: i8 = if white { 9 } else { -9 };
    let up_left: i8 = if white { 7 } else { -7 };
    let empty_squares = !pos.pieces();
    let enemies = if g == 2 { pos.checkers() } else { pos.pieces_c(them) };
    let pawns_on_7 = pos.pieces_cp(us, PieceType::Pawn) & rank_7;
    if pawns_on_7 != 0 {
        let b1 = if white { shift_north_east(pawns_on_7) } else { shift_south_west(pawns_on_7) } & enemies;
        let b2 = if white { shift_north_west(pawns_on_7) } else { shift_south_east(pawns_on_7) } & enemies;
        let mut b3 = if white { shift_north(pawns_on_7) } else { shift_south(pawns_on_7) } & empty_squares;
        if g == 2 {
            b3 = b3 & target;
        }
        push_promotions(list, b1, up_right, g != 1, g != 0);
        push_promotions(list, b2, up_left, g != 1, g != 0);
        push_promotions(list, b3, up, g != 1, g != 0);
    } else {
        proof {
            assert(list@ =~= old(list)@ + pawn_promo_part(pos@, white, g as int, target));
        }
    }
}

fn generate_pawn_captures(pos: &Position, list: &mut MoveList, white: bool, g: u8, target: Bitboard)
    requires
        g < 4,
        pawn_gen_ok_parts(pos@, white, g as int, target),
        old(list)@.len() + pawn_cap_part(pos@, white, g as int, target).len() <= MAX_MOVES,
    ensures
        final(list)@ == old(list)@ + pawn_cap_part(pos@, white, g as int, target),
{
    let us = if white { Color::White } else { Color::Black };
    let them = us.flip();
    let rank_7 = if white { RANK_7_BB } else { RANK_2_BB };
    let up: i8 = if white { 8 } else { -8 };
    let up_right: i8 = if white { 9 } else { -9 };
    let up_left: i8 = if white { 7 } else { -7 };
    let enemies = if g == 2 { pos.checkers() } else { pos.pieces_c(them) };
    let pawns_not_on_7 = pos.pieces_cp(us, PieceType::Pawn) & !rank_7;
    let ghost l0 = list@;
    if g == 0 || g == 2 || g == 3 {
        let b1 = if white { shift_north_east(pawns_not_on_7) } else { shift_south_west(pawns_not_on_7) } & enemies;
        let b2 = if white { shift_north_west(pawns_not_on_7) } else { shift_south_east(pawns_not_on_7) } & enemies;
        push_shifted(list, b1, up_right);
        push_shifted(list, b2, up_left);
        let ghost l1 = list@;
        if let Some(ep_sq) = pos.ep_square() {
            if g == 2 {
                let victim = ep_sq.offset(-up).unwrap();
                if (target & (square_bb(victim) | square_bb(ep_sq))) == 0 {
                    proof {
                        assert(list@ =~= l0 + pawn_cap_part(pos@, white, g as int, target));
                    }
                    return;
                }
            }
            let b1 = pawns_not_on_7 & pawn_attacks_bb_sq(them, ep_sq);
            push_en_passants(list, b1, ep_sq);
        }
        proof {
            assert(list@ =~= l0 + pawn_cap_part(pos@, white, g as int, target));
        }
    } else {
        proof {
            assert(list@ =~= l0 + pawn_cap_part(pos@, white, g as int, target));
        }
    }
}

/// Generates the pawn moves of the side `white` (or black) for generation code `g`.
fn generate_pawn_moves(pos: &Position, list: &mut MoveList, white: bool, g: u8, target: Bitboard)
    requires
        g < 4,
        pawn_gen_ok(pos@, white, g as int, target),
        old(list)@.len() + pawn_moves_spec(pos@, white, g as int, target).len() <= MAX_MOVES,
    ensures
        final(list)@ == old(list)@ + pawn_moves_spec(pos@, white, g as int, target),
{
    proof {
        reveal(pawn_moves_spec);
        reveal(pawn_gen_ok);
    }
    generate_pawn_pushes(pos, list, white, g, target);
    generate_pawn_promotions(pos, list, white, g, target);
    generate_pawn_captures(pos, list, white, g, target);
    proof {
        assert(list@ =~= old(list)@ + pawn_moves_spec(pos@, white, g as int, target));
    }
}


/// The generation code of a kind: 0 captures, 1 quiets, 2 evasions, 3 the others.
pub open spec fn gen_code(gt: GenType) -> int {
    match gt {
        GenType::Captures => 0,
        GenType::Quiets => 1,
        GenType::Evasions => 2,
        GenType::NonEvasions => 3,
        GenType::Legal => 3,
    }
}

/// The squares moves of kind `gt` may go to.
pub open spec fn gen_target(v: PositionView, gt: GenType) -> u64 {
    let b = v.board;
    let us = v.side_to_move;
    let ksq = king_sq(b, us);
    match gt {
        GenType::Evasions => between_spec(ksq, lsb_spec(v.state.checkers_bb)),
        GenType::NonEvasions => !pieces_of(b, us),
        GenType::Captures => pieces_of(b, flip(us)),
        GenType::Quiets => !occupied(b),
        GenType::Legal => !pieces_of(b, us),
    }
}

/// The castling move of one side, when the right is held and the path is clear.
pub open spec fn castle_part(v: PositionView, kingside: bool) -> Seq<Move> {
    let us = v.side_to_move;
    let i = 2 * (us as int) + (if kingside { 0int } else { 1int });
    if v.state.castling_rights & castle_mask(us, kingside) != 0 && occupied(v.board) & v.castling_path[i] == 0 {
        seq![mv_castle(king_sq(v.board, us), v.castling_rook_sq[i]->Some_0 as int)]
    } else {
        Seq::empty()
    }
}

/// The castling moves generated for kind `gt`.
pub open spec fn castles_spec(v: PositionView, gt: GenType) -> Seq<Move> {
    let us = v.side_to_move;
    if (gt == GenType::Quiets || gt == GenType::NonEvasions || gt == GenType::Legal) && v.state.castling_rights & (
    if us == Color::White { 3u8 } else { 12u8 }) != 0 {
        castle_part(v, true) + castle_part(v, false)
    } else {
        Seq::empty()
    }
}

/// The pseudo-legal moves of kind `gt`, in generation order: in double check
/// only king moves; else pawn, knight, bishop, rook, queen and king moves, then castling.
pub open spec fn gen_all_spec(v: PositionView, gt: GenType) -> Seq<Move> {
    let b = v.board;
    let us = v.side_to_move;
    let ksq = king_sq(b, us);
    if gt == GenType::Evasions && pop_count(v.state.checkers_bb) > 1 {
        targets(ksq, king_spec(ksq) & !pieces_of(b, us))
    } else {
        gen_by_target_spec(v, gt, gen_target(v, gt))
    }
}

/// Generating moves of kind `gt` does not fail: our king is found, evasions
/// are generated only in check, pawn origins are squares, and every castling
/// right held has its rook square recorded.
pub open spec fn gen_ok(v: PositionView, gt: GenType) -> bool {
    let us = v.side_to_move;
    &&& king_present(v.board, us)
    &&& gt == GenType::Evasions ==> v.state.checkers_bb != 0
    &&& !(gt == GenType::Evasions && pop_count(v.state.checkers_bb) > 1) ==> pawn_gen_ok(
        v,
        us == Color::White,
        gen_code(gt),
        gen_target(v, gt),
    )
    &&& v.castling_rook_sq.len() == 4
    &&& (v.state.castling_rights & castle_mask(us, true) != 0 ==> v.castling_rook_sq[2 * (us as int)] is Some)
    &&& (v.state.castling_rights & castle_mask(us, false) != 0 ==> v.castling_rook_sq[2 * (us as int) + 1] is Some)
}

proof fn lemma_move_castle(from: int, to: int, m: Move)
    requires
        0 <= from < 64,
        0 <= to < 64,
        m.0 == mv_pack(3, 0, from, to),
    ensures
        m == mv_castle(from, to),
{
}

/// Generates the castling moves of kind `gt`.
fn generate_castles(pos: &Position, list: &mut MoveList, gen_type: GenType, ksq: Square)
    requires
        ksq as int == king_sq(pos@.board, pos@.side_to_move),
        gen_ok(pos@, gen_type),
        old(list)@.len() + castles_spec(pos@, gen_type).len() <= MAX_MOVES,
    ensures
        final(list)@ == old(list)@ + castles_spec(pos@, gen_type),
{
    let us = pos.side_to_move();
    let ghost l0 = list@;
    if (gen_type == GenType::Quiets || gen_type == GenType::NonEvasions || gen_type == GenType::Legal) && pos.can_castle(us) {
        if pos.can_castle_kingside(us) {
            let rook_sq = pos.castling_rook_square(us, true);
            if !pos.castling_impeded(us, true) {
                let m = Move::new_castle(ksq, rook_sq);
                proof {
                    lemma_move_castle(ksq as int, rook_sq as int, m);
                }
                list.push(m);
            }
        }
        let ghost l1 = list@;
        proof {
            assert(l1 == l0 + castle_part(pos@, true));
        }
        if pos.can_castle_queenside(us) {
            let rook_sq = pos.castling_rook_square(us, false);
            if !pos.castling_impeded(us, false) {
                let m = Move::new_castle(ksq, rook_sq);
                proof {
                    lemma_move_castle(ksq as int, rook_sq as int, m);
                }
                list.push(m);
            }
        }
        proof {
            assert(list@ =~= l0 + castles_spec(pos@, gen_type));
        }
    } else {
        proof {
            assert(list@ =~= l0 + castles_spec(pos@, gen_type));
        }
    }
}

/// The moves of kind `gen_type` when not in double check.
pub open spec fn gen_by_target_spec(v: PositionView, gt: GenType, target: u64) -> Seq<Move> {
    let b = v.board;
    let us = v.side_to_move;
    let ksq = king_sq(b, us);
    let occ = occupied(b);
    pawn_moves_spec(v, us == Color::White, gen_code(gt), target) + piece_moves(
        pieces_ct(b, us, PieceType::Knight),
        PieceType::Knight,
        occ,
        target,
    ) + piece_moves(pieces_ct(b, us, PieceType::Bishop), PieceType::Bishop, occ, target) + piece_moves(
        pieces_ct(b, us, PieceType::Rook),
        PieceType::Rook,
        occ,
        target,
    ) + piece_moves(pieces_ct(b, us, PieceType::Queen), PieceType::Queen, occ, target) + targets(
        ksq,
        king_spec(ksq) & (if gt == GenType::Evasions { !pieces_of(b, us) } else { target }),
    ) + castles_spec(v, gt)
}

#[verifier::rlimit(80)]
fn generate_by_target(pos: &Position, list: &mut MoveList, gen_type: GenType, g: u8, ksq: Square, target: Bitboard)
    requires
        g as int == gen_code(gen_type),
        ksq as int == king_sq(pos@.board, pos@.side_to_move),
        gen_ok(pos@, gen_type),
        pawn_gen_ok(pos@, pos@.side_to_move == Color::White, g as int, target),
        old(list)@.len() + gen_by_target_spec(pos@, gen_type, target).len() <= MAX_MOVES,
    ensures
        final(list)@ == old(list)@ + gen_by_target_spec(pos@, gen_type, target),
{
    let us = pos.side_to_move();
    let ghost l0 = list@;
    generate_pawn_moves(pos, list, us == Color::White, g, target);
    generate_piece_moves(pos, list, us, PieceType::Knight, target);
    generate_piece_moves(pos, list, us, PieceType::Bishop, target);
    generate_piece_moves(pos, list, us, PieceType::Rook, target);
    generate_piece_moves(pos, list, us, PieceType::Queen, target);
    let king_target = if gen_type == GenType::Evasions { !pos.pieces_c(us) } else { target };
    let king_moves = king_attacks_bb(ksq) & king_target;
    push_targets(list, ksq, king_moves);
    generate_castles(pos, list, gen_type, ksq);
    proof {
        assert(list@ =~= l0 + gen_by_target_spec(pos@, gen_type, target));
    }
}

/// Generates all pseudo-legal moves of kind `gen_type`.
fn generate_all(pos: &Position, list: &mut MoveList, gen_type: GenType)
    requires
        gen_ok(pos@, gen_type),
        old(list)@.len() + gen_all_spec(pos@, gen_type).len() <= MAX_MOVES,
    ensures
        final(list)@ == old(list)@ + gen_all_spec(pos@, gen_type),
{
    let us = pos.side_to_move();
    let them = us.flip();
    let ksq = pos.king_square(us);
    let ghost l0 = list@;
    if gen_type == GenType::Evasions && more_than_one(pos.checkers()) {
        let king_moves = king_attacks_bb(ksq) & !pos.pieces_c(us);
        push_targets(list, ksq, king_moves);
        return;
    }
    let target = match gen_type {
        GenType::Evasions => between_bb(ksq, lsb(pos.checkers())),
        GenType::NonEvasions => !pos.pieces_c(us),
        GenType::Captures => pos.pieces_c(them),
        GenType::Quiets => !pos.pieces(),
        GenType::Legal => !pos.pieces_c(us),
    };
    let g: u8 = match gen_type {
        GenType::Captures => 0,
        GenType::Quiets => 1,
        GenType::Evasions => 2,
        GenType::NonEvasions => 3,
        GenType::Legal => 3,
    };
    generate_by_target(pos, list, gen_type, g, ksq, target);
    proof {
        assert(list@ =~= l0 + gen_all_spec(pos@, gen_type));
    }
}


/// Filtering from index `i` on: an illegal move is replaced by the last one
/// (which is then looked at), a legal one is kept.
pub open spec fn swap_filter(v: PositionView, s: Seq<Move>, i: int) -> Seq<Move>
    decreases s.len() - i,
{
    if i < 0 || i >= s.len() {
        s
    } else if !is_legal_spec(v, s[i]) {
        swap_filter(v, s.update(i, s.last()).drop_last(), i)
    } else {
        swap_filter(v, s, i + 1)
    }
}

/// The kind of moves the legal generator starts from.
pub open spec fn legal_kind(v: PositionView) -> GenType {
    if v.state.checkers_bb != 0 {
        GenType::Evasions
    } else {
        GenType::NonEvasions
    }
}

/// The list `start` with the legal moves appended.
pub open spec fn legal_moves_spec(v: PositionView, start: Seq<Move>) -> Seq<Move> {
    swap_filter(v, start + gen_all_spec(v, legal_kind(v)), start.len() as int)
}

/// Generating the legal moves does not fail: generation does not, the list
/// has room, and every generated move can be tested for legality.
pub open spec fn legal_gen_ok(v: PositionView, start_len: int) -> bool {
    let g = gen_all_spec(v, legal_kind(v));
    &&& gen_ok(v, legal_kind(v))
    &&& start_len + g.len() <= MAX_MOVES
    &&& forall|j: int| 0 <= j < g.len() ==> is_legal_ok(v, #[trigger] g[j])
}

/// Appends the legal moves: the evasions when in check, else all moves, with
/// the illegal ones filtered out.
pub fn generate_legal_moves(pos: &Position, list: &mut MoveList)
    requires
        legal_gen_ok(pos@, old(list)@.len() as int),
    ensures
        final(list)@ == legal_moves_spec(pos@, old(list)@),
{
    let old_count = list.len();
    if pos.checkers() != 0 {
        generate_all(pos, list, GenType::Evasions);
    } else {
        generate_all(pos, list, GenType::NonEvasions);
    }
    let ghost full = list@;
    let ghost g = gen_all_spec(pos@, legal_kind(pos@));
    proof {
        assert forall|j: int| old_count <= j < full.len() implies is_legal_ok(pos@, #[trigger] full[j]) by {
            assert(full[j] == g[j - old_count]);
        }
    }
    let mut i = old_count;
    while i < list.len()
        invariant
            old_count <= i <= list@.len(),
            list@.len() <= MAX_MOVES,
            swap_filter(pos@, list@, i as int) == swap_filter(pos@, full, old_count as int),
            forall|j: int| old_count <= j < list@.len() ==> is_legal_ok(pos@, #[trigger] list@[j]),
        decreases list@.len() - i,
    {
        let m = list.get(i);
        if !pos.is_legal(m) {
            let ghost before = list@;
            list.swap_remove_at(i);
            proof {
                assert forall|j: int| old_count <= j < list@.len() implies is_legal_ok(pos@, #[trigger] list@[j]) by {
                    if j == i {
                        assert(list@[j] == before[before.len() - 1]);
                    } else {
                        assert(list@[j] == before[j]);
                    }
                }
            }
        } else {
            i = i + 1;
        }
    }
    proof {
        assert(full =~= old(list)@ + g);
    }
}

/// Appends the captures (pseudo-legal).
pub fn generate_captures(pos: &Position, list: &mut MoveList)
    requires
        gen_ok(pos@, GenType::Captures),
        old(list)@.len() + gen_all_spec(pos@, GenType::Captures).len() <= MAX_MOVES,
    ensures
        final(list)@ == old(list)@ + gen_all_spec(pos@, GenType::Captures),
{
    generate_all(pos, list, GenType::Captures);
}

/// Appends the quiet moves (pseudo-legal).
pub fn generate_quiets(pos: &Position, list: &mut MoveList)
    requires
        gen_ok(pos@, GenType::Quiets),
        old(list)@.len() + gen_all_spec(pos@, GenType::Quiets).len() <= MAX_MOVES,
    ensures
        final(list)@ == old(list)@ + gen_all_spec(pos@, GenType::Quiets),
{
    generate_all(pos, list, GenType::Quiets);
}

/// Appends all pseudo-legal moves: the evasions when in check, else all.
pub fn generate_all_moves(pos: &Position, list: &mut MoveList)
    requires
        gen_ok(pos@, legal_kind(pos@)),
        old(list)@.len() + gen_all_spec(pos@, legal_kind(pos@)).len() <= MAX_MOVES,
    ensures
        final(list)@ == old(list)@ + gen_all_spec(pos@, legal_kind(pos@)),
{
    if pos.checkers() != 0 {
        generate_all(pos, list, GenType::Evasions);
    } else {
        generate_all(pos, list, GenType::NonEvasions);
    }
}

} // verus!
