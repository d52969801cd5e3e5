//! Perft: counting the leaves of the legal move tree, making and taking back
//! each move on one position.

use vstd::prelude::*;
use crate::movegen::{MoveList, generate_legal_moves, legal_moves_spec, legal_gen_ok};
use crate::position::{
    Position, PositionView, do_move_spec, do_move_ok, lemma_undo_after_do, reversible_move, undo_move_spec, undo_move_ok,
    wf,
};
use crate::types::Move;

verus! {

/// The legal moves of a position, in generation order.
pub open spec fn legal_moves_of(v: PositionView) -> Seq<Move> {
    legal_moves_spec(v, Seq::empty())
}

/// The number of leaves `d` plies below `v`, and the position left behind
/// once every move has been made and taken back in turn.
pub open spec fn perft_run(v: PositionView, d: nat) -> (nat, PositionView)
    decreases d as int, 1int, 0int,
{
    if d == 0 {
        (1, v)
    } else {
        perft_loop(v, legal_moves_of(v), 0, (d - 1) as nat)
    }
}

/// The leaves `sd` plies below each of `moves[i..]`, made from `v` in turn.
pub open spec fn perft_loop(v: PositionView, moves: Seq<Move>, i: int, sd: nat) -> (nat, PositionView)
    decreases sd + 1int, 0int, moves.len() - i,
{
    if i < 0 || i >= moves.len() {
        (0, v)
    } else {
        let m = moves[i];
        let sub = perft_run(do_move_spec(v, m), sd);
        let rest = perft_loop(undo_move_spec(sub.1, m), moves, i + 1, sd);
        (sub.0 + rest.0, rest.1)
    }
}

/// Every step of `perft_run(v, d)` can be made: moves can be generated and
/// tested, and each move can be made and taken back.
pub open spec fn perft_ok(v: PositionView, d: nat) -> bool
    decreases d as int, 1int, 0int,
{
    d == 0 || (legal_gen_ok(v, 0) && perft_loop_ok(v, legal_moves_of(v), 0, (d - 1) as nat))
}

/// Every step of `perft_loop(v, moves, i, sd)` can be made.
pub open spec fn perft_loop_ok(v: PositionView, moves: Seq<Move>, i: int, sd: nat) -> bool
    decreases sd + 1int, 0int, moves.len() - i,
{
    if i < 0 || i >= moves.len() {
        true
    } else {
        let m = moves[i];
        let w = do_move_spec(v, m);
        &&& do_move_ok(v, m)
        &&& perft_ok(w, sd)
        &&& undo_move_ok(perft_run(w, sd).1, m)
        &&& perft_loop_ok(undo_move_spec(perft_run(w, sd).1, m), moves, i + 1, sd)
    }
}

/// The count and final position of each of `moves[i..]`, as a divide lists them.
pub open spec fn divide_loop(v: PositionView, moves: Seq<Move>, i: int, sd: nat) -> (Seq<(Move, nat)>, PositionView)
    decreases moves.len() - i,
{
    if i < 0 || i >= moves.len() {
        (Seq::empty(), v)
    } else {
        let m = moves[i];
        let sub = perft_run(do_move_spec(v, m), sd);
        let rest = divide_loop(undo_move_spec(sub.1, m), moves, i + 1, sd);
        (seq![(m, sub.0)] + rest.0, rest.1)
    }
}

/// The depth explored below each root move of a divide at depth `d`.
pub open spec fn divide_depth(d: nat) -> nat {
    if d > 1 {
        (d - 1) as nat
    } else {
        0
    }
}

/// The entries of a divide with their counts read as numbers.
pub open spec fn entry_counts(s: Seq<(Move, u64)>) -> Seq<(Move, nat)> {
    s.map_values(|e: (Move, u64)| (e.0, e.1 as nat))
}

/// Counts the leaves `depth` plies below the position, making and taking
/// back every legal move.
pub fn perft(pos: &mut Position, depth: u32) -> (r: u64)
    requires
        perft_ok(old(pos)@, depth as nat),
        perft_run(old(pos)@, depth as nat).0 <= u64::MAX,
    ensures
        r == perft_run(old(pos)@, depth as nat).0,
        final(pos)@ == perft_run(old(pos)@, depth as nat).1,
    decreases depth,
{
    if depth == 0 {
        return 1;
    }
    let ghost v = pos@;
    let sd: u32 = depth - 1;
    let mut list = MoveList::new();
    generate_legal_moves(pos, &mut list);
    let ghost moves = list@;
    proof {
        assert(moves == legal_moves_of(v));
        assert(perft_run(v, depth as nat) == perft_loop(v, moves, 0, sd as nat));
    }
    let n = list.len();
    let mut nodes: u64 = 0;
    let mut i: usize = 0;
    while i < n
        invariant
            i <= n,
            sd < depth,
            n == moves.len(),
            list@ == moves,
            perft_loop(v, moves, 0, sd as nat).0 <= u64::MAX,
            perft_loop(v, moves, 0, sd as nat).0 == nodes + perft_loop(pos@, moves, i as int, sd as nat).0,
            perft_loop(v, moves, 0, sd as nat).1 == perft_loop(pos@, moves, i as int, sd as nat).1,
            perft_loop_ok(pos@, moves, i as int, sd as nat),
        decreases n - i,
    {
        let m = list.get(i);
        let ghost p0 = pos@;
        let ghost w = do_move_spec(p0, m);
        let ghost sub = perft_run(w, sd as nat);
        let ghost rest = perft_loop(undo_move_spec(sub.1, m), moves, i as int + 1, sd as nat);
        proof {
            assert(perft_loop(p0, moves, i as int, sd as nat) == (sub.0 + rest.0, rest.1));
        }
        pos.do_move(m);
        let c = perft(pos, sd);
        pos.undo_move(m);
        nodes = nodes + c;
        i = i + 1;
    }
    nodes
}

/// The per-move counts of a divide at `depth`: for each legal move in
/// generation order, the leaves `depth - 1` plies below it (1 each when
/// `depth` is at most 1).
pub fn perft_divide_counts(pos: &mut Position, depth: u32) -> (r: Vec<(Move, u64)>)
    requires
        legal_gen_ok(old(pos)@, 0),
        perft_loop_ok(old(pos)@, legal_moves_of(old(pos)@), 0, divide_depth(depth as nat)),
        perft_loop(old(pos)@, legal_moves_of(old(pos)@), 0, divide_depth(depth as nat)).0 <= u64::MAX,
    ensures
        entry_counts(r@) == divide_loop(old(pos)@, legal_moves_of(old(pos)@), 0, divide_depth(depth as nat)).0,
        final(pos)@ == divide_loop(old(pos)@, legal_moves_of(old(pos)@), 0, divide_depth(depth as nat)).1,
{
    let ghost v = pos@;
    let sd: u32 = if depth > 1 { depth - 1 } else { 0 };
    let mut list = MoveList::new();
    generate_legal_moves(pos, &mut list);
    let ghost moves = list@;
    let n = list.len();
    let mut out: Vec<(Move, u64)> = Vec::new();
    let mut nodes: u64 = 0;
    let mut i: usize = 0;
    while i < n
        invariant
            i <= n,
            n == moves.len(),
            list@ == moves,
            moves == legal_moves_of(v),
            sd as nat == divide_depth(depth as nat),
            perft_loop(v, moves, 0, sd as nat).0 <= u64::MAX,
            perft_loop(v, moves, 0, sd as nat).0 == nodes + perft_loop(pos@, moves, i as int, sd as nat).0,
            divide_loop(v, moves, 0, sd as nat).0 == entry_counts(out@) + divide_loop(pos@, moves, i as int, sd as nat).0,
            divide_loop(v, moves, 0, sd as nat).1 == divide_loop(pos@, moves, i as int, sd as nat).1,
            perft_loop_ok(pos@, moves, i as int, sd as nat),
        decreases n - i,
    {
        let m = list.get(i);
        let ghost p0 = pos@;
        let ghost w = do_move_spec(p0, m);
        let ghost sub = perft_run(w, sd as nat);
        let ghost back = undo_move_spec(sub.1, m);
        proof {
            assert(perft_loop(p0, moves, i as int, sd as nat) == (sub.0 + perft_loop(back, moves, i as int + 1, sd as nat).0, perft_loop(back, moves, i as int + 1, sd as nat).1));
            assert(divide_loop(p0, moves, i as int, sd as nat) == (seq![(m, sub.0)] + divide_loop(back, moves, i as int + 1, sd as nat).0, divide_loop(back, moves, i as int + 1, sd as nat).1));
        }
        pos.do_move(m);
        let c = perft(pos, sd);
        pos.undo_move(m);
        let ghost before = out@;
        out.push((m, c));
        proof {
            assert(entry_counts(out@) =~= entry_counts(before) + seq![(m, sub.0)]);
            assert(entry_counts(before) + seq![(m, sub.0)] + divide_loop(back, moves, i as int + 1, sd as nat).0
                =~= entry_counts(before) + (seq![(m, sub.0)] + divide_loop(back, moves, i as int + 1, sd as nat).0));
        }
        nodes = nodes + c;
        i = i + 1;
    }
    proof {
        assert(entry_counts(out@) + Seq::<(Move, nat)>::empty() =~= entry_counts(out@));
    }
    out
}

proof fn lemma_perft_loop_one(v: PositionView, moves: Seq<Move>, i: int)
    requires
        0 <= i <= moves.len(),
    ensures
        perft_loop(v, moves, i, 0).0 == moves.len() - i,
    decreases moves.len() - i,
{
    if i < moves.len() {
        let m = moves[i];
        let sub = perft_run(do_move_spec(v, m), 0);
        lemma_perft_loop_one(undo_move_spec(sub.1, m), moves, i + 1);
    }
}

/// Perft at depth 1 counts the legal moves of the position.
pub proof fn lemma_perft_depth_one(v: PositionView)
    ensures
        perft_run(v, 1).0 == legal_moves_of(v).len(),
{
    lemma_perft_loop_one(v, legal_moves_of(v), 0);
}

/// Every move of the tree `d` plies below `v` can be taken back exactly.
pub open spec fn tree_reversible(v: PositionView, d: nat) -> bool
    decreases d as int, 1int, 0int,
{
    d == 0 || loop_reversible(v, legal_moves_of(v), 0, (d - 1) as nat)
}

/// Every move of `moves[i..]`, and of the trees `sd` plies below them, can be
/// taken back exactly.
pub open spec fn loop_reversible(v: PositionView, moves: Seq<Move>, i: int, sd: nat) -> bool
    decreases sd + 1int, 0int, moves.len() - i,
{
    if i < 0 || i >= moves.len() {
        true
    } else {
        &&& reversible_move(v.board, v.side_to_move, moves[i])
        &&& tree_reversible(do_move_spec(v, moves[i]), sd)
        &&& loop_reversible(v, moves, i + 1, sd)
    }
}

proof fn lemma_loop_restores(v: PositionView, moves: Seq<Move>, i: int, sd: nat)
    requires
        wf(v),
        perft_loop_ok(v, moves, i, sd),
        loop_reversible(v, moves, i, sd),
    ensures
        perft_loop(v, moves, i, sd).1 == v,
    decreases sd + 1int, 0int, moves.len() - i,
{
    if 0 <= i < moves.len() {
        let m = moves[i];
        let w = do_move_spec(v, m);
        lemma_undo_after_do(v, m);
        lemma_perft_restores(w, sd);
        lemma_loop_restores(v, moves, i + 1, sd);
    }
}

/// Perft leaves the position as it found it when every move of its tree can
/// be taken back exactly (all but a castling whose king and rook land on one
/// square).
pub proof fn lemma_perft_restores(v: PositionView, d: nat)
    requires
        wf(v),
        perft_ok(v, d),
        tree_reversible(v, d),
    ensures
        perft_run(v, d).1 == v,
    decreases d as int, 1int, 0int,
{
    if d > 0 {
        lemma_loop_restores(v, legal_moves_of(v), 0, (d - 1) as nat);
    }
}

} // verus!
