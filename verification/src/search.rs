//! Alpha-beta search with a transposition table, quiescence search and
//! limits on depth, nodes and time.

use vstd::prelude::*;
use std::time::{Duration, Instant};
use crate::evaluate::{evaluate, evaluate_spec};
use crate::movegen::{
    GenType, MoveList, gen_all_spec, gen_ok, generate_captures, generate_legal_moves, legal_gen_ok,
    legal_moves_spec,
};
use crate::position::{
    Position, PositionView, do_move_spec, do_move_ok, is_repetition_spec, lemma_undo_after_do, reversible_move, wf,
};
use crate::tt::{Bound, TTView, TranspositionTable, bound_of, cluster_count, fresh_table, probe_spec, store_spec, tt_ok, cluster_index, key16_of, first_match, empty_cluster, empty_entry};
use crate::types::{Depth, MAX_MOVES, Move, VALUE_DRAW, VALUE_INFINITE, Value};

verus! {

/// The deepest iteration of iterative deepening.
pub const MAX_DEPTH: Depth = 64;

/// The score of being mated at the root.
pub const MATE_SCORE: Value = 30000;

/// `std::time::Instant`, a point in time; opaque to the proofs.
#[verifier::external_type_specification]
#[verifier::external_body]
pub struct ExInstant(Instant);

/// `Instant::now`: the current time. Nothing is claimed of the result.
#[verifier::external_body]
fn now() -> (r: Instant) {
    Instant::now()
}

/// `Instant::elapsed`: the time since `start`. Nothing is claimed of the
/// result, which depends on the clock.
#[verifier::external_body]
fn elapsed(start: &Instant) -> (r: Duration) {
    start.elapsed()
}

/// `Duration::as_millis`: the whole milliseconds of `d`. Durations are
/// opaque here, so nothing is claimed of the result.
#[verifier::external_body]
fn duration_as_millis(d: &Duration) -> (r: u128) {
    d.as_millis()
}

/// What bounds a search: a depth, a number of nodes, a time in milliseconds,
/// or nothing.
pub struct SearchLimits {
    pub depth: Option<Depth>,
    pub nodes: Option<u64>,
    pub movetime: Option<u64>,
    pub infinite: bool,
}

impl Default for SearchLimits {
    /// Depth 6, no node or time limit.
    fn default() -> (r: SearchLimits)
        ensures
            r.depth == Some(6i32),
            r.nodes is None,
            r.movetime is None,
            !r.infinite,
    {
        SearchLimits { depth: Some(6), nodes: None, movetime: None, infinite: false }
    }
}

/// The state of a running search: nodes visited, start time, limits, and
/// whether it was told to stop.
pub struct SearchInfo {
    pub nodes: u64,
    pub start_time: Instant,
    pub limits: SearchLimits,
    pub stopped: bool,
}

/// Whether a time limit of `movetime` milliseconds is used up after
/// `elapsed_ms` milliseconds.
pub fn time_exceeded(elapsed_ms: u128, movetime: u64) -> (r: bool)
    ensures
        r == (elapsed_ms >= movetime),
{
    elapsed_ms >= movetime as u128
}

/// When a search must stop, `elapsed_ms` milliseconds after it started: it
/// was stopped already, or it has visited its node limit, or its time limit
/// is used up.
pub open spec fn stop_rule(stopped: bool, nodes: u64, limits: SearchLimits, elapsed_ms: u128) -> bool {
    ||| stopped
    ||| (limits.nodes is Some && nodes >= limits.nodes->Some_0)
    ||| (limits.movetime is Some && elapsed_ms >= limits.movetime->Some_0)
}

impl SearchInfo {
    /// A search started at `start`, with no nodes visited.
    pub fn new_at(limits: SearchLimits, start: Instant) -> (r: SearchInfo)
        ensures
            r.nodes == 0,
            r.limits == limits,
            r.start_time == start,
            !r.stopped,
    {
        SearchInfo { nodes: 0, start_time: start, limits, stopped: false }
    }

    /// A search started now, with no nodes visited.
    pub fn new(limits: SearchLimits) -> (r: SearchInfo)
        ensures
            r.nodes == 0,
            r.limits == limits,
            !r.stopped,
    {
        SearchInfo::new_at(limits, now())
    }

    /// Whether the search must stop `elapsed_ms` milliseconds after it
    /// started (see `stop_rule`); stopping marks it stopped.
    pub fn should_stop_at(&mut self, elapsed_ms: u128) -> (r: bool)
        ensures
            r == stop_rule(old(self).stopped, old(self).nodes, old(self).limits, elapsed_ms),
            final(self).stopped == r,
            final(self).nodes == old(self).nodes,
            final(self).start_time == old(self).start_time,
            final(self).limits == old(self).limits,
    {
        if self.stopped {
            return true;
        }
        if let Some(node_limit) = self.limits.nodes {
            if self.nodes >= node_limit {
                self.stopped = true;
                return true;
            }
        }
        if let Some(movetime) = self.limits.movetime {
            if time_exceeded(elapsed_ms, movetime) {
                self.stopped = true;
                return true;
            }
        }
        false
    }

    /// Whether the search must stop now: `stop_rule` applied to the time
    /// the clock gives since the start (read only when a time limit is set);
    /// stopping marks it stopped.
    pub fn should_stop(&mut self) -> (r: bool)
        ensures
            exists|e: u128| r == #[trigger] stop_rule(old(self).stopped, old(self).nodes, old(self).limits, e),
            final(self).nodes == old(self).nodes,
            final(self).start_time == old(self).start_time,
            final(self).limits == old(self).limits,
            final(self).stopped == r,
            old(self).stopped ==> r,
            (!old(self).stopped && old(self).limits.nodes is Some && old(self).nodes >= old(self).limits.nodes->Some_0)
                ==> r,
            (!old(self).stopped && (old(self).limits.nodes is None || old(self).nodes < old(self).limits.nodes->Some_0)
                && old(self).limits.movetime is None) ==> !r,
    {
        let elapsed_ms: u128 = if self.limits.movetime.is_some() && !self.stopped {
            duration_as_millis(&elapsed(&self.start_time))
        } else {
            0
        };
        self.should_stop_at(elapsed_ms)
    }
}

/// The deepest iteration of iterative deepening: the depth limit, or
/// `MAX_DEPTH` when there is none.
pub fn search_depth_limit(limits: &SearchLimits) -> (r: Depth)
    ensures
        r == (match limits.depth {
            Some(d) => d,
            None => MAX_DEPTH,
        }),
{
    match limits.depth {
        Some(d) => d,
        None => MAX_DEPTH,
    }
}

/// The depth of the next iteration of iterative deepening after `done`
/// completed ones: one more, while the depth limit is not reached.
pub fn next_depth(limits: &SearchLimits, done: Depth) -> (r: Option<Depth>)
    requires
        0 <= done,
    ensures
        r == (if done < (match limits.depth {
            Some(d) => d,
            None => MAX_DEPTH,
        }) {
            Some((done + 1) as Depth)
        } else {
            None
        }),
{
    let max_depth = search_depth_limit(limits);
    if done < max_depth {
        Some(done + 1)
    } else {
        None
    }
}

/// Nodes per second over `elapsed_ms` milliseconds (0 when no whole
/// millisecond has passed), cut to 64 bits.
pub fn nodes_per_second(nodes: u64, elapsed_ms: u128) -> (r: u64)
    ensures
        r == (if elapsed_ms > 0 { (nodes as int * 1000 / elapsed_ms as int) as u64 } else { 0 }),
{
    if elapsed_ms > 0 {
        let n: u128 = nodes as u128 * 1000;
        (n / elapsed_ms) as u64
    } else {
        0
    }
}

/// The quiescence search from `v` is safe with `fuel` levels of captures:
/// captures can be generated, and each one can be made and taken back.
pub open spec fn qs_ok(v: PositionView, fuel: nat) -> bool
    decreases fuel,
{
    let caps = gen_all_spec(v, GenType::Captures);
    &&& fuel > 0
    &&& wf(v)
    &&& gen_ok(v, GenType::Captures)
    &&& caps.len() <= MAX_MOVES
    &&& forall|i: int|
        0 <= i < caps.len() ==> do_move_ok(v, #[trigger] caps[i]) && reversible_move(v.board, v.side_to_move, caps[i])
            && qs_ok(do_move_spec(v, caps[i]), (fuel - 1) as nat)
}

/// The search from `v` to `depth` is safe: every legal move of the tree can
/// be generated, made and taken back, and the quiescence search below it is
/// safe too.
pub open spec fn search_ok(v: PositionView, depth: int) -> bool
    decreases depth,
{
    let moves = legal_moves_spec(v, Seq::empty());
    &&& wf(v)
    &&& v.state.ply < 0x8000_0000
    &&& depth <= 0 ==> exists|f: nat| #[trigger] qs_ok(v, f)
    &&& depth > 0 ==> {
        &&& legal_gen_ok(v, 0)
        &&& forall|i: int|
            0 <= i < moves.len() ==> do_move_ok(v, #[trigger] moves[i]) && reversible_move(
                v.board,
                v.side_to_move,
                moves[i],
            ) && search_ok(do_move_spec(v, moves[i]), depth - 1)
    }
}

/// The value of the quiescence search from `v` in the window (`alpha`,
/// `beta`) when it runs to the end: the stand-pat score cut at `beta`, raised
/// by the captures in generation order, fail-hard at `beta`.
pub open spec fn qs_value(v: PositionView, alpha: int, beta: int, fuel: nat) -> int
    decreases fuel, 1int, 0int,
{
    let stand_pat = evaluate_spec(v);
    if stand_pat >= beta {
        beta
    } else {
        let a = if alpha < stand_pat { stand_pat } else { alpha };
        qs_loop(v, gen_all_spec(v, GenType::Captures), 0, a, beta, fuel)
    }
}

/// The quiescence value once the captures `caps[0..i]` are searched with
/// `alpha` as the best score so far.
pub open spec fn qs_loop(v: PositionView, caps: Seq<Move>, i: int, alpha: int, beta: int, fuel: nat) -> int
    decreases fuel, 0int, caps.len() - i,
{
    if i < 0 || i >= caps.len() || fuel == 0 {
        alpha
    } else {
        let score = -qs_value(do_move_spec(v, caps[i]), -beta, -alpha, (fuel - 1) as nat);
        if score >= beta {
            beta
        } else {
            qs_loop(v, caps, i + 1, if score > alpha { score } else { alpha }, beta, fuel)
        }
    }
}

/// The value a table entry for `key` fixes at `depth` in the window
/// (`alpha`, `beta`): an entry at least as deep, with an exact bound, a lower
/// bound at or above `beta`, or an upper bound at or below `alpha`.
pub open spec fn tt_cutoff(t: TTView, key: u64, depth: int, alpha: int, beta: int) -> Option<int> {
    match probe_spec(t, key) {
        Some(e) => {
            let val = e.value16 as int;
            let bd = bound_of(e.gen_bound8);
            if e.depth8 as int >= depth && (bd == Bound::Exact || (bd == Bound::Lower && val >= beta) || (bd
                == Bound::Upper && val <= alpha)) {
                Some(val)
            } else {
                None
            }
        },
        None => None,
    }
}

/// The value of the alpha-beta search from `v` to `depth` in the window
/// (`alpha`, `beta`) when it runs to the end, with the table `t`, and the
/// table it leaves: draws by repetition or the fifty-move rule score 0; a
/// table cut-off gives the stored value; at depth 0 the quiescence value;
/// without legal moves a mate (`-MATE_SCORE` plus the ply) or stalemate (0)
/// score; else the best child score, stored in the table with the static
/// evaluation, the best move and the bound.
pub open spec fn negamax_value(v: PositionView, t: TTView, depth: int, alpha: int, beta: int) -> (int, TTView)
    decreases depth, 1int, 0int,
{
    if is_repetition_spec(v) || v.state.rule50 >= 100 {
        (0, t)
    } else if tt_cutoff(t, v.state.key, depth, alpha, beta) is Some {
        (tt_cutoff(t, v.state.key, depth, alpha, beta)->Some_0, t)
    } else if depth <= 0 {
        (qs_value(v, alpha, beta, choose|f: nat| qs_ok(v, f)), t)
    } else {
        let moves = legal_moves_spec(v, Seq::empty());
        if moves.len() == 0 {
            (if v.state.checkers_bb != 0 { -30000 + v.state.ply } else { 0 }, t)
        } else {
            let r = negamax_loop(v, moves, 0, t, depth, alpha, beta, -32001, Move(0), Bound::Upper);
            (r.0, store_spec(r.3, v.state.key, r.0 as i32, evaluate_spec(v) as i32, depth as i32, r.1, r.2))
        }
    }
}

/// The search of the moves `moves[i..]` at `depth` with the table `t`, the
/// window's lower end raised to `alpha`, and the best score, move and bound so
/// far: the best score, move and bound at the end, and the table left.
pub open spec fn negamax_loop(
    v: PositionView,
    moves: Seq<Move>,
    i: int,
    t: TTView,
    depth: int,
    alpha: int,
    beta: int,
    best: int,
    best_move: Move,
    bound: Bound,
) -> (int, Move, Bound, TTView)
    decreases depth, 0int, moves.len() - i,
{
    if i < 0 || i >= moves.len() || depth <= 0 {
        (best, best_move, bound, t)
    } else {
        let m = moves[i];
        let c = negamax_value(do_move_spec(v, m), t, depth - 1, -beta, -alpha);
        let score = -c.0;
        if score > best {
            if score > alpha {
                if score >= beta {
                    (score, m, Bound::Lower, c.1)
                } else {
                    negamax_loop(v, moves, i + 1, c.1, depth, score, beta, score, m, Bound::Exact)
                }
            } else {
                negamax_loop(v, moves, i + 1, c.1, depth, alpha, beta, score, m, bound)
            }
        } else {
            negamax_loop(v, moves, i + 1, c.1, depth, alpha, beta, best, best_move, bound)
        }
    }
}

/// The search engine: its transposition table.
pub struct Search {
    pub tt: TranspositionTable,
}

impl Search {
    /// An engine with a table of `hash_mb` megabytes.
    pub fn new(hash_mb: usize) -> (r: Search)
        requires
            hash_mb * 1048576 <= usize::MAX,
        ensures
            r.tt@ == fresh_table(cluster_count(hash_mb as int)),
            tt_ok(r.tt@),
    {
        Search { tt: TranspositionTable::new(hash_mb) }
    }

    /// Orders the moves to search; the order is kept as generated.
    fn order_moves(&self, move_list: &mut MoveList, tt_move: Move)
        ensures
            final(move_list)@ == old(move_list)@,
    {
    }

    /// Alpha-beta search to `depth` with transposition-table cutoffs, draws by
    /// repetition and the fifty-move rule, mate and stalemate scores, and the
    /// quiescence search at the leaves; the result is stored in the table.
    /// The position is left as it was found.
    fn negamax(&mut self, pos: &mut Position, depth: Depth, alpha: Value, beta: Value, info: &mut SearchInfo) -> (r: Value)
        requires
            search_ok(old(pos)@, depth as int),
            depth <= 124,
            tt_ok(old(self).tt@),
            alpha > i32::MIN,
            beta > i32::MIN,
        ensures
            final(pos)@ == old(pos)@,
            tt_ok(final(self).tt@),
            final(info).limits == old(info).limits,
            r > i32::MIN,
            (is_repetition_spec(old(pos)@) || old(pos)@.state.rule50 >= 100) ==> r == VALUE_DRAW,
            old(info).stopped ==> final(info).stopped && r == 0,
            (!old(info).stopped && old(info).limits.nodes is None && old(info).limits.movetime is None)
                ==> !final(info).stopped,
            !final(info).stopped ==> (r as int, final(self).tt@) == negamax_value(
                old(pos)@,
                old(self).tt@,
                depth as int,
                alpha as int,
                beta as int,
            ),
        decreases depth,
    {
        let mut a = alpha;
        if info.should_stop() {
            return 0;
        }
        info.nodes = info.nodes.wrapping_add(1);
        if pos.is_repetition() || pos.fifty_move_rule() {
            return VALUE_DRAW;
        }
        let tt_hit = self.tt.probe(pos.key());
        if let Some(entry) = tt_hit {
            if entry.depth() >= depth {
                let tt_value = entry.value();
                match entry.bound() {
                    Bound::Exact => {
                        return tt_value;
                    },
                    Bound::Lower => {
                        if tt_value >= beta {
                            return tt_value;
                        }
                    },
                    Bound::Upper => {
                        if tt_value <= a {
                            return tt_value;
                        }
                    },
                    _ => {},
                }
            }
        }
        proof {
            assert(tt_cutoff(self.tt@, pos@.state.key, depth as int, alpha as int, beta as int) is None);
        }
        if depth <= 0 {
            let ghost f = choose|f: nat| qs_ok(pos@, f);
            return self.quiescence(pos, a, beta, info, Ghost(f));
        }
        let ghost v = pos@;
        let ghost t0 = self.tt@;
        let mut move_list = MoveList::new();
        generate_legal_moves(pos, &mut move_list);
        let ghost moves = move_list@;
        proof {
            assert(moves =~= legal_moves_spec(v, Seq::empty()));
        }
        if move_list.is_empty() {
            return if pos.in_check() {
                -MATE_SCORE + pos.ply() as Value
            } else {
                VALUE_DRAW
            };
        }
        let tt_move = match tt_hit {
            Some(e) => e.get_move(),
            None => Move::none(),
        };
        self.order_moves(&mut move_list, tt_move);
        let mut best_score = -VALUE_INFINITE;
        let mut best_move = Move::none();
        let mut bound = Bound::Upper;
        let n = move_list.len();
        let mut i: usize = 0;
        let mut cutoff = false;
        let ghost whole = negamax_loop(v, moves, 0, t0, depth as int, alpha as int, beta as int, -32001, Move(0), Bound::Upper);
        while i < n && !cutoff
            invariant
                i <= n,
                n == moves.len(),
                move_list@ == moves,
                moves == legal_moves_spec(v, Seq::empty()),
                search_ok(v, depth as int),
                0 < depth <= 124,
                pos@ == v,
                v == old(pos)@,
                t0 == old(self).tt@,
                whole == negamax_loop(v, moves, 0, t0, depth as int, alpha as int, beta as int, -32001, Move(0), Bound::Upper),
                tt_ok(self.tt@),
                info.limits == old(info).limits,
                !old(info).stopped,
                (old(info).limits.nodes is None && old(info).limits.movetime is None) ==> !info.stopped,
                a > i32::MIN,
                beta > i32::MIN,
                best_score > i32::MIN,
                !info.stopped && !cutoff ==> whole == negamax_loop(
                    v,
                    moves,
                    i as int,
                    self.tt@,
                    depth as int,
                    a as int,
                    beta as int,
                    best_score as int,
                    best_move,
                    bound,
                ),
                !info.stopped && cutoff ==> whole == (best_score as int, best_move, bound, self.tt@),
            decreases n - i + (if cutoff { 0int } else { 1int }),
        {
            let m = move_list.get(i);
            proof {
                assert(do_move_ok(v, moves[i as int]));
                lemma_undo_after_do(v, m);
            }
            let ghost t_before = self.tt@;
            let ghost stopped_before = info.stopped;
            let ghost a_before = a;
            let ghost best_before = best_score;
            let ghost bm_before = best_move;
            let ghost bound_before = bound;
            pos.do_move(m);
            let child = self.negamax(pos, depth - 1, -beta, -a, info);
            let score = -child;
            pos.undo_move(m);
            if score > best_score {
                best_score = score;
                best_move = m;
                if score > a {
                    a = score;
                    bound = Bound::Exact;
                    if score >= beta {
                        bound = Bound::Lower;
                        cutoff = true;
                    }
                }
            }
            proof {
                if !info.stopped {
                    assert(!stopped_before);
                    assert(m == moves[i as int]);
                    let c = negamax_value(do_move_spec(v, m), t_before, depth - 1, -beta, -a_before);
                    assert(child as int == c.0 && self.tt@ == c.1);
                    assert(whole == negamax_loop(v, moves, i as int, t_before, depth as int, a_before as int,
                        beta as int, best_before as int, bm_before, bound_before));
                }
            }
            if !cutoff {
                i = i + 1;
            }
        }
        let ghost t_end = self.tt@;
        proof {
            if !info.stopped {
                assert(whole == (best_score as int, best_move, bound, t_end));
            }
        }
        let eval = evaluate(pos);
        self.tt.store(pos.key(), best_score, eval, depth, best_move, bound);
        best_score
    }

    /// One iteration of iterative deepening at `depth`, from a full window.
    /// Gives `None` when the search is stopped, before or during the
    /// iteration; else the score, and when the table holds a move for the
    /// position, that move and score become the best ones.
    pub fn search_iteration(
        &mut self,
        pos: &mut Position,
        depth: Depth,
        info: &mut SearchInfo,
        best_move: &mut Move,
        best_score: &mut Value,
    ) -> (r: Option<Value>)
        requires
            search_ok(old(pos)@, depth as int),
            1 <= depth <= 124,
            tt_ok(old(self).tt@),
        ensures
            final(pos)@ == old(pos)@,
            tt_ok(final(self).tt@),
            r is None <==> final(info).stopped,
            final(info).limits == old(info).limits,
            (!old(info).stopped && old(info).limits.nodes is None && old(info).limits.movetime is None) ==> r is Some,
            r matches Some(score) ==> (score as int, final(self).tt@) == negamax_value(
                old(pos)@,
                old(self).tt@,
                depth as int,
                -32001,
                32001,
            ),
            match r {
                None => *final(best_move) == *old(best_move) && *final(best_score) == *old(best_score),
                Some(score) => match probe_spec(final(self).tt@, old(pos)@.state.key) {
                    Some(e) => if e.move16 != 0 && e.move16 != 65 {
                        final(best_move).0 == e.move16 && *final(best_score) == score
                    } else {
                        *final(best_move) == *old(best_move) && *final(best_score) == *old(best_score)
                    },
                    None => *final(best_move) == *old(best_move) && *final(best_score) == *old(best_score),
                },
            },
    {
        if info.should_stop() {
            return None;
        }
        let score = self.negamax(pos, depth, -VALUE_INFINITE, VALUE_INFINITE, info);
        if info.stopped {
            return None;
        }
        if let Some(tt_entry) = self.tt.probe(pos.key()) {
            let m = tt_entry.get_move();
            if m.is_ok() {
                *best_move = m;
                *best_score = score;
            }
        }
        Some(score)
    }

    /// Searches the captures from the position with a stand-pat bound,
    /// leaving the position as it found it.
    fn quiescence(
        &mut self,
        pos: &mut Position,
        alpha: Value,
        beta: Value,
        info: &mut SearchInfo,
        Ghost(fuel): Ghost<nat>,
    ) -> (r: Value)
        requires
            qs_ok(old(pos)@, fuel),
            alpha > i32::MIN,
            beta > i32::MIN,
        ensures
            final(pos)@ == old(pos)@,
            final(self).tt@ == old(self).tt@,
            final(info).limits == old(info).limits,
            r > i32::MIN,
            alpha < beta ==> (r == 0 || (alpha <= r && r <= beta)),
            old(info).stopped ==> final(info).stopped && r == 0,
            (!old(info).stopped && old(info).limits.nodes is None && old(info).limits.movetime is None)
                ==> !final(info).stopped,
            !final(info).stopped ==> r == qs_value(old(pos)@, alpha as int, beta as int, fuel),
        decreases fuel,
    {
        let old_alpha = alpha;
        let mut best = alpha;
        if info.should_stop() {
            return 0;
        }
        info.nodes = info.nodes.wrapping_add(1);
        let stand_pat = evaluate(pos);
        if stand_pat >= beta {
            return beta;
        }
        if best < stand_pat {
            best = stand_pat;
        }
        let ghost v = pos@;
        let mut move_list = MoveList::new();
        generate_captures(pos, &mut move_list);
        let ghost caps = move_list@;
        proof {
            assert(caps =~= gen_all_spec(v, GenType::Captures));
            assert(qs_value(v, old_alpha as int, beta as int, fuel) == qs_loop(v, caps, 0, best as int, beta as int, fuel));
        }
        let n = move_list.len();
        let mut i: usize = 0;
        while i < n
            invariant
                i <= n,
                n == caps.len(),
                move_list@ == caps,
                caps == gen_all_spec(v, GenType::Captures),
                qs_ok(v, fuel),
                pos@ == v,
                v == old(pos)@,
                self.tt@ == old(self).tt@,
                info.limits == old(info).limits,
                best > i32::MIN,
                beta > i32::MIN,
                best >= old_alpha,
                old_alpha < beta ==> best < beta,
                fuel > 0,
                old_alpha == alpha,
                !old(info).stopped,
                (old(info).limits.nodes is None && old(info).limits.movetime is None) ==> !info.stopped,
                !info.stopped ==> qs_value(v, old_alpha as int, beta as int, fuel) == qs_loop(
                    v,
                    caps,
                    i as int,
                    best as int,
                    beta as int,
                    fuel,
                ),
            decreases n - i,
        {
            let m = move_list.get(i);
            proof {
                assert(do_move_ok(v, caps[i as int]));
                lemma_undo_after_do(v, m);
            }
            pos.do_move(m);
            let ghost before = qs_loop(v, caps, i as int, best as int, beta as int, fuel);
            let child = self.quiescence(pos, -beta, -best, info, Ghost((fuel - 1) as nat));
            let score = -child;
            pos.undo_move(m);
            proof {
                if !info.stopped {
                    assert(m == caps[i as int]);
                    assert(score == -qs_value(do_move_spec(v, caps[i as int]), -beta, -best, (fuel - 1) as nat));
                    assert(before == (if score >= beta { beta as int } else { qs_loop(
                        v,
                        caps,
                        i + 1,
                        if score > best { score as int } else { best as int },
                        beta as int,
                        fuel,
                    ) }));
                }
            }
            if score >= beta {
                return beta;
            }
            if score > best {
                best = score;
            }
            i = i + 1;
        }
        best
    }
}

/// Stalemate and mate in the search: when the side to move has no legal
/// move, a search to depth 1 or more (with no draw by repetition or the
/// fifty-move rule, and no table cut-off) scores 0 if the side is not in
/// check and `-MATE_SCORE` plus the ply, being mated, if it is; the table is
/// left as it was.
pub proof fn lemma_no_legal_moves_value(v: PositionView, t: TTView, depth: int, alpha: int, beta: int)
    requires
        depth >= 1,
        legal_moves_spec(v, Seq::empty()).len() == 0,
        !is_repetition_spec(v),
        v.state.rule50 < 100,
        tt_cutoff(t, v.state.key, depth, alpha, beta) is None,
    ensures
        negamax_value(v, t, depth, alpha, beta).1 == t,
        v.state.checkers_bb == 0 ==> negamax_value(v, t, depth, alpha, beta).0 == 0,
        v.state.checkers_bb != 0 ==> negamax_value(v, t, depth, alpha, beta).0 == -(MATE_SCORE as int) + v.state.ply,
{
}

/// A fresh table cuts no search of depth 1 or more short: its entries are
/// empty, of depth 0.
pub proof fn lemma_fresh_table_no_cutoff(n: int, key: u64, depth: int, alpha: int, beta: int)
    requires
        n >= 1,
        depth >= 1,
    ensures
        tt_cutoff(fresh_table(n), key, depth, alpha, beta) is None,
{
    let t = fresh_table(n);
    let i = cluster_index(key, n);
    assert(0 <= i < n) by (nonlinear_arith)
        requires
            i == (key as int * n) / 0x1_0000_0000_0000_0000,
            n >= 1,
            0 <= key < 0x1_0000_0000_0000_0000,
    ;
    assert(t.clusters[i] == empty_cluster());
    reveal_with_fuel(first_match, 4);
    match probe_spec(t, key) {
        Some(e) => {
            assert(e == empty_entry());
        },
        None => {},
    }
}

/// Draws in the search: a position repeated, or with the fifty-move counter
/// at 100 or more, scores 0 at every depth and in every window, and leaves the
/// table as it was.
pub proof fn lemma_draw_value(v: PositionView, t: TTView, depth: int, alpha: int, beta: int)
    requires
        is_repetition_spec(v) || v.state.rule50 >= 100,
    ensures
        negamax_value(v, t, depth, alpha, beta) == (0int, t),
{
}

proof fn lemma_qs_loop_bounds(v: PositionView, caps: Seq<Move>, i: int, alpha: int, beta: int, fuel: nat)
    requires
        alpha < beta,
    ensures
        alpha <= qs_loop(v, caps, i, alpha, beta, fuel) <= beta,
    decreases caps.len() - i,
{
    if i < 0 || i >= caps.len() || fuel == 0 {
    } else {
        let score = -qs_value(do_move_spec(v, caps[i]), -beta, -alpha, (fuel - 1) as nat);
        if score < beta {
            lemma_qs_loop_bounds(v, caps, i + 1, if score > alpha { score } else { alpha }, beta, fuel);
        }
    }
}

/// The quiescence search stands pat: in a window with `alpha < beta`, its
/// value is never above `beta` and never below the static evaluation or
/// `alpha`, whichever is larger, capped at `beta`.
pub proof fn lemma_quiescence_bounds(v: PositionView, alpha: int, beta: int, fuel: nat)
    requires
        alpha < beta,
    ensures
        qs_value(v, alpha, beta, fuel) <= beta,
        qs_value(v, alpha, beta, fuel) >= (if evaluate_spec(v) >= beta {
            beta
        } else if evaluate_spec(v) > alpha {
            evaluate_spec(v)
        } else {
            alpha
        }),
{
    let sp = evaluate_spec(v);
    if sp < beta {
        let a = if alpha < sp { sp } else { alpha };
        lemma_qs_loop_bounds(v, gen_all_spec(v, GenType::Captures), 0, a, beta, fuel);
    }
}

} // verus!
