use vstd::prelude::*;
use crate::board::board::{
    Board, BoardState, after_turn, consistent, fen_outcome, in_check, initial_state, moves_defined,
    pseudo_moves,
};
use crate::board::movement::{Move, MoveResult};
use crate::board::piece::Color;
use crate::game::position::{
    Position, evaluation, legal, legal_moves, lemma_legal_moves_playable, lemma_legal_moves_safe,
    position_move,
};
use crate::game::transposition_table::{
    Bound, TTEntry, TranspositionTable, empty_entry, lookup, stored,
};

verus! {

/// Every score stored in the table is above `isize::MIN`, so that it can be negated.
pub open spec fn scores_ok(t: Seq<TTEntry>) -> bool {
    forall|i: int| 0 <= i < t.len() ==> (#[trigger] t[i]).score > isize::MIN
}

/// The positions that counting move sequences of `depth` plies from `s` visits can all have
/// their moves played (at depth 0 nothing is looked at).
pub open spec fn perft_defined(s: BoardState, depth: nat) -> bool
    decreases depth,
{
    depth == 0 || (moves_defined(s) && forall|i: int|
        0 <= i < legal_moves(s).len() ==> perft_defined(
            position_move(s, #[trigger] legal_moves(s)[i]).0,
            (depth - 1) as nat,
        ))
}

/// Playing `m` in `s` and then looking for a mate or a stalemate can be done: the moves of
/// `s`, and of the position the move leads to, can all be played.
pub open spec fn game_move_defined(s: BoardState, m: Move) -> bool {
    moves_defined(s) && moves_defined(position_move(s, m).0)
}

/// The contents of a new transposition table of a search thread.
pub open spec fn fresh_table() -> Seq<TTEntry> {
    Seq::new(vstd::arithmetic::power2::pow2(24), |j: int| empty_entry())
}

/// Playing a move keeps a consistent position consistent.
pub proof fn lemma_position_move_consistent(s: BoardState, m: Move)
    requires
        consistent(s),
    ensures
        consistent(position_move(s, m).0),
{
    if legal(s, m) {
        lemma_legal_moves_safe(s, m);
        crate::board::board::lemma_consistent_after_turn(s, m);
    }
}

/// Counting move sequences from a consistent position can be carried out.
pub proof fn lemma_consistent_perft_defined(s: BoardState, depth: nat)
    requires
        consistent(s),
    ensures
        perft_defined(s, depth),
    decreases depth,
{
    crate::board::board::lemma_consistent_moves_defined(s);
    if depth > 0 {
        assert forall|i: int| 0 <= i < legal_moves(s).len() implies perft_defined(
            position_move(s, #[trigger] legal_moves(s)[i]).0,
            (depth - 1) as nat,
        ) by {
            lemma_position_move_consistent(s, legal_moves(s)[i]);
            lemma_consistent_perft_defined(position_move(s, legal_moves(s)[i]).0, (depth - 1) as nat);
        }
    }
}

/// A search from a consistent position reaches only positions whose moves can be played.
pub proof fn lemma_consistent_visits_defined(s: BoardState, depth: nat, alpha: int, beta: int, t: Seq<TTEntry>)
    requires
        consistent(s),
    ensures
        visits_defined(s, depth, alpha, beta, t),
    decreases depth, 1nat, 0nat,
{
    crate::board::board::lemma_consistent_moves_defined(s);
    let moves = legal_moves(s);
    if moves.len() != 0 && depth != 0 {
        let (answered, score, a, b) = table_probe(t, s.hash, depth, alpha, beta);
        lemma_consistent_children_defined(s, moves, 0, depth, a, b, isize::MIN as int, t);
    }
}

/// Searching moves from a consistent position reaches only positions whose moves can be
/// played.
pub proof fn lemma_consistent_children_defined(
    s: BoardState,
    moves: Seq<Move>,
    k: nat,
    depth: nat,
    alpha: int,
    beta: int,
    best: int,
    t: Seq<TTEntry>,
)
    requires
        consistent(s),
    ensures
        children_defined(s, moves, k, depth, alpha, beta, best, t),
    decreases depth, 0nat, moves.len() - k,
{
    if k < moves.len() && depth != 0 {
        let child = position_move(s, moves[k as int]).0;
        lemma_position_move_consistent(s, moves[k as int]);
        lemma_consistent_visits_defined(child, (depth - 1) as nat, -beta, -alpha, t);
        let (v, t1) = search_value(child, (depth - 1) as nat, -beta, -alpha, t);
        let score = -v;
        let best1 = if best <= score {
            score
        } else {
            best
        };
        let alpha1 = max(alpha, score);
        if alpha1 < beta {
            lemma_consistent_children_defined(s, moves, k + 1, depth, alpha1, beta, best1, t1);
        }
    }
}


/// The bound recorded for a search result `best` found in the window from `alpha` to `beta`.
pub open spec fn bound_of(best: int, alpha: int, beta: int) -> Bound {
    if best <= alpha {
        Bound::Upper
    } else if best >= beta {
        Bound::Lower
    } else {
        Bound::Exact
    }
}

pub open spec fn max(a: int, b: int) -> int {
    if a >= b {
        a
    } else {
        b
    }
}

pub open spec fn min(a: int, b: int) -> int {
    if a <= b {
        a
    } else {
        b
    }
}

/// The negamax value of `s` searched `depth` plies deep in the window from `alpha` to `beta`
/// with the transposition table `t`, and the table afterwards: a mated side scores
/// `-isize::MAX`, a stalemate 0, a leaf its static evaluation; a stored entry at least as deep
/// answers or narrows the window; otherwise the legal moves are searched in order (cutting
/// off once the window closes) and the result is stored.
pub open spec fn search_value(s: BoardState, depth: nat, alpha: int, beta: int, t: Seq<TTEntry>) -> (int, Seq<TTEntry>)
    decreases depth, 1nat, 0nat,
{
    let moves = legal_moves(s);
    if in_check(s) && moves.len() == 0 {
        (-isize::MAX as int, t)
    } else if !in_check(s) && moves.len() == 0 {
        (0, t)
    } else if depth == 0 {
        (evaluation(s), t)
    } else {
        let (answered, score, a, b) = table_probe(t, s.hash, depth, alpha, beta);
        if answered {
            (score, t)
        } else {
            let (best, t2) = search_moves(s, moves, 0, depth, a, b, isize::MIN as int, t);
            (
                best,
                stored(
                    t2,
                    TTEntry {
                        hash: s.hash,
                        depth: depth as u8,
                        score: best as isize,
                        bound: bound_of(best, alpha, beta),
                    },
                ),
            )
        }
    }
}

/// Consulting the table `t` for `hash` at `depth` with the window from `alpha` to `beta`:
/// whether a stored entry at least as deep answers the search, with which score, and
/// otherwise the window narrowed by it.
pub open spec fn table_probe(t: Seq<TTEntry>, hash: u64, depth: nat, alpha: int, beta: int) -> (bool, int, int, int) {
    match lookup(t, hash) {
        Some(e) => if e.depth >= depth {
            if e.bound == Bound::Exact {
                (true, e.score as int, alpha, beta)
            } else {
                let a = if e.bound == Bound::Lower {
                    max(alpha, e.score as int)
                } else {
                    alpha
                };
                let b = if e.bound == Bound::Upper {
                    min(beta, e.score as int)
                } else {
                    beta
                };
                (a >= b, e.score as int, a, b)
            }
        } else {
            (false, 0, alpha, beta)
        },
        None => (false, 0, alpha, beta),
    }
}

/// Searching the moves of `moves` from the `k`-th on, with the best score so far `best`.
pub open spec fn search_moves(
    s: BoardState,
    moves: Seq<Move>,
    k: nat,
    depth: nat,
    alpha: int,
    beta: int,
    best: int,
    t: Seq<TTEntry>,
) -> (int, Seq<TTEntry>)
    decreases depth, 0nat, moves.len() - k,
{
    if k >= moves.len() || depth == 0 {
        (best, t)
    } else {
        let child = position_move(s, moves[k as int]).0;
        let (v, t1) = search_value(child, (depth - 1) as nat, -beta, -alpha, t);
        let score = -v;
        let best1 = if best <= score {
            score
        } else {
            best
        };
        let alpha1 = max(alpha, score);
        if alpha1 >= beta {
            (best1, t1)
        } else {
            search_moves(s, moves, k + 1, depth, alpha1, beta, best1, t1)
        }
    }
}

/// The positions that the search of `search_value` visits can all have their moves played:
/// `s` itself, and the children it searches before the window closes.
pub open spec fn visits_defined(s: BoardState, depth: nat, alpha: int, beta: int, t: Seq<TTEntry>) -> bool
    decreases depth, 1nat, 0nat,
{
    &&& moves_defined(s)
    &&& (legal_moves(s).len() != 0 && depth != 0) ==> {
        let (answered, score, a, b) = table_probe(t, s.hash, depth, alpha, beta);
        answered || children_defined(s, legal_moves(s), 0, depth, a, b, isize::MIN as int, t)
    }
}

/// The positions that `search_moves` visits from its `k`-th move on can all have their
/// moves played.
pub open spec fn children_defined(
    s: BoardState,
    moves: Seq<Move>,
    k: nat,
    depth: nat,
    alpha: int,
    beta: int,
    best: int,
    t: Seq<TTEntry>,
) -> bool
    decreases depth, 0nat, moves.len() - k,
{
    if k >= moves.len() || depth == 0 {
        true
    } else {
        let child = position_move(s, moves[k as int]).0;
        let (v, t1) = search_value(child, (depth - 1) as nat, -beta, -alpha, t);
        let score = -v;
        let best1 = if best <= score {
            score
        } else {
            best
        };
        let alpha1 = max(alpha, score);
        &&& visits_defined(child, (depth - 1) as nat, -beta, -alpha, t)
        &&& alpha1 < beta ==> children_defined(s, moves, k + 1, depth, alpha1, beta, best1, t1)
    }
}

/// The positions that the root search of the first `k` moves visits can all have their
/// moves played: `s`, and what each of them visits with the table the ones before left.
pub open spec fn root_defined(s: BoardState, moves: Seq<Move>, k: nat, depth: nat, t: Seq<TTEntry>) -> bool
    decreases k,
{
    if k == 0 || k > moves.len() {
        moves_defined(s)
    } else {
        &&& root_defined(s, moves, (k - 1) as nat, depth, t)
        &&& visits_defined(
            position_move(s, moves[k - 1]).0,
            (depth - 1) as nat,
            isize::MIN + 1,
            isize::MAX as int,
            root_search(s, moves, (k - 1) as nat, depth, t).2,
        )
    }
}

/// Where the search of the `k`-th move reaches a position whose moves cannot all be played,
/// so does the search of the moves from the `k`-th on.
proof fn lemma_children_undefined(
    s: BoardState,
    moves: Seq<Move>,
    k: nat,
    depth: nat,
    alpha: int,
    beta: int,
    best: int,
    t: Seq<TTEntry>,
)
    requires
        k < moves.len(),
        depth > 0,
        !visits_defined(position_move(s, moves[k as int]).0, (depth - 1) as nat, -beta, -alpha, t),
    ensures
        !children_defined(s, moves, k, depth, alpha, beta, best, t),
{
}

/// A root search that can be carried out over some moves can be carried out over fewer.
proof fn lemma_root_defined_prefix(s: BoardState, moves: Seq<Move>, k: nat, n: nat, depth: nat, t: Seq<TTEntry>)
    requires
        k <= n <= moves.len(),
        root_defined(s, moves, n, depth, t),
    ensures
        root_defined(s, moves, k, depth, t),
    decreases n - k,
{
    if k < n {
        lemma_root_defined_prefix(s, moves, k, (n - 1) as nat, depth, t);
    }
}

/// The number of move sequences of `depth` plies from `s`.
pub open spec fn perft(s: BoardState, depth: nat) -> nat
    decreases depth, 1nat, 0nat,
{
    if depth == 0 {
        1
    } else {
        perft_moves(s, legal_moves(s), legal_moves(s).len(), depth)
    }
}

/// The number of move sequences of `depth` plies from `s` that start with one of the first
/// `k` of `moves`.
pub open spec fn perft_moves(s: BoardState, moves: Seq<Move>, k: nat, depth: nat) -> nat
    decreases depth, 0nat, k,
{
    if k == 0 || depth == 0 || k > moves.len() {
        0
    } else {
        perft_moves(s, moves, (k - 1) as nat, depth) + perft(
            position_move(s, moves[k - 1]).0,
            (depth - 1) as nat,
        )
    }
}

/// The best of the first `k` root moves searched `depth` plies deep: the first move whose
/// score is strictly above all before it.
pub open spec fn root_search(
    s: BoardState,
    moves: Seq<Move>,
    k: nat,
    depth: nat,
    t: Seq<TTEntry>,
) -> (Move, int, Seq<TTEntry>)
    decreases k,
{
    if k == 0 || k > moves.len() {
        (moves[0], isize::MIN as int, t)
    } else {
        let (m0, best, t0) = root_search(s, moves, (k - 1) as nat, depth, t);
        let m = moves[k - 1];
        let (v, t1) = search_value(
            position_move(s, m).0,
            (depth - 1) as nat,
            isize::MIN + 1,
            isize::MAX as int,
            t0,
        );
        let eval = -v;
        if eval > best {
            (m, eval, t1)
        } else {
            (m0, best, t1)
        }
    }
}

/// The game: a position, a transposition table per search thread, the number of threads and
/// the search depth.
pub struct Chess {
    position: Position,
    thread_tt: Vec<TranspositionTable>,
    threads: usize,
    depth: usize,
}

impl Chess {
    const TT_CAPACITY: usize = 24;

    pub closed spec fn wf(&self) -> bool {
        &&& self.position.wf()
        &&& self.thread_tt@.len() == self.threads
        &&& forall|i: int|
            0 <= i < self.thread_tt@.len() ==> (#[trigger] self.thread_tt@[i]).wf() && scores_ok(
                self.thread_tt@[i]@,
            )
    }

    /// The current position.
    pub closed spec fn state(&self) -> BoardState {
        self.position.state()
    }

    /// The contents of the transposition tables of the search threads.
    pub closed spec fn tables(&self) -> Seq<Seq<TTEntry>> {
        self.thread_tt@.map_values(|t: TranspositionTable| t@)
    }

    pub closed spec fn depth_spec(&self) -> usize {
        self.depth
    }

    pub closed spec fn threads_spec(&self) -> usize {
        self.threads
    }

    fn new_tables(threads: usize) -> (tables: Vec<TranspositionTable>)
        ensures
            tables@.len() == threads,
            forall|i: int|
                0 <= i < tables@.len() ==> (#[trigger] tables@[i]).wf() && scores_ok(tables@[i]@)
                    && tables@[i]@ == fresh_table(),
    {
        let mut thread_tt: Vec<TranspositionTable> = Vec::new();
        let mut i: usize = 0;
        while i < threads
            invariant
                i <= threads,
                thread_tt@.len() == i,
                forall|k: int|
                    0 <= k < thread_tt@.len() ==> (#[trigger] thread_tt@[k]).wf() && scores_ok(
                        thread_tt@[k]@,
                    ) && thread_tt@[k]@ == fresh_table(),
            decreases threads - i,
        {
            let t = TranspositionTable::new(Self::TT_CAPACITY);
            thread_tt.push(t);
            i = i + 1;
        }
        thread_tt
    }

    /// A game from the starting position, searching `depth` plies with `threads` threads.
    pub fn new(depth: usize, threads: usize) -> (c: Self)
        ensures
            c.wf(),
            c.state() == initial_state(),
            c.depth_spec() == depth,
            c.threads_spec() == threads,
            c.tables().len() == threads,
            forall|i: int| 0 <= i < threads ==> #[trigger] c.tables()[i] == fresh_table(),
    {
        let thread_tt = Self::new_tables(threads);
        let position = Position::new();
        Self { position, thread_tt, threads, depth }
    }

    /// A game from the position of a FEN record.
    pub fn _from_fen(fen: &str, depth: usize, threads: usize) -> (r: Result<Self, String>)
        requires
            fen_outcome(fen@) is Some,
        ensures
            match r {
                Ok(c) => fen_outcome(fen@) == Some(Ok::<BoardState, Seq<char>>(c.state()))
                    && c.depth_spec() == depth && c.threads_spec() == threads && c.wf()
                    && c.tables().len() == threads && forall|i: int|
                    0 <= i < threads ==> #[trigger] c.tables()[i] == fresh_table(),
                Err(e) => fen_outcome(fen@) == Some(Err::<BoardState, Seq<char>>(e@)),
            },
    {
        let position = Position::_from_fen(fen)?;
        let thread_tt = Self::new_tables(threads);
        Ok(Self { position, thread_tt, threads, depth })
    }
}

impl Chess {
    /// Looks the position up in the table: an entry at least as deep answers with its score
    /// when it is exact or when the window it narrows closes.
    fn probe_table(
        transposition_table: &mut TranspositionTable,
        position_hash: u64,
        depth: usize,
        alpha: isize,
        beta: isize,
    ) -> (r: (bool, isize, isize, isize))
        requires
            old(transposition_table).wf(),
            scores_ok(old(transposition_table)@),
            alpha > isize::MIN,
            beta > isize::MIN,
        ensures
            final(transposition_table)@ == old(transposition_table)@,
            final(transposition_table).wf(),
            (r.0, r.1 as int, r.2 as int, r.3 as int) == table_probe(
                old(transposition_table)@,
                position_hash,
                depth as nat,
                alpha as int,
                beta as int,
            ),
            r.0 ==> r.1 > isize::MIN,
            r.2 > isize::MIN,
            r.3 > isize::MIN,
    {
        let mut alpha = alpha;
        let mut beta = beta;
        if let Some(entry) = transposition_table.get(position_hash) {
            proof {
                let i = choose|i: int| 0 <= i < old(transposition_table)@.len() && old(transposition_table)@[i] == entry;
                assert(old(transposition_table)@[i].score > isize::MIN);
            }
            if entry.depth() as usize >= depth {
                match entry.bound() {
                    Bound::Exact => {
                        return (true, entry.score(), alpha, beta);
                    },
                    Bound::Lower => {
                        if entry.score() > alpha {
                            alpha = entry.score();
                        }
                        if alpha >= beta {
                            return (true, entry.score(), alpha, beta);
                        }
                    },
                    Bound::Upper => {
                        if entry.score() < beta {
                            beta = entry.score();
                        }
                        if alpha >= beta {
                            return (true, entry.score(), alpha, beta);
                        }
                    },
                }
                if alpha >= beta {
                    return (true, entry.score(), alpha, beta);
                }
                return (false, entry.score(), alpha, beta);
            }
        }
        (false, 0, alpha, beta)
    }

    /// Searches the moves of `legal_moves` in order: see `search_moves`. Nothing is returned
    /// where the search reaches a position whose moves cannot all be played.
    #[verifier::rlimit(100)]
    fn search_children(
        position: &mut Position,
        legal_moves: &Vec<Move>,
        depth: usize,
        alpha_in: isize,
        beta: isize,
        transposition_table: &mut TranspositionTable,
    ) -> (best: Option<isize>)
        requires
            old(position).wf(),
            moves_defined(old(position).state()),
            old(transposition_table).wf(),
            scores_ok(old(transposition_table)@),
            alpha_in > isize::MIN,
            beta > isize::MIN,
            depth > 0,
            legal_moves@ == crate::game::position::legal_moves(old(position).state()),
            legal_moves@.len() > 0,
        ensures
            final(position).wf(),
            final(position).state() == old(position).state(),
            final(position).saved() == old(position).saved(),
            final(transposition_table).wf(),
            scores_ok(final(transposition_table)@),
            best is Some <==> children_defined(
                old(position).state(),
                legal_moves@,
                0,
                depth as nat,
                alpha_in as int,
                beta as int,
                isize::MIN as int,
                old(transposition_table)@,
            ),
            best matches Some(b) ==> b > isize::MIN && (b as int, final(transposition_table)@)
                == search_moves(
                old(position).state(),
                legal_moves@,
                0,
                depth as nat,
                alpha_in as int,
                beta as int,
                isize::MIN as int,
                old(transposition_table)@,
            ),
        decreases depth, 0nat,
    {
        let ghost s = position.state();
        let ghost goal = search_moves(
            s,
            legal_moves@,
            0,
            depth as nat,
            alpha_in as int,
            beta as int,
            isize::MIN as int,
            transposition_table@,
        );
        let ghost ok = children_defined(
            s,
            legal_moves@,
            0,
            depth as nat,
            alpha_in as int,
            beta as int,
            isize::MIN as int,
            transposition_table@,
        );
        let mut alpha = alpha_in;
        let mut best = isize::MIN;
        let mut i: usize = 0;
        while i < legal_moves.len()
            invariant_except_break
                search_moves(
                    s,
                    legal_moves@,
                    i as nat,
                    depth as nat,
                    alpha as int,
                    beta as int,
                    best as int,
                    transposition_table@,
                ) == goal,
                children_defined(
                    s,
                    legal_moves@,
                    i as nat,
                    depth as nat,
                    alpha as int,
                    beta as int,
                    best as int,
                    transposition_table@,
                ) == ok,
            invariant
                0 < depth,
                i <= legal_moves@.len(),
                legal_moves@ == crate::game::position::legal_moves(s),
                legal_moves@.len() > 0,
                i > 0 ==> best > isize::MIN,
                alpha > isize::MIN,
                beta > isize::MIN,
                position.wf(),
                position.state() == s,
                s == old(position).state(),
                ok == children_defined(
                    s,
                    legal_moves@,
                    0,
                    depth as nat,
                    alpha_in as int,
                    beta as int,
                    isize::MIN as int,
                    old(transposition_table)@,
                ),
                goal == search_moves(
                    s,
                    legal_moves@,
                    0,
                    depth as nat,
                    alpha_in as int,
                    beta as int,
                    isize::MIN as int,
                    old(transposition_table)@,
                ),
                position.saved() == old(position).saved(),
                moves_defined(s),
                transposition_table.wf(),
                scores_ok(transposition_table@),
            ensures
                best > isize::MIN,
                (best as int, transposition_table@) == goal,
                ok,
            decreases legal_moves@.len() - i,
        {
            let m = legal_moves[i];
            proof {
                assert(legal_moves@.contains(m)) by {
                    assert(legal_moves@[i as int] == m);
                }
                lemma_legal_moves_playable(s, m);
            }
            let ghost t_before = transposition_table@;
            position.save();
            position.make_move(m);
            let r = Self::negamax(position, depth - 1, -beta, -alpha, transposition_table);
            position.undo();
            let v = match r {
                Some(v) => v,
                None => {
                    proof {
                        lemma_children_undefined(
                            s,
                            legal_moves@,
                            i as nat,
                            depth as nat,
                            alpha as int,
                            beta as int,
                            best as int,
                            t_before,
                        );
                    }
                    return None;
                },
            };
            let score = -v;
            if best <= score {
                best = score;
            }
            if score > alpha {
                alpha = score;
            }
            if alpha >= beta {
                break;
            }
            i = i + 1;
        }
        Some(best)
    }

    fn store_result(transposition_table: &mut TranspositionTable, entry: TTEntry)
        requires
            old(transposition_table).wf(),
            scores_ok(old(transposition_table)@),
            entry.score > isize::MIN,
        ensures
            final(transposition_table).wf(),
            scores_ok(final(transposition_table)@),
            final(transposition_table)@ == stored(old(transposition_table)@, entry),
    {
        transposition_table.insert(entry);
        assert forall|k: int| 0 <= k < transposition_table@.len() implies (
        #[trigger] transposition_table@[k]).score > isize::MIN by {
            assert(transposition_table@[k] == old(transposition_table)@[k]
                || transposition_table@[k] == entry);
        }
    }

    /// The negamax search with alpha-beta pruning and a transposition table: see
    /// `search_value`. The position is left as it was.
    #[verifier::rlimit(40)]
    fn negamax(
        position: &mut Position,
        depth: usize,
        alpha: isize,
        beta: isize,
        transposition_table: &mut TranspositionTable,
    ) -> (r: Option<isize>)
        requires
            old(position).wf(),
            old(transposition_table).wf(),
            scores_ok(old(transposition_table)@),
            alpha > isize::MIN,
            beta > isize::MIN,
        ensures
            final(position).wf(),
            final(position).state() == old(position).state(),
            final(position).saved() == old(position).saved(),
            final(transposition_table).wf(),
            scores_ok(final(transposition_table)@),
            r is Some <==> visits_defined(
                old(position).state(),
                depth as nat,
                alpha as int,
                beta as int,
                old(transposition_table)@,
            ),
            r matches Some(v) ==> v > isize::MIN && (v as int, final(transposition_table)@)
                == search_value(
                old(position).state(),
                depth as nat,
                alpha as int,
                beta as int,
                old(transposition_table)@,
            ),
        decreases depth, 1nat,
    {
        let ghost s = position.state();
        let ghost t0 = transposition_table@;
        if position.board().is_consistent() {
            proof {
                crate::board::board::lemma_consistent_moves_defined(s);
            }
        } else if !position.moves_defined_check() {
            return None;
        }
        if position.is_checkmate() {
            return Some(-isize::MAX);
        } else if position.is_stalemate() {
            return Some(0);
        }
        if depth == 0 {
            let v = position.evaluate();
            proof {
                let moves = legal_moves(s);
            }
            return Some(v);
        }
        let alpha_orig = alpha;
        let beta_orig = beta;
        let mut alpha = alpha;
        let mut beta = beta;
        let position_hash = position.hash();
        let legal_moves = position.find_legal_moves();
        let (answered, score, a, b) = Self::probe_table(
            transposition_table,
            position_hash,
            depth,
            alpha,
            beta,
        );
        if answered {
            return Some(score);
        }
        alpha = a;
        beta = b;
        let best = match Self::search_children(position, &legal_moves, depth, alpha, beta, transposition_table) {
            Some(b) => b,
            None => {
                return None;
            },
        };
        let bound = if best <= alpha_orig {
            Bound::Upper
        } else if best >= beta_orig {
            Bound::Lower
        } else {
            Bound::Exact
        };
        Self::store_result(transposition_table, TTEntry::new(position_hash, depth as u8, best, bound));
        Some(best)
    }
}

/// Playing `m` in a game: an illegal move changes nothing; after a legal one the result
/// tells whether the side now to move is mated or stalemated.
pub open spec fn game_move(s: BoardState, m: Move) -> (BoardState, MoveResult) {
    let (next, r) = position_move(s, m);
    if r == MoveResult::Illegal {
        (s, r)
    } else if in_check(next) && legal_moves(next).len() == 0 {
        (next, MoveResult::CheckMate)
    } else if !in_check(next) && legal_moves(next).len() == 0 {
        (next, MoveResult::Draw)
    } else {
        (next, r)
    }
}

/// The move of the best score among `results`, the first of equal best, or `first` when
/// no score is above `isize::MIN`; over the first `k` results.
pub open spec fn best_result(first: Move, results: Seq<(Move, isize)>, k: nat) -> (Move, int)
    decreases k,
{
    if k == 0 || k > results.len() {
        (first, isize::MIN as int)
    } else {
        let (m, best) = best_result(first, results, (k - 1) as nat);
        let (candidate, eval) = results[k - 1];
        if eval > best {
            (candidate, eval as int)
        } else {
            (m, best)
        }
    }
}

/// The number of moves per search thread: the moves shared out evenly, rounded up.
pub open spec fn chunk_len(n: int, threads: int) -> int {
    (n + threads - 1) / threads
}

impl Chess {
    /// Plays `movement` if it is legal; then reports a mate or a stalemate of the side now
    /// to move.
    pub fn make_move(&mut self, movement: Move) -> (r: MoveResult)
        requires
            old(self).wf(),
            movement.from.bitmap_ok(),
            game_move_defined(old(self).state(), movement),
        ensures
            final(self).wf(),
            final(self).depth_spec() == old(self).depth_spec(),
            final(self).threads_spec() == old(self).threads_spec(),
            final(self).tables() == old(self).tables(),
            (final(self).state(), r) == game_move(old(self).state(), movement),
    {
        let result = self.position.make_move(movement);
        if result == MoveResult::Illegal {
            return result;
        }
        if self.position.is_checkmate() {
            MoveResult::CheckMate
        } else if self.position.is_stalemate() {
            MoveResult::Draw
        } else {
            result
        }
    }

    pub fn board(&self) -> (b: &Board)
        ensures
            b@ == self.state(),
            self.wf() ==> b.wf(),
    {
        self.position.board()
    }

    pub fn position(&self) -> (p: &Position)
        ensures
            p.state() == self.state(),
            self.wf() ==> p.wf(),
    {
        &self.position
    }

    pub fn depth(&self) -> (d: usize)
        ensures
            d == self.depth_spec(),
    {
        self.depth
    }

    pub fn threads(&self) -> (t: usize)
        ensures
            t == self.threads_spec(),
    {
        self.threads
    }

    /// Starts the game again from the starting position.
    pub fn reset(&mut self)
        requires
            old(self).wf(),
        ensures
            final(self).wf(),
            final(self).state() == initial_state(),
            final(self).depth_spec() == old(self).depth_spec(),
            final(self).threads_spec() == old(self).threads_spec(),
            final(self).tables() == old(self).tables(),
    {
        self.position = Position::new();
    }

    /// The legal moves of the side to move.
    pub fn legal_moves(&mut self) -> (moves: Vec<Move>)
        requires
            old(self).wf(),
            moves_defined(old(self).state()),
        ensures
            final(self).wf(),
            final(self).state() == old(self).state(),
            final(self).depth_spec() == old(self).depth_spec(),
            final(self).threads_spec() == old(self).threads_spec(),
            final(self).tables() == old(self).tables(),
            moves@ == legal_moves(old(self).state()),
    {
        self.position.find_legal_moves()
    }

    fn perft_position(position: &mut Position, depth: usize) -> (n: usize)
        requires
            old(position).wf(),
            perft_defined(old(position).state(), depth as nat),
            perft(old(position).state(), depth as nat) <= usize::MAX,
        ensures
            final(position).wf(),
            final(position).state() == old(position).state(),
            final(position).saved() == old(position).saved(),
            n == perft(old(position).state(), depth as nat),
        decreases depth,
    {
        if depth == 0 {
            return 1;
        }
        let ghost s = position.state();
        let mut positions: usize = 0;
        let legal_moves = position.find_legal_moves();
        let mut i: usize = 0;
        while i < legal_moves.len()
            invariant
                0 < depth,
                i <= legal_moves@.len(),
                legal_moves@ == crate::game::position::legal_moves(s),
                positions == perft_moves(s, legal_moves@, i as nat, depth as nat),
                perft(s, depth as nat) <= usize::MAX,
                position.wf(),
                position.state() == s,
                position.saved() == old(position).saved(),
                perft_defined(s, depth as nat),
            decreases legal_moves@.len() - i,
        {
            let m = legal_moves[i];
            proof {
                assert(legal_moves@.contains(m)) by {
                    assert(legal_moves@[i as int] == m);
                }
                crate::game::position::lemma_legal_moves_playable(s, m);
                lemma_perft_moves_grows(s, legal_moves@, (i + 1) as nat, legal_moves@.len(), depth as nat);
                assert(perft_defined(position_move(s, crate::game::position::legal_moves(s)[i as int]).0, (depth - 1) as nat));
            }
            position.save();
            position.make_move(m);
            let count = Self::perft_position(position, depth - 1);
            positions = positions + count;
            position.undo();
            i = i + 1;
        }
        positions
    }

    /// The number of move sequences of `depth` plies from the current position.
    pub fn _perft(&mut self, depth: usize) -> (n: usize)
        requires
            old(self).wf(),
            perft_defined(old(self).state(), depth as nat),
            perft(old(self).state(), depth as nat) <= usize::MAX,
        ensures
            final(self).wf(),
            final(self).state() == old(self).state(),
            final(self).depth_spec() == old(self).depth_spec(),
            final(self).threads_spec() == old(self).threads_spec(),
            final(self).tables() == old(self).tables(),
            n == perft(old(self).state(), depth as nat),
    {
        Self::perft_position(&mut self.position, depth)
    }

    /// The number of move sequences of `depth` plies after each legal move, in the order of
    /// the legal moves.
    pub fn _perft_divide(&mut self, depth: usize) -> (counts: Vec<(Move, usize)>)
        requires
            old(self).wf(),
            depth > 0,
            perft_defined(old(self).state(), depth as nat),
            perft(old(self).state(), depth as nat) <= usize::MAX,
        ensures
            final(self).wf(),
            final(self).state() == old(self).state(),
            final(self).depth_spec() == old(self).depth_spec(),
            final(self).threads_spec() == old(self).threads_spec(),
            final(self).tables() == old(self).tables(),
            counts@.len() == legal_moves(old(self).state()).len(),
            forall|i: int|
                0 <= i < counts@.len() ==> #[trigger] counts@[i] == (
                    legal_moves(old(self).state())[i],
                    perft(
                        position_move(old(self).state(), legal_moves(old(self).state())[i]).0,
                        (depth - 1) as nat,
                    ) as usize,
                ),
    {
        let ghost s = self.position.state();
        let legal_moves = self.position.find_legal_moves();
        let mut counts: Vec<(Move, usize)> = Vec::new();
        let mut i: usize = 0;
        while i < legal_moves.len()
            invariant
                0 < depth,
                i <= legal_moves@.len(),
                legal_moves@ == crate::game::position::legal_moves(s),
                counts@.len() == i,
                forall|k: int|
                    0 <= k < i ==> #[trigger] counts@[k] == (
                        legal_moves@[k],
                        perft(position_move(s, legal_moves@[k]).0, (depth - 1) as nat) as usize,
                    ),
                perft(s, depth as nat) <= usize::MAX,
                self.wf(),
                self.position.state() == s,
                self.depth == old(self).depth,
                self.threads == old(self).threads,
                self.thread_tt == old(self).thread_tt,
                perft_defined(s, depth as nat),
            decreases legal_moves@.len() - i,
        {
            let m = legal_moves[i];
            proof {
                assert(legal_moves@.contains(m)) by {
                    assert(legal_moves@[i as int] == m);
                }
                crate::game::position::lemma_legal_moves_playable(s, m);
                lemma_perft_moves_grows(s, legal_moves@, (i + 1) as nat, legal_moves@.len(), depth as nat);
            }
            self.position.save();
            self.position.make_move(m);
            let count = Self::perft_position(&mut self.position, depth - 1);
            self.position.undo();
            counts.push((m, count));
            i = i + 1;
        }
        counts
    }

    /// Whether playing `movement` and then looking for a mate or a stalemate can be done.
    pub fn move_is_defined(&self, movement: Move) -> (b: bool)
        requires
            self.wf(),
        ensures
            b == game_move_defined(self.state(), movement),
    {
        let ghost s = self.state();
        let mut probe = self.position.clone();
        if !probe.moves_defined_check() {
            return false;
        }
        let (r, c) = (movement.from().row() as i16, movement.from().column() as i16);
        let index = c + r * 8;
        if !(-16 <= r && r <= 15 && 0 <= index && index < 64) {
            proof {
                if legal(s, movement) {
                    lemma_legal_moves_safe(s, movement);
                    let i = choose|i: int| 0 <= i < pseudo_moves(s).len() && pseudo_moves(s)[i] == movement;
                    assert(crate::board::board::make_move_defined(s, pseudo_moves(s)[i]));
                }
            }
            return true;
        }
        probe.make_move(movement);
        probe.moves_defined_check()
    }

    /// The number of moves each search thread takes.
    pub fn chunk_size(moves: usize, threads: usize) -> (n: usize)
        requires
            threads > 0,
        ensures
            n == chunk_len(moves as int, threads as int),
    {
        let q = moves / threads;
        let r = moves % threads;
        proof {
            let (n, t, qi, ri) = (moves as int, threads as int, q as int, r as int);
            vstd::arithmetic::div_mod::lemma_fundamental_div_mod(n, t);
            assert(t * qi == qi * t) by (nonlinear_arith);
            assert((qi + 1) * t == qi * t + t) by (nonlinear_arith);
            if ri != 0 {
                vstd::arithmetic::div_mod::lemma_fundamental_div_mod_converse(n + t - 1, t, qi + 1, ri - 1);
                assert(qi <= qi * t) by (nonlinear_arith)
                    requires
                        qi >= 0,
                        t >= 1,
                ;
            } else {
                vstd::arithmetic::div_mod::lemma_fundamental_div_mod_converse(n + t - 1, t, qi, t - 1);
            }
        }
        if r != 0 {
            q + 1
        } else {
            q
        }
    }

    /// The moves cut into consecutive runs of `chunk_size`, the last one possibly shorter.
    pub fn split_moves(moves: &Vec<Move>, chunk_size: usize) -> (chunks: Vec<Vec<Move>>)
        requires
            chunk_size > 0,
        ensures
            chunks@.len() == chunk_len(moves@.len() as int, chunk_size as int),
            forall|i: int|
                0 <= i < chunks@.len() ==> (#[trigger] chunks@[i])@ == moves@.subrange(
                    i * chunk_size,
                    min(i * chunk_size + chunk_size, moves@.len() as int),
                ),
    {
        let mut chunks: Vec<Vec<Move>> = Vec::new();
        let mut start: usize = 0;
        proof {
            assert(0 * chunk_size == 0) by (nonlinear_arith);
        }
        while start < moves.len()
            invariant
                chunk_size > 0,
                start <= moves@.len(),
                start == min(chunks@.len() * chunk_size, moves@.len() as int),
                chunks@.len() * chunk_size < moves@.len() + chunk_size,
                forall|i: int|
                    0 <= i < chunks@.len() ==> (#[trigger] chunks@[i])@ == moves@.subrange(
                        i * chunk_size,
                        min(i * chunk_size + chunk_size, moves@.len() as int),
                    ),
            decreases moves@.len() - start,
        {
            let end = if moves.len() - start < chunk_size {
                moves.len()
            } else {
                start + chunk_size
            };
            let mut chunk: Vec<Move> = Vec::new();
            let mut j = start;
            while j < end
                invariant
                    start <= j <= end,
                    end <= moves@.len(),
                    chunk@ == moves@.subrange(start as int, j as int),
                decreases end - j,
            {
                chunk.push(moves[j]);
                assert(chunk@ =~= moves@.subrange(start as int, (j + 1) as int));
                j = j + 1;
            }
            let ghost k = chunks@.len();
            chunks.push(chunk);
            proof {
                assert((k + 1) * chunk_size == k * chunk_size + chunk_size) by (nonlinear_arith);
                assert(chunks@[k as int]@ == moves@.subrange(
                    k * chunk_size,
                    min(k * chunk_size + chunk_size, moves@.len() as int),
                ));
            }
            start = end;
        }
        proof {
            let n = chunks@.len() as int;
            let len = moves@.len() as int;
            let cs = chunk_size as int;
            vstd::arithmetic::div_mod::lemma_fundamental_div_mod_converse(len + cs - 1, cs, n, len + cs - 1 - n * cs);
        }
        chunks
    }

    /// Hands out the transposition tables of the search threads; the game holds none until
    /// they are put back.
    pub fn take_tables(&mut self) -> (tables: Vec<TranspositionTable>)
        requires
            old(self).wf(),
        ensures
            tables@.len() == old(self).threads_spec(),
            forall|i: int|
                0 <= i < tables@.len() ==> (#[trigger] tables@[i]).wf() && scores_ok(tables@[i]@),
            final(self).state() == old(self).state(),
            final(self).depth_spec() == old(self).depth_spec(),
            final(self).threads_spec() == old(self).threads_spec(),
            final(self).tables_out(),
            forall|i: int| 0 <= i < tables@.len() ==> (#[trigger] tables@[i])@ == old(self).tables()[i],
    {
        let mut tables: Vec<TranspositionTable> = Vec::new();
        core::mem::swap(&mut tables, &mut self.thread_tt);
        tables
    }

    /// The game lacks only its tables to be well formed.
    pub closed spec fn tables_out(&self) -> bool {
        &&& self.position.wf()
    }

    /// Gives the transposition tables back to the game.
    pub fn put_tables(&mut self, tables: Vec<TranspositionTable>)
        requires
            old(self).tables_out(),
            tables@.len() == old(self).threads_spec(),
            forall|i: int|
                0 <= i < tables@.len() ==> (#[trigger] tables@[i]).wf() && scores_ok(tables@[i]@),
        ensures
            final(self).wf(),
            final(self).state() == old(self).state(),
            final(self).depth_spec() == old(self).depth_spec(),
            final(self).threads_spec() == old(self).threads_spec(),
            final(self).tables() == tables@.map_values(|t: TranspositionTable| t@),
    {
        self.thread_tt = tables;
    }

    /// The search of one thread: each of `moves` is played and searched `depth - 1` plies
    /// deeper with the full window; the first move of the best score is returned with it.
    /// Nothing is returned where the search reaches a position whose moves cannot all be
    /// played.
    #[verifier::rlimit(80)]
    pub fn search_moves(
        position: &mut Position,
        moves: &Vec<Move>,
        depth: usize,
        transposition_table: &mut TranspositionTable,
    ) -> (r: Option<(Move, isize)>)
        requires
            old(position).wf(),
            old(transposition_table).wf(),
            scores_ok(old(transposition_table)@),
            moves@.len() > 0,
            depth > 0,
            forall|i: int| 0 <= i < moves@.len() ==> (#[trigger] moves@[i]).from.bitmap_ok(),
        ensures
            final(position).wf(),
            final(position).state() == old(position).state(),
            final(position).saved() == old(position).saved(),
            final(transposition_table).wf(),
            scores_ok(final(transposition_table)@),
            r is Some <==> root_defined(
                old(position).state(),
                moves@,
                moves@.len(),
                depth as nat,
                old(transposition_table)@,
            ),
            r matches Some(x) ==> (x.0, x.1 as int, final(transposition_table)@) == root_search(
                old(position).state(),
                moves@,
                moves@.len(),
                depth as nat,
                old(transposition_table)@,
            ),
    {
        let ghost s = position.state();
        let ghost t0 = transposition_table@;
        if position.board().is_consistent() {
            proof {
                crate::board::board::lemma_consistent_moves_defined(s);
            }
        } else if !position.moves_defined_check() {
            proof {
                if root_defined(s, moves@, moves@.len(), depth as nat, t0) {
                    lemma_root_defined_prefix(s, moves@, 0, moves@.len(), depth as nat, t0);
                }
            }
            return None;
        }
        let mut best_move = moves[0];
        let mut best_eval = isize::MIN;
        let mut i: usize = 0;
        while i < moves.len()
            invariant
                0 < depth,
                0 < moves@.len(),
                i <= moves@.len(),
                forall|k: int| 0 <= k < moves@.len() ==> (#[trigger] moves@[k]).from.bitmap_ok(),
                (best_move, best_eval as int, transposition_table@) == root_search(
                    s,
                    moves@,
                    i as nat,
                    depth as nat,
                    t0,
                ),
                root_defined(s, moves@, i as nat, depth as nat, t0),
                s == old(position).state(),
                t0 == old(transposition_table)@,
                position.wf(),
                position.state() == s,
                position.saved() == old(position).saved(),
                moves_defined(s),
                transposition_table.wf(),
                scores_ok(transposition_table@),
            decreases moves@.len() - i,
        {
            let m = moves[i];
            let ghost saved0 = position.saved();
            position.save();
            position.make_move(m);
            let r = Self::negamax(position, depth - 1, isize::MIN + 1, isize::MAX, transposition_table);
            position.undo();
            proof {
                assert(position.saved() =~= saved0);
                assert(saved0.push(s).last() == s);
            }
            let v = match r {
                Some(v) => v,
                None => {
                    proof {
                        assert(!root_defined(s, moves@, (i + 1) as nat, depth as nat, t0));
                        if root_defined(s, moves@, moves@.len(), depth as nat, t0) {
                            lemma_root_defined_prefix(s, moves@, (i + 1) as nat, moves@.len(), depth as nat, t0);
                        }
                    }
                    return None;
                },
            };
            let eval = -v;
            if eval > best_eval {
                best_eval = eval;
                best_move = m;
            }
            i = i + 1;
        }
        Some((best_move, best_eval))
    }

    /// The move of the best score among the results of the search threads (the first of
    /// equal best) with its score, or the first legal move with `isize::MIN` if no score is
    /// above `isize::MIN`. Where every result's move is a legal move, so is the pick.
    pub fn pick_best(legal_moves: &Vec<Move>, results: &Vec<(Move, isize)>) -> (r: (Move, isize))
        requires
            legal_moves@.len() > 0,
        ensures
            (r.0, r.1 as int) == best_result(legal_moves@[0], results@, results@.len()),
            (forall|i: int| 0 <= i < results@.len() ==> legal_moves@.contains(#[trigger] results@[i].0))
                ==> legal_moves@.contains(r.0),
    {
        let first = legal_moves[0];
        let mut best_move = first;
        let mut best_eval = isize::MIN;
        let mut i: usize = 0;
        while i < results.len()
            invariant
                i <= results@.len(),
                first == legal_moves@[0],
                (best_move, best_eval as int) == best_result(first, results@, i as nat),
            decreases results@.len() - i,
        {
            let (m, eval) = results[i];
            if eval > best_eval {
                best_eval = eval;
                best_move = m;
            }
            i = i + 1;
        }
        proof {
            if forall|i: int| 0 <= i < results@.len() ==> legal_moves@.contains(#[trigger] results@[i].0) {
                assert(legal_moves@[0] == first);
                lemma_best_result_listed(first, results@, results@.len(), legal_moves@);
            }
        }
        (best_move, best_eval)
    }
}

proof fn lemma_perft_moves_grows(s: BoardState, moves: Seq<Move>, k: nat, n: nat, depth: nat)
    requires
        k <= n <= moves.len(),
    ensures
        perft_moves(s, moves, k, depth) <= perft_moves(s, moves, n, depth),
        k >= 1 && depth >= 1 ==> perft_moves(s, moves, (k - 1) as nat, depth) + perft(
            position_move(s, moves[k - 1]).0,
            (depth - 1) as nat,
        ) <= perft_moves(s, moves, n, depth),
    decreases n - k,
{
    if k < n {
        lemma_perft_moves_grows(s, moves, k, (n - 1) as nat, depth);
    }
}


/// A root search returns one of the moves it searched.
pub proof fn lemma_root_search_listed(
    s: BoardState,
    moves: Seq<Move>,
    k: nat,
    depth: nat,
    t: Seq<TTEntry>,
)
    requires
        moves.len() > 0,
    ensures
        moves.contains(root_search(s, moves, k, depth, t).0),
    decreases k,
{
    if k == 0 || k > moves.len() {
        assert(moves[0] == root_search(s, moves, k, depth, t).0);
    } else {
        lemma_root_search_listed(s, moves, (k - 1) as nat, depth, t);
        let r = root_search(s, moves, k, depth, t).0;
        if r == moves[k - 1] {
            assert(moves[k - 1] == r);
        }
    }
}

/// The pick among the threads' results is either the fallback move or one of the results'
/// moves; so, where all of them are listed in `moves`, the pick is listed too.
pub proof fn lemma_best_result_listed(
    first: Move,
    results: Seq<(Move, isize)>,
    k: nat,
    moves: Seq<Move>,
)
    requires
        moves.contains(first),
        forall|i: int| 0 <= i < results.len() ==> moves.contains(#[trigger] results[i].0),
    ensures
        moves.contains(best_result(first, results, k).0),
    decreases k,
{
    if k == 0 || k > results.len() {
    } else {
        lemma_best_result_listed(first, results, (k - 1) as nat, moves);
        assert(moves.contains(results[k - 1].0));
    }
}

/// A run of `chunk_size` moves cut at run `i` of fewer than `chunk_len` runs is not empty,
/// and each of its moves is one of `moves`.
proof fn lemma_chunk_within(moves: Seq<Move>, chunk_size: int, i: int)
    requires
        chunk_size > 0,
        0 <= i < chunk_len(moves.len() as int, chunk_size),
    ensures
        moves.subrange(i * chunk_size, min(i * chunk_size + chunk_size, moves.len() as int)).len() > 0,
        forall|j: int|
            0 <= j < moves.subrange(
                i * chunk_size,
                min(i * chunk_size + chunk_size, moves.len() as int),
            ).len() ==> moves.contains(
                #[trigger] moves.subrange(
                    i * chunk_size,
                    min(i * chunk_size + chunk_size, moves.len() as int),
                )[j],
            ),
{
    let len = moves.len() as int;
    let a = i * chunk_size;
    let q = (len + chunk_size - 1) / chunk_size;
    vstd::arithmetic::div_mod::lemma_fundamental_div_mod(len + chunk_size - 1, chunk_size);
    assert(0 <= a < len) by (nonlinear_arith)
        requires
            0 <= i < q,
            a == i * chunk_size,
            chunk_size > 0,
            chunk_size * q + (len + chunk_size - 1) % chunk_size == len + chunk_size - 1,
            0 <= (len + chunk_size - 1) % chunk_size,
    {
        assert(i * chunk_size <= (q - 1) * chunk_size);
    }
    let c = moves.subrange(a, min(a + chunk_size, len));
    assert forall|j: int| 0 <= j < c.len() implies moves.contains(#[trigger] c[j]) by {
        assert(moves[a + j] == c[j]);
    }
}

/// The threaded search plays one of the legal moves: the legal moves are cut into runs as
/// `split_moves` cuts them, each run is searched from the same position with a table of its
/// own, and the best of the runs' results, or the first legal move, is a legal move.
pub proof fn lemma_threaded_search_picks_legal(
    s: BoardState,
    chunk_size: int,
    chunks: Seq<Seq<Move>>,
    depth: nat,
    tables: Seq<Seq<TTEntry>>,
    results: Seq<(Move, isize)>,
)
    requires
        legal_moves(s).len() > 0,
        chunk_size > 0,
        chunks.len() == chunk_len(legal_moves(s).len() as int, chunk_size),
        forall|i: int|
            0 <= i < chunks.len() ==> #[trigger] chunks[i] == legal_moves(s).subrange(
                i * chunk_size,
                min(i * chunk_size + chunk_size, legal_moves(s).len() as int),
            ),
        results.len() == chunks.len(),
        tables.len() == chunks.len(),
        forall|i: int|
            0 <= i < results.len() ==> (#[trigger] results[i]).0 == root_search(
                s,
                chunks[i],
                chunks[i].len(),
                depth,
                tables[i],
            ).0,
    ensures
        legal_moves(s).contains(best_result(legal_moves(s)[0], results, results.len()).0),
{
    let moves = legal_moves(s);
    assert forall|i: int| 0 <= i < results.len() implies moves.contains(#[trigger] results[i].0) by {
        lemma_chunk_within(moves, chunk_size, i);
        let c = chunks[i];
        lemma_root_search_listed(s, c, c.len(), depth, tables[i]);
        let r = results[i].0;
        let j = choose|j: int| 0 <= j < c.len() && c[j] == r;
        assert(moves.contains(c[j]));
    }
    assert(moves[0] == moves[0]);
    lemma_best_result_listed(moves[0], results, results.len(), moves);
}

} // verus!
