use vstd::prelude::*;
use crate::board::board::{BoardState, in_check};
use crate::board::movement::{Move, MoveResult};
use crate::game::chess::{best_result, game_move, root_search, search_value};
use crate::board::board::{after_move, pseudo_moves};
use crate::game::position::{evaluation, is_endgame_state, keep_legal, legal_moves, material, position_move};
use crate::board::piece::opposite;
use crate::game::transposition_table::TTEntry;

verus! {

/// A position without legal moves is searched to its result, whatever the depth, the window
/// and the table: a mated side scores `-isize::MAX`, a stalemated side 0 (a draw); the table
/// is left as it was.
pub proof fn lemma_terminal_search_values(
    s: BoardState,
    depth: nat,
    alpha: int,
    beta: int,
    t: Seq<TTEntry>,
)
    requires
        legal_moves(s).len() == 0,
    ensures
        in_check(s) ==> search_value(s, depth, alpha, beta, t) == (-isize::MAX as int, t),
        !in_check(s) ==> search_value(s, depth, alpha, beta, t) == (0int, t),
{
}

/// At the root, a move that mates scores `isize::MAX`, above every other score, and a move
/// that stalemates scores 0, as a draw: the engine never takes a stalemate for a mate.
pub proof fn lemma_root_scores_of_game_ends(s: BoardState, m: Move, depth: nat, t: Seq<TTEntry>)
    ensures
        game_move(s, m).1 == MoveResult::CheckMate ==> -search_value(
            position_move(s, m).0,
            depth,
            isize::MIN + 1,
            isize::MAX as int,
            t,
        ).0 == isize::MAX,
        game_move(s, m).1 == MoveResult::Draw ==> -search_value(
            position_move(s, m).0,
            depth,
            isize::MIN + 1,
            isize::MAX as int,
            t,
        ).0 == 0,
{
    let next = position_move(s, m).0;
    if game_move(s, m).1 == MoveResult::CheckMate || game_move(s, m).1 == MoveResult::Draw {
        assert(position_move(s, m).1 != MoveResult::Illegal);
        lemma_terminal_search_values(next, depth, isize::MIN + 1, isize::MAX as int, t);
    }
}

/// Keeping the moves that leave the mover's king safe keeps each such move.
proof fn lemma_keep_legal_keeps(s: BoardState, moves: Seq<Move>, m: Move)
    requires
        moves.contains(m),
        !in_check(after_move(s, m).0),
    ensures
        keep_legal(s, moves).contains(m),
    decreases moves.len(),
{
    let rest = keep_legal(s, moves.drop_last());
    let last = moves.last();
    let tail = if !in_check(after_move(s, last).0) {
        seq![last]
    } else {
        seq![]
    };
    assert(keep_legal(s, moves) == rest + tail);
    if last == m {
        assert((rest + tail)[rest.len() as int] == m);
    } else {
        let i = choose|i: int| 0 <= i < moves.len() && moves[i] == m;
        assert(moves.drop_last()[i] == m);
        lemma_keep_legal_keeps(s, moves.drop_last(), m);
        let j = choose|j: int| 0 <= j < rest.len() && rest[j] == m;
        assert((rest + tail)[j] == m);
    }
}

/// Every generated move that does not leave the mover's king attacked is legal: the legal
/// moves are exactly the generated moves that keep the king safe.
pub proof fn lemma_safe_moves_legal(s: BoardState, m: Move)
    requires
        pseudo_moves(s).contains(m),
        !in_check(after_move(s, m).0),
    ensures
        legal_moves(s).contains(m),
{
    lemma_keep_legal_keeps(s, pseudo_moves(s), m);
}

/// The material count seen from the other side is the negation.
proof fn lemma_material_other_side(s: BoardState, n: nat, endgame: bool)
    ensures
        material(BoardState { turn: opposite(s.turn), ..s }, n, endgame) == -material(s, n, endgame),
    decreases n,
{
    if n > 0 {
        lemma_material_other_side(s, (n - 1) as nat, endgame);
        assert(opposite(opposite(s.turn)) == s.turn) by {
            match s.turn {
                crate::board::piece::Color::White => {},
                crate::board::piece::Color::Black => {},
            }
        }
    }
}

/// The evaluation is zero-sum: seen from the other side, the same position is worth exactly
/// the negation of what it is worth to the side to move.
pub proof fn lemma_evaluation_zero_sum(s: BoardState)
    ensures
        evaluation(BoardState { turn: opposite(s.turn), ..s }) == -evaluation(s),
{
    let t = BoardState { turn: opposite(s.turn), ..s };
    assert(is_endgame_state(t) == is_endgame_state(s));
    lemma_material_other_side(s, 6, is_endgame_state(s));
}

/// The score of the `i`-th root move, searched with the table the moves before it left.
#[verifier::opaque]
pub open spec fn root_move_score(s: BoardState, moves: Seq<Move>, i: int, depth: nat, t: Seq<TTEntry>) -> int {
    -search_value(
        position_move(s, moves[i]).0,
        (depth - 1) as nat,
        isize::MIN + 1,
        isize::MAX as int,
        root_search(s, moves, i as nat, depth, t).2,
    ).0
}

/// The root search keeps the best: its score is at least that of every move it searched,
/// and, where some move scores above `isize::MIN`, it is the score of the move it returns,
/// the first of the best.
#[verifier::rlimit(40)]
pub proof fn lemma_root_search_keeps_best(s: BoardState, moves: Seq<Move>, k: nat, depth: nat, t: Seq<TTEntry>)
    requires
        k <= moves.len(),
    ensures
        forall|i: int|
            0 <= i < k ==> #[trigger] root_move_score(s, moves, i, depth, t) <= root_search(
                s,
                moves,
                k,
                depth,
                t,
            ).1,
        root_search(s, moves, k, depth, t).1 == isize::MIN || exists|i: int|
            0 <= i < k && root_search(s, moves, k, depth, t).0 == moves[i]
                && root_move_score(s, moves, i, depth, t) == root_search(s, moves, k, depth, t).1
                && forall|j: int| 0 <= j < i ==> #[trigger] root_move_score(s, moves, j, depth, t)
                < root_search(s, moves, k, depth, t).1,
    decreases k,
{
    if k > 0 {
        lemma_root_search_keeps_best(s, moves, (k - 1) as nat, depth, t);
        let prev = root_search(s, moves, (k - 1) as nat, depth, t);
        let score = root_move_score(s, moves, k - 1, depth, t);
        assert(score == -search_value(
            position_move(s, moves[k - 1]).0,
            (depth - 1) as nat,
            isize::MIN + 1,
            isize::MAX as int,
            prev.2,
        ).0) by {
            reveal(root_move_score);
        }
        if score > prev.1 {
            assert(forall|j: int| 0 <= j < k - 1 ==> #[trigger] root_move_score(s, moves, j, depth, t) <= prev.1);
        } else if prev.1 != isize::MIN {
            let i = choose|i: int|
                0 <= i < k - 1 && prev.0 == moves[i] && root_move_score(s, moves, i, depth, t) == prev.1
                    && forall|j: int| 0 <= j < i ==> #[trigger] root_move_score(s, moves, j, depth, t) < prev.1;
            assert(0 <= i < k && root_search(s, moves, k, depth, t).0 == moves[i]);
        }
    }
}

/// The pick among the threads' results keeps the best: its score is at least every result's,
/// and it is the first result of that score unless no score is above `isize::MIN`.
pub proof fn lemma_best_result_keeps_best(first: Move, results: Seq<(Move, isize)>, k: nat)
    requires
        k <= results.len(),
    ensures
        forall|i: int| 0 <= i < k ==> #[trigger] results[i].1 <= best_result(first, results, k).1,
        best_result(first, results, k).1 == isize::MIN || exists|i: int|
            0 <= i < k && best_result(first, results, k).0 == results[i].0 && results[i].1
                == best_result(first, results, k).1 && forall|j: int| 0 <= j < i ==> #[trigger] results[j].1
                < best_result(first, results, k).1,
    decreases k,
{
    if k > 0 {
        lemma_best_result_keeps_best(first, results, (k - 1) as nat);
        let prev = best_result(first, results, (k - 1) as nat);
        if results[k - 1].1 > prev.1 {
            assert(forall|j: int| 0 <= j < k - 1 ==> #[trigger] results[j].1 <= prev.1);
        } else if prev.1 != isize::MIN {
            let i = choose|i: int|
                0 <= i < k - 1 && prev.0 == results[i].0 && results[i].1 == prev.1 && forall|j: int|
                    0 <= j < i ==> #[trigger] results[j].1 < prev.1;
            assert(0 <= i < k);
        }
    }
}

} // verus!
