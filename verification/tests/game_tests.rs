use chess_engine::board::movement::{Move, MoveResult};
use chess_engine::board::piece::{Color, Piece};
use chess_engine::board::square::Square;
use chess_engine::game::chess::Chess;
use chess_engine::game::position::Position;
use chess_engine::game::transposition_table::{Bound, TTEntry, TranspositionTable};
use chess_engine::game::zobrist::Zobrist;

fn mv(uci: &str) -> Move {
    Move::from_uci(uci).unwrap()
}

#[test]
fn position_start() {
    let mut p = Position::new();
    assert_eq!(p.find_legal_moves().len(), 20);
    assert!(!p.is_in_check());
    assert!(!p.is_checkmate());
    assert!(!p.is_stalemate());
    assert_eq!(p.evaluate(), 0);
}

#[test]
fn position_illegal_moves_change_nothing() {
    let mut p = Position::new();
    let h = p.hash();
    assert_eq!(p.make_move(mv("e2e5")), MoveResult::Illegal);
    assert_eq!(p.make_move(mv("e7e5")), MoveResult::Illegal);
    assert_eq!(p.hash(), h);
    assert_eq!(p.board().turn(), Color::White);
}

#[test]
fn position_save_undo_restores() {
    let mut p = Position::new();
    let h = p.hash();
    p.save();
    assert_eq!(p.make_move(mv("g1f3")), MoveResult::Played);
    assert_ne!(p.hash(), h);
    p.undo();
    assert_eq!(p.hash(), h);
    assert_eq!(p.board().turn(), Color::White);
    assert_eq!(p.find_legal_moves().len(), 20);
}

#[test]
fn position_hash_returns_with_the_position() {
    // The knights go out and back: the same position, the same hash.
    let mut p = Position::new();
    let h = p.hash();
    for m in ["g1f3", "g8f6", "f3g1", "f6g8"] {
        assert_eq!(p.make_move(mv(m)), MoveResult::Played);
    }
    assert_eq!(p.hash(), h);
}

#[test]
fn position_hash_independent_of_move_order() {
    let mut a = Position::new();
    for m in ["e2e3", "e7e6", "d2d3", "d7d6"] {
        assert_eq!(a.make_move(mv(m)), MoveResult::Played);
    }
    let mut b = Position::new();
    for m in ["d2d3", "d7d6", "e2e3", "e7e6"] {
        assert_eq!(b.make_move(mv(m)), MoveResult::Played);
    }
    assert_eq!(a.hash(), b.hash());
}

#[test]
fn fools_mate_is_checkmate() {
    let mut c = Chess::new(2, 1);
    assert_eq!(c.make_move(mv("f2f3")), MoveResult::Played);
    assert_eq!(c.make_move(mv("e7e5")), MoveResult::Played);
    assert_eq!(c.make_move(mv("g2g4")), MoveResult::Played);
    assert_eq!(c.make_move(mv("d8h4")), MoveResult::CheckMate);
    assert!(c.legal_moves().is_empty());
}

#[test]
fn stalemate_is_a_draw() {
    // Black to move has no move and is not in check after Qc7.
    let mut c = Chess::_from_fen("k7/8/1K6/8/8/8/8/2Q5 w - - 0 1", 1, 1).unwrap();
    assert_eq!(c.make_move(mv("c1c7")), MoveResult::Draw);
}

#[test]
fn promotion_needs_a_piece() {
    let mut p = Position::_from_fen("8/4P3/8/8/8/8/8/k6K w - - 0 1").unwrap();
    assert_eq!(p.make_move(mv("e7e8")), MoveResult::Illegal);
    assert_eq!(p.make_move(mv("e7e8n")), MoveResult::Played);
    assert_eq!(
        p.board().white_pieces().get(Square::new(7, 4)),
        Some(chess_engine::board::piece::Piece::Knight)
    );
}

#[test]
fn perft_from_the_start() {
    let mut c = Chess::new(1, 1);
    assert_eq!(c._perft(0), 1);
    assert_eq!(c._perft(1), 20);
    assert_eq!(c._perft(2), 400);
    assert_eq!(c._perft(3), 8902);
}

#[test]
fn perft_divide_sums_to_perft() {
    let mut c = Chess::new(1, 1);
    let counts = c._perft_divide(2);
    assert_eq!(counts.len(), 20);
    assert!(counts.iter().all(|(_, n)| *n == 20));
    let total: usize = counts.iter().map(|(_, n)| n).sum();
    assert_eq!(total, c._perft(2));
}

#[test]
fn chunks_of_moves() {
    assert_eq!(Chess::chunk_size(20, 3), 7);
    assert_eq!(Chess::chunk_size(20, 4), 5);
    assert_eq!(Chess::chunk_size(0, 4), 0);
    let mut c = Chess::new(1, 3);
    let moves = c.legal_moves();
    let chunks = Chess::split_moves(&moves, 7);
    assert_eq!(chunks.len(), 3);
    assert_eq!(chunks[0].len(), 7);
    assert_eq!(chunks[2].len(), 6);
    let joined: Vec<Move> = chunks.concat();
    assert_eq!(joined, moves);
}

#[test]
fn pick_best_prefers_first_of_equals() {
    let first = mv("a2a3");
    let a = mv("b2b3");
    let b = mv("c2c3");
    let legal = vec![first, a, b];
    assert_eq!(Chess::pick_best(&legal, &vec![]), (first, isize::MIN));
    assert_eq!(Chess::pick_best(&legal, &vec![(a, 5), (b, 5)]), (a, 5));
    assert_eq!(Chess::pick_best(&legal, &vec![(a, 5), (b, 7)]), (b, 7));
    assert_eq!(Chess::pick_best(&legal, &vec![(a, isize::MIN)]), (first, isize::MIN));
}

#[test]
fn search_finds_mate_in_one() {
    // White mates with Ra8.
    let mut c = Chess::_from_fen("6k1/5ppp/8/8/8/8/8/R5K1 w - - 0 1", 2, 1).unwrap();
    let moves = c.legal_moves();
    let mut tables = c.take_tables();
    let mut position = c.position().clone();
    let (best, eval) = Chess::search_moves(&mut position, &moves, 2, &mut tables[0]).unwrap();
    c.put_tables(tables);
    assert_eq!(best, mv("a1a8"));
    assert_eq!(eval, isize::MAX);
    assert_eq!(c.make_move(best), MoveResult::CheckMate);
}

#[test]
fn search_takes_a_hanging_queen() {
    let mut c = Chess::_from_fen("4k3/8/8/3q4/8/8/8/3RK3 w - - 0 1", 2, 2).unwrap();
    let moves = c.legal_moves();
    let mut tables = c.take_tables();
    let mut position = c.position().clone();
    let (best, _) = Chess::search_moves(&mut position, &moves, 2, &mut tables[1]).unwrap();
    c.put_tables(tables);
    assert_eq!(best, mv("d1d5"));
}

#[test]
fn chess_reset_and_settings() {
    let mut c = Chess::new(4, 2);
    assert_eq!(c.depth(), 4);
    assert_eq!(c.threads(), 2);
    c.make_move(mv("e2e4"));
    c.reset();
    assert_eq!(c.board().turn(), Color::White);
    assert_eq!(c.board().hash(), Chess::new(1, 1).board().hash());
}

#[test]
fn transposition_table_store_and_lookup() {
    let mut t = TranspositionTable::new(4);
    assert_eq!(t.get(5), None);
    t.insert(TTEntry::new(5, 3, 42, Bound::Lower));
    let e = t.get(5).unwrap();
    assert_eq!(e.depth(), 3);
    assert_eq!(e.score(), 42);
    assert_eq!(e.bound(), Bound::Lower);
    // 21 falls into the same slot of 16 and replaces the entry.
    t.insert(TTEntry::new(21, 1, -7, Bound::Upper));
    assert_eq!(t.get(5), None);
    assert_eq!(t.get(21).unwrap().score(), -7);
    // Another slot is untouched.
    t.insert(TTEntry::new(6, 2, 9, Bound::Exact));
    assert_eq!(t.get(21).unwrap().score(), -7);
}

#[test]
fn zobrist_keys_are_splitmix_numbers() {
    let z = Zobrist::new();
    // The first splitmix64 number from the zero state keys a white pawn on a1.
    assert_eq!(z.get_piece(Color::White, chess_engine::board::piece::Piece::Pawn, Square::new(0, 0)), 0xe220a8397b1dcdaf);
    let z2 = Zobrist::new();
    assert_eq!(z.get_turn(), z2.get_turn());
    assert_ne!(z.get_castle_left(Color::White), z.get_castle_right(Color::White));
    assert_ne!(z.get_en_passant(0), z.get_en_passant(1));
}

#[test]
fn tables_carry_over_between_searches() {
    let mut c = Chess::new(2, 1);
    let moves = c.legal_moves();
    let mut tables = c.take_tables();
    let mut position = c.position().clone();
    Chess::search_moves(&mut position, &moves, 2, &mut tables[0]).unwrap();
    // Each root move leads to a position searched one ply deep and stored.
    let mut child = c.position().clone();
    child.make_move(moves[0]);
    let h = child.hash();
    assert!(tables[0].get(h).is_some());
    c.put_tables(tables);
    let mut again = c.take_tables();
    assert!(again[0].get(h).is_some());
    c.put_tables(again);
}

#[test]
fn checks_of_what_can_be_played() {
    let c = Chess::new(2, 1);
    assert!(c.move_is_defined(mv("e2e4")));
    // A king on a1 that may still castle towards column 0 cannot have its moves generated.
    let bad = Chess::_from_fen("7k/8/8/8/8/8/8/K7 w Q - 0 1", 1, 1).unwrap();
    assert!(!bad.move_is_defined(mv("a1a2")));
    let moves = vec![mv("a1a2")];
    let mut tables = vec![TranspositionTable::new(4)];
    let mut position = bad.position().clone();
    assert!(Chess::search_moves(&mut position, &moves, 1, &mut tables[0]).is_none());
}

#[test]
fn searching_an_inconsistent_position() {
    // A castle right without a king at home: the engine still searches.
    let mut c = Chess::_from_fen("4k3/8/8/8/8/8/8/3K3R w K - 0 1", 2, 1).unwrap();
    let moves = c.legal_moves();
    let mut tables = c.take_tables();
    let mut position = c.position().clone();
    let (best, _) = Chess::search_moves(&mut position, &moves, 2, &mut tables[0]).unwrap();
    c.put_tables(tables);
    assert!(moves.contains(&best));
}

#[test]
fn chunked_search_picks_a_legal_move() {
    let mut c = Chess::new(2, 3);
    let moves = c.legal_moves();
    let size = Chess::chunk_size(moves.len(), c.threads());
    assert_eq!(size, 7);
    let chunks = Chess::split_moves(&moves, size);
    let mut tables = c.take_tables();
    let mut results = Vec::new();
    for (i, chunk) in chunks.iter().enumerate() {
        let mut position = c.position().clone();
        results.push(Chess::search_moves(&mut position, chunk, 2, &mut tables[i]).unwrap());
        assert!(chunk.contains(&results[i].0));
    }
    c.put_tables(tables);
    let (best, _) = Chess::pick_best(&moves, &results);
    assert!(moves.contains(&best));
    assert_eq!(c.make_move(best), MoveResult::Played);
}

#[test]
fn zobrist_keys_are_nonzero_and_distinct() {
    let z = Zobrist::new();
    let mut keys: Vec<u64> = Vec::new();
    let pieces = [Piece::Pawn, Piece::Rook, Piece::Knight, Piece::Bishop, Piece::Queen, Piece::King];
    for color in [Color::White, Color::Black] {
        for p in pieces {
            for i in 0..64i8 {
                keys.push(z.get_piece(color, p, Square::new(i / 8, i % 8)));
            }
        }
        keys.push(z.get_castle_left(color));
        keys.push(z.get_castle_right(color));
    }
    for column in 0..8usize {
        keys.push(z.get_en_passant(column));
    }
    keys.push(z.get_turn());
    assert_eq!(keys.len(), 781);
    assert!(keys.iter().all(|k| *k != 0));
    let mut sorted = keys.clone();
    sorted.sort();
    sorted.dedup();
    assert_eq!(sorted.len(), 781);
}

#[test]
fn undo_returns_to_the_save_after_nested_saves() {
    let mut p = Position::new();
    let start_hash = p.hash();
    let start_text = p.board().to_string();
    p.save();
    p.make_move(mv("e2e4"));
    p.save();
    p.make_move(mv("e7e5"));
    p.undo();
    p.make_move(mv("c7c5"));
    p.save();
    p.undo();
    p.make_move(mv("g1f3"));
    p.undo();
    assert_eq!(p.hash(), start_hash);
    assert_eq!(p.board().to_string(), start_text);
    assert_eq!(p.board().turn(), Color::White);
}
