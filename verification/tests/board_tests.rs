use chess_engine::board::board::{fen_readable, Board};
use chess_engine::board::movement::{Move, MoveResult};
use chess_engine::board::piece::{Color, Piece};
use chess_engine::board::piece_set::PieceSet;
use chess_engine::board::square::Square;

fn mv(uci: &str) -> Move {
    Move::from_uci(uci).unwrap()
}

#[test]
fn piece_set_starting_pieces() {
    let w = PieceSet::new(Color::White);
    assert_eq!(w.get(Square::new(0, 4)), Some(Piece::King));
    assert_eq!(w.get(Square::new(0, 3)), Some(Piece::Queen));
    assert_eq!(w.get(Square::new(1, 0)), Some(Piece::Pawn));
    assert_eq!(w.get(Square::new(4, 4)), None);
    assert_eq!(w.find_king(), Square::new(0, 4));
    assert_eq!(w.find_piece(Piece::Rook), vec![Square::new(0, 0), Square::new(0, 7)]);
    let b = PieceSet::new(Color::Black);
    assert_eq!(b.find_king(), Square::new(7, 4));
    assert!(b.is_occupied(Square::new(6, 3)));
    assert!(!b.is_occupied(Square::new(5, 3)));
}

#[test]
fn piece_set_add_remove() {
    let mut ps = PieceSet::_empty();
    ps.add_piece(Square::new(3, 3), Piece::Knight);
    assert!(ps.is_piece_type_on(Piece::Knight, Square::new(3, 3)));
    assert!(!ps.is_piece_type_on(Piece::Bishop, Square::new(3, 3)));
    ps.remove_piece(Square::new(3, 3));
    assert!(!ps.is_occupied(Square::new(3, 3)));
    assert_eq!(ps, PieceSet::_empty());
}

#[test]
fn piece_set_en_passant_marker() {
    let mut ps = PieceSet::_empty();
    assert_eq!(ps.find_en_passant(), None);
    ps.set_en_passant(Square::new(2, 4));
    assert!(ps.is_en_passant(Square::new(2, 4)));
    assert!(!ps.is_en_passant(Square::new(2, 5)));
    assert_eq!(ps.find_en_passant(), Some(Square::new(2, 4)));
    ps.unset_en_passant();
    assert_eq!(ps.find_en_passant(), None);
}

#[test]
fn piece_set_queen_and_minor_tests() {
    // `has_queen` is true when the queen bitboard is empty, as the engine uses it.
    let w = PieceSet::new(Color::White);
    assert!(!w.has_queen());
    assert!(!w.has_minor_pieces());
    let e = PieceSet::_empty();
    assert!(e.has_queen());
    assert!(e.has_minor_pieces());
}

#[test]
fn piece_set_text() {
    let mut ps = PieceSet::_empty();
    ps.add_piece(Square::new(0, 0), Piece::Pawn);
    let text = ps.to_string();
    let lines: Vec<&str> = text.lines().collect();
    assert_eq!(lines.len(), 7);
    assert_eq!(lines[0], format!("Pawns:      {:064b}", 1u64));
    assert_eq!(lines[6], format!("En Passant: {:064b}", 0u64));
}

#[test]
fn board_starting_moves() {
    let mut b = Board::new();
    assert_eq!(b.turn(), Color::White);
    assert_eq!(b.find_current_possible_moves().len(), 20);
    assert!(!b.is_in_check());
}

#[test]
fn board_make_move_and_end_turn() {
    let mut b = Board::new();
    let before = b.hash();
    assert_eq!(b.make_move(mv("e2e4")), MoveResult::Played);
    assert_eq!(b.white_pieces().get(Square::new(3, 4)), Some(Piece::Pawn));
    assert_eq!(b.white_pieces().get(Square::new(1, 4)), None);
    assert_eq!(b.white_pieces().find_en_passant(), Some(Square::new(2, 4)));
    b.end_turn();
    assert_eq!(b.turn(), Color::Black);
    assert_ne!(b.hash(), before);
}

#[test]
fn board_end_turn_twice_restores_hash() {
    let mut b = Board::new();
    let h = b.hash();
    b.end_turn();
    assert_ne!(b.hash(), h);
    b.end_turn();
    assert_eq!(b.hash(), h);
    assert_eq!(b.turn(), Color::White);
}

#[test]
fn board_move_from_empty_square_is_illegal() {
    let mut b = Board::new();
    assert_eq!(b.make_move(mv("e4e5")), MoveResult::Illegal);
    assert_eq!(b.turn(), Color::White);
}

#[test]
fn board_attacks() {
    let b = Board::new();
    // With white to move, the attacks are black's: its knight on g8 reaches f6.
    assert!(b.is_square_attacked_by_knight(Square::new(5, 5)));
    assert!(!b.is_square_attacked_by_knight(Square::new(4, 4)));
    let mut b2 = Board::new();
    b2.end_turn();
    assert!(b2.is_square_attacked_by_knight(Square::new(2, 5)));
    assert!(b2.is_square_attacked(Square::new(2, 4)));
    assert!(!b2.is_square_attacked(Square::new(3, 4)));
    assert!(b2.is_square_attacked_by_king(Square::new(1, 4)));
    assert!(b2.is_square_attacked_vert_horiz(Square::new(1, 0)));
    assert!(!b.is_square_attacked_vert_horiz(Square::new(4, 0)));
}

#[test]
fn board_from_fen() {
    let mut b = Board::_from_fen("8/8/8/8/8/8/8/K6k w - - 0 1").unwrap();
    assert_eq!(b.white_pieces().find_king(), Square::new(0, 0));
    assert_eq!(b.black_pieces().find_king(), Square::new(0, 7));
    assert_eq!(b.hash(), 0);
    assert_eq!(b.find_current_possible_moves().len(), 3);
    let black = Board::_from_fen("8/8/8/8/4p3/8/8/K6k b - e3 0 1").unwrap();
    assert_eq!(black.turn(), Color::Black);
    assert_eq!(black.white_pieces().find_en_passant(), Some(Square::new(2, 4)));
}

#[test]
fn board_from_fen_errors() {
    assert_eq!(Board::_from_fen("8/8/8 w - - 0").err().unwrap(), "Invalid FEN");
    assert_eq!(
        Board::_from_fen("8/8/8/8/8/8/8/K6x w - - 0 1").err().unwrap(),
        "Invalid piece 'x'"
    );
    assert_eq!(Board::_from_fen("8/8/8/8/8/8/8/K6k x - - 0 1").err().unwrap(), "Invalid side to move");
    assert_eq!(
        Board::_from_fen("8/8/8/8/8/8/8/K6k w - e33 0 1").err().unwrap(),
        "Invalid en passant square"
    );
    assert_eq!(Board::_from_fen("7/8/8/8/8/8/8/K6k w - - 0 1").err().unwrap(), "Invalid FEN board");
}

#[test]
fn board_castle_rights_from_fen() {
    let mut b = Board::_from_fen("r3k2r/8/8/8/8/8/8/R3K2R w KQkq - 0 1").unwrap();
    let moves = b.find_current_possible_moves().clone();
    assert!(moves.contains(&mv("e1g1")));
    assert!(moves.contains(&mv("e1c1")));
    let mut none = Board::_from_fen("r3k2r/8/8/8/8/8/8/R3K2R w - - 0 1").unwrap();
    let moves = none.find_current_possible_moves().clone();
    assert!(!moves.contains(&mv("e1g1")));
}

#[test]
fn board_castle_moves_the_rook() {
    let mut b = Board::_from_fen("r3k2r/8/8/8/8/8/8/R3K2R w KQkq - 0 1").unwrap();
    assert_eq!(b.make_move(mv("e1g1")), MoveResult::Played);
    assert_eq!(b.white_pieces().get(Square::new(0, 6)), Some(Piece::King));
    assert_eq!(b.white_pieces().get(Square::new(0, 5)), Some(Piece::Rook));
    assert_eq!(b.white_pieces().get(Square::new(0, 7)), None);
}

#[test]
fn board_en_passant_capture() {
    let mut b = Board::_from_fen("4k3/8/8/3pP3/8/8/8/4K3 w - d6 0 1").unwrap();
    assert_eq!(b.make_move(mv("e5d6")), MoveResult::Played);
    assert_eq!(b.white_pieces().get(Square::new(5, 3)), Some(Piece::Pawn));
    assert_eq!(b.black_pieces().get(Square::new(4, 3)), None);
}

#[test]
fn board_text_has_ranks_and_files() {
    let b = Board::new();
    let text = b.to_string();
    let lines: Vec<&str> = text.lines().collect();
    assert_eq!(lines.len(), 9);
    assert!(lines[0].starts_with("8 "));
    assert!(lines[7].starts_with("1 "));
    assert_eq!(lines[8], "  a b c d e f g h ");
    assert!(lines[0].contains("\u{265A}"));
    // a8 is a light square in this drawing (row 7 and column 0 differ in parity).
    assert!(lines[0][2..].starts_with("\x1B[47m\x1B[38;5;124m\u{265C} \x1b[0m"));
}

#[test]
fn en_passant_marker_above_the_low_word() {
    // Square a5 has index 32: the marker must be found though its low 32 bits are zero.
    let mut ps = PieceSet::_empty();
    ps.set_en_passant(Square::new(4, 0));
    assert_eq!(ps.find_en_passant(), Some(Square::new(4, 0)));
}

#[test]
fn fen_fields_split_on_any_whitespace() {
    let b = Board::_from_fen("8/8/8/8/8/8/8/K6k\tb  -\n- 0 1").unwrap();
    assert_eq!(b.turn(), Color::Black);
}

#[test]
fn fen_readability() {
    assert!(fen_readable("8/8/8/8/8/8/8/K6k w - - 0 1"));
    assert!(fen_readable("8/8/8 w - - 0"));
    assert!(fen_readable("8/8/8/8/8/8/8/K6x w - - 0 1"));
    // An en passant square below `a` cannot be read.
    assert!(!fen_readable("8/8/8/8/8/8/8/K6k w - A3 0 1"));
    // A piece placed on a row far below the board cannot be read.
    assert!(!fen_readable("8/8/8/8/8/8/8/8/8/8/8/8/8/8/8/8/8/8/8/8/8/8/8/8/K w - - 0 1"));
}

#[test]
fn consistency_of_positions() {
    assert!(Board::new().is_consistent());
    // White may castle but its king is not on e1.
    let b = Board::_from_fen("4k3/8/8/8/8/8/8/3K4 w K - 0 1").unwrap();
    assert!(!b.is_consistent());
    // A marker on the wrong row.
    let c = Board::_from_fen("4k3/8/8/8/8/8/8/4K3 w - e4 0 1").unwrap();
    assert!(!c.is_consistent());
    let d = Board::_from_fen("4k3/8/8/8/4P3/8/8/4K3 b - e3 0 1").unwrap();
    assert!(d.is_consistent());
}

#[test]
fn board_drawn_either_way_up() {
    let b = Board::new();
    let white_up = b.to_string_oriented(true);
    assert_eq!(white_up, b.to_string());
    assert!(white_up.starts_with("8 "));
    assert!(white_up.ends_with("  a b c d e f g h \n"));
    let black_up = b.to_string_oriented(false);
    assert!(black_up.starts_with("1 "));
    assert!(black_up.ends_with("  h g f e d c b a \n"));
    let lines: Vec<&str> = black_up.lines().collect();
    assert_eq!(lines.len(), 9);
    assert!(lines[7].starts_with("8 "));
    // Rank 1 drawn from file h: the white king stands fourth from the left.
    let white_lines: Vec<&str> = white_up.lines().collect();
    assert_eq!(white_lines[7].chars().count(), lines[0].chars().count());
    assert_ne!(white_lines[7], lines[0]);
}

#[test]
fn squares_of_a_bitmap_in_order() {
    let bitmap: u64 = (1 << 63) | (1 << 9) | (1 << 8) | 1;
    let squares = Square::from_bitmap(bitmap);
    assert_eq!(
        squares,
        vec![Square::new(0, 0), Square::new(1, 0), Square::new(1, 1), Square::new(7, 7)]
    );
    assert_eq!(Square::from_bitmap(Square::new(4, 3).to_bitmap()), vec![Square::new(4, 3)]);
    assert!(Square::from_bitmap(0).is_empty());
    let pawns = PieceSet::new(Color::White).find_piece(Piece::Pawn);
    assert_eq!(pawns.len(), 8);
    for (k, s) in pawns.iter().enumerate() {
        assert_eq!(*s, Square::new(1, k as i8));
    }
}

#[test]
fn en_passant_square_is_the_marked_one() {
    let mut ps = PieceSet::new(Color::White);
    assert_eq!(ps.find_en_passant(), None);
    ps.set_en_passant(Square::new(2, 4));
    assert_eq!(ps.find_en_passant(), Some(Square::new(2, 4)));
    assert!(ps.is_en_passant(Square::new(2, 4)));
    assert!(!ps.is_en_passant(Square::new(2, 3)));
    ps.unset_en_passant();
    assert_eq!(ps.find_en_passant(), None);
}
