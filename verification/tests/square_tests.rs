use chess_engine::board::castle_rights::CastleRights;
use chess_engine::board::movement::{Move, MoveResult};
use chess_engine::board::piece::{Color, Piece};
use chess_engine::board::square::Square;

#[test]
fn square_from_algebraic_e4() {
    let s = Square::from_algebraic("e4").unwrap();
    assert_eq!(s.row(), 3);
    assert_eq!(s.column(), 4);
}

#[test]
fn square_from_algebraic_errors() {
    assert_eq!(Square::from_algebraic("e44").unwrap_err(), "Square must have length 2");
    assert_eq!(Square::from_algebraic("i4").unwrap_err(), "Invalid file");
    assert_eq!(Square::from_algebraic("a9").unwrap_err(), "Invalid rank");
    assert_eq!(Square::from_algebraic("a0").unwrap_err(), "Invalid rank");
}

#[test]
fn square_to_string_round_trip() {
    for row in 0..8i8 {
        for column in 0..8i8 {
            let s = Square::new(row, column);
            let name = s.to_string();
            assert_eq!(Square::from_algebraic(&name).unwrap(), s);
        }
    }
    assert_eq!(Square::new(0, 0).to_string(), "a1");
    assert_eq!(Square::new(7, 7).to_string(), "h8");
}

#[test]
fn square_bitmaps() {
    assert_eq!(Square::new(0, 0).to_bitmap(), 1);
    assert_eq!(Square::new(1, 4).to_bitmap(), 1u64 << 12);
    assert_eq!(Square::coords_to_bitmap(7, 7), 1u64 << 63);
    assert_eq!(Square::new(3, 5).to_index(), 29);
    let squares = Square::from_bitmap(0x8000_0000_0000_0101);
    assert_eq!(squares, vec![Square::new(0, 0), Square::new(1, 0), Square::new(7, 7)]);
    assert!(Square::from_bitmap(0).is_empty());
}

#[test]
fn square_on_board() {
    assert!(Square::new(0, 7).is_on_board());
    assert!(!Square::new(8, 0).is_on_board());
    assert!(!Square::new(0, -1).is_on_board());
}

#[test]
fn square_order_is_row_then_column() {
    assert!(Square::new(0, 7) < Square::new(1, 0));
    assert!(Square::new(2, 1) < Square::new(2, 3));
}

#[test]
fn move_from_uci_plain_and_promotion() {
    let m = Move::from_uci("e2e4").unwrap();
    assert_eq!(m.from(), Square::new(1, 4));
    assert_eq!(m.to(), Square::new(3, 4));
    assert_eq!(m.promotion(), None);
    let p = Move::from_uci("e7e8q").unwrap();
    assert_eq!(p.promotion(), Some(Piece::Queen));
    assert_eq!(Move::from_uci("a7a8n").unwrap().promotion(), Some(Piece::Knight));
    assert_eq!(Move::from_uci("a7a8r").unwrap().promotion(), Some(Piece::Rook));
    assert_eq!(Move::from_uci("a7a8b").unwrap().promotion(), Some(Piece::Bishop));
}

#[test]
fn move_from_uci_errors() {
    assert_eq!(Move::from_uci("e2e").unwrap_err(), "Invalid UCI move: e2e");
    assert_eq!(Move::from_uci("e2e4e4").unwrap_err(), "Invalid UCI move: e2e4e4");
    assert_eq!(Move::from_uci("z2e4").unwrap_err(), "Invalid file");
    assert_eq!(Move::from_uci("e2e9").unwrap_err(), "Invalid rank");
    assert_eq!(Move::from_uci("e7e8k").unwrap_err(), "Invalid promotion piece: k");
}

#[test]
fn move_to_string_round_trip() {
    let m = Move::new(Square::new(7, 0), Square::new(6, 1), Some(Piece::Queen));
    assert_eq!(m.to_string(), "b7a8q");
    assert_eq!(Move::from_uci(&m.to_string()).unwrap(), m);
    let n = Move::new(Square::new(2, 5), Square::new(0, 6), None);
    assert_eq!(n.to_string(), "g1f3");
    assert_eq!(Move::from_uci(&n.to_string()).unwrap(), n);
}

#[test]
fn move_order_is_target_first() {
    let a = Move::new(Square::new(0, 1), Square::new(7, 7), None);
    let b = Move::new(Square::new(0, 2), Square::new(0, 0), None);
    assert!(a < b);
    let c = Move::new(Square::new(7, 0), Square::new(6, 0), None);
    let d = Move::new(Square::new(7, 0), Square::new(6, 0), Some(Piece::Pawn));
    assert!(c < d);
}

#[test]
fn move_result_names() {
    assert_eq!(MoveResult::Played.to_string(), "Ok");
    assert_eq!(MoveResult::Illegal.to_string(), "Illegal");
    assert_eq!(MoveResult::CheckMate.to_string(), "Checkmate");
    assert_eq!(MoveResult::Draw.to_string(), "Draw");
}

#[test]
fn piece_values_and_indices() {
    assert_eq!(Piece::Pawn.to_index(), 0);
    assert_eq!(Piece::Rook.to_index(), 1);
    assert_eq!(Piece::King.to_index(), 5);
    // A white pawn on e4 (index 28) is worth 100 and the table's 25.
    assert_eq!(Piece::Pawn.value(Square::new(3, 4), Color::White, false), 125);
    // A black pawn on e5 reads the table at index 36 ^ 56 = 28 as well.
    assert_eq!(Piece::Pawn.value(Square::new(4, 4), Color::Black, false), 125);
    assert_eq!(Piece::Queen.value(Square::new(0, 3), Color::White, false), 895);
}

#[test]
fn piece_symbols_and_order() {
    assert_eq!(Piece::King.to_string(), "\u{265A}");
    assert_eq!(Piece::Pawn.to_string(), "\u{265F}");
    assert!(Piece::Pawn < Piece::Knight);
    assert!(Piece::Knight < Piece::Bishop);
    assert!(Piece::Bishop < Piece::Rook);
    assert!(Piece::Rook < Piece::Queen);
    assert!(Piece::Queen < Piece::King);
}

#[test]
fn color_flip_and_name() {
    assert_eq!(!Color::White, Color::Black);
    assert_eq!(!!Color::Black, Color::Black);
    assert_eq!(Color::White.to_string(), "White");
    assert_eq!(Color::Black.to_string(), "Black");
}

#[test]
fn castle_rights_shrink() {
    let mut r = CastleRights::new();
    assert!(r.left() && r.right());
    r.left_rook_moved();
    assert!(!r.left() && r.right());
    r.right_rook_moved();
    assert!(!r.right());
    let mut k = CastleRights::new();
    k.king_moved();
    assert!(!k.left() && !k.right());
    let n = CastleRights::_none();
    assert!(!n.left() && !n.right());
}
