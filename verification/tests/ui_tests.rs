use chess_engine::board::movement::Move;
use chess_engine::board::piece::Color;
use chess_engine::tui::terminal::color_square;
use chess_engine::tui::{is_reset, turn_report, NextTurn, Tui, TurnOutcome};
use chess_engine::text::trim;
use chess_engine::web::{header, response, route, Header, Route, Status, WebSession};
use chess_engine::ui::{Ui, UiOutcome};

fn mv(uci: &str) -> Move {
    Move::from_uci(uci).unwrap()
}

#[test]
fn colored_square_text() {
    assert_eq!(color_square("x", Color::White, Color::Black), "\x1B[47m\x1B[38;5;124mx\x1b[0m");
    assert_eq!(color_square("  ", Color::Black, Color::White), "\x1B[40m\x1B[38;5;20m  \x1b[0m");
}

#[test]
fn reset_word_in_any_case() {
    assert!(is_reset("reset"));
    assert!(is_reset("ReSeT"));
    assert!(!is_reset("resets"));
    assert!(!is_reset("rest"));
}

#[test]
fn tui_user_turns() {
    let mut t = Tui::new(1, 1, true, true);
    assert!(t.white_on_bottom());
    assert!(t.play_white());
    assert_eq!(t.user_turn("e2e5"), TurnOutcome::Illegal);
    assert_eq!(t.user_turn("zz"), TurnOutcome::InvalidNotation);
    assert_eq!(t.user_turn("e2e4"), TurnOutcome::Moved);
    assert_eq!(t.chess().board().turn(), Color::Black);
    assert_eq!(t.user_turn("RESET"), TurnOutcome::Reset);
    assert_eq!(t.chess().board().turn(), Color::White);
}

#[test]
fn tui_mate_is_won_by_the_mover() {
    let mut t = Tui::new(1, 1, true, true);
    for m in ["f2f3", "e7e5", "g2g4"] {
        assert_eq!(t.user_turn(m), TurnOutcome::Moved);
    }
    assert_eq!(t.bot_turn(mv("d8h4")), TurnOutcome::Won(Color::Black));
}

#[test]
fn web_session_turns() {
    let mut w = WebSession::new(1, 1, true, true);
    assert!(!w.bot_turn());
    assert_eq!(w.turn().1, "player");
    let (status, body) = w.bot_move(mv("e7e5"));
    assert_eq!(status, Status::NotBotMove);
    assert_eq!(body, "");
    let (status, body) = w.player_move(mv("e2e5"));
    assert_eq!(status, Status::Success);
    assert_eq!(body, "Illegal");
    assert!(!w.bot_turn());
    let (status, body) = w.player_move(mv("e2e4"));
    assert_eq!((status, body.as_str()), (Status::Success, "Ok"));
    assert!(w.bot_turn());
    assert_eq!(w.turn().1, "bot");
    assert_eq!(w.player_move(mv("d2d4")).0, Status::NotPlayerMove);
    assert_eq!(w.bot_move(mv("e7e5")).1, "Ok");
    assert!(!w.bot_turn());
}

#[test]
fn web_session_resets_after_mate() {
    let mut w = WebSession::new(1, 1, true, true);
    w.player_move(mv("f2f3"));
    w.bot_move(mv("e7e5"));
    w.player_move(mv("g2g4"));
    assert_eq!(w.bot_move(mv("d8h4")).1, "Checkmate");
    w.after_sync();
    assert_eq!(w.chess().board().turn(), Color::White);
    assert!(!w.bot_turn());
    assert_eq!(w.chess().board().hash(), WebSession::new(1, 1, true, true).chess().board().hash());
}

#[test]
fn web_reset_gives_the_bot_the_move_when_player_has_black() {
    let mut w = WebSession::new(1, 1, false, false);
    assert!(w.bot_turn());
    let (status, body) = w.reset();
    assert_eq!(status, Status::Success);
    assert_eq!(body, "");
    assert!(w.bot_turn());
}

#[test]
fn status_lines() {
    assert_eq!(Status::Success.line(), "HTTP/1.1 200 OK");
    assert_eq!(Status::NotFound.line(), "HTTP/1.1 404 Not Found");
    assert_eq!(Status::BadUci.line(), "HTTP/1.1 400 Bad UCI format");
    assert_eq!(Status::InternalError.line(), "HTTP/1.1 500 Internal Server Error");
    assert_eq!(Status::NotPlayerMove.line(), "HTTP/1.1 400 Not player move");
    assert_eq!(Status::NotBotMove.line(), "HTTP/1.1 400 Not bot move");
}

#[test]
fn trim_removes_surrounding_whitespace() {
    assert_eq!(trim("  e2e4\n"), "e2e4");
    assert_eq!(trim("\t reset \u{3000}"), "reset");
    assert_eq!(trim(" a b "), "a b");
    assert_eq!(trim("   "), "");
}

#[test]
fn request_routes() {
    assert_eq!(route("GET / HTTP/1.1\r\n"), Route::Index);
    assert_eq!(route("GET /style.css HTTP/1.1\r\n"), Route::Style);
    assert_eq!(route("GET /script.js HTTP/1.1"), Route::Script);
    assert_eq!(route("GET /turn HTTP/1.1\r\n"), Route::Turn);
    assert_eq!(route("GET /board HTTP/1.1\r\n"), Route::Board);
    assert_eq!(route("POST /bot_move HTTP/1.1\r\n"), Route::BotMove);
    assert_eq!(route("POST /reset HTTP/1.1\r\n"), Route::Reset);
    assert_eq!(route("POST /move HTTP/1.1\r\n"), Route::PlayerMove);
    assert_eq!(route("GET /other HTTP/1.1\r\n"), Route::Unknown);
    assert_eq!(route(""), Route::Unknown);
}

#[test]
fn response_text() {
    assert_eq!(response(Status::Success, "Ok"), "HTTP/1.1 200 OK\r\nContent-Length: 2\r\n\r\nOk");
    assert_eq!(response(Status::NotFound, ""), "HTTP/1.1 404 Not Found\r\nContent-Length: 0\r\n\r\n");
    let long = "x".repeat(1234);
    assert!(response(Status::Success, &long).starts_with("HTTP/1.1 200 OK\r\nContent-Length: 1234\r\n"));
    // The length counts bytes.
    assert!(response(Status::Success, "\u{265A}").contains("Content-Length: 3\r\n"));
}

#[test]
fn header_lines() {
    assert_eq!(header("\r\n"), Header::End);
    assert_eq!(header("Content-Length: 4\r\n"), Header::Length(Some(4)));
    assert_eq!(header("Content-Length: +12"), Header::Length(Some(12)));
    assert_eq!(header("Content-Length: x"), Header::Length(None));
    assert_eq!(header("Content-Length: 99999999999999999999999"), Header::Length(None));
    assert_eq!(header("Host: localhost\r\n"), Header::Other);
}

#[test]
fn ui_draw_and_resign() {
    let mut u = Ui::new(1, 1);
    assert_eq!(u.ui_turn("DRAW"), UiOutcome::Draw);
    assert_eq!(u.ui_turn("resign"), UiOutcome::Won(Color::Black));
    assert_eq!(u.ui_turn("e2e4"), UiOutcome::Moved);
    assert_eq!(u.ui_turn("Resign"), UiOutcome::Won(Color::White));
    assert_eq!(u.ui_turn("e7e9"), UiOutcome::InvalidNotation);
    assert_eq!(u.ui_turn("e7e4"), UiOutcome::Illegal);
    assert_eq!(u.bot_turn(mv("e7e5")), UiOutcome::Moved);
}

#[test]
fn turn_reports() {
    assert_eq!(turn_report(TurnOutcome::Reset, false), (Some(String::new()), NextTurn::Again));
    assert_eq!(
        turn_report(TurnOutcome::InvalidNotation, false),
        (Some("Invalid notation.".to_string()), NextTurn::Again)
    );
    assert_eq!(
        turn_report(TurnOutcome::Illegal, false),
        (Some("Move is not legal.".to_string()), NextTurn::Again)
    );
    assert_eq!(turn_report(TurnOutcome::Moved, false), (Some(String::new()), NextTurn::Other));
    assert_eq!(turn_report(TurnOutcome::Moved, true), (None, NextTurn::Other));
    assert_eq!(turn_report(TurnOutcome::Draw, true), (Some("Draw.".to_string()), NextTurn::Over));
    assert_eq!(
        turn_report(TurnOutcome::Won(Color::Black), true),
        (Some("Black won.".to_string()), NextTurn::Over)
    );
}
