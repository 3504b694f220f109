# chess_engine

A chess engine with a terminal interface and a small web interface, whose library is
verified with Verus.

## Layout

- `src/bits.rs`, `src/text.rs`: bitboard facts and the few string operations the library needs.
- `src/board/`: squares, pieces, moves, piece sets, castle rights and the board itself: move
  generation, attacks, playing a move, reading FEN records, drawing the board. `hashing.rs`
  takes the Zobrist hash apart into the keys of its parts, `shapes.rs` describes the moves that
  generation yields.
- `src/game/`: the Zobrist keys, the transposition table, positions with undo, and the game:
  negamax search with alpha-beta pruning and a transposition table, perft, and the pieces of
  the threaded root search.
- `src/tui/`, `src/web/`, `src/ui/`: the decisions of the terminal and web interfaces, one turn
  or request at a time, and the HTTP responses.
- `app/`: the program: arguments, terminal and network I/O, and the search threads.

## Proved properties

Besides the contract of every function, the library proves, among others, that positions
reached by play from the start stay consistent; that a turn keeps the hash equal to the Zobrist
hash of the position, except after a promotion that captures (there the incremental update of
the engine differs from the Zobrist hash); that castle rights are never regained; that legal
moves never leave the mover in check; that the move picked from the search threads' results is
a legal move whenever each thread returns a move of its share of the legal moves; that undo
returns to the position saved, whatever was saved, undone and played in between; that the
squares of a bitboard come in increasing order, each exactly once; that the 781 Zobrist keys
are nonzero and distinct; that writing a move in UCI notation and reading it back gives the
move; and that a transposition table finds what was last stored in a slot.

## Usage

```bash
cargo run -- [-b] [-t <threads>] [-d <depth>] [-f] [-h]
```

`-b` plays black, `-t` and `-d` set the number of search threads (20) and the search depth (6),
`-f` keeps white at the bottom, `-h` starts the terminal interface instead of the web
interface on `127.0.0.1:8585`.
