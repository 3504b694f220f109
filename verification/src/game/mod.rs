pub mod chess;
pub mod position;
pub mod transposition_table;
pub mod zobrist;
pub mod search_laws;
