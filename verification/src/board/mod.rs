pub mod board;
pub mod castle_rights;
pub mod hashing;
pub mod movement;
pub mod piece;
pub mod piece_order;
pub mod piece_set;
pub mod shapes;
pub mod square;
pub mod laws;
pub mod move_laws;
