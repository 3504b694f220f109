use vstd::prelude::*;

pub mod bits;
pub mod board;
pub mod game;
pub mod text;
pub mod tui;
pub mod ui;
pub mod web;

verus! {

} // verus!
