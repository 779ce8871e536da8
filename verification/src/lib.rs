use vstd::prelude::*;

pub mod bitboard;
pub mod pieces;
pub mod inventory;
pub mod position;
pub mod search;
pub mod notation;
pub mod board_ui;

verus! {

} // verus!
