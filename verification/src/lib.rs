//! The logic of a small maze game played on a grid of five by five by five
//! rooms: the grid, the generator that carves it, the search for a way out,
//! and the state machine that turns key presses into moves.

pub mod bounded;
pub mod game;
pub mod generate;
pub mod maze;
pub mod random;
pub mod solve;
pub mod time;
