//! Move legality and threat maps for a two-player piece game on an 8×8 board.
//!
//! A [`game::Game`] holds the board, the two players and whose turn it is.
//! [`game::Game::move_piece`] attempts a move and either carries it out in full or refuses
//! it with a [`game::MoveError`]; [`game::Game::generate_attack_map`] computes which cells a
//! side threatens. What a kind of piece is able to do is decided by
//! [`piece::Piece::validate_move`] and [`piece::Piece::validate_attack`], and the cells on a
//! line are found by [`path::points_along_vector`].
//!
//! Pieces live in the roster of their player and are named by their index there; cells and
//! lists refer to them by that index, and the invariant [`game::GameView::wf`] says how
//! these references agree. Every contract is stated over the mathematical content of the
//! data, [`game::GameView`] and [`player::PlayerView`], and every function is verified
//! against its contract. One function rests on trust: the one that draws a random
//! identifier, in [`player`]. What follows from the rules for every game is collected in
//! [`theorems`].

pub mod attack;
pub mod consistency;
pub mod game;
pub mod layout;
pub mod location;
pub mod path;
pub mod piece;
pub mod player;
pub mod rays;
pub mod render;
pub mod theorems;
pub mod utils;
