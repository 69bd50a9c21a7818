//! A two-player chess engine: a compact board, pseudo-legal move generation,
//! reversible move application and a negamax search with alpha-beta pruning.
//!
//! The crate holds two boards. [`board2::Board`] keeps its pieces in a fixed
//! store and refers to them from the squares by small handles; [`game::Game`]
//! plays and searches on it. [`board::Board`] keeps copies of its pieces in
//! the cells and in the moves, and searches with a tree of moves that it
//! keeps from one search to the next.
//!
//! What the boards hold and do is stated over mathematical models:
//!
//! - [`model`], [`moves`], [`search`] and [`text`] for the board of handles:
//!   its contents, the moves of its pieces, what a search finds, and how it
//!   prints;
//! - [`layout`], [`candidates`], [`explore`] and [`watch`] for the board of
//!   copies: its contents, the moves of its pieces, what a search finds,
//!   and what it finds when a command stops it on the way.
//!
//! What follows from these statements is proved in modules of their own:
//!
//! - [`reversal`] and [`unmaking`]: moves keep a board well formed, and taking
//!   a move back undoes it;
//! - [`legality`] and [`makeable`]: every generated move can be made, but for
//!   a castling for which king and rook do not stand ready;
//! - [`pruning`]: the alpha-beta search finds what a full minimax search
//!   finds.

pub mod board;
pub mod board2;
pub mod candidates;
pub mod explore;
pub mod game;
pub mod layout;
pub mod legality;
pub mod makeable;
pub mod model;
pub mod moves;
pub mod piece;
pub mod piece2;
pub mod pruning;
pub mod reversal;
pub mod search;
pub mod slotvec;
pub mod text;
pub mod unmaking;
pub mod utils;
pub mod watch;
