//! A chess rules engine: it keeps a board position, enumerates the legal
//! moves of a piece, applies moves and classifies the resulting game state.
//!
//! The engine proper is in [`util`] (colors, squares, moves and their
//! notation), [`piece`] (the pieces and how each kind moves and gives
//! check), [`board`] (the board and its FEN records) and [`game`] (making a
//! move and classifying the position). [`wire`] holds the line protocol of
//! play over a network.
//!
//! The other modules hold what is proved of the engine: [`legality`] shows
//! that no accepted move leaves the mover in check, [`invariants`] says
//! what a sound position is, tests for it and shows that sound positions
//! stay sound, [`rules`] shows that the accepted moves are exactly the
//! legal moves of chess, and [`listing`] that no destination is listed
//! twice; [`lines`] has the geometry they share.

pub mod board;
pub mod error;
pub mod game;
pub mod invariants;
pub mod legality;
pub mod lines;
pub mod listing;
pub mod piece;
pub mod rules;
pub mod text;
pub mod util;
pub mod wire;

pub use board::Board;
pub use error::Error;
pub use game::{Game, GameState};
pub use piece::Piece;
pub use util::{Color, Move, Position};
