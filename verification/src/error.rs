//! The failures that the engine reports to its callers.

use vstd::prelude::*;
use vstd::string::*;
use crate::text::push_char;

verus! {

/// Everything that can go wrong when parsing notation or making a move.
#[derive(Debug, PartialEq, Eq, Clone, Copy, Structural)]
pub enum Error {
    /// The piece on the source square belongs to the side that is not to move.
    OtherPlayersTurn,
    /// The source square of the move is empty.
    NoPieceToMove,
    /// The destination is not among the legal destinations of the piece.
    IllegalMove,
    /// A letter that names no kind of piece.
    UnknwonPiece(char),
    /// Malformed notation: a square, a move or a field of a FEN record.
    ParsingError,
    /// A position without a king of each color.
    InvalidGameState,
}

impl Error {
    /// The message of this error, as a sequence of characters.
    pub open spec fn message(self) -> Seq<char> {
        match self {
            Error::OtherPlayersTurn => "Other players turn"@,
            Error::NoPieceToMove => "No piece to move"@,
            Error::IllegalMove => "Illegal move"@,
            Error::UnknwonPiece(c) => "Unknown piece "@.push(c),
            Error::ParsingError => "Parsing error"@,
            Error::InvalidGameState => "Invalid game state"@,
        }
    }

    /// Renders the error as a human-readable message.
    pub fn to_string(&self) -> (s: String)
        ensures
            s@ == self.message(),
    {
        match self {
            Error::OtherPlayersTurn => String::from_str("Other players turn"),
            Error::NoPieceToMove => String::from_str("No piece to move"),
            Error::IllegalMove => String::from_str("Illegal move"),
            Error::UnknwonPiece(c) => {
                let mut s = String::from_str("Unknown piece ");
                push_char(&mut s, *c);
                s
            },
            Error::ParsingError => String::from_str("Parsing error"),
            Error::InvalidGameState => String::from_str("Invalid game state"),
        }
    }
}

} // verus!
