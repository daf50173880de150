//! Move legality and algebraic-notation parsing for an 8x8 chess board,
//! including castling (also from Chess960 starting files), en passant and
//! promotion.
use vstd::prelude::*;

pub mod board;
pub mod coordinate;
pub mod notation;
pub mod pieces;
pub mod theorems;

pub use coordinate::Coordinate;

verus! {

/// Errors surfaced by the notation parser and the board constructors.
#[derive(Debug)]
pub enum Error {
    /// Malformed text, or no piece that fits the move.
    InvalidArgument,
    /// A coordinate outside the board.
    IndexOutOfRange,
    /// Well-formed notation that breaks a rule of the game.
    InvalidMove { message: String },
}

/// The value of an [`Error`] as seen by contracts.
pub ghost enum ErrorView {
    InvalidArgument,
    IndexOutOfRange,
    InvalidMove(Seq<char>),
}

impl View for Error {
    type V = ErrorView;

    open spec fn view(&self) -> ErrorView {
        match self {
            Error::InvalidArgument => ErrorView::InvalidArgument,
            Error::IndexOutOfRange => ErrorView::IndexOutOfRange,
            Error::InvalidMove { message } => ErrorView::InvalidMove(message@),
        }
    }
}

} // verus!
