use crate::coordinate::Coordinate;
use crate::{Error, ErrorView};
use vstd::prelude::*;

verus! {

/// The kind of a piece.
#[derive(Clone, Copy, Debug, PartialEq, Eq, Structural)]
pub enum Id {
    Bishop,
    King,
    Knight,
    Pawn,
    Queen,
    Rook,
}

/// The kind that a notation letter or a piece icon stands for.
pub open spec fn id_of_char(c: char) -> Option<Id> {
    if c == 'B' || c == '♗' {
        Some(Id::Bishop)
    } else if c == 'K' || c == '♔' {
        Some(Id::King)
    } else if c == 'N' || c == '♘' {
        Some(Id::Knight)
    } else if c == 'P' || c == '♙' {
        Some(Id::Pawn)
    } else if c == 'Q' || c == '♕' {
        Some(Id::Queen)
    } else if c == 'R' || c == '♖' {
        Some(Id::Rook)
    } else {
        None
    }
}

impl Id {
    pub fn from_char(icon: char) -> (r: Result<Id, Error>)
        ensures
            match r {
                Ok(id) => id_of_char(icon) == Some(id),
                Err(e) => id_of_char(icon) is None && e@ == ErrorView::InvalidArgument,
            },
    {
        match icon {
            'B' | '♗' => Ok(Self::Bishop),
            'K' | '♔' => Ok(Self::King),
            'N' | '♘' => Ok(Self::Knight),
            'P' | '♙' => Ok(Self::Pawn),
            'Q' | '♕' => Ok(Self::Queen),
            'R' | '♖' => Ok(Self::Rook),
            _ => Err(Error::InvalidArgument),
        }
    }
}

/// Basic properties for each piece
/// * `position` - [Coordinate]
/// * `id` - [Id]
/// * `icon` - the unicode glyph shown for the piece
/// * `white` - `true` for white, `false` for black
/// * `moves` - track number of moves for castling and en passant checks
#[derive(Clone, Copy, Debug, PartialEq, Eq, Structural)]
pub struct Piece {
    pub position: Coordinate,
    pub id: Id,
    pub icon: char,
    pub white: bool,
    pub moves: usize,
}

impl Piece {
    pub fn new(x: usize, y: usize, icon: char, white: bool, moves: usize) -> (r: Result<
        Piece,
        Error,
    >)
        ensures
            match r {
                Ok(p) => {
                    &&& x < 8 && y < 8
                    &&& id_of_char(icon) == Some(p.id)
                    &&& p == (Piece { position: Coordinate { x, y }, id: p.id, icon, white, moves })
                },
                Err(e) => if !(x < 8 && y < 8) {
                    e@ == ErrorView::IndexOutOfRange
                } else {
                    id_of_char(icon) is None && e@ == ErrorView::InvalidArgument
                },
            },
    {
        let position = match Coordinate::new(x, y) {
            Ok(c) => c,
            Err(e) => return Err(e),
        };
        let id = match Id::from_char(icon) {
            Ok(id) => id,
            Err(e) => return Err(e),
        };
        Ok(Piece { position, id, icon, white, moves })
    }
}

} // verus!
