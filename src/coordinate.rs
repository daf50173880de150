use crate::board::{NUM_COLS, NUM_ROWS};
use crate::{Error, ErrorView};
use vstd::prelude::*;

verus! {

/// (x, y) coordinate with A1 as (0, 0)
#[derive(Clone, Copy, Debug, PartialEq, Eq, Structural)]
pub struct Coordinate {
    pub x: usize,
    pub y: usize,
}

/// A lowercase ASCII letter.
pub open spec fn is_file_letter(c: char) -> bool {
    'a' <= c <= 'z'
}

/// An ASCII decimal digit.
pub open spec fn is_digit(c: char) -> bool {
    '0' <= c <= '9'
}

/// Text with the shape of a square name: a lowercase letter, then a digit.
pub open spec fn has_square_shape(s: Seq<char>) -> bool {
    s.len() == 2 && is_file_letter(s[0]) && is_digit(s[1])
}

/// The square that `s` names, if it names one on the board.
pub open spec fn square_of(s: Seq<char>) -> Option<(int, int)> {
    if has_square_shape(s) && s[0] <= 'h' && '1' <= s[1] <= '8' {
        Some(((s[0] as int) - ('a' as int), (s[1] as int) - ('1' as int)))
    } else {
        None
    }
}

/// The name of square (x, y): its file letter and its rank digit.
pub open spec fn name_of(x: int, y: int) -> Seq<char> {
    seq![(x + ('a' as int)) as char, (y + ('1' as int)) as char]
}

/// What parsing `s` as a square yields.
pub open spec fn alphanumeric_result(s: Seq<char>) -> Result<(int, int), ErrorView> {
    if !has_square_shape(s) {
        Err(ErrorView::InvalidArgument)
    } else {
        match square_of(s) {
            Some(c) => Ok(c),
            None => Err(ErrorView::IndexOutOfRange),
        }
    }
}

impl Coordinate {
    /// Both components lie on the board.
    pub open spec fn wf(self) -> bool {
        self.x < NUM_COLS && self.y < NUM_ROWS
    }

    pub fn new(x: usize, y: usize) -> (r: Result<Coordinate, Error>)
        ensures
            match r {
                Ok(c) => x < NUM_COLS && y < NUM_ROWS && c.x == x && c.y == y,
                Err(e) => !(x < NUM_COLS && y < NUM_ROWS) && e@ == ErrorView::IndexOutOfRange,
            },
    {
        if x >= NUM_ROWS || y >= NUM_COLS {
            return Err(Error::IndexOutOfRange);
        }
        Ok(Coordinate { x, y })
    }

    /// Convert alphanumeric grid coordinate to 0-indexed coordinates
    /// * `position` - lowercase letter from 'a' to 'h' with a digit from '1' to '8'
    /// * e.g. A1 => (0, 0)
    /// * e.g. E4 => (4, 3)
    pub fn from_alphanumeric(position: &str) -> (r: Result<Coordinate, Error>)
        ensures
            match r {
                Ok(c) => alphanumeric_result(position@) == Ok::<(int, int), ErrorView>(
                    (c.x as int, c.y as int),
                ),
                Err(e) => alphanumeric_result(position@) == Err::<(int, int), ErrorView>(e@),
            },
    {
        if position.unicode_len() != 2 {
            return Err(Error::InvalidArgument);
        }
        let first = position.get_char(0);
        let second = position.get_char(1);
        Self::from_chars(first, second)
    }

    /// Square named by a file letter and a rank digit.
    pub fn from_chars(file: char, rank: char) -> (r: Result<Coordinate, Error>)
        ensures
            match r {
                Ok(c) => alphanumeric_result(seq![file, rank]) == Ok::<(int, int), ErrorView>(
                    (c.x as int, c.y as int),
                ),
                Err(e) => alphanumeric_result(seq![file, rank]) == Err::<(int, int), ErrorView>(
                    e@,
                ),
            },
    {
        if !('a' <= file && file <= 'z') || !('0' <= rank && rank <= '9') {
            return Err(Error::InvalidArgument);
        }
        if file > 'h' || rank < '1' || rank > '8' {
            return Err(Error::IndexOutOfRange);
        }
        let x = (file as u32 - 'a' as u32) as usize;
        let y = (rank as u32 - '1' as u32) as usize;
        Coordinate::new(x, y)
    }
}

/// Every square on the board has a name, and reading that name back gives
/// the square again; conversely a name that reads as a square is that
/// square's name.
pub proof fn lemma_square_name_round_trip(x: int, y: int, s: Seq<char>)
    requires
        0 <= x < 8,
        0 <= y < 8,
    ensures
        square_of(name_of(x, y)) == Some((x, y)),
        alphanumeric_result(name_of(x, y)) == Ok::<(int, int), ErrorView>((x, y)),
        square_of(s) == Some((x, y)) ==> s == name_of(x, y),
{
    let n = name_of(x, y);
    assert(n[0] as int == x + 97);
    assert(n[1] as int == y + 49);
    if square_of(s) == Some((x, y)) {
        assert(s =~= n);
    }
}

} // verus!
