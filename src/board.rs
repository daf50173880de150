use crate::coordinate::{alphanumeric_result, Coordinate};
use crate::notation::{
    castle_side, castle_token, chars_of, file_char, id_of_move, move_core, promotion_of, rank_char,
    remove_ep, sanitised, strip_mark_chars, trim, zeros_to_o,
};
use crate::pieces::moves::{
    can_move_spec, castle_grid, castle_on, castle_spec, checker_of, checkmate_spec,
    en_passant_spec, grid_wf, in_check_after, in_check_spec, lemma_set_sq, moved, scratch_board,
    set_sq, set_square, sq, MoveType,
};
use crate::pieces::piece::id_of_char;
use crate::pieces::{Id, MoveChecker, Piece};
use crate::{Error, ErrorView};
use vstd::prelude::*;

verus! {

pub const NUM_COLS: usize = 8;
pub const NUM_ROWS: usize = 8;
pub const KINGSIDE_CASTLE: [usize; 2] = [6, 5];
pub const QUEENSIDE_CASTLE: [usize; 2] = [2, 3];
pub const EN_PASSANT: [usize; 2] = [4, 3];

/// The squares of a board, indexed `[rank][file]`.
pub type Grid = [[Option<Piece>; NUM_COLS]; NUM_ROWS];

/// Stores the pieces in a 2D array
/// * `grid` - 2D array of options of [Piece]
/// * `message` - feedback shown on top of the move prompt
/// * `history` - every accepted move, as it was typed, in play order
pub struct Board {
    pub grid: Grid,
    pub message: String,
    pub history: Vec<String>,
}

/// The glyph used for a kind of piece, for both colours.
pub open spec fn icon_of(id: Id) -> char {
    match id {
        Id::Bishop => '♗',
        Id::King => '♔',
        Id::Knight => '♘',
        Id::Pawn => '♙',
        Id::Queen => '♕',
        Id::Rook => '♖',
    }
}

/// The kind that starts on file `x` of the back rank.
pub open spec fn back_rank_id(x: int) -> Id {
    if x == 0 || x == 7 {
        Id::Rook
    } else if x == 1 || x == 6 {
        Id::Knight
    } else if x == 2 || x == 5 {
        Id::Bishop
    } else if x == 3 {
        Id::Queen
    } else {
        Id::King
    }
}

/// A piece of kind `id` on (x, y) that has not moved yet.
pub open spec fn fresh(x: int, y: int, id: Id, white: bool) -> Piece {
    Piece {
        position: Coordinate { x: x as usize, y: y as usize },
        id,
        icon: icon_of(id),
        white,
        moves: 0,
    }
}

/// The occupant of (x, y) in the starting position.
pub open spec fn start_square(x: int, y: int) -> Option<Piece> {
    if y == 0 {
        Some(fresh(x, y, back_rank_id(x), true))
    } else if y == 1 {
        Some(fresh(x, y, Id::Pawn, true))
    } else if y == 6 {
        Some(fresh(x, y, Id::Pawn, false))
    } else if y == 7 {
        Some(fresh(x, y, back_rank_id(x), false))
    } else {
        None
    }
}

/// The piece that the last entry among the first `n` of `list` puts on
/// (x, y), if any: entries with an unknown icon or off the board place nothing.
pub open spec fn last_placed(list: Seq<(usize, usize, char, bool)>, n: int, x: int, y: int) -> Option<
    Piece,
>
    decreases n,
{
    if n <= 0 {
        None
    } else {
        let (px, py, icon, white) = list[n - 1];
        if px == x && py == y && id_of_char(icon) is Some {
            Some(
                Piece {
                    position: Coordinate { x: px, y: py },
                    id: id_of_char(icon)->Some_0,
                    icon,
                    white,
                    moves: 0,
                },
            )
        } else {
            last_placed(list, n - 1, x, y)
        }
    }
}

/// The rank on which pawns of a colour promote.
pub open spec fn promotion_rank(white: bool) -> int {
    if white {
        7
    } else {
        0
    }
}

pub open spec fn not_promotion_text() -> Seq<char> {
    "is not a valid promotion"@
}

pub open spec fn forced_promotion_text() -> Seq<char> {
    "is not valid because promotion is forced"@
}

pub open spec fn ambiguous_text() -> Seq<char> {
    "is ambiguous"@
}

pub open spec fn self_check_text() -> Seq<char> {
    "puts the king in check"@
}

pub open spec fn cannot_castle_text() -> Seq<char> {
    "cannot castle"@
}

pub open spec fn not_valid_text() -> Seq<char> {
    "is not a valid move"@
}

/// The kind, target square and promotion of an ordinary move, or why it is
/// refused: the target is the two characters before any promotion letter, a
/// promotion is only for a pawn reaching the last rank, and there it is
/// forced.
pub open spec fn normal_input_spec(s: Seq<char>, white: bool) -> Result<
    (Id, Coordinate, Option<char>),
    ErrorView,
> {
    let promotion = promotion_of(s);
    let id = id_of_move(s);
    let core = move_core(s);
    if core.len() < 2 {
        Err(ErrorView::IndexOutOfRange)
    } else {
        match alphanumeric_result(core.subrange(core.len() - 2, core.len() as int)) {
            Err(e) => Err(e),
            Ok((x, y)) => {
                if promotion is Some && (id != Id::Pawn || y != promotion_rank(white)) {
                    Err(ErrorView::InvalidMove(not_promotion_text()))
                } else if promotion is None && id == Id::Pawn && y == promotion_rank(white) {
                    Err(ErrorView::InvalidMove(forced_promotion_text()))
                } else {
                    Ok((id, Coordinate { x: x as usize, y: y as usize }, promotion))
                }
            },
        }
    }
}

/// The source file and rank that a move names besides its target: for a
/// pawn the leading file of a capture; for another piece a file, a rank, or
/// both, between its letter and the target.
pub open spec fn disambiguation_spec(core: Seq<char>, id: Id) -> Result<
    (Option<usize>, Option<usize>),
    ErrorView,
> {
    if id == Id::Pawn {
        if core.len() > 2 {
            if file_char(core[0]) {
                Ok((Some((core[0] as int - 'a' as int) as usize), None))
            } else {
                Err(ErrorView::InvalidArgument)
            }
        } else {
            Ok((None, None))
        }
    } else if core.len() > 3 {
        let mid = core.subrange(1, core.len() - 2);
        if mid.len() == 1 {
            if file_char(mid[0]) {
                Ok((Some((mid[0] as int - 'a' as int) as usize), None))
            } else if rank_char(mid[0]) {
                Ok((None, Some((mid[0] as int - '1' as int) as usize)))
            } else {
                Err(ErrorView::InvalidArgument)
            }
        } else if mid.len() == 2 && file_char(mid[0]) && rank_char(mid[1]) {
            Ok((Some((mid[0] as int - 'a' as int) as usize), Some((mid[1] as int - '1' as int) as usize)))
        } else {
            Err(ErrorView::InvalidArgument)
        }
    } else {
        Ok((None, None))
    }
}

/// The piece on (x, y) fits the move: its kind and colour, a legal
/// geometry to `t`, and any source file and rank given.
#[verifier::opaque]
pub open spec fn is_candidate(
    g: Grid,
    id: Id,
    white: bool,
    t: Coordinate,
    file: Option<usize>,
    rank: Option<usize>,
    x: int,
    y: int,
) -> bool {
    match sq(g, x, y) {
        Some(p) => {
            &&& p.id == id
            &&& p.white == white
            &&& can_move_spec(checker_of(id), g, p, t)
            &&& (file is Some ==> p.position.x == file->Some_0)
            &&& (rank is Some ==> p.position.y == rank->Some_0)
        },
        None => false,
    }
}

/// The one piece that fits the move, or why there is none.
pub open spec fn select_spec(
    g: Grid,
    id: Id,
    white: bool,
    t: Coordinate,
    file: Option<usize>,
    rank: Option<usize>,
) -> Result<Piece, ErrorView> {
    if !exists|x: int, y: int|
        0 <= x < 8 && 0 <= y < 8 && #[trigger] is_candidate(g, id, white, t, file, rank, x, y) {
        Err(ErrorView::InvalidArgument)
    } else if exists|x1: int, y1: int, x2: int, y2: int|
        0 <= x1 < 8 && 0 <= y1 < 8 && 0 <= x2 < 8 && 0 <= y2 < 8 && (x1, y1) != (x2, y2)
            && #[trigger] is_candidate(g, id, white, t, file, rank, x1, y1)
            && #[trigger] is_candidate(g, id, white, t, file, rank, x2, y2) {
        Err(ErrorView::InvalidMove(ambiguous_text()))
    } else {
        let (x, y) = choose|x: int, y: int|
            0 <= x < 8 && 0 <= y < 8 && #[trigger] is_candidate(g, id, white, t, file, rank, x, y);
        Ok(sq(g, x, y)->Some_0)
    }
}

/// Square (i, j) comes before (x, y) in a scan rank by rank, file by file.
pub open spec fn seen(i: int, j: int, x: int, y: int) -> bool {
    j < y || (j == y && i < x)
}

/// What a scan that has reached (x, y) knows: `found` is the one candidate
/// seen so far, or none was seen.
pub open spec fn found_so_far(
    g: Grid,
    id: Id,
    white: bool,
    t: Coordinate,
    file: Option<usize>,
    rank: Option<usize>,
    found: Option<(usize, usize)>,
    x: int,
    y: int,
) -> bool {
    match found {
        Some((fx, fy)) => {
            &&& fx < 8 && fy < 8
            &&& seen(fx as int, fy as int, x, y)
            &&& is_candidate(g, id, white, t, file, rank, fx as int, fy as int)
            &&& forall|i: int, j: int|
                0 <= i < 8 && 0 <= j < 8 && seen(i, j, x, y) && (i, j) != (fx as int, fy as int)
                    ==> !#[trigger] is_candidate(g, id, white, t, file, rank, i, j)
        },
        None => forall|i: int, j: int|
            0 <= i < 8 && 0 <= j < 8 && seen(i, j, x, y) ==> !#[trigger] is_candidate(
                g,
                id,
                white,
                t,
                file,
                rank,
                i,
                j,
            ),
    }
}

/// `g` after the pawn on `from` takes en passant: it moves to `target` and
/// the pawn on `capture` leaves the board.
pub open spec fn en_passant_grid(
    g: Grid,
    from: Coordinate,
    target: Coordinate,
    capture: Coordinate,
    white: bool,
) -> Grid {
    let g1 = set_sq(g, from.x as int, from.y as int, None);
    let pawn = Piece { position: target, id: Id::Pawn, icon: '♙', white, moves: 0 };
    let g2 = set_sq(g1, target.x as int, target.y as int, Some(pawn));
    set_sq(g2, capture.x as int, capture.y as int, None)
}

/// One more move, saturating at the largest count.
pub open spec fn one_more(n: usize) -> usize {
    if n < usize::MAX {
        (n + 1) as usize
    } else {
        n
    }
}

/// `g` after `piece` moves to `target`, promoted where asked.
pub open spec fn normal_grid(g: Grid, piece: Piece, target: Coordinate, promotion: Option<char>) -> Grid {
    let (id, icon) = match promotion {
        Some(c) => match id_of_char(c) {
            Some(id) => (id, c),
            None => (piece.id, piece.icon),
        },
        None => (piece.id, piece.icon),
    };
    let moved_piece = Piece { position: target, id, icon, white: piece.white, moves: one_more(piece.moves) };
    set_sq(
        set_sq(g, piece.position.x as int, piece.position.y as int, None),
        target.x as int,
        target.y as int,
        Some(moved_piece),
    )
}

/// The squares that a move names all lie on the board.
pub open spec fn on_board(m: MoveType) -> bool {
    match m {
        MoveType::Normal { piece, target, promotion } => piece.position.wf() && target.wf(),
        MoveType::Castle { king_x, rook_x, kingside } => king_x < 8 && rook_x < 8,
        MoveType::EnPassant { from, target, capture } => from.wf() && target.wf() && capture.wf(),
    }
}

/// `g` after move `m` by the side of colour `white`.
pub open spec fn apply_spec(g: Grid, m: MoveType, white: bool) -> Grid {
    match m {
        MoveType::Normal { piece, target, promotion } => normal_grid(g, piece, target, promotion),
        MoveType::Castle { king_x, rook_x, kingside } => castle_grid(
            g,
            king_x as int,
            rook_x as int,
            kingside,
            white,
        ),
        MoveType::EnPassant { from, target, capture } => en_passant_grid(
            g,
            from,
            target,
            capture,
            white,
        ),
    }
}

/// What parsing `input` for the side of colour `white` yields on a board with
/// grid `g` and move history `history`.
pub open spec fn parse_spec(g: Grid, history: Seq<String>, input: Seq<char>, white: bool) -> Result<
    MoveType,
    ErrorView,
> {
    if input.len() < 2 {
        Err(ErrorView::InvalidArgument)
    } else {
        let s = sanitised(input);
        match castle_side(s) {
            Some(kingside) => match castle_spec(g, kingside, white) {
                Some((king_x, rook_x)) => Ok(MoveType::Castle { king_x, rook_x, kingside }),
                None => Err(ErrorView::InvalidMove(cannot_castle_text())),
            },
            None => match normal_input_spec(s, white) {
                Err(e) => Err(e),
                Ok((id, target, promotion)) => match disambiguation_spec(move_core(s), id) {
                    Err(e) => Err(e),
                    Ok((file, rank)) => {
                        let ep = if id == Id::Pawn {
                            en_passant_spec(g, history, file, target, white)
                        } else {
                            None
                        };
                        match ep {
                            Some((x, y)) => {
                                let from = Coordinate { x, y };
                                let capture = Coordinate { x: target.x, y };
                                if in_check_spec(en_passant_grid(g, from, target, capture, white), white) {
                                    Err(ErrorView::InvalidMove(self_check_text()))
                                } else {
                                    Ok(MoveType::EnPassant { from, target, capture })
                                }
                            },
                            None => match select_spec(g, id, white, target, file, rank) {
                                Err(e) => Err(e),
                                Ok(piece) => {
                                    if in_check_spec(
                                        moved(g, piece, target.x as int, target.y as int),
                                        white,
                                    ) {
                                        Err(ErrorView::InvalidMove(self_check_text()))
                                    } else {
                                        Ok(MoveType::Normal { piece, target, promotion })
                                    }
                                },
                            },
                        }
                    },
                },
            },
        }
    }
}

/// A result with its error seen through the error's view.
pub open spec fn result_view<T>(r: Result<T, Error>) -> Result<T, ErrorView> {
    match r {
        Ok(v) => Ok(v),
        Err(e) => Err(e@),
    }
}

/// The text that explains a refused move.
pub open spec fn reason_of(e: ErrorView) -> Seq<char> {
    match e {
        ErrorView::InvalidMove(m) => m,
        _ => not_valid_text(),
    }
}

/// The message left on the board after `input` is refused for `e`.
pub open spec fn rejection_message(input: Seq<char>, e: ErrorView) -> Seq<char> {
    "\u{1b}[31m"@ + input + " "@ + reason_of(e)
}

/// The message left on the board when the side of colour `white` wins.
pub open spec fn victory_message(white: bool) -> Seq<char> {
    if white {
        "\u{1b}[5mWhite has won!\u{1b}[0m"@
    } else {
        "\u{1b}[5mBlack has won!\u{1b}[0m"@
    }
}

/// How many of the first `n` files of `rank` hold kind `id`.
pub open spec fn count_of(rank: [Id; 8], id: Id, n: int) -> int
    decreases n,
{
    if n <= 0 {
        0
    } else {
        count_of(rank, id, n - 1) + if rank[n - 1] == id {
            1int
        } else {
            0
        }
    }
}

/// A back rank of Chess960: one king, one queen, two rooks, two bishops
/// and two knights, the bishops on squares of opposite colours and the
/// king between the rooks.
pub open spec fn is_960_rank(rank: [Id; 8]) -> bool {
    &&& count_of(rank, Id::King, 8) == 1
    &&& count_of(rank, Id::Queen, 8) == 1
    &&& count_of(rank, Id::Rook, 8) == 2
    &&& count_of(rank, Id::Bishop, 8) == 2
    &&& count_of(rank, Id::Knight, 8) == 2
    &&& exists|i: int, j: int|
        0 <= i < 8 && 0 <= j < 8 && rank[i] == Id::Bishop && rank[j] == Id::Bishop && #[trigger] (i
            % 2) != #[trigger] (j % 2)
    &&& exists|i: int, k: int, j: int|
        0 <= i < k < j < 8 && #[trigger] rank[i] == Id::Rook && #[trigger] rank[k] == Id::King
            && #[trigger] rank[j] == Id::Rook
}

/// The occupant of (x, y) when the game starts with back rank `rank`.
pub open spec fn start_square_960(rank: [Id; 8], x: int, y: int) -> Option<Piece> {
    if y == 0 {
        Some(fresh(x, y, rank[x], true))
    } else if y == 1 {
        Some(fresh(x, y, Id::Pawn, true))
    } else if y == 6 {
        Some(fresh(x, y, Id::Pawn, false))
    } else if y == 7 {
        Some(fresh(x, y, rank[x], false))
    } else {
        None
    }
}

impl Board {
    /// Each piece on the board records the square it stands on.
    pub open spec fn wf(&self) -> bool {
        grid_wf(self.grid)
    }

    /// Fills board with `None`
    pub fn empty() -> (r: Board)
        ensures
            r.wf(),
            forall|x: int, y: int| 0 <= x < 8 && 0 <= y < 8 ==> (#[trigger] sq(r.grid, x, y)) is None,
            r.history@.len() == 0,
            r.message@.len() == 0,
    {
        Board { grid: [[None;NUM_COLS];NUM_ROWS], message: String::new(), history: Vec::new() }
    }

    /// Sets up board in starting position
    pub fn new() -> (r: Board)
        ensures
            r.wf(),
            forall|x: int, y: int|
                0 <= x < 8 && 0 <= y < 8 ==> #[trigger] sq(r.grid, x, y) == start_square(x, y),
            r.history@.len() == 0,
            r.message@.len() == 0,
    {
        let mut board = Self::empty();
        board.reset();
        board
    }

    /// Resets to starting position, with no history and no message
    pub fn reset(&mut self)
        ensures
            final(self).wf(),
            forall|x: int, y: int|
                0 <= x < 8 && 0 <= y < 8 ==> #[trigger] sq(final(self).grid, x, y) == start_square(x, y),
            final(self).history@.len() == 0,
            final(self).message@.len() == 0,
    {
        let mut grid: Grid = [[None;NUM_COLS];NUM_ROWS];
        let mut x: usize = 0;
        while x < NUM_COLS
            invariant
                x <= 8,
                forall|i: int, j: int|
                    0 <= i < 8 && 0 <= j < 8 ==> #[trigger] sq(grid, i, j) == if i < x {
                        start_square(i, j)
                    } else {
                        None
                    },
            decreases 8 - x,
        {
            let back = back_rank_kind(x);
            let ghost g0 = grid;
            set_square(&mut grid, x, 0, Some(fresh_piece(x, 0, back, true)));
            let ghost g1 = grid;
            set_square(&mut grid, x, 1, Some(fresh_piece(x, 1, Id::Pawn, true)));
            let ghost g2 = grid;
            set_square(&mut grid, x, 6, Some(fresh_piece(x, 6, Id::Pawn, false)));
            let ghost g3 = grid;
            set_square(&mut grid, x, 7, Some(fresh_piece(x, 7, back, false)));
            proof {
                lemma_set_sq(g0, x as int, 0, Some(fresh(x as int, 0, back, true)));
                lemma_set_sq(g1, x as int, 1, Some(fresh(x as int, 1, Id::Pawn, true)));
                lemma_set_sq(g2, x as int, 6, Some(fresh(x as int, 6, Id::Pawn, false)));
                lemma_set_sq(g3, x as int, 7, Some(fresh(x as int, 7, back, false)));
            }
            x += 1;
        }
        self.grid = grid;
        self.history = Vec::new();
        self.message = String::new();
    }

    /// Sets up board from a vector of piece data tuples
    /// * Each tuple contains (`x`, `y`, `icon`, `white`), corresponding to the
    ///   arguments for `place_piece`; tuples that cannot be placed are skipped
    pub fn from_vec(pieces: &Vec<(usize, usize, char, bool)>) -> (r: Board)
        ensures
            r.wf(),
            forall|x: int, y: int|
                0 <= x < 8 && 0 <= y < 8 ==> #[trigger] sq(r.grid, x, y) == last_placed(
                    pieces@,
                    pieces@.len() as int,
                    x,
                    y,
                ),
            r.history@.len() == 0,
            r.message@.len() == 0,
    {
        let mut board = Board::empty();
        let mut i: usize = 0;
        while i < pieces.len()
            invariant
                i <= pieces@.len(),
                board.wf(),
                board.history@.len() == 0,
                board.message@.len() == 0,
                forall|x: int, y: int|
                    0 <= x < 8 && 0 <= y < 8 ==> #[trigger] sq(board.grid, x, y) == last_placed(
                        pieces@,
                        i as int,
                        x,
                        y,
                    ),
            decreases pieces@.len() - i,
        {
            let (x, y, icon, white) = pieces[i];
            let ghost g0 = board.grid;
            let placed = board.place_piece(x, y, icon, white, 0);
            proof {
                if placed is Ok {
                    lemma_set_sq(g0, x as int, y as int, sq(board.grid, x as int, y as int));
                }
            }
            i += 1;
        }
        board
    }

    /// Sets a single piece at (x, y)
    /// * fails, leaving the board as it was, when (x, y) is off the board or
    ///   `icon` names no piece
    pub fn place_piece(&mut self, x: usize, y: usize, icon: char, white: bool, moves: usize) -> (r:
        Result<(), Error>)
        requires
            old(self).wf(),
        ensures
            final(self).wf(),
            final(self).history@ == old(self).history@,
            final(self).message@ == old(self).message@,
            match r {
                Ok(_) => x < 8 && y < 8 && id_of_char(icon) is Some && final(self).grid == set_sq(
                    old(self).grid,
                    x as int,
                    y as int,
                    Some(
                        Piece {
                            position: Coordinate { x, y },
                            id: id_of_char(icon)->Some_0,
                            icon,
                            white,
                            moves,
                        },
                    ),
                ),
                Err(e) => final(self).grid == old(self).grid && if !(x < 8 && y < 8) {
                    e@ == ErrorView::IndexOutOfRange
                } else {
                    id_of_char(icon) is None && e@ == ErrorView::InvalidArgument
                },
            },
    {
        match Piece::new(x, y, icon, white, moves) {
            Ok(piece) => {
                proof {
                    lemma_set_sq(self.grid, x as int, y as int, Some(piece));
                }
                set_square(&mut self.grid, x, y, Some(piece));
                Ok(())
            },
            Err(e) => Err(e),
        }
    }
}

/// A piece of kind `id` on (x, y) that has not moved yet.
fn fresh_piece(x: usize, y: usize, id: Id, white: bool) -> (r: Piece)
    ensures
        r == fresh(x as int, y as int, id, white),
{
    Piece { position: Coordinate { x, y }, id, icon: icon(id), white, moves: 0 }
}

/// The glyph used for a kind of piece.
fn icon(id: Id) -> (r: char)
    ensures
        r == icon_of(id),
{
    match id {
        Id::Bishop => '♗',
        Id::King => '♔',
        Id::Knight => '♘',
        Id::Pawn => '♙',
        Id::Queen => '♕',
        Id::Rook => '♖',
    }
}

/// The kind that starts on file `x` of the back rank.
fn back_rank_kind(x: usize) -> (r: Id)
    ensures
        r == back_rank_id(x as int),
{
    if x == 0 || x == 7 {
        Id::Rook
    } else if x == 1 || x == 6 {
        Id::Knight
    } else if x == 2 || x == 5 {
        Id::Bishop
    } else if x == 3 {
        Id::Queen
    } else {
        Id::King
    }
}

impl Board {
    /// Standardises the input string
    pub(crate) fn sanitise_input(input: &str) -> (r: Vec<char>)
        ensures
            r@ == sanitised(input@),
    {
        // x, : for captures (e.g. Bxe5, B:e5 or Be5:)
        // =, (), / for promotion (e.g. e8=Q, e8(Q), e8/Q)
        // + for checks, # for checkmates
        let chars = chars_of(input);
        let stripped = strip_mark_chars(&chars);
        // remove optional en passant notation
        let stripped = remove_ep(&stripped);
        // change '0's to 'O's for castling
        let stripped = zeros_to_o(&stripped);
        // remove whitespace
        trim(&stripped)
    }

    /// Checks what the move promotes to
    /// * returns `None` if it's not a promotion move
    pub(crate) fn promote_to(input: &Vec<char>) -> (r: Option<char>)
        ensures
            r == promotion_of(input@),
    {
        let n = input.len();
        if n == 0 {
            return None;
        }
        match input[n - 1] {
            'B' => Some('♗'),
            'N' => Some('♘'),
            'Q' => Some('♕'),
            'R' => Some('♖'),
            _ => None,
        }
    }

    /// Identifies the type of piece being moved
    fn piece_id(input: &Vec<char>) -> (r: Id)
        ensures
            r == id_of_move(input@),
    {
        // only uppercase letters for pieces
        // lowercase b could be confused for uppercase B
        // e.g. bxc5 vs Bxc5
        if input.len() == 0 {
            return Id::Pawn;
        }
        match input[0] {
            'B' => Id::Bishop,
            'N' => Id::Knight,
            'K' => Id::King,
            'Q' => Id::Queen,
            'R' => Id::Rook,
            // default to pawn since it has no associated letter
            _ => Id::Pawn,
        }
    }

    /// Converts the last two characters of a move to the target coordinate
    pub(crate) fn target_position(input: &Vec<char>) -> (r: Result<Coordinate, Error>)
        ensures
            input@.len() < 2 ==> result_view(r) == Err::<Coordinate, ErrorView>(ErrorView::IndexOutOfRange),
            input@.len() >= 2 ==> match r {
                Ok(c) => alphanumeric_result(input@.subrange(input@.len() - 2, input@.len() as int))
                    == Ok::<(int, int), ErrorView>((c.x as int, c.y as int)),
                Err(e) => alphanumeric_result(
                    input@.subrange(input@.len() - 2, input@.len() as int),
                ) == Err::<(int, int), ErrorView>(e@),
            },
    {
        let n = input.len();
        if n < 2 {
            return Err(Error::IndexOutOfRange);
        }
        assert(input@.subrange(n - 2, n as int) =~= seq![input@[n - 2], input@[n - 1]]);
        Coordinate::from_chars(input[n - 2], input[n - 1])
    }

    /// Returns the piece kind to move, the position to move to, and the
    /// promotion asked for
    fn process_normal_input(input: &Vec<char>, white: bool) -> (r: Result<
        (Id, Coordinate, Option<char>),
        Error,
    >)
        ensures
            result_view(r) == normal_input_spec(input@, white),
    {
        let promotion = Self::promote_to(input);
        let id = Self::piece_id(input);
        // if the move is a promotion,
        // the target position is the 2 characters before the last
        let core = Self::move_core(input, promotion.is_some());
        let target = match Self::target_position(&core) {
            Ok(t) => t,
            Err(e) => return Err(e),
        };
        // only allow promotion if it's a pawn move to the correct rank
        let promotion_rank = if white {
            7
        } else {
            0
        };
        if promotion.is_some() && (id != Id::Pawn || target.y != promotion_rank) {
            return Err(Error::InvalidMove { message: String::from_str("is not a valid promotion") });
        }
        // must promote when on promotion rank

        if promotion.is_none() && id == Id::Pawn && target.y == promotion_rank {
            return Err(
                Error::InvalidMove {
                    message: String::from_str("is not valid because promotion is forced"),
                },
            );
        }
        Ok((id, target, promotion))
    }

    /// The move without its promotion letter, if it has one
    pub(crate) fn move_core(input: &Vec<char>, promotion: bool) -> (r: Vec<char>)
        requires
            promotion == (promotion_of(input@) is Some),
        ensures
            r@ == move_core(input@),
    {
        let mut r = input.clone();
        if promotion {
            r.pop();
            assert(r@ =~= input@.drop_last());
        }
        r
    }

    /// Checks for additional positional identifiers for disambiguation
    /// * returns the source file and rank, where the move names them
    fn disambiguate(input: &Vec<char>, id: Id) -> (r: Result<(Option<usize>, Option<usize>), Error>)
        ensures
            result_view(r) == disambiguation_spec(input@, id),
    {
        let n = input.len();
        // pawn taking move: the first letter identifies the column
        if id == Id::Pawn {
            if n > 2 {
                let c = input[0];
                if 'a' <= c && c <= 'h' {
                    return Ok((Some((c as u32 - 'a' as u32) as usize), None));
                }
                return Err(Error::InvalidArgument);
            }
            return Ok((None, None));
        }
        // all other disambiguations: skip the piece letter to get the identifiers

        if n > 3 {
            let ghost mid = input@.subrange(1, n - 2);
            if n - 3 == 1 {
                let c = input[1];
                assert(mid[0] == c);
                // decide whether it's the column or row identifier
                if 'a' <= c && c <= 'h' {
                    return Ok((Some((c as u32 - 'a' as u32) as usize), None));
                } else if '1' <= c && c <= '8' {
                    return Ok((None, Some((c as u32 - '1' as u32) as usize)));
                }
                return Err(Error::InvalidArgument);
            } else if n - 3 == 2 {
                let c = input[1];
                let d = input[2];
                assert(mid[0] == c && mid[1] == d);
                if 'a' <= c && c <= 'h' && '1' <= d && d <= '8' {
                    return Ok(
                        (
                            Some((c as u32 - 'a' as u32) as usize),
                            Some((d as u32 - '1' as u32) as usize),
                        ),
                    );
                }
                return Err(Error::InvalidArgument);
            }
            // there shouldn't be more than 2 identifiers
            return Err(Error::InvalidArgument);
        }
        Ok((None, None))
    }
}

impl Board {
    /// Finds the one piece of kind `id` and colour `white` that can move to
    /// `target` from the given file and rank, if they are given
    fn select_candidate(
        &self,
        id: Id,
        white: bool,
        target: &Coordinate,
        file: Option<usize>,
        rank: Option<usize>,
    ) -> (r: Result<Piece, Error>)
        requires
            self.wf(),
        ensures
            result_view(r) == select_spec(self.grid, id, white, *target, file, rank),
            r is Ok ==> r->Ok_0.position.wf(),
    {
        let ghost g = self.grid;
        let mut found: Option<(usize, usize)> = None;
        // searching every square in an 8 x 8 grid isn't the most efficient way,
        // but given the small size it is not a significant cost
        let mut y: usize = 0;
        while y < NUM_ROWS
            invariant
                y <= 8,
                g == self.grid,
                self.wf(),
                found_so_far(g, id, white, *target, file, rank, found, 0, y as int),
            decreases 8 - y,
        {
            let mut x: usize = 0;
            while x < NUM_COLS
                invariant
                    x <= 8,
                    y < 8,
                    g == self.grid,
                    self.wf(),
                    found_so_far(g, id, white, *target, file, rank, found, x as int, y as int),
                decreases 8 - x,
            {
                if self.candidate_at(id, white, target, file, rank, x, y) {
                    // another possibility makes the move ambiguous
                    if let Some((fx, fy)) = found {
                        assert(is_candidate(g, id, white, *target, file, rank, fx as int, fy as int));
                        assert(is_candidate(g, id, white, *target, file, rank, x as int, y as int));
                        return Err(Error::InvalidMove { message: String::from_str("is ambiguous") });
                    }
                    found = Some((x, y));
                }
                x += 1;
            }
            assert forall|i: int, j: int| 0 <= i < 8 && 0 <= j < 8 implies seen(i, j, 8, y as int)
                == seen(i, j, 0, y + 1) by {}
            y += 1;
        }
        match found {
            Some((fx, fy)) => {
                let ghost (cx, cy) = choose|x: int, y: int|
                    0 <= x < 8 && 0 <= y < 8 && #[trigger] is_candidate(g, id, white, *target, file, rank, x, y);
                assert(is_candidate(g, id, white, *target, file, rank, fx as int, fy as int));
                assert(seen(cx, cy, 0, 8));
                assert((cx, cy) == (fx as int, fy as int));
                assert forall|x1: int, y1: int, x2: int, y2: int|
                    0 <= x1 < 8 && 0 <= y1 < 8 && 0 <= x2 < 8 && 0 <= y2 < 8 && (x1, y1) != (x2, y2)
                        && #[trigger] is_candidate(g, id, white, *target, file, rank, x1, y1) implies
                        !#[trigger] is_candidate(g, id, white, *target, file, rank, x2, y2) by {
                    assert(seen(x1, y1, 0, 8));
                    assert(seen(x2, y2, 0, 8));
                }
                assert(sq(g, fx as int, fy as int) is Some) by {
                    reveal(is_candidate);
                }
                match self.grid[fy][fx] {
                    Some(piece) => Ok(piece),
                    None => Err(Error::InvalidArgument),
                }
            },
            None => {
                assert forall|i: int, j: int| 0 <= i < 8 && 0 <= j < 8 implies !#[trigger] is_candidate(
                    g,
                    id,
                    white,
                    *target,
                    file,
                    rank,
                    i,
                    j,
                ) by {
                    assert(seen(i, j, 0, 8));
                }
                Err(Error::InvalidArgument)
            },
        }
    }

    /// Whether the piece on (x, y) fits the move
    fn candidate_at(
        &self,
        id: Id,
        white: bool,
        target: &Coordinate,
        file: Option<usize>,
        rank: Option<usize>,
        x: usize,
        y: usize,
    ) -> (r: bool)
        requires
            self.wf(),
            x < 8,
            y < 8,
        ensures
            r == is_candidate(self.grid, id, white, *target, file, rank, x as int, y as int),
    {
        reveal(is_candidate);
        match &self.grid[y][x] {
            Some(piece) => {
                assert(sq(self.grid, x as int, y as int) is Some);
                // check the piece's properties before checking the move
                piece.id == id && piece.white == white && MoveChecker::from_id(&id).can_move(
                    self,
                    piece,
                    target,
                ) && match file {
                    Some(f) => piece.position.x == f,
                    None => true,
                } && match rank {
                    Some(r) => piece.position.y == r,
                    None => true,
                }
            },
            None => false,
        }
    }

    /// Parses a move given in algebraic notation
    ///
    /// * Each piece is denoted by an uppercase letter, except for pawns
    ///     - B for bishop
    ///     - K for king
    ///     - N for knight
    ///     - Q for queen
    ///     - R for rook
    ///
    /// * Returns the move to make, or why it cannot be made
    pub fn parse_move(&self, input: &str, white: bool) -> (r: Result<MoveType, Error>)
        requires
            self.wf(),
        ensures
            result_view(r) == parse_spec(self.grid, self.history@, input@, white),
            r is Ok ==> on_board(r->Ok_0),
    {
        if input.unicode_len() < 2 {
            return Err(Error::InvalidArgument);
        }
        let input = Self::sanitise_input(input);
        // handle castling separately
        let side = castle_token(&input);
        if let Some(kingside) = side {
            return match MoveChecker::castle(self, kingside, white) {
                Some((king_x, rook_x)) => {
                    proof {
                        crate::pieces::moves::lemma_castle_files(self.grid, kingside, white);
                    }
                    Ok(MoveType::Castle { king_x, rook_x, kingside })
                },
                None => Err(Error::InvalidMove { message: String::from_str("cannot castle") }),
            };
        }
        let (id, target, promotion) = match Self::process_normal_input(&input, white) {
            Ok(t) => t,
            Err(e) => return Err(e),
        };
        let core = Self::move_core(&input, promotion.is_some());
        let (file, rank) = match Self::disambiguate(&core, id) {
            Ok(d) => d,
            Err(e) => return Err(e),
        };
        if id == Id::Pawn {
            if let Some((x, y)) = MoveChecker::en_passant(self, file, &target, white) {
                let from = Coordinate { x, y };
                let capture = Coordinate { x: target.x, y };
                // check if the move will put the king in check with a test board
                let mut grid = self.grid;
                set_square(&mut grid, from.x, from.y, None);
                let pawn = Piece { position: target, id: Id::Pawn, icon: '♙', white, moves: 0 };
                set_square(&mut grid, target.x, target.y, Some(pawn));
                set_square(&mut grid, capture.x, capture.y, None);
                proof {
                    let g1 = set_sq(self.grid, from.x as int, from.y as int, None);
                    let g2 = set_sq(g1, target.x as int, target.y as int, Some(pawn));
                    lemma_set_sq(self.grid, from.x as int, from.y as int, None);
                    lemma_set_sq(g1, target.x as int, target.y as int, Some(pawn));
                    lemma_set_sq(g2, capture.x as int, capture.y as int, None);
                }
                let test_board = scratch_board(grid);
                return if MoveChecker::in_check(&test_board, white) {
                    Err(Error::InvalidMove { message: String::from_str("puts the king in check") })
                } else {
                    Ok(MoveType::EnPassant { from, target, capture })
                };
            }
        }
        let piece = match self.select_candidate(id, white, &target, file, rank) {
            Ok(p) => p,
            Err(e) => return Err(e),
        };
        // check if the move will put the king in check with a test board
        if in_check_after(self, &piece, target.x, target.y, white) {
            Err(Error::InvalidMove { message: String::from_str("puts the king in check") })
        } else {
            Ok(MoveType::Normal { piece, target, promotion })
        }
    }
}

impl Board {
    /// Moves a piece to the target position
    /// * handles promotion if necessary
    fn make_normal_move(&mut self, piece: Piece, target: Coordinate, promotion: Option<char>)
        requires
            old(self).wf(),
            piece.position.wf(),
            target.wf(),
        ensures
            final(self).wf(),
            final(self).grid == normal_grid(old(self).grid, piece, target, promotion),
            final(self).history@ == old(self).history@,
            final(self).message@ == old(self).message@,
    {
        let ghost g0 = self.grid;
        // properties of moved piece
        let (id, icon) = match promotion {
            Some(icon) => match Id::from_char(icon) {
                Ok(id) => (id, icon),
                Err(_) => (piece.id, piece.icon),
            },
            None => (piece.id, piece.icon),
        };
        let moves = if piece.moves < usize::MAX {
            piece.moves + 1
        } else {
            piece.moves
        };
        let moved_piece = Piece { position: target, id, icon, white: piece.white, moves };
        // move piece
        set_square(&mut self.grid, piece.position.x, piece.position.y, None);
        let ghost g1 = self.grid;
        set_square(&mut self.grid, target.x, target.y, Some(moved_piece));
        proof {
            lemma_set_sq(g0, piece.position.x as int, piece.position.y as int, None);
            lemma_set_sq(g1, target.x as int, target.y as int, Some(moved_piece));
        }
    }

    /// Castling is handled separately because it's the only move that moves 2 pieces at once
    /// * supports chess960 castling: the king and the rook leave the given
    ///   files and stand on the fixed target files
    pub fn castle(&mut self, king_x: usize, rook_x: usize, kingside: bool, white: bool)
        requires
            old(self).wf(),
            king_x < 8,
            rook_x < 8,
        ensures
            final(self).wf(),
            final(self).grid == castle_grid(old(self).grid, king_x as int, rook_x as int, kingside, white),
            final(self).history@ == old(self).history@,
            final(self).message@ == old(self).message@,
    {
        castle_on(&mut self.grid, king_x, rook_x, kingside, white);
    }

    /// En passant is handled separately because the capture is not the same as the target square
    pub fn en_passant(&mut self, from: Coordinate, target: Coordinate, capture: Coordinate, white: bool)
        requires
            old(self).wf(),
            from.wf(),
            target.wf(),
            capture.wf(),
        ensures
            final(self).wf(),
            final(self).grid == en_passant_grid(old(self).grid, from, target, capture, white),
            final(self).history@ == old(self).history@,
            final(self).message@ == old(self).message@,
    {
        let ghost g0 = self.grid;
        let pawn = Piece { position: target, id: Id::Pawn, icon: '♙', white, moves: 0 };
        set_square(&mut self.grid, from.x, from.y, None);
        let ghost g1 = self.grid;
        set_square(&mut self.grid, target.x, target.y, Some(pawn));
        let ghost g2 = self.grid;
        set_square(&mut self.grid, capture.x, capture.y, None);
        proof {
            lemma_set_sq(g0, from.x as int, from.y as int, None);
            lemma_set_sq(g1, target.x as int, target.y as int, Some(pawn));
            lemma_set_sq(g2, capture.x as int, capture.y as int, None);
        }
    }

    /// Moves a piece based on `input`
    /// * Returns `true` if the move is valid, `false` if not; a refused move
    ///   leaves the board and history as they were and explains itself in
    ///   `message`
    pub fn make_move(&mut self, input: &str, white: bool) -> (r: bool)
        requires
            old(self).wf(),
        ensures
            final(self).wf(),
            match parse_spec(old(self).grid, old(self).history@, input@, white) {
                Ok(m) => {
                    &&& r
                    &&& final(self).grid == apply_spec(old(self).grid, m, white)
                    &&& final(self).history@.len() == old(self).history@.len() + 1
                    &&& final(self).history@.drop_last() == old(self).history@
                    &&& final(self).history@.last()@ == input@
                    &&& final(self).message@.len() == 0
                },
                Err(e) => {
                    &&& !r
                    &&& final(self).grid == old(self).grid
                    &&& final(self).history@ == old(self).history@
                    &&& final(self).message@ == rejection_message(input@, e)
                },
            },
    {
        self.message = String::new();
        // check if move is valid first
        match self.parse_move(input, white) {
            Ok(move_type) => {
                match move_type {
                    MoveType::Normal { piece, target, promotion } => self.make_normal_move(
                        piece,
                        target,
                        promotion,
                    ),
                    MoveType::Castle { king_x, rook_x, kingside } => self.castle(
                        king_x,
                        rook_x,
                        kingside,
                        white,
                    ),
                    MoveType::EnPassant { from, target, capture } => self.en_passant(
                        from,
                        target,
                        capture,
                        white,
                    ),
                };
                let ghost h0 = self.history@;
                self.history.push(String::from_str(input));
                assert(self.history@.drop_last() =~= h0);
                true
            },
            Err(error) => {
                let reason = match error {
                    Error::InvalidMove { message } => message,
                    _ => String::from_str("is not a valid move"),
                };
                let mut message = String::from_str("\u{1b}[31m");
                message.append(input);
                message.append(" ");
                message.append(reason.as_str());
                self.message = message;
                false
            },
        }
    }

    /// Checks whether the side of colour `white` has won: its opponent is
    /// checkmated
    /// * announces the winner in `message`
    pub fn game_over(&mut self, white: bool) -> (r: bool)
        requires
            old(self).wf(),
        ensures
            r == checkmate_spec(old(self).grid, !white),
            final(self).grid == old(self).grid,
            final(self).history@ == old(self).history@,
            final(self).message@ == if r {
                victory_message(white)
            } else {
                old(self).message@
            },
    {
        if MoveChecker::checkmate(self, !white) {
            self.message = if white {
                String::from_str("\u{1b}[5mWhite has won!\u{1b}[0m")
            } else {
                String::from_str("\u{1b}[5mBlack has won!\u{1b}[0m")
            };
            return true;
        }
        false
    }
}

impl Board {
    /// Sets up a Chess960 starting position with `back_rank` on the first
    /// rank for white and mirrored on the last rank for black
    /// * fails unless `back_rank` is a valid Chess960 arrangement
    pub fn new_960(back_rank: [Id; 8]) -> (r: Result<Board, Error>)
        ensures
            match r {
                Ok(board) => {
                    &&& is_960_rank(back_rank)
                    &&& board.wf()
                    &&& forall|x: int, y: int|
                        0 <= x < 8 && 0 <= y < 8 ==> #[trigger] sq(board.grid, x, y)
                            == start_square_960(back_rank, x, y)
                    &&& board.history@.len() == 0
                    &&& board.message@.len() == 0
                },
                Err(e) => !is_960_rank(back_rank) && e@ == ErrorView::InvalidArgument,
            },
    {
        if !valid_960_rank(&back_rank) {
            return Err(Error::InvalidArgument);
        }
        let mut grid: Grid = [[None;NUM_COLS];NUM_ROWS];
        let mut x: usize = 0;
        while x < NUM_COLS
            invariant
                x <= 8,
                forall|i: int, j: int|
                    0 <= i < 8 && 0 <= j < 8 ==> #[trigger] sq(grid, i, j) == if i < x {
                        start_square_960(back_rank, i, j)
                    } else {
                        None
                    },
            decreases 8 - x,
        {
            let back = back_rank[x];
            let ghost g0 = grid;
            set_square(&mut grid, x, 0, Some(fresh_piece(x, 0, back, true)));
            let ghost g1 = grid;
            set_square(&mut grid, x, 1, Some(fresh_piece(x, 1, Id::Pawn, true)));
            let ghost g2 = grid;
            set_square(&mut grid, x, 6, Some(fresh_piece(x, 6, Id::Pawn, false)));
            let ghost g3 = grid;
            set_square(&mut grid, x, 7, Some(fresh_piece(x, 7, back, false)));
            proof {
                lemma_set_sq(g0, x as int, 0, Some(fresh(x as int, 0, back, true)));
                lemma_set_sq(g1, x as int, 1, Some(fresh(x as int, 1, Id::Pawn, true)));
                lemma_set_sq(g2, x as int, 6, Some(fresh(x as int, 6, Id::Pawn, false)));
                lemma_set_sq(g3, x as int, 7, Some(fresh(x as int, 7, back, false)));
            }
            x += 1;
        }
        Ok(Board { grid, message: String::new(), history: Vec::new() })
    }
}

/// Whether `rank` is a valid Chess960 back rank.
fn valid_960_rank(rank: &[Id; 8]) -> (r: bool)
    ensures
        r == is_960_rank(*rank),
{
    let mut kings: usize = 0;
    let mut queens: usize = 0;
    let mut rooks: usize = 0;
    let mut bishops: usize = 0;
    let mut knights: usize = 0;
    let mut even_bishop = false;
    let mut odd_bishop = false;
    // files of the first rook, the king after it, and a rook after both
    let mut first_rook: Option<usize> = None;
    let mut king_after_rook: Option<usize> = None;
    let mut rook_after_king = false;
    let mut x: usize = 0;
    while x < 8
        invariant
            x <= 8,
            kings == count_of(*rank, Id::King, x as int),
            queens == count_of(*rank, Id::Queen, x as int),
            rooks == count_of(*rank, Id::Rook, x as int),
            bishops == count_of(*rank, Id::Bishop, x as int),
            knights == count_of(*rank, Id::Knight, x as int),
            kings <= x && queens <= x && rooks <= x && bishops <= x && knights <= x,
            even_bishop == exists|i: int| 0 <= i < x && rank[i] == Id::Bishop && #[trigger] (i % 2) == 0,
            odd_bishop == exists|i: int| 0 <= i < x && rank[i] == Id::Bishop && #[trigger] (i % 2) == 1,
            first_rook is Some == exists|i: int| 0 <= i < x && #[trigger] rank[i] == Id::Rook,
            first_rook is Some ==> first_rook->Some_0 < x && rank[first_rook->Some_0 as int] == Id::Rook,
            king_after_rook is Some == exists|i: int, k: int|
                0 <= i < k < x && #[trigger] rank[i] == Id::Rook && #[trigger] rank[k] == Id::King,
            king_after_rook is Some ==> first_rook is Some && first_rook->Some_0
                < king_after_rook->Some_0 < x && rank[king_after_rook->Some_0 as int] == Id::King,
            rook_after_king == exists|i: int, k: int, j: int|
                0 <= i < k < j < x && #[trigger] rank[i] == Id::Rook && #[trigger] rank[k] == Id::King
                    && #[trigger] rank[j] == Id::Rook,
        decreases 8 - x,
    {
        let id = rank[x];
        match id {
            Id::King => {
                kings += 1;
                if first_rook.is_some() && king_after_rook.is_none() {
                    king_after_rook = Some(x);
                }
            },
            Id::Queen => {
                queens += 1;
            },
            Id::Rook => {
                rooks += 1;
                if king_after_rook.is_some() {
                    rook_after_king = true;
                }
                if first_rook.is_none() {
                    first_rook = Some(x);
                }
            },
            Id::Bishop => {
                bishops += 1;
                if x % 2 == 0 {
                    even_bishop = true;
                } else {
                    odd_bishop = true;
                }
            },
            Id::Knight => {
                knights += 1;
            },
            Id::Pawn => {},
        }
        x += 1;
    }
    let r = kings == 1 && queens == 1 && rooks == 2 && bishops == 2 && knights == 2 && even_bishop
        && odd_bishop && rook_after_king;
    r
}

} // verus!
