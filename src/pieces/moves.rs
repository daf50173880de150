use crate::board::{Board, Grid, EN_PASSANT, KINGSIDE_CASTLE, NUM_COLS, NUM_ROWS, QUEENSIDE_CASTLE};
use crate::coordinate::{square_of, Coordinate};
use crate::notation::{move_core, sanitised};
use crate::pieces::{Id, Piece};
use vstd::prelude::*;

verus! {

broadcast use vstd::array::group_array_axioms;

/// A move that has been checked against the rules and can be applied.
#[derive(Clone, Copy, Debug, PartialEq, Eq, Structural)]
pub enum MoveType {
    Normal { piece: Piece, target: Coordinate, promotion: Option<char> },
    Castle { king_x: usize, rook_x: usize, kingside: bool },
    EnPassant { from: Coordinate, target: Coordinate, capture: Coordinate },
}

/// The movement rules of one kind of piece.
#[derive(Clone, Copy, Debug, PartialEq, Eq, Structural)]
pub enum MoveChecker {
    Bishop,
    King,
    Knight,
    Pawn,
    Queen,
    Rook,
}

/// The occupant of square (x, y).
pub open spec fn sq(g: Grid, x: int, y: int) -> Option<Piece> {
    g[y][x]
}

/// Every piece records the square that it stands on.
pub open spec fn grid_wf(g: Grid) -> bool {
    forall|x: int, y: int|
        0 <= x < 8 && 0 <= y < 8 && (#[trigger] sq(g, x, y)) is Some ==> sq(g, x, y)->Some_0.position
            == (Coordinate { x: x as usize, y: y as usize })
}

/// `g` with square (x, y) holding `v`.
pub open spec fn set_sq(g: Grid, x: int, y: int, v: Option<Piece>) -> Grid {
    vstd::array::spec_array_update(g, y, vstd::array::spec_array_update(g[y], x, v))
}

/// `p` standing on (x, y).
pub open spec fn placed(p: Piece, x: int, y: int) -> Piece {
    Piece { position: Coordinate { x: x as usize, y: y as usize }, ..p }
}

/// `g` after `p` leaves its square for (x, y).
pub open spec fn moved(g: Grid, p: Piece, x: int, y: int) -> Grid {
    set_sq(
        set_sq(g, p.position.x as int, p.position.y as int, None),
        x,
        y,
        Some(placed(p, x, y)),
    )
}

pub open spec fn abs(d: int) -> int {
    if d < 0 {
        -d
    } else {
        d
    }
}

/// The coordinate `k` unit steps from `f` toward `t`.
pub open spec fn along(f: int, t: int, k: int) -> int {
    if t > f {
        f + k
    } else if t < f {
        f - k
    } else {
        f
    }
}

/// Number of unit steps from (fx, fy) to (tx, ty) along a line.
pub open spec fn steps(fx: int, fy: int, tx: int, ty: int) -> int {
    if abs(tx - fx) > abs(ty - fy) {
        abs(tx - fx)
    } else {
        abs(ty - fy)
    }
}

/// The two squares lie on one rank, file or diagonal.
pub open spec fn on_line(fx: int, fy: int, tx: int, ty: int) -> bool {
    fx == tx || fy == ty || abs(tx - fx) == abs(ty - fy)
}

/// The square `k` steps along the path from (fx, fy) to (tx, ty).
pub open spec fn path_sq(g: Grid, fx: int, fy: int, tx: int, ty: int, k: int) -> Option<Piece> {
    sq(g, along(fx, tx, k), along(fy, ty, k))
}

/// Walking from (fx, fy) to (tx, ty) meets a piece before the target, or a
/// piece of colour `white` on the target.
pub open spec fn blocked_spec(g: Grid, fx: int, fy: int, tx: int, ty: int, white: bool) -> bool {
    let n = steps(fx, fy, tx, ty);
    (exists|k: int| 0 < k < n && (#[trigger] path_sq(g, fx, fy, tx, ty, k)) is Some) || (n > 0
        && sq(g, tx, ty) is Some && sq(g, tx, ty)->Some_0.white == white)
}

/// The rank on which pawns of a colour start.
pub open spec fn start_rank(white: bool) -> int {
    if white {
        1
    } else {
        6
    }
}

pub open spec fn checker_of(id: Id) -> MoveChecker {
    match id {
        Id::Bishop => MoveChecker::Bishop,
        Id::King => MoveChecker::King,
        Id::Knight => MoveChecker::Knight,
        Id::Pawn => MoveChecker::Pawn,
        Id::Queen => MoveChecker::Queen,
        Id::Rook => MoveChecker::Rook,
    }
}

/// Whether piece `p`, moving by the rules of `k`, can go to `t` on `g`.
pub open spec fn can_move_spec(k: MoveChecker, g: Grid, p: Piece, t: Coordinate) -> bool {
    let (px, py, tx, ty) = (p.position.x as int, p.position.y as int, t.x as int, t.y as int);
    let dx = abs(tx - px);
    let dy = abs(ty - py);
    let target = sq(g, tx, ty);
    if !t.wf() {
        false
    } else if target is Some && target->Some_0.white == p.white {
        false
    } else if dx == 0 && dy == 0 {
        false
    } else {
        let clear = !blocked_spec(g, px, py, tx, ty, p.white);
        match k {
            MoveChecker::Bishop => dx == dy && clear,
            MoveChecker::King => (dx + dy == 1 || (dx == 1 && dy == 1)) && clear,
            MoveChecker::Knight => (dx == 1 && dy == 2) || (dx == 2 && dy == 1),
            MoveChecker::Pawn => {
                &&& (ty > py) == p.white
                &&& dy <= 2
                &&& if dx != 0 {
                    dx == 1 && dy == 1 && target is Some
                } else {
                    &&& (dy == 2 ==> py == start_rank(p.white))
                    &&& target is None
                    &&& clear
                }
            },
            MoveChecker::Queen => (dx == dy || dx == 0 || dy == 0) && clear,
            MoveChecker::Rook => (dx == 0 || dy == 0) && clear,
        }
    }
}

/// Unsigned distance between two coordinates on one axis.
fn distance(a: usize, b: usize) -> (r: usize)
    ensures
        r == abs(a - b),
{
    if a > b {
        a - b
    } else {
        b - a
    }
}

/// Square (x, y) holds a piece of kind `id` and colour `white`.
pub open spec fn holds(g: Grid, x: int, y: int, white: bool, id: Id) -> bool {
    sq(g, x, y) is Some && sq(g, x, y)->Some_0.white == white && sq(g, x, y)->Some_0.id == id
}

/// The file of the last king of colour `white` among files `0..n` of rank `y`.
pub open spec fn row_last_king(g: Grid, white: bool, y: int, n: int) -> Option<int>
    decreases n,
{
    if n <= 0 {
        None
    } else if holds(g, n - 1, y, white, Id::King) {
        Some(n - 1)
    } else {
        row_last_king(g, white, y, n - 1)
    }
}

/// The square of the last king of colour `white` on ranks `0..m`, in the
/// order rank by rank, file by file.
pub open spec fn last_king(g: Grid, white: bool, m: int) -> Option<(int, int)>
    decreases m,
{
    if m <= 0 {
        None
    } else {
        match row_last_king(g, white, m - 1, 8) {
            Some(x) => Some((x, m - 1)),
            None => last_king(g, white, m - 1),
        }
    }
}

/// The piece on (x, y) is an enemy of `white` and can move to `k`.
pub open spec fn attacks(g: Grid, white: bool, x: int, y: int, k: Coordinate) -> bool {
    match sq(g, x, y) {
        Some(p) => p.white != white && can_move_spec(checker_of(p.id), g, p, k),
        None => false,
    }
}

/// Some enemy of `white` can move to `k`.
pub open spec fn attacked(g: Grid, white: bool, k: Coordinate) -> bool {
    exists|x: int, y: int| 0 <= x < 8 && 0 <= y < 8 && #[trigger] attacks(g, white, x, y, k)
}

/// The king of colour `white` can be taken; a board without such a king is
/// never in check.
pub open spec fn in_check_spec(g: Grid, white: bool) -> bool {
    match last_king(g, white, 8) {
        Some((kx, ky)) => attacked(g, white, Coordinate { x: kx as usize, y: ky as usize }),
        None => false,
    }
}

/// The first file at or after `x` on rank `y` holding a piece of kind `id`
/// and colour `white`.
pub open spec fn find_up(g: Grid, y: int, white: bool, id: Id, x: int) -> Option<int>
    decreases 8 - x,
{
    if x >= 8 {
        None
    } else if holds(g, x, y, white, id) {
        Some(x)
    } else {
        find_up(g, y, white, id, x + 1)
    }
}

/// The nearest file before `x` on rank `y` holding a piece of kind `id` and
/// colour `white`.
pub open spec fn find_down(g: Grid, y: int, white: bool, id: Id, x: int) -> Option<int>
    decreases x,
{
    if x <= 0 {
        None
    } else if holds(g, x - 1, y, white, id) {
        Some(x - 1)
    } else {
        find_down(g, y, white, id, x - 1)
    }
}

pub open spec fn min2(a: int, b: int) -> int {
    if a < b {
        a
    } else {
        b
    }
}

pub open spec fn max2(a: int, b: int) -> int {
    if a > b {
        a
    } else {
        b
    }
}

/// The back rank of a colour.
pub open spec fn back_rank(white: bool) -> int {
    if white {
        0
    } else {
        7
    }
}

/// The files that the king and the rook end on after castling.
pub open spec fn castle_targets(kingside: bool) -> (int, int) {
    if kingside {
        (6, 5)
    } else {
        (2, 3)
    }
}

/// No piece stands on rank `r` between the outermost of the king's and the
/// rook's start and target files, other than the king and the rook.
pub open spec fn castle_path_empty(g: Grid, r: int, kx: int, rx: int, kt: int, rt: int) -> bool {
    let left = min2(min2(kx, rx), min2(kt, rt));
    let right = max2(max2(kx, rx), max2(kt, rt));
    forall|i: int| left <= i <= right && i != kx && i != rx ==> (#[trigger] sq(g, i, r)) is None
}

/// The king, placed on any file from its own to its target on rank `r`, is
/// not in check.
pub open spec fn castle_path_safe(g: Grid, r: int, king: Piece, kt: int, white: bool) -> bool {
    let kx = king.position.x as int;
    forall|i: int|
        min2(kx, kt) <= i <= max2(kx, kt) ==> !#[trigger] in_check_spec(moved(g, king, i, r), white)
}

/// `g` after castling: the king and the rook leave their files on the back
/// rank and stand on the target files, each with one move made.
pub open spec fn castle_grid(g: Grid, king_x: int, rook_x: int, kingside: bool, white: bool) -> Grid {
    let r = back_rank(white);
    let (kt, rt) = castle_targets(kingside);
    let g1 = set_sq(set_sq(g, king_x, r, None), rook_x, r, None);
    let king = Piece {
        position: Coordinate { x: kt as usize, y: r as usize },
        id: Id::King,
        icon: '♔',
        white,
        moves: 1,
    };
    let rook = Piece {
        position: Coordinate { x: rt as usize, y: r as usize },
        id: Id::Rook,
        icon: '♖',
        white,
        moves: 1,
    };
    set_sq(set_sq(g1, kt, r, Some(king)), rt, r, Some(rook))
}

/// The files of the king and rook that castle on the given side, if the
/// rules allow it: the king also must not stand in check once it has castled.
pub open spec fn castle_spec(g: Grid, kingside: bool, white: bool) -> Option<(usize, usize)> {
    let r = back_rank(white);
    match find_up(g, r, white, Id::King, 0) {
        None => None,
        Some(kx) => {
            let rook_file = if kingside {
                find_up(g, r, white, Id::Rook, kx + 1)
            } else {
                find_down(g, r, white, Id::Rook, kx)
            };
            match rook_file {
                None => None,
                Some(rx) => {
                    let king = sq(g, kx, r)->Some_0;
                    let rook = sq(g, rx, r)->Some_0;
                    let (kt, rt) = castle_targets(kingside);
                    if king.moves == 0 && rook.moves == 0 && castle_path_empty(g, r, kx, rx, kt, rt)
                        && castle_path_safe(g, r, king, kt, white) && !in_check_spec(
                        castle_grid(g, kx, rx, kingside, white),
                        white,
                    ) {
                        Some((kx as usize, rx as usize))
                    } else {
                        None
                    }
                },
            }
        },
    }
}

/// The rank from which pawns of a colour capture en passant.
pub open spec fn en_passant_rank(white: bool) -> int {
    if white {
        4
    } else {
        3
    }
}

/// The square that a move names as its target: the two characters before
/// any promotion letter, once the move is reduced to what matters.
pub open spec fn last_target(m: Seq<char>) -> Option<(int, int)> {
    let core = move_core(sanitised(m));
    if core.len() >= 2 {
        square_of(core.subrange(core.len() - 2, core.len() as int))
    } else {
        None
    }
}

/// The square from which the pawn on `from` may take en passant by moving to
/// `t`, if the rules allow it: `t` is empty and directly behind an enemy pawn
/// that stands beside the capturing pawn, has made one move, and stands on
/// the square that the last move in `history` names as its target.
pub open spec fn en_passant_spec(
    g: Grid,
    history: Seq<String>,
    from: Option<usize>,
    t: Coordinate,
    white: bool,
) -> Option<(usize, usize)> {
    let rank = en_passant_rank(white);
    let behind = if white {
        rank + 1
    } else {
        rank - 1
    };
    match from {
        None => None,
        Some(fx) => {
            if t.wf() && t.y == behind && sq(g, t.x as int, t.y as int) is None && fx < 8 && abs(
                fx - t.x,
            ) == 1 && holds(g, fx as int, rank, white, Id::Pawn) && history.len() > 0
                && last_target(history.last()@) == Some((t.x as int, rank)) && holds(g, t.x as int, rank, !white, Id::Pawn) && sq(
                g,
                t.x as int,
                rank,
            )->Some_0.moves == 1 {
                Some((fx, rank as usize))
            } else {
                None
            }
        },
    }
}

/// The piece on (x, y) has colour `white`, can move to (tx, ty), and its
/// king is not in check afterwards.
pub open spec fn escapes(g: Grid, white: bool, x: int, y: int, tx: int, ty: int) -> bool {
    match sq(g, x, y) {
        Some(p) => p.white == white && can_move_spec(
            checker_of(p.id),
            g,
            p,
            Coordinate { x: tx as usize, y: ty as usize },
        ) && !in_check_spec(moved(g, p, tx, ty), white),
        None => false,
    }
}

/// The piece on (x, y) has a move that leaves its king out of check.
pub open spec fn can_escape(g: Grid, white: bool, x: int, y: int) -> bool {
    exists|tx: int, ty: int| 0 <= tx < 8 && 0 <= ty < 8 && #[trigger] escapes(g, white, x, y, tx, ty)
}

/// The king of colour `white` is in check and no move of that side ends it.
pub open spec fn checkmate_spec(g: Grid, white: bool) -> bool {
    in_check_spec(g, white) && !exists|x: int, y: int|
        0 <= x < 8 && 0 <= y < 8 && #[trigger] can_escape(g, white, x, y)
}

/// Pointwise reading of [`set_sq`]; setting a square keeps the grid well
/// formed when the new piece records that square.
pub proof fn lemma_set_sq(g: Grid, x: int, y: int, v: Option<Piece>)
    requires
        0 <= x < 8,
        0 <= y < 8,
    ensures
        forall|i: int, j: int|
            0 <= i < 8 && 0 <= j < 8 ==> #[trigger] sq(set_sq(g, x, y, v), i, j) == if i == x && j
                == y {
                v
            } else {
                sq(g, i, j)
            },
        grid_wf(g) && (v is Some ==> v->Some_0.position == (Coordinate {
            x: x as usize,
            y: y as usize,
        })) ==> grid_wf(set_sq(g, x, y, v)),
{
    let row = vstd::array::spec_array_update(g[y], x, v);
    assert(row@ == g[y]@.update(x, v));
    assert(set_sq(g, x, y, v)@ == g@.update(y, row));
    let h = set_sq(g, x, y, v);
    if grid_wf(g) && (v is Some ==> v->Some_0.position == (Coordinate { x: x as usize, y: y as usize })) {
        assert forall|i: int, j: int|
            0 <= i < 8 && 0 <= j < 8 && (#[trigger] sq(h, i, j)) is Some implies sq(
                h,
                i,
                j,
            )->Some_0.position
            == (Coordinate { x: i as usize, y: j as usize }) by {
            if i == x && j == y {
            } else {
                assert(sq(h, i, j) == sq(g, i, j));
            }
        }
    }
}

/// Two grids that agree on every square are equal.
pub proof fn lemma_grid_ext(a: Grid, b: Grid)
    requires
        forall|i: int, j: int| 0 <= i < 8 && 0 <= j < 8 ==> #[trigger] sq(a, i, j) == sq(b, i, j),
    ensures
        a == b,
{
    assert forall|j: int| 0 <= j < 8 implies a[j] == b[j] by {
        assert forall|i: int| 0 <= i < 8 implies a[j][i] == b[j][i] by {
            assert(sq(a, i, j) == sq(b, i, j));
        }
        assert(a[j] =~= b[j]);
    }
    assert(a =~= b);
}

/// Moving a piece keeps the grid well formed.
pub proof fn lemma_moved_wf(g: Grid, p: Piece, x: int, y: int)
    requires
        grid_wf(g),
        p.position.wf(),
        0 <= x < 8,
        0 <= y < 8,
    ensures
        grid_wf(moved(g, p, x, y)),
{
    let g1 = set_sq(g, p.position.x as int, p.position.y as int, None);
    lemma_set_sq(g, p.position.x as int, p.position.y as int, None);
    lemma_set_sq(g1, x, y, Some(placed(p, x, y)));
}

/// Sets square (x, y) of `g` to `v`.
pub fn set_square(g: &mut Grid, x: usize, y: usize, v: Option<Piece>)
    requires
        x < 8,
        y < 8,
    ensures
        *final(g) == set_sq(*old(g), x as int, y as int, v),
{
    let ghost g0 = *g;
    g[y][x] = v;
    proof {
        lemma_set_sq(g0, x as int, y as int, v);
        lemma_grid_ext(*g, set_sq(g0, x as int, y as int, v));
    }
}

/// Moves the king and the rook of colour `white` from files `king_x` and
/// `rook_x` of the back rank to their castling files.
pub(crate) fn castle_on(g: &mut Grid, king_x: usize, rook_x: usize, kingside: bool, white: bool)
    requires
        grid_wf(*old(g)),
        king_x < 8,
        rook_x < 8,
    ensures
        grid_wf(*final(g)),
        *final(g) == castle_grid(*old(g), king_x as int, rook_x as int, kingside, white),
{
    let ghost g0 = *g;
    let rank = if white {
        0
    } else {
        NUM_ROWS - 1
    };
    let (king_target, rook_target) = if kingside {
        (KINGSIDE_CASTLE[0], KINGSIDE_CASTLE[1])
    } else {
        (QUEENSIDE_CASTLE[0], QUEENSIDE_CASTLE[1])
    };
    assert((king_target as int, rook_target as int) == castle_targets(kingside));
    let king = Piece {
        position: Coordinate { x: king_target, y: rank },
        id: Id::King,
        icon: '♔',
        white,
        moves: 1,
    };
    let rook = Piece {
        position: Coordinate { x: rook_target, y: rank },
        id: Id::Rook,
        icon: '♖',
        white,
        moves: 1,
    };
    // lift both pieces before placing either, since the files may overlap
    set_square(g, king_x, rank, None);
    let ghost g1 = *g;
    set_square(g, rook_x, rank, None);
    let ghost g2 = *g;
    set_square(g, king_target, rank, Some(king));
    let ghost g3 = *g;
    set_square(g, rook_target, rank, Some(rook));
    proof {
        lemma_set_sq(g0, king_x as int, rank as int, None);
        lemma_set_sq(g1, rook_x as int, rank as int, None);
        lemma_set_sq(g2, king_target as int, rank as int, Some(king));
        lemma_set_sq(g3, rook_target as int, rank as int, Some(rook));
    }
}

/// A board without history that holds `grid`, for hypothetical positions.
pub(crate) fn scratch_board(grid: Grid) -> (r: Board)
    ensures
        r.grid == grid,
{
    Board { grid, message: String::new(), history: Vec::new() }
}

/// Whether the king of colour `white` is in check once `piece` has moved to (x, y).
pub(crate) fn in_check_after(board: &Board, piece: &Piece, x: usize, y: usize, white: bool) -> (r: bool)
    requires
        board.wf(),
        piece.position.wf(),
        x < 8,
        y < 8,
    ensures
        r == in_check_spec(moved(board.grid, *piece, x as int, y as int), white),
{
    let mut grid = board.grid;
    set_square(&mut grid, piece.position.x, piece.position.y, None);
    let mut moved_piece = *piece;
    moved_piece.position = Coordinate { x, y };
    set_square(&mut grid, x, y, Some(moved_piece));
    proof {
        assert(moved_piece == placed(*piece, x as int, y as int));
        lemma_moved_wf(board.grid, *piece, x as int, y as int);
    }
    let test_board = scratch_board(grid);
    MoveChecker::in_check(&test_board, white)
}

/// A search along a rank only finds files on the board, at or after its start.
pub proof fn lemma_find_up_range(g: Grid, y: int, white: bool, id: Id, x: int)
    requires
        0 <= x,
    ensures
        find_up(g, y, white, id, x) is Some ==> x <= find_up(g, y, white, id, x)->Some_0 < 8
            && holds(g, find_up(g, y, white, id, x)->Some_0, y, white, id),
    decreases 8 - x,
{
    if x < 8 && !holds(g, x, y, white, id) {
        lemma_find_up_range(g, y, white, id, x + 1);
    }
}

/// A search down a rank only finds files before its start.
pub proof fn lemma_find_down_range(g: Grid, y: int, white: bool, id: Id, x: int)
    ensures
        find_down(g, y, white, id, x) is Some ==> 0 <= find_down(g, y, white, id, x)->Some_0 < x
            && holds(g, find_down(g, y, white, id, x)->Some_0, y, white, id),
    decreases x,
{
    if x > 0 && !holds(g, x - 1, y, white, id) {
        lemma_find_down_range(g, y, white, id, x - 1);
    }
}

/// The files that castling reports lie on the board.
pub proof fn lemma_castle_files(g: Grid, kingside: bool, white: bool)
    ensures
        castle_spec(g, kingside, white) is Some ==> castle_spec(g, kingside, white)->Some_0.0 < 8
            && castle_spec(g, kingside, white)->Some_0.1 < 8,
{
    let r = back_rank(white);
    lemma_find_up_range(g, r, white, Id::King, 0);
    if let Some(kx) = find_up(g, r, white, Id::King, 0) {
        lemma_find_up_range(g, r, white, Id::Rook, kx + 1);
        lemma_find_down_range(g, r, white, Id::Rook, kx);
    }
}

impl MoveChecker {
    pub fn from_id(id: &Id) -> (r: Self)
        ensures
            r == checker_of(*id),
    {
        match id {
            Id::Bishop => Self::Bishop,
            Id::King => Self::King,
            Id::Knight => Self::Knight,
            Id::Queen => Self::Queen,
            Id::Rook => Self::Rook,
            Id::Pawn => Self::Pawn,
        }
    }

    /// Checks if any pieces are blocking along the line between the 2 coordinates
    fn blocked(board: &Board, from: &Coordinate, to: &Coordinate, white: bool) -> (r: bool)
        requires
            from.wf(),
            to.wf(),
            on_line(from.x as int, from.y as int, to.x as int, to.y as int),
        ensures
            r == blocked_spec(board.grid, from.x as int, from.y as int, to.x as int, to.y as int, white),
    {
        let ghost g = board.grid;
        let ghost (fx, fy, tx, ty) = (from.x as int, from.y as int, to.x as int, to.y as int);
        let dx = distance(from.x, to.x);
        let dy = distance(from.y, to.y);
        let n = if dx > dy {
            dx
        } else {
            dy
        };
        assert(n == steps(fx, fy, tx, ty));
        assert(tx != fx ==> abs(tx - fx) == n);
        assert(ty != fy ==> abs(ty - fy) == n);
        let mut k: usize = 1;
        while k < n
            invariant
                1 <= k,
                n == steps(fx, fy, tx, ty),
                n <= 7,
                g == board.grid,
                fx == from.x && fy == from.y && tx == to.x && ty == to.y,
                tx != fx ==> abs(tx - fx) == n,
                ty != fy ==> abs(ty - fy) == n,
                from.wf(),
                to.wf(),
                forall|j: int| 0 < j < k ==> (#[trigger] path_sq(g, fx, fy, tx, ty, j)) is None,
            decreases n - k,
        {
            let x = if to.x > from.x {
                from.x + k
            } else if to.x < from.x {
                from.x - k
            } else {
                from.x
            };
            let y = if to.y > from.y {
                from.y + k
            } else if to.y < from.y {
                from.y - k
            } else {
                from.y
            };
            assert(x == along(fx, tx, k as int) && y == along(fy, ty, k as int));
            if board.grid[y][x].is_some() {
                assert(path_sq(g, fx, fy, tx, ty, k as int) is Some);
                return true;
            }
            k += 1;
        }
        if n == 0 {
            return false;
        }
        match &board.grid[to.y][to.x] {
            Some(piece) => piece.white == white,
            None => false,
        }
    }

    /// Checks if the target position is within the board
    fn in_bounds(target: &Coordinate) -> (r: bool)
        ensures
            r == target.wf(),
    {
        target.x < NUM_COLS && target.y < NUM_ROWS
    }

    /// Checks if a piece can move to a position
    pub fn can_move(&self, board: &Board, piece: &Piece, target: &Coordinate) -> (r: bool)
        requires
            piece.position.wf(),
        ensures
            r == can_move_spec(*self, board.grid, *piece, *target),
    {
        if !Self::in_bounds(target) {
            return false;
        }
        // check if the target position contains a friendly piece

        match &board.grid[target.y][target.x] {
            Some(target) => {
                if piece.white == target.white {
                    return false;
                }
            },
            None => {},
        }
        // unsigned distance along x and y axes
        let dx = distance(piece.position.x, target.x);
        let dy = distance(piece.position.y, target.y);

        // check if the move is actually a move
        if dx == 0 && dy == 0 {
            return false;
        }
        match self {
            Self::Bishop => {
                // check if diagonal
                if !(dx == dy) {
                    return false;
                }
                !Self::blocked(board, &piece.position, target, piece.white)
            },
            Self::King => {
                // 1 square in cardinal and ordinal directions
                if !((dx + dy) == 1 || (dx == 1 && dy == 1)) {
                    return false;
                }
                !Self::blocked(board, &piece.position, target, piece.white)
            },
            Self::Knight => {
                // L-shape, never blocked
                (dx == 1 && dy == 2) || (dx == 2 && dy == 1)
            },
            Self::Pawn => {
                // check if the pawn is moving in the correct direction,
                // and whether the position is within range
                if (target.y > piece.position.y) != piece.white || dy > 2 {
                    return false;
                }
                // if diagonal, check if a piece exists there

                if dx != 0 {
                    if dx != 1 || dy != 1 {
                        return false;
                    }
                    // can only move diagonally when taking

                    return board.grid[target.y][target.x].is_some();
                }
                // if the piece has not moved, it can move 2

                let starting_rank = if piece.white {
                    1
                } else {
                    NUM_ROWS - 2
                };
                if dy == 2 && piece.position.y != starting_rank {
                    return false;
                }
                // pawns only capture along a diagonal

                if board.grid[target.y][target.x].is_some() {
                    return false;
                }
                !Self::blocked(board, &piece.position, target, piece.white)
            },
            Self::Queen => {
                // check if diagonal or vertical or horizontal
                if !(dx == dy || dx == 0 || dy == 0) {
                    return false;
                }
                !Self::blocked(board, &piece.position, target, piece.white)
            },
            Self::Rook => {
                // check if vertical or horizontal
                if !(dx == 0 || dy == 0) {
                    return false;
                }
                !Self::blocked(board, &piece.position, target, piece.white)
            },
        }
    }
    /// Checks if the king is in check
    #[verifier::loop_isolation(false)]
    pub fn in_check(board: &Board, white: bool) -> (r: bool)
        requires
            board.wf(),
        ensures
            r == in_check_spec(board.grid, white),
    {
        let ghost g = board.grid;
        let mut king: Option<(usize, usize)> = None;
        let mut y: usize = 0;
        while y < NUM_ROWS
            invariant
                y <= 8,
                g == board.grid,
                match king {
                    Some((kx, ky)) => kx < 8 && ky < 8 && last_king(g, white, y as int) == Some(
                        (kx as int, ky as int),
                    ),
                    None => last_king(g, white, y as int) is None,
                },
            decreases 8 - y,
        {
            let mut x: usize = 0;
            while x < NUM_COLS
                invariant
                    x <= 8,
                    y < 8,
                    g == board.grid,
                    match king {
                        Some((kx, ky)) => kx < 8 && ky < 8 && match row_last_king(g, white, y as int, x as int) {
                            Some(xx) => (kx as int, ky as int) == (xx, y as int),
                            None => last_king(g, white, y as int) == Some((kx as int, ky as int)),
                        },
                        None => row_last_king(g, white, y as int, x as int) is None && last_king(
                            g,
                            white,
                            y as int,
                        ) is None,
                    },
                decreases 8 - x,
            {
                match &board.grid[y][x] {
                    Some(piece) => {
                        // find the king
                        if piece.white == white && piece.id == Id::King {
                            king = Some((x, y));
                        }
                    },
                    None => {},
                }
                x += 1;
            }
            y += 1;
        }
        // there might not be a king for custom boards, so just return false
        let (kx, ky) = match king {
            Some(k) => k,
            None => return false,
        };
        let position = Coordinate { x: kx, y: ky };
        let mut y: usize = 0;
        while y < NUM_ROWS
            invariant
                y <= 8,
                g == board.grid,
                grid_wf(g),
                last_king(g, white, 8) == Some((kx as int, ky as int)),
                position == (Coordinate { x: kx, y: ky }),
                forall|xx: int, yy: int| 0 <= xx < 8 && 0 <= yy < y ==> !#[trigger] attacks(g, white, xx, yy, position),
            decreases 8 - y,
        {
            let mut x: usize = 0;
            while x < NUM_COLS
                invariant
                    x <= 8,
                    y < 8,
                    g == board.grid,
                    grid_wf(g),
                    last_king(g, white, 8) == Some((kx as int, ky as int)),
                    position == (Coordinate { x: kx, y: ky }),
                    forall|xx: int, yy: int|
                        0 <= xx < 8 && 0 <= yy < y ==> !#[trigger] attacks(g, white, xx, yy, position),
                    forall|xx: int| 0 <= xx < x ==> !#[trigger] attacks(g, white, xx, y as int, position),
                decreases 8 - x,
            {
                match &board.grid[y][x] {
                    Some(piece) => {
                        // check if the piece can attack the king
                        if piece.white != white {
                            assert(sq(g, x as int, y as int) is Some);
                            let checker = MoveChecker::from_id(&piece.id);
                            if checker.can_move(board, piece, &position) {
                                assert(attacks(g, white, x as int, y as int, position));
                                return true;
                            }
                        }
                    },
                    None => {},
                }
                x += 1;
            }
            y += 1;
        }
        false
    }
    /// The first file at or after `start` on rank `y` that holds a piece of
    /// kind `id` and colour `white`.
    fn scan_up(board: &Board, y: usize, white: bool, id: Id, start: usize) -> (r: Option<usize>)
        requires
            y < 8,
            start <= 8,
        ensures
            match r {
                Some(x) => find_up(board.grid, y as int, white, id, start as int) == Some(x as int)
                    && x < 8 && holds(board.grid, x as int, y as int, white, id),
                None => find_up(board.grid, y as int, white, id, start as int) is None,
            },
    {
        let mut x = start;
        while x < NUM_COLS
            invariant
                start <= x <= 8,
                y < 8,
                find_up(board.grid, y as int, white, id, start as int) == find_up(
                    board.grid,
                    y as int,
                    white,
                    id,
                    x as int,
                ),
            decreases 8 - x,
        {
            match &board.grid[y][x] {
                Some(piece) => {
                    if piece.id == id && piece.white == white {
                        return Some(x);
                    }
                },
                None => {},
            }
            x += 1;
        }
        None
    }

    /// The nearest file before `end` on rank `y` that holds a piece of kind
    /// `id` and colour `white`.
    fn scan_down(board: &Board, y: usize, white: bool, id: Id, end: usize) -> (r: Option<usize>)
        requires
            y < 8,
            end <= 8,
        ensures
            match r {
                Some(x) => find_down(board.grid, y as int, white, id, end as int) == Some(x as int)
                    && x < 8 && holds(board.grid, x as int, y as int, white, id),
                None => find_down(board.grid, y as int, white, id, end as int) is None,
            },
    {
        let mut x = end;
        while x > 0
            invariant
                x <= end <= 8,
                y < 8,
                find_down(board.grid, y as int, white, id, end as int) == find_down(
                    board.grid,
                    y as int,
                    white,
                    id,
                    x as int,
                ),
            decreases x,
        {
            match &board.grid[y][x - 1] {
                Some(piece) => {
                    if piece.id == id && piece.white == white {
                        return Some(x - 1);
                    }
                },
                None => {},
            }
            x -= 1;
        }
        None
    }

    /// Checks that no piece other than the king and the rook stands on the
    /// files that castling spans
    fn castle_path_empty(
        board: &Board,
        rank: usize,
        king_x: usize,
        rook_x: usize,
        king_target: usize,
        rook_target: usize,
    ) -> (r: bool)
        requires
            rank < 8,
            king_x < 8,
            rook_x < 8,
            king_target < 8,
            rook_target < 8,
        ensures
            r == castle_path_empty(
                board.grid,
                rank as int,
                king_x as int,
                rook_x as int,
                king_target as int,
                rook_target as int,
            ),
    {
        let ghost g = board.grid;
        let left = min(min(king_x, rook_x), min(king_target, rook_target));
        let right = max(max(king_x, rook_x), max(king_target, rook_target));
        let mut i = left;
        while i <= right
            invariant
                left <= i <= right + 1,
                right < 8,
                rank < 8,
                g == board.grid,
                left == min2(min2(king_x as int, rook_x as int), min2(king_target as int, rook_target as int)),
                right == max2(max2(king_x as int, rook_x as int), max2(king_target as int, rook_target as int)),
                forall|j: int|
                    left <= j < i && j != king_x && j != rook_x ==> (#[trigger] sq(g, j, rank as int)) is None,
            decreases right + 1 - i,
        {
            if i != king_x && i != rook_x && board.grid[rank][i].is_some() {
                assert(sq(g, i as int, rank as int) is Some);
                return false;
            }
            i += 1;
        }
        true
    }

    /// Checks that the king is not in check on any file from its own to its
    /// castling target
    fn castle_path_safe(board: &Board, rank: usize, king: &Piece, king_target: usize, white: bool) -> (r: bool)
        requires
            board.wf(),
            rank < 8,
            king.position.wf(),
            king_target < 8,
        ensures
            r == castle_path_safe(board.grid, rank as int, *king, king_target as int, white),
    {
        let ghost g = board.grid;
        let left = min(king.position.x, king_target);
        let right = max(king.position.x, king_target);
        let mut i = left;
        while i <= right
            invariant
                left <= i <= right + 1,
                right < 8,
                rank < 8,
                g == board.grid,
                board.wf(),
                king.position.wf(),
                left == min2(king.position.x as int, king_target as int),
                right == max2(king.position.x as int, king_target as int),
                forall|j: int|
                    left <= j < i ==> !#[trigger] in_check_spec(moved(g, *king, j, rank as int), white),
            decreases right + 1 - i,
        {
            if in_check_after(board, king, i, rank, white) {
                return false;
            }
            i += 1;
        }
        true
    }

    /// Checks if castling is possible
    /// * returns the files that the king and rook are in
    /// * supports chess960 castling
    /// * refuses a castle that would leave the king in check
    #[verifier::loop_isolation(false)]
    pub fn castle(board: &Board, kingside: bool, white: bool) -> (r: Option<(usize, usize)>)
        requires
            board.wf(),
        ensures
            r == castle_spec(board.grid, kingside, white),
    {
        let ghost g = board.grid;
        let rank = if white {
            0
        } else {
            NUM_ROWS - 1
        };
        let king_x = match Self::scan_up(board, rank, white, Id::King, 0) {
            Some(x) => x,
            None => return None,
        };
        let rook_x = if kingside {
            Self::scan_up(board, rank, white, Id::Rook, king_x + 1)
        } else {
            Self::scan_down(board, rank, white, Id::Rook, king_x)
        };
        let rook_x = match rook_x {
            Some(x) => x,
            None => return None,
        };
        let king = match board.grid[rank][king_x] {
            Some(p) => p,
            None => return None,
        };
        let rook = match board.grid[rank][rook_x] {
            Some(p) => p,
            None => return None,
        };
        // can only castle if both pieces haven't moved
        if king.moves != 0 || rook.moves != 0 {
            return None;
        }
        // castled king and rook positions are always the same

        let (king_target, rook_target) = if kingside {
            (KINGSIDE_CASTLE[0], KINGSIDE_CASTLE[1])
        } else {
            (QUEENSIDE_CASTLE[0], QUEENSIDE_CASTLE[1])
        };
        assert((king_target as int, rook_target as int) == castle_targets(kingside));
        if !Self::castle_path_empty(board, rank, king_x, rook_x, king_target, rook_target) {
            return None;
        }
        if !Self::castle_path_safe(board, rank, &king, king_target, white) {
            return None;
        }
        // the king must not be in check once the rook has moved too
        let mut grid = board.grid;
        castle_on(&mut grid, king_x, rook_x, kingside, white);
        let castled = scratch_board(grid);
        if Self::in_check(&castled, white) {
            return None;
        }
        Some((king_x, rook_x))
    }

    /// En passant: the pawn on file `from` of the capturing rank takes the
    /// pawn that has just passed it by moving to `target`.
    /// * returns the file and rank of the capturing pawn, which is also the
    ///   rank of the captured pawn
    pub fn en_passant(board: &Board, from: Option<usize>, target: &Coordinate, white: bool) -> (r:
        Option<(usize, usize)>)
        ensures
            r == en_passant_spec(board.grid, board.history@, from, *target, white),
    {
        let from = match from {
            Some(x) => x,
            None => return None,
        };
        if !Self::in_bounds(target) || from >= NUM_COLS {
            return None;
        }
        // en passant can only occur right after the pawn moved 2 squares

        let rank = if white {
            EN_PASSANT[0]
        } else {
            EN_PASSANT[1]
        };
        assert(rank == en_passant_rank(white));
        let behind = if white {
            rank + 1
        } else {
            rank - 1
        };
        if target.y != behind || distance(from, target.x) != 1 {
            return None;
        }
        // check if the target position is occupied

        if board.grid[target.y][target.x].is_some() {
            return None;
        }
        // check if there is a pawn to do the en passant

        match &board.grid[rank][from] {
            Some(piece) => {
                if piece.id != Id::Pawn || piece.white != white {
                    return None;
                }
            },
            None => return None,
        }
        // check that the last move lands on the square beside the capturing pawn

        let n = board.history.len();
        if n == 0 {
            return None;
        }
        let last = Board::sanitise_input(board.history[n - 1].as_str());
        let promotion = Board::promote_to(&last);
        let core = Board::move_core(&last, promotion.is_some());
        match Board::target_position(&core) {
            Ok(last_move) => {
                if last_move.x != target.x || last_move.y != rank {
                    return None;
                }
            },
            // names no square
            Err(_) => return None,
        }
        match &board.grid[rank][target.x] {
            Some(piece) => {
                if piece.id == Id::Pawn && piece.white != white && piece.moves == 1 {
                    return Some((from, rank));
                }
            },
            None => {},
        }
        None
    }

    /// Whether some move of the piece on (x, y), of colour `white`, leaves
    /// its king out of check.
    #[verifier::loop_isolation(false)]
    fn can_escape(board: &Board, x: usize, y: usize, white: bool) -> (r: bool)
        requires
            board.wf(),
            x < 8,
            y < 8,
        ensures
            r == can_escape(board.grid, white, x as int, y as int),
    {
        let ghost g = board.grid;
        let piece = match board.grid[y][x] {
            Some(p) => p,
            None => return false,
        };
        if piece.white != white {
            return false;
        }
        let checker = MoveChecker::from_id(&piece.id);
        let mut ty: usize = 0;
        while ty < NUM_ROWS
            invariant
                ty <= 8,
                g == board.grid,
                board.wf(),
                x < 8 && y < 8,
                sq(g, x as int, y as int) == Some(piece),
                piece.white == white,
                piece.position.wf(),
                checker == checker_of(piece.id),
                forall|i: int, j: int|
                    0 <= i < 8 && 0 <= j < ty ==> !#[trigger] escapes(g, white, x as int, y as int, i, j),
            decreases 8 - ty,
        {
            let mut tx: usize = 0;
            while tx < NUM_COLS
                invariant
                    tx <= 8,
                    ty < 8,
                    g == board.grid,
                    board.wf(),
                    x < 8 && y < 8,
                    sq(g, x as int, y as int) == Some(piece),
                    piece.white == white,
                    piece.position.wf(),
                    checker == checker_of(piece.id),
                    forall|i: int, j: int|
                        0 <= i < 8 && 0 <= j < ty ==> !#[trigger] escapes(g, white, x as int, y as int, i, j),
                    forall|i: int|
                        0 <= i < tx ==> !#[trigger] escapes(g, white, x as int, y as int, i, ty as int),
                decreases 8 - tx,
            {
                let target = Coordinate { x: tx, y: ty };
                if checker.can_move(board, &piece, &target) && !in_check_after(
                    board,
                    &piece,
                    tx,
                    ty,
                    white,
                ) {
                    assert(escapes(g, white, x as int, y as int, tx as int, ty as int));
                    return true;
                }
                tx += 1;
            }
            ty += 1;
        }
        false
    }

    /// Checks if the side of colour `white` is in check and has no move that
    /// ends the check
    #[verifier::loop_isolation(false)]
    pub fn checkmate(board: &Board, white: bool) -> (r: bool)
        requires
            board.wf(),
        ensures
            r == checkmate_spec(board.grid, white),
    {
        let ghost g = board.grid;
        if !Self::in_check(board, white) {
            return false;
        }
        let mut y: usize = 0;
        while y < NUM_ROWS
            invariant
                y <= 8,
                g == board.grid,
                board.wf(),
                forall|i: int, j: int| 0 <= i < 8 && 0 <= j < y ==> !#[trigger] can_escape(g, white, i, j),
            decreases 8 - y,
        {
            let mut x: usize = 0;
            while x < NUM_COLS
                invariant
                    x <= 8,
                    y < 8,
                    g == board.grid,
                    board.wf(),
                    forall|i: int, j: int| 0 <= i < 8 && 0 <= j < y ==> !#[trigger] can_escape(g, white, i, j),
                    forall|i: int| 0 <= i < x ==> !#[trigger] can_escape(g, white, i, y as int),
                decreases 8 - x,
            {
                if Self::can_escape(board, x, y, white) {
                    return false;
                }
                x += 1;
            }
            y += 1;
        }
        true
    }
}

/// The smaller of two files.
fn min(a: usize, b: usize) -> (r: usize)
    ensures
        r == min2(a as int, b as int),
{
    if a < b {
        a
    } else {
        b
    }
}

/// The larger of two files.
fn max(a: usize, b: usize) -> (r: usize)
    ensures
        r == max2(a as int, b as int),
{
    if a > b {
        a
    } else {
        b
    }
}

} // verus!
