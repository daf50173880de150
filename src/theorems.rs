//! Properties that hold of every board and every move, proved from the
//! contracts of the move checker and the notation parser.
use crate::board::{
    ambiguous_text, apply_spec, disambiguation_spec, en_passant_grid, forced_promotion_text,
    is_candidate, normal_grid, normal_input_spec, not_promotion_text, parse_spec, promotion_rank,
    select_spec, Grid,
};
use crate::notation::{
    castle_side, id_of_move, lemma_sanitised_len, move_core, promotion_of, sanitised,
};
use crate::coordinate::square_of;
use crate::coordinate::Coordinate;
use crate::pieces::moves::{
    abs, along, attacks, back_rank, can_move_spec, castle_path_empty, castle_path_safe, castle_spec,
    castle_grid, castle_targets, checker_of, en_passant_rank, en_passant_spec, find_down, find_up,
    grid_wf, holds, last_target,
    blocked_spec, in_check_spec, last_king, lemma_find_down_range, lemma_find_up_range,
    lemma_moved_wf, lemma_set_sq, moved,
    on_line, path_sq, placed, row_last_king, set_sq, sq, start_rank, steps, MoveChecker, MoveType,
};
use crate::pieces::piece::id_of_char;
use crate::pieces::Id;
use crate::ErrorView;
use crate::pieces::Piece;
use vstd::prelude::*;

verus! {

broadcast use vstd::array::group_array_axioms;

/// A sliding piece (bishop, rook or queen) cannot pass a piece standing on
/// its path, and cannot land on a piece of its own colour.
pub proof fn lemma_sliding_blocked(k: MoveChecker, g: Grid, p: Piece, t: Coordinate, j: int)
    requires
        k == MoveChecker::Bishop || k == MoveChecker::Rook || k == MoveChecker::Queen,
        p.position.wf(),
        t.wf(),
    ensures
        0 < j < steps(p.position.x as int, p.position.y as int, t.x as int, t.y as int) && path_sq(
            g,
            p.position.x as int,
            p.position.y as int,
            t.x as int,
            t.y as int,
            j,
        ) is Some ==> !can_move_spec(k, g, p, t),
        sq(g, t.x as int, t.y as int) is Some && sq(g, t.x as int, t.y as int)->Some_0.white
            == p.white ==> !can_move_spec(k, g, p, t),
{
}

/// A sliding piece whose path is clear captures an enemy piece on the last
/// square of its path.
pub proof fn lemma_sliding_capture(k: MoveChecker, g: Grid, p: Piece, t: Coordinate)
    requires
        k == MoveChecker::Bishop || k == MoveChecker::Rook || k == MoveChecker::Queen,
        p.position.wf(),
        t.wf(),
        ({
            let dx = abs(t.x - p.position.x);
            let dy = abs(t.y - p.position.y);
            &&& dx + dy > 0
            &&& (k == MoveChecker::Bishop ==> dx == dy)
            &&& (k == MoveChecker::Rook ==> dx == 0 || dy == 0)
            &&& (k == MoveChecker::Queen ==> dx == dy || dx == 0 || dy == 0)
        }),
        forall|j: int|
            0 < j < steps(p.position.x as int, p.position.y as int, t.x as int, t.y as int)
                ==> (#[trigger] path_sq(
                g,
                p.position.x as int,
                p.position.y as int,
                t.x as int,
                t.y as int,
                j,
            )) is None,
        sq(g, t.x as int, t.y as int) is Some,
        sq(g, t.x as int, t.y as int)->Some_0.white != p.white,
    ensures
        can_move_spec(k, g, p, t),
{
}

/// A knight is never blocked: whether it can move depends on the L-shape
/// and on the colour of the piece on its target alone.
pub proof fn lemma_knight_never_blocked(g: Grid, p: Piece, t: Coordinate)
    requires
        p.position.wf(),
    ensures
        can_move_spec(MoveChecker::Knight, g, p, t) == {
            let dx = abs(t.x - p.position.x);
            let dy = abs(t.y - p.position.y);
            &&& t.wf()
            &&& ((dx == 1 && dy == 2) || (dx == 2 && dy == 1))
            &&& !(sq(g, t.x as int, t.y as int) is Some && sq(g, t.x as int, t.y as int)->Some_0.white
                == p.white)
        },
{
}

/// Pawns advance one square, or two from their starting rank over an empty
/// square; they never move straight onto an occupied square, and move
/// diagonally only to capture.
pub proof fn lemma_pawn_rules(g: Grid, p: Piece, t: Coordinate)
    requires
        p.position.wf(),
        t.wf(),
    ensures
        ({
            let (px, py, tx, ty) = (p.position.x as int, p.position.y as int, t.x as int, t.y as int);
            let forward = if p.white {
                1int
            } else {
                -1int
            };
            &&& can_move_spec(MoveChecker::Pawn, g, p, t) && tx == px ==> ty == py + forward || (ty
                == py + 2 * forward && py == start_rank(p.white))
            &&& ty == py + 2 * forward && tx == px && sq(g, px, py + forward) is Some
                ==> !can_move_spec(MoveChecker::Pawn, g, p, t)
            &&& tx == px && sq(g, tx, ty) is Some ==> !can_move_spec(MoveChecker::Pawn, g, p, t)
            &&& tx != px && can_move_spec(MoveChecker::Pawn, g, p, t) ==> ty == py + forward && abs(tx - px)
                == 1 && sq(g, tx, ty) is Some && sq(g, tx, ty)->Some_0.white != p.white
        }),
{
    let (px, py, tx, ty) = (p.position.x as int, p.position.y as int, t.x as int, t.y as int);
    let forward = if p.white {
        1int
    } else {
        -1int
    };
    if ty == py + 2 * forward && tx == px && sq(g, px, py + forward) is Some {
        assert(path_sq(g, px, py, tx, ty, 1) is Some);
    }
}

/// A promotion letter is honoured only for a pawn that reaches the last
/// rank, where it is required: a move that asks for one elsewhere is refused
/// as no valid promotion, a pawn move to the last rank without one is
/// refused as a forced promotion, and an accepted promotion changes the
/// pawn's kind to the one asked for.
pub proof fn lemma_promotion_rules(g: Grid, history: Seq<String>, input: Seq<char>, white: bool)
    ensures
        ({
            let s = sanitised(input);
            let core = move_core(s);
            let square = square_of(core.subrange(core.len() - 2, core.len() as int));
            &&& promotion_of(s) is Some && core.len() >= 2 && square is Some && (id_of_move(s)
                != Id::Pawn || square->Some_0.1 != promotion_rank(white)) ==> parse_spec(
                g,
                history,
                input,
                white,
            ) == Err::<MoveType, ErrorView>(ErrorView::InvalidMove(not_promotion_text()))
            &&& promotion_of(s) is None && id_of_move(s) == Id::Pawn && core.len() >= 2 && square
                is Some && square->Some_0.1 == promotion_rank(white) ==> parse_spec(
                g,
                history,
                input,
                white,
            ) == Err::<MoveType, ErrorView>(ErrorView::InvalidMove(forced_promotion_text()))
        }),
        match parse_spec(g, history, input, white) {
            Ok(MoveType::Normal { piece, target, promotion: Some(c) }) => {
                let after = apply_spec(g, MoveType::Normal { piece, target, promotion: Some(c) }, white);
                &&& target.y == promotion_rank(white)
                &&& id_of_char(c) is Some
                &&& id_of_char(c)->Some_0 != Id::Pawn
                &&& id_of_char(c)->Some_0 != Id::King
                &&& sq(after, target.x as int, target.y as int) is Some
                &&& sq(after, target.x as int, target.y as int)->Some_0.id == id_of_char(c)->Some_0
            },
            _ => true,
        },
{
    let s = sanitised(input);
    let core = move_core(s);
    lemma_sanitised_len(input);
    if castle_side(s) is Some {
        assert(core == s);
        assert(core.subrange(core.len() - 2, core.len() as int)[1] == 'O');
    }
    if let Ok(MoveType::Normal { piece, target, promotion: Some(c) }) = parse_spec(g, history, input, white) {
        let (id, t, promotion) = normal_input_spec(s, white)->Ok_0;
        assert(promotion == Some(c) && t == target);
        assert(target.wf());
        let g1 = set_sq(g, piece.position.x as int, piece.position.y as int, None);
        let ng = normal_grid(g, piece, target, Some(c));
        lemma_set_sq(g1, target.x as int, target.y as int, sq(ng, target.x as int, target.y as int));
    }
}

/// A move whose source file and rank are both given names at most one piece,
/// so it is never ambiguous.
pub proof fn lemma_full_disambiguation(
    g: Grid,
    id: Id,
    white: bool,
    t: Coordinate,
    file: usize,
    rank: usize,
)
    requires
        grid_wf(g),
    ensures
        select_spec(g, id, white, t, Some(file), Some(rank)) != Err::<Piece, ErrorView>(
            ErrorView::InvalidMove(ambiguous_text()),
        ),
{
    reveal(is_candidate);
    assert forall|x1: int, y1: int, x2: int, y2: int|
        0 <= x1 < 8 && 0 <= y1 < 8 && 0 <= x2 < 8 && 0 <= y2 < 8 && #[trigger] is_candidate(
            g,
            id,
            white,
            t,
            Some(file),
            Some(rank),
            x1,
            y1,
        ) && #[trigger] is_candidate(g, id, white, t, Some(file), Some(rank), x2, y2) implies (x1, y1)
        == (x2, y2) by {
        assert(sq(g, x1, y1) is Some);
        assert(sq(g, x2, y2) is Some);
    }
}

/// The first file at or after `x` on rank `y` with a piece of kind `id` and
/// colour `white` is `v` exactly when that piece stands on `v` and on no
/// file between.
proof fn lemma_find_up_first(g: Grid, y: int, white: bool, id: Id, x: int, v: int)
    requires
        0 <= x,
    ensures
        find_up(g, y, white, id, x) == Some(v) <==> (x <= v < 8 && holds(g, v, y, white, id)
            && forall|i: int| x <= i < v ==> !#[trigger] holds(g, i, y, white, id)),
    decreases 8 - x,
{
    if x < 8 && !holds(g, x, y, white, id) {
        lemma_find_up_first(g, y, white, id, x + 1, v);
    }
}

/// The nearest file before `x` on rank `y` with a piece of kind `id` and
/// colour `white` is `v` exactly when that piece stands on `v` and on no
/// file between.
proof fn lemma_find_down_first(g: Grid, y: int, white: bool, id: Id, x: int, v: int)
    ensures
        find_down(g, y, white, id, x) == Some(v) <==> (0 <= v < x && holds(g, v, y, white, id)
            && forall|i: int| v < i < x ==> !#[trigger] holds(g, i, y, white, id)),
    decreases x,
{
    if x > 0 && !holds(g, x - 1, y, white, id) {
        lemma_find_down_first(g, y, white, id, x - 1, v);
    }
}

/// Castling on one side moves the king on file `kx` and the rook on file
/// `rx` exactly when: the king is the first king of its colour on its back
/// rank and the rook is the nearest rook of its colour on that side of it,
/// neither has ever moved, nothing but the two of them stands on the files
/// that castling spans, the king would not be in check on any file that it
/// passes, its own and its target included, and it is not in check once
/// both pieces stand on their castling files.
pub proof fn lemma_castle_requirements(g: Grid, kingside: bool, white: bool, kx: usize, rx: usize)
    ensures
        castle_spec(g, kingside, white) == Some((kx, rx)) <==> {
            let r = back_rank(white);
            let (kt, rt) = castle_targets(kingside);
            &&& kx < 8 && rx < 8
            &&& holds(g, kx as int, r, white, Id::King)
            &&& forall|i: int| 0 <= i < kx ==> !#[trigger] holds(g, i, r, white, Id::King)
            &&& holds(g, rx as int, r, white, Id::Rook)
            &&& kingside ==> kx < rx && forall|i: int|
                kx < i < rx ==> !#[trigger] holds(g, i, r, white, Id::Rook)
            &&& !kingside ==> rx < kx && forall|i: int|
                rx < i < kx ==> !#[trigger] holds(g, i, r, white, Id::Rook)
            &&& sq(g, kx as int, r)->Some_0.moves == 0
            &&& sq(g, rx as int, r)->Some_0.moves == 0
            &&& castle_path_empty(g, r, kx as int, rx as int, kt, rt)
            &&& castle_path_safe(g, r, sq(g, kx as int, r)->Some_0, kt, white)
            &&& !in_check_spec(castle_grid(g, kx as int, rx as int, kingside, white), white)
        },
{
    let r = back_rank(white);
    lemma_find_up_first(g, r, white, Id::King, 0, kx as int);
    lemma_find_up_range(g, r, white, Id::King, 0);
    if let Some(k) = find_up(g, r, white, Id::King, 0) {
        lemma_find_up_range(g, r, white, Id::Rook, k + 1);
        lemma_find_down_range(g, r, white, Id::Rook, k);
    }
    lemma_find_up_first(g, r, white, Id::Rook, kx + 1, rx as int);
    lemma_find_down_first(g, r, white, Id::Rook, kx as int, rx as int);
}

/// The pawn on file `fx` takes en passant by moving to `t` exactly when: the
/// move names that file, `t` is on the board, empty, and directly behind an
/// enemy pawn beside the capturing pawn on the capturing rank, that enemy
/// pawn has made one move, and the last move played names its square as
/// the target. Taking empties the capturing pawn's square and the captured
/// pawn's square, not the target.
pub proof fn lemma_en_passant_rules(
    g: Grid,
    history: Seq<String>,
    from: Option<usize>,
    t: Coordinate,
    white: bool,
    fx: usize,
)
    ensures
        ({
            let rank = en_passant_rank(white);
            en_passant_spec(g, history, from, t, white) == Some((fx, rank as usize)) <==> {
                &&& from == Some(fx)
                &&& fx < 8
                &&& t.wf()
                &&& sq(g, t.x as int, t.y as int) is None
                &&& t.y == if white {
                    rank + 1
                } else {
                    rank - 1
                }
                &&& abs(fx - t.x) == 1
                &&& holds(g, fx as int, rank, white, Id::Pawn)
                &&& holds(g, t.x as int, rank, !white, Id::Pawn)
                &&& sq(g, t.x as int, rank)->Some_0.moves == 1
                &&& history.len() > 0
                &&& last_target(history.last()@) == Some((t.x as int, rank))
            }
        }),
        en_passant_spec(g, history, from, t, white) is Some ==> {
            let (x, rank) = en_passant_spec(g, history, from, t, white)->Some_0;
            let capture = Coordinate { x: t.x, y: rank };
            let after = en_passant_grid(g, Coordinate { x, y: rank }, t, capture, white);
            &&& rank == en_passant_rank(white)
            &&& sq(after, t.x as int, t.y as int) == Some(
                Piece { position: t, id: Id::Pawn, icon: '♙', white, moves: 0 },
            )
            &&& sq(after, x as int, rank as int) is None
            &&& sq(after, t.x as int, rank as int) is None
        },
{
    if let Some((x, rank)) = en_passant_spec(g, history, from, t, white) {
        let pawn = Piece { position: t, id: Id::Pawn, icon: '♙', white, moves: 0 };
        let g1 = set_sq(g, x as int, rank as int, None);
        let g2 = set_sq(g1, t.x as int, t.y as int, Some(pawn));
        lemma_set_sq(g, x as int, rank as int, None);
        lemma_set_sq(g1, t.x as int, t.y as int, Some(pawn));
        lemma_set_sq(g2, t.x as int, rank as int, None);
    }
}

/// Square (x, y) looks the same on `a` and on `b` to a test whether the king
/// of colour `white` is in check.
spec fn agree(a: Grid, b: Grid, white: bool, x: int, y: int) -> bool {
    &&& (sq(a, x, y) is Some <==> sq(b, x, y) is Some)
    &&& (sq(a, x, y) is Some && sq(b, x, y) is Some ==> sq(a, x, y)->Some_0.white == sq(
        b,
        x,
        y,
    )->Some_0.white)
    &&& (sq(a, x, y) is Some && sq(a, x, y)->Some_0.white != white ==> sq(a, x, y) == sq(b, x, y))
    &&& holds(a, x, y, white, Id::King) == holds(b, x, y, white, Id::King)
}

spec fn look_alike(a: Grid, b: Grid, white: bool) -> bool {
    forall|x: int, y: int| 0 <= x < 8 && 0 <= y < 8 ==> #[trigger] agree(a, b, white, x, y)
}

proof fn lemma_blocked_alike(
    a: Grid,
    b: Grid,
    white: bool,
    fx: int,
    fy: int,
    tx: int,
    ty: int,
    c: bool,
)
    requires
        look_alike(a, b, white),
        0 <= fx < 8 && 0 <= fy < 8 && 0 <= tx < 8 && 0 <= ty < 8,
        on_line(fx, fy, tx, ty),
    ensures
        blocked_spec(a, fx, fy, tx, ty, c) == blocked_spec(b, fx, fy, tx, ty, c),
{
    let n = steps(fx, fy, tx, ty);
    assert(tx != fx ==> abs(tx - fx) == n);
    assert(ty != fy ==> abs(ty - fy) == n);
    assert forall|k: int|
        #![trigger path_sq(a, fx, fy, tx, ty, k)]
        #![trigger path_sq(b, fx, fy, tx, ty, k)]
        0 < k < n implies (path_sq(a, fx, fy, tx, ty, k) is Some) == (path_sq(
            b,
            fx,
            fy,
            tx,
            ty,
            k,
        ) is Some) by {
        assert(agree(a, b, white, along(fx, tx, k), along(fy, ty, k)));
    }
    assert(agree(a, b, white, tx, ty));
}

proof fn lemma_can_move_alike(k: MoveChecker, a: Grid, b: Grid, white: bool, p: Piece, t: Coordinate)
    requires
        look_alike(a, b, white),
        p.position.wf(),
    ensures
        can_move_spec(k, a, p, t) == can_move_spec(k, b, p, t),
{
    if t.wf() {
        assert(agree(a, b, white, t.x as int, t.y as int));
        let (px, py, tx, ty) = (p.position.x as int, p.position.y as int, t.x as int, t.y as int);
        if on_line(px, py, tx, ty) {
            lemma_blocked_alike(a, b, white, px, py, tx, ty, p.white);
        }
    }
}

proof fn lemma_row_king_alike(a: Grid, b: Grid, white: bool, y: int, n: int)
    requires
        look_alike(a, b, white),
        0 <= y < 8,
        n <= 8,
    ensures
        row_last_king(a, white, y, n) == row_last_king(b, white, y, n),
    decreases n,
{
    if n > 0 {
        assert(agree(a, b, white, n - 1, y));
        lemma_row_king_alike(a, b, white, y, n - 1);
    }
}

proof fn lemma_last_king_alike(a: Grid, b: Grid, white: bool, m: int)
    requires
        look_alike(a, b, white),
        m <= 8,
    ensures
        last_king(a, white, m) == last_king(b, white, m),
    decreases m,
{
    if m > 0 {
        lemma_row_king_alike(a, b, white, m - 1, 8);
        lemma_last_king_alike(a, b, white, m - 1);
    }
}

proof fn lemma_in_check_alike(a: Grid, b: Grid, white: bool)
    requires
        look_alike(a, b, white),
        grid_wf(a),
    ensures
        in_check_spec(a, white) == in_check_spec(b, white),
{
    lemma_last_king_alike(a, b, white, 8);
    if let Some((kx, ky)) = last_king(a, white, 8) {
        let k = Coordinate { x: kx as usize, y: ky as usize };
        assert forall|x: int, y: int|
            #![trigger attacks(a, white, x, y, k)]
            #![trigger attacks(b, white, x, y, k)]
            0 <= x < 8 && 0 <= y < 8 implies attacks(a, white, x, y, k) == attacks(b, white, x, y, k) by {
            assert(agree(a, b, white, x, y));
            if let Some(p) = sq(a, x, y) {
                if p.white != white {
                    lemma_can_move_alike(checker_of(p.id), a, b, white, p, k);
                }
            }
        }
    }
}

/// A move that the parser accepts never leaves the mover's own king in
/// check.
pub proof fn lemma_no_self_check(g: Grid, history: Seq<String>, input: Seq<char>, white: bool)
    requires
        grid_wf(g),
    ensures
        match parse_spec(g, history, input, white) {
            Ok(m) => !in_check_spec(apply_spec(g, m, white), white),
            Err(_) => true,
        },
{
    if let Ok(m) = parse_spec(g, history, input, white) {
        let s = sanitised(input);
        if let Some(kingside) = castle_side(s) {
            let r = back_rank(white);
            lemma_find_up_range(g, r, white, Id::King, 0);
            if let Some(kx) = find_up(g, r, white, Id::King, 0) {
                lemma_find_up_range(g, r, white, Id::Rook, kx + 1);
                lemma_find_down_range(g, r, white, Id::Rook, kx);
            }
        } else {
            let (id, t, promotion) = normal_input_spec(s, white)->Ok_0;
            let (file, rank) = disambiguation_spec(move_core(s), id)->Ok_0;
            let ep = if id == Id::Pawn {
                en_passant_spec(g, history, file, t, white)
            } else {
                None
            };
            if ep is None {
                let piece = select_spec(g, id, white, t, file, rank)->Ok_0;
                reveal(is_candidate);
                let (cx, cy) = choose|x: int, y: int|
                    0 <= x < 8 && 0 <= y < 8 && #[trigger] is_candidate(g, id, white, t, file, rank, x, y);
                assert(sq(g, cx, cy) is Some);
                assert(piece.position.wf());
                assert(piece.white == white && piece.id == id);
                assert(t.wf());
                let (px, py) = (piece.position.x as int, piece.position.y as int);
                let mv = moved(g, piece, t.x as int, t.y as int);
                let ng = normal_grid(g, piece, t, promotion);
                let g1 = set_sq(g, px, py, None);
                lemma_set_sq(g, px, py, None);
                lemma_set_sq(g1, t.x as int, t.y as int, Some(placed(piece, t.x as int, t.y as int)));
                lemma_set_sq(g1, t.x as int, t.y as int, sq(ng, t.x as int, t.y as int));
                lemma_moved_wf(g, piece, t.x as int, t.y as int);
                assert forall|x: int, y: int| 0 <= x < 8 && 0 <= y < 8 implies #[trigger] agree(
                    mv,
                    ng,
                    white,
                    x,
                    y,
                ) by {
                    if x == t.x && y == t.y {
                        if let Some(c) = promotion {
                            assert(id == Id::Pawn);
                            assert(c == '♗' || c == '♘' || c == '♕' || c == '♖');
                        }
                    }
                }
                lemma_in_check_alike(mv, ng, white);
            }
        }
    }
}

} // verus!
