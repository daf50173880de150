use chess::board::Board;
use chess::coordinate::Coordinate;
use chess::pieces::MoveChecker;

/// Tests if a piece at (x1, y1) can move to (x2, y2)
fn test_move(board: &Board, x1: usize, y1: usize, x2: usize, y2: usize, expected: bool) {
    let position = Coordinate { x: x2, y: y2 };
    match &board.grid[y1][x1] {
        Some(piece) => {
            let moves = MoveChecker::from_id(&piece.id);
            assert_eq!(moves.can_move(board, piece, &position), expected);
        }
        None => assert!(false),
    }
}

/// Board with two white bishops and one black bishop
fn bishop_board() -> Board {
    let mut board = Board::empty();
    board.place_piece(3, 3, '♗', true, 0).unwrap();
    board.place_piece(6, 6, '♗', true, 0).unwrap();
    board.place_piece(0, 0, '♗', false, 0).unwrap();
    board
}

#[test]
fn bishop_moves_diagonal() {
    let board = Board::from_vec(&vec![(3, 3, '♗', true)]);
    test_move(&board, 3, 3, 1, 5, true);
    test_move(&board, 3, 3, 5, 5, true);
    test_move(&board, 3, 3, 1, 1, true);
    test_move(&board, 3, 3, 5, 1, true);
}

#[test]
fn bishop_moves_invalid() {
    let board = Board::from_vec(&vec![(3, 3, '♗', true)]);
    test_move(&board, 3, 3, 8, 8, false);
    test_move(&board, 3, 3, 3, 5, false);
    test_move(&board, 3, 3, 5, 3, false);
}

#[test]
fn bishop_moves_capture() {
    let board = Board::from_vec(&vec![(3, 3, '♗', true), (0, 0, '♗', false)]);
    test_move(&board, 3, 3, 0, 0, true);
    test_move(&bishop_board(), 3, 3, 0, 0, true);
}

#[test]
fn bishop_moves_blocked() {
    let board = Board::from_vec(&vec![(3, 3, '♗', true), (6, 6, '♗', true)]);
    test_move(&board, 3, 3, 6, 6, false);
    test_move(&board, 3, 3, 7, 7, false);
    test_move(&bishop_board(), 3, 3, 7, 7, false);
}

#[test]
fn northeast_diagonal() {
    test_move(&bishop_board(), 3, 3, 1, 5, true);
}

#[test]
fn northwest_diagonal() {
    test_move(&bishop_board(), 3, 3, 5, 5, true);
}

#[test]
fn southeast_diagonal() {
    test_move(&bishop_board(), 3, 3, 1, 1, true);
}

#[test]
fn southwest_diagonal() {
    test_move(&bishop_board(), 3, 3, 5, 1, true);
}

#[test]
fn out_of_bounds() {
    test_move(&bishop_board(), 3, 3, 8, 8, false);
}

#[test]
fn vertical() {
    test_move(&bishop_board(), 3, 3, 3, 5, false);
}

#[test]
fn horizontal() {
    test_move(&bishop_board(), 3, 3, 1, 3, false);
}

#[test]
fn occupied() {
    test_move(&bishop_board(), 3, 3, 6, 6, false);
}

#[test]
fn king_moves_straight() {
    let board = Board::from_vec(&vec![(3, 3, '♔', true)]);
    test_move(&board, 3, 3, 2, 3, true);
    test_move(&board, 3, 3, 4, 3, true);
    test_move(&board, 3, 3, 3, 2, true);
    test_move(&board, 3, 3, 3, 4, true);
}

#[test]
fn king_moves_diagonal() {
    let board = Board::from_vec(&vec![(3, 3, '♔', true)]);
    test_move(&board, 3, 3, 2, 2, true);
    test_move(&board, 3, 3, 2, 4, true);
    test_move(&board, 3, 3, 4, 2, true);
    test_move(&board, 3, 3, 4, 4, true);
}

#[test]
fn king_moves_invalid() {
    let board = Board::from_vec(&vec![(3, 3, '♔', true)]);
    test_move(&board, 3, 3, 3, 5, false);
    test_move(&board, 3, 3, 5, 3, false);
    test_move(&board, 3, 3, 5, 5, false);
}

#[test]
fn king_moves_capture() {
    let board = Board::from_vec(&vec![(3, 3, '♔', true), (4, 3, '♙', false)]);
    test_move(&board, 3, 3, 4, 3, true);
}

#[test]
fn king_moves_blocked() {
    let board = Board::from_vec(&vec![
        (3, 3, '♔', true),
        (3, 4, '♙', true),
        (4, 4, '♙', true),
    ]);
    test_move(&board, 3, 3, 3, 4, false);
    test_move(&board, 3, 3, 4, 4, false);
}

#[test]
fn king_moves_in_check() {
    let board = Board::from_vec(&vec![(3, 3, '♔', true), (4, 4, '♕', false)]);
    assert!(MoveChecker::in_check(&board, true));
}

#[test]
fn king_moves_castle() {
    let mut board = Board::from_vec(&vec![
        (4, 0, '♔', true),
        (0, 0, '♖', true),
        (7, 0, '♖', true),
    ]);
    match MoveChecker::castle(&board, false, true) {
        Some((king_x, rook_x)) => {
            assert_eq!(king_x, 4);
            assert_eq!(rook_x, 0)
        }
        None => assert!(false),
    };
    match MoveChecker::castle(&board, true, true) {
        Some((king_x, rook_x)) => {
            assert_eq!(king_x, 4);
            assert_eq!(rook_x, 7)
        }
        None => assert!(false),
    };

    board.grid[0][4].as_mut().unwrap().moves += 1;
    match MoveChecker::castle(&board, false, true) {
        Some(_) => assert!(false),
        None => assert!(true),
    };
    match MoveChecker::castle(&board, true, true) {
        Some(_) => assert!(false),
        None => assert!(true),
    };
}

#[test]
fn castle_in_check() {
    let board = Board::from_vec(&vec![
        (4, 0, '♔', true),
        (0, 0, '♖', true),
        (3, 7, '♖', false),
    ]);
    match MoveChecker::castle(&board, false, true) {
        Some(_) => assert!(false),
        None => assert!(true),
    };
}

#[test]
fn castle_while_blocked() {
    let board = Board::from_vec(&vec![
        (4, 0, '♔', true),
        (0, 0, '♖', true),
        (7, 0, '♖', true),
        (3, 0, '♕', true),
        (6, 0, '♖', false),
    ]);
    match MoveChecker::castle(&board, false, true) {
        Some(_) => assert!(false),
        None => assert!(true),
    };
    match MoveChecker::castle(&board, true, true) {
        Some(_) => assert!(false),
        None => assert!(true),
    };
}

#[test]
fn castle_960() {
    let board = Board::from_vec(&vec![
        (1, 0, '♔', true),
        (0, 0, '♖', true),
        (4, 0, '♖', true),
    ]);
    match MoveChecker::castle(&board, false, true) {
        Some((king_x, rook_x)) => {
            assert_eq!(king_x, 1);
            assert_eq!(rook_x, 0)
        }
        None => assert!(false),
    };
    match MoveChecker::castle(&board, true, true) {
        Some((king_x, rook_x)) => {
            assert_eq!(king_x, 1);
            assert_eq!(rook_x, 4)
        }
        None => assert!(false),
    };
}

#[test]
fn checkmate() {
    let mut board = Board::new();
    board.make_move("f3", true);
    board.make_move("e6", false);
    board.make_move("g4", true);
    board.make_move("Qh4", false);
    assert!(MoveChecker::checkmate(&board, true));
}

#[test]
fn l_shape() {
    let board = Board::from_vec(&vec![(3, 3, '♘', true)]);
    test_move(&board, 3, 3, 4, 5, true);
    test_move(&board, 3, 3, 5, 4, true);
    test_move(&board, 3, 3, 5, 2, true);
    test_move(&board, 3, 3, 4, 1, true);
    test_move(&board, 3, 3, 2, 1, true);
    test_move(&board, 3, 3, 1, 2, true);
    test_move(&board, 3, 3, 1, 4, true);
    test_move(&board, 3, 3, 2, 5, true);
}

#[test]
fn knight_moves_invalid() {
    let board = Board::from_vec(&vec![(7, 7, '♘', true)]);
    test_move(&board, 7, 7, 8, 9, false);
    test_move(&board, 7, 7, 7, 5, false);
    test_move(&board, 7, 7, 5, 5, false);
}

#[test]
fn knight_moves_capture() {
    let board = Board::from_vec(&vec![(3, 3, '♘', true), (4, 5, '♘', false)]);
    test_move(&board, 3, 3, 4, 5, true);
}

#[test]
fn knight_moves_blocked() {
    let board = Board::from_vec(&vec![(3, 3, '♘', true), (4, 5, '♘', true)]);
    test_move(&board, 3, 3, 4, 5, false);
}

#[test]
fn skip_over() {
    let board = Board::from_vec(&vec![
        (3, 3, '♘', true),
        (2, 4, '♘', true),
        (3, 4, '♘', true),
        (4, 4, '♘', true),
        (2, 2, '♘', false),
        (3, 2, '♘', false),
        (4, 2, '♘', false),
    ]);
    test_move(&board, 3, 3, 2, 5, true);
    test_move(&board, 3, 3, 4, 1, true);
}

#[test]
fn single_forward() {
    let board = Board::from_vec(&vec![(0, 1, '♙', true), (0, 6, '♙', false)]);
    test_move(&board, 0, 1, 0, 2, true);
    test_move(&board, 0, 6, 0, 5, true);
}

#[test]
fn double_forward() {
    let board = Board::from_vec(&vec![
        (0, 1, '♙', true),
        (0, 6, '♙', false),
        (1, 2, '♙', true),
        (1, 5, '♙', false),
    ]);
    test_move(&board, 0, 1, 0, 3, true);
    test_move(&board, 0, 6, 0, 4, true);
    test_move(&board, 1, 2, 1, 4, false);
    test_move(&board, 1, 5, 1, 3, false);
}

#[test]
fn pawn_moves_invalid() {
    let board = Board::from_vec(&vec![(0, 1, '♙', true), (0, 6, '♙', false)]);
    test_move(&board, 0, 1, 0, 0, false);
    test_move(&board, 0, 1, 1, 1, false);
    test_move(&board, 0, 1, 1, 2, false);
    test_move(&board, 0, 1, 0, 4, false);
}

#[test]
fn pawn_moves_capture() {
    let board = Board::from_vec(&vec![
        (1, 1, '♙', true),
        (0, 2, '♙', false),
        (2, 2, '♙', false),
        (3, 3, '♙', false),
    ]);
    test_move(&board, 1, 1, 0, 2, true);
    test_move(&board, 1, 1, 2, 2, true);
    test_move(&board, 3, 3, 2, 2, false);
}

#[test]
fn pawn_moves_en_passant() {
    let mut board = Board::from_vec(&vec![
        (1, 4, '♙', true),
        (0, 6, '♙', false),
        (2, 6, '♙', false),
    ]);
    board.make_move("c6", false);
    board.make_move("c5", false);
    match MoveChecker::en_passant(&board, Some(1), &Coordinate { x: 2, y: 5 }, true) {
        Some(_) => assert!(false),
        None => assert!(true),
    };
    board.make_move("a5", false);
    match MoveChecker::en_passant(&board, Some(1), &Coordinate { x: 0, y: 5 }, true) {
        Some((x, y)) => {
            assert_eq!(x, 1);
            assert_eq!(y, 4);
        }
        None => assert!(false),
    };
}

#[test]
fn pawn_moves_blocked() {
    let board = Board::from_vec(&vec![
        (0, 1, '♙', true),
        (0, 2, '♙', false),
        (1, 1, '♙', true),
        (1, 3, '♙', true),
    ]);
    test_move(&board, 0, 1, 0, 2, false);
    test_move(&board, 0, 1, 0, 3, false);
    test_move(&board, 1, 1, 1, 3, false);
}

#[test]
fn queen_moves_straight() {
    let board = Board::from_vec(&vec![(3, 3, '♕', true)]);
    test_move(&board, 3, 3, 0, 3, true);
    test_move(&board, 3, 3, 7, 3, true);
    test_move(&board, 3, 3, 3, 0, true);
    test_move(&board, 3, 3, 3, 7, true);
}

#[test]
fn queen_moves_diagonal() {
    let board = Board::from_vec(&vec![(3, 3, '♕', true)]);
    test_move(&board, 3, 3, 1, 5, true);
    test_move(&board, 3, 3, 5, 5, true);
    test_move(&board, 3, 3, 1, 1, true);
    test_move(&board, 3, 3, 5, 1, true);
}

#[test]
fn queen_moves_invalid() {
    let board = Board::from_vec(&vec![(3, 3, '♕', true)]);
    test_move(&board, 3, 3, 6, 7, false);
    test_move(&board, 3, 3, 2, 5, false);
}

#[test]
fn queen_moves_capture() {
    let board = Board::from_vec(&vec![
        (3, 3, '♕', true),
        (0, 3, '♕', false),
        (0, 0, '♕', false),
    ]);
    test_move(&board, 3, 3, 0, 3, true);
    test_move(&board, 3, 3, 0, 0, true);
}

#[test]
fn queen_moves_blocked() {
    let board = Board::from_vec(&vec![
        (3, 3, '♕', true),
        (5, 3, '♕', true),
        (6, 6, '♕', true),
    ]);
    test_move(&board, 3, 3, 5, 3, false);
    test_move(&board, 3, 3, 7, 3, false);
    test_move(&board, 3, 3, 6, 6, false);
    test_move(&board, 3, 3, 7, 7, false);
}

#[test]
fn rook_moves_straight() {
    let board = Board::from_vec(&vec![(3, 3, '♖', true)]);
    test_move(&board, 3, 3, 0, 3, true);
    test_move(&board, 3, 3, 7, 3, true);
    test_move(&board, 3, 3, 3, 0, true);
    test_move(&board, 3, 3, 3, 7, true);
}

#[test]
fn rook_moves_invalid() {
    let board = Board::from_vec(&vec![(3, 3, '♖', true)]);
    test_move(&board, 3, 3, 4, 4, false);
    test_move(&board, 3, 3, 8, 8, false);
}

#[test]
fn rook_moves_capture() {
    let board = Board::from_vec(&vec![(3, 3, '♖', true), (0, 3, '♖', false)]);
    test_move(&board, 3, 3, 0, 3, true);
}

#[test]
fn rook_moves_blocked() {
    let board = Board::from_vec(&vec![(3, 3, '♖', true), (5, 3, '♖', true)]);
    test_move(&board, 3, 3, 5, 3, false);
    test_move(&board, 3, 3, 7, 3, false);
}
