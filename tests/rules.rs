use chess::board::Board;
use chess::coordinate::Coordinate;
use chess::pieces::moves::MoveType;
use chess::pieces::{Id, MoveChecker, Piece};
use chess::Error;

fn can_move(board: &Board, x1: usize, y1: usize, x2: usize, y2: usize) -> bool {
    let piece = board.grid[y1][x1].as_ref().unwrap();
    MoveChecker::from_id(&piece.id).can_move(board, piece, &Coordinate { x: x2, y: y2 })
}

#[test]
fn square_names_round_trip() {
    for x in 0..8usize {
        for y in 0..8usize {
            let name = format!("{}{}", (b'a' + x as u8) as char, y + 1);
            let c = Coordinate::from_alphanumeric(&name).unwrap();
            assert_eq!((c.x, c.y), (x, y));
        }
    }
    let e4 = Coordinate::from_alphanumeric("e4").unwrap();
    assert_eq!((e4.x, e4.y), (4, 3));
    let a1 = Coordinate::from_alphanumeric("a1").unwrap();
    assert_eq!((a1.x, a1.y), (0, 0));
}

#[test]
fn square_names_rejected() {
    assert!(matches!(Coordinate::from_alphanumeric("E4"), Err(Error::InvalidArgument)));
    assert!(matches!(Coordinate::from_alphanumeric("e"), Err(Error::InvalidArgument)));
    assert!(matches!(Coordinate::from_alphanumeric("e44"), Err(Error::InvalidArgument)));
    assert!(matches!(Coordinate::from_alphanumeric("4e"), Err(Error::InvalidArgument)));
    assert!(matches!(Coordinate::from_alphanumeric("i4"), Err(Error::IndexOutOfRange)));
    assert!(matches!(Coordinate::from_alphanumeric("e9"), Err(Error::IndexOutOfRange)));
    assert!(matches!(Coordinate::from_alphanumeric("e0"), Err(Error::IndexOutOfRange)));
    assert!(matches!(Coordinate::new(8, 0), Err(Error::IndexOutOfRange)));
    assert!(matches!(Coordinate::new(0, 8), Err(Error::IndexOutOfRange)));
    let c = Coordinate::new(7, 7).unwrap();
    assert_eq!((c.x, c.y), (7, 7));
}

#[test]
fn kinds_from_letters_and_icons() {
    assert_eq!(Id::from_char('N').unwrap(), Id::Knight);
    assert_eq!(Id::from_char('♘').unwrap(), Id::Knight);
    assert_eq!(Id::from_char('K').unwrap(), Id::King);
    assert_eq!(Id::from_char('♙').unwrap(), Id::Pawn);
    assert!(matches!(Id::from_char('X'), Err(Error::InvalidArgument)));
    assert!(matches!(Piece::new(8, 0, '♙', true, 0), Err(Error::IndexOutOfRange)));
    assert!(matches!(Piece::new(0, 0, 'X', true, 0), Err(Error::InvalidArgument)));
    let p = Piece::new(2, 5, '♕', false, 3).unwrap();
    assert_eq!(p.id, Id::Queen);
    assert_eq!((p.position.x, p.position.y, p.moves, p.white), (2, 5, 3, false));
}

#[test]
fn placing_off_the_board_changes_nothing() {
    let mut board = Board::empty();
    assert!(matches!(board.place_piece(8, 0, '♙', true, 0), Err(Error::IndexOutOfRange)));
    assert!(matches!(board.place_piece(0, 0, 'Z', true, 0), Err(Error::InvalidArgument)));
    assert!(board.grid.iter().all(|row| row.iter().all(|sq| sq.is_none())));
    let board = Board::from_vec(&vec![(9, 9, '♙', true), (1, 1, '?', true), (2, 2, '♘', false)]);
    assert_eq!(board.grid[2][2].unwrap().id, Id::Knight);
    assert_eq!(board.grid.iter().flatten().filter(|sq| sq.is_some()).count(), 1);
}

#[test]
fn starting_position() {
    let mut board = Board::new();
    assert_eq!(board.grid[0][4].unwrap().id, Id::King);
    assert_eq!(board.grid[0][3].unwrap().id, Id::Queen);
    assert_eq!(board.grid[7][4].unwrap().id, Id::King);
    assert!(!board.grid[7][4].unwrap().white);
    assert_eq!(board.grid[6][0].unwrap().id, Id::Pawn);
    assert_eq!(board.grid.iter().flatten().filter(|sq| sq.is_some()).count(), 32);
    assert!(board.make_move("e4", true));
    assert_eq!(board.history, vec![String::from("e4")]);
    board.reset();
    assert!(board.history.is_empty());
    assert_eq!(board.grid[1][4].unwrap().id, Id::Pawn);
    assert!(board.grid[3][4].is_none());
}

#[test]
fn sliding_pieces_stop_at_enemies() {
    let board = Board::from_vec(&vec![(0, 0, '♖', true), (0, 3, '♙', false), (3, 3, '♗', true)]);
    assert!(can_move(&board, 0, 0, 0, 3));
    assert!(!can_move(&board, 0, 0, 0, 5));
    assert!(!can_move(&board, 0, 0, 1, 1));
    // own piece on the target
    assert!(!can_move(&board, 3, 3, 0, 0));
    assert!(can_move(&board, 3, 3, 1, 1));
    assert!(!can_move(&board, 3, 3, 3, 3));
}

#[test]
fn surrounded_knight_jumps() {
    let board = Board::from_vec(&vec![
        (3, 3, '♘', true),
        (2, 3, '♙', true),
        (4, 3, '♙', true),
        (3, 2, '♙', true),
        (3, 4, '♙', true),
    ]);
    for (x, y) in [(4, 5), (5, 4), (5, 2), (4, 1), (2, 1), (1, 2), (1, 4), (2, 5)] {
        assert!(can_move(&board, 3, 3, x, y));
    }
    assert!(!can_move(&board, 3, 3, 3, 4));
}

#[test]
fn pawn_geometry() {
    let board = Board::from_vec(&vec![
        (4, 1, '♙', true),
        (4, 2, '♙', false),
        (2, 2, '♙', true),
        (6, 6, '♙', false),
    ]);
    // blocked straight ahead, so no single or double advance
    assert!(!can_move(&board, 4, 1, 4, 2));
    assert!(!can_move(&board, 4, 1, 4, 3));
    // double advance only from the starting rank
    assert!(!can_move(&board, 2, 2, 2, 4));
    assert!(can_move(&board, 2, 2, 2, 3));
    // diagonal only to capture
    assert!(!can_move(&board, 2, 2, 3, 3));
    assert!(can_move(&board, 6, 6, 6, 4));
    assert!(!can_move(&board, 6, 6, 6, 7));
}

#[test]
fn promotion_changes_kind() {
    let mut board = Board::from_vec(&vec![(0, 6, '♙', true)]);
    match board.parse_move("a8Q", true) {
        Ok(MoveType::Normal { target, promotion, .. }) => {
            assert_eq!((target.x, target.y), (0, 7));
            assert_eq!(promotion, Some('♕'));
        }
        _ => assert!(false),
    }
    assert!(board.make_move("a8=N", true));
    let knight = board.grid[7][0].unwrap();
    assert_eq!(knight.id, Id::Knight);
    assert_eq!(knight.icon, '♘');
    assert_eq!(knight.moves, 1);
    assert!(board.grid[6][0].is_none());
}

#[test]
fn rook_letter_is_not_a_promotion_of_a_rook() {
    let mut board = Board::from_vec(&vec![(0, 0, '♖', true)]);
    assert!(!board.make_move("Ra8Q", true));
    assert_eq!(board.message, "\u{1b}[31mRa8Q is not a valid promotion");
}

#[test]
fn too_many_identifiers() {
    let board = Board::from_vec(&vec![(3, 3, '♗', true)]);
    assert!(matches!(board.parse_move("Bd4d4e5", true), Err(Error::InvalidArgument)));
    assert!(matches!(board.parse_move("B!e5", true), Err(Error::InvalidArgument)));
    assert!(matches!(board.parse_move("e", true), Err(Error::InvalidArgument)));
    assert!(matches!(board.parse_move("Q", true), Err(Error::InvalidArgument)));
    assert!(matches!(board.parse_move("=Q", true), Err(Error::IndexOutOfRange)));
    assert!(matches!(board.parse_move("Bk5", true), Err(Error::IndexOutOfRange)));
}

#[test]
fn notation_marks_are_ignored() {
    let mut board = Board::new();
    assert!(board.make_move(" e4+ ", true));
    assert!(board.make_move("d5", false));
    assert!(board.make_move("e:d5", true));
    assert!(board.grid[4][3].unwrap().white);
    assert_eq!(board.grid[4][3].unwrap().moves, 2);
}

#[test]
fn unknown_move_message() {
    let mut board = Board::new();
    assert!(!board.make_move("zz", true));
    assert_eq!(board.message, "\u{1b}[31mzz is not a valid move");
    assert!(board.history.is_empty());
    assert!(board.make_move("Nf3", true));
    assert_eq!(board.message, "");
}

#[test]
fn self_check_leaves_board_alone() {
    let mut board = Board::from_vec(&vec![
        (4, 0, '♔', true),
        (4, 1, '♖', true),
        (4, 7, '♖', false),
    ]);
    assert!(!board.make_move("Ra2", true));
    assert_eq!(board.message, "\u{1b}[31mRa2 puts the king in check");
    assert_eq!(board.grid[1][4].unwrap().id, Id::Rook);
    assert!(board.grid[1][0].is_none());
    assert!(board.history.is_empty());
    assert!(board.make_move("Re5", true));
}

#[test]
fn castle_queenside_and_with_zeros() {
    let mut board = Board::from_vec(&vec![
        (4, 0, '♔', true),
        (0, 0, '♖', true),
        (4, 7, '♔', false),
        (7, 7, '♖', false),
    ]);
    assert!(board.make_move("O-O-O", true));
    assert_eq!(board.grid[0][2].unwrap().id, Id::King);
    assert_eq!(board.grid[0][3].unwrap().id, Id::Rook);
    assert_eq!(board.grid[0][2].unwrap().moves, 1);
    assert!(board.grid[0][0].is_none() && board.grid[0][4].is_none());
    assert!(board.make_move("0-0", false));
    assert_eq!(board.grid[7][6].unwrap().id, Id::King);
    assert!(!board.grid[7][6].unwrap().white);
    assert_eq!(board.grid[7][5].unwrap().id, Id::Rook);
}

#[test]
fn castle_refused() {
    let mut board = Board::from_vec(&vec![
        (4, 0, '♔', true),
        (7, 0, '♖', true),
        (5, 7, '♖', false),
    ]);
    // f1 is attacked
    assert!(!board.make_move("O-O", true));
    assert_eq!(board.message, "\u{1b}[31mO-O cannot castle");
    // no rook on the queen's side
    assert!(!board.make_move("O-O-O", true));
    let mut board = Board::from_vec(&vec![(4, 0, '♔', true), (7, 0, '♖', true)]);
    board.grid[0][7].as_mut().unwrap().moves = 1;
    assert!(MoveChecker::castle(&board, true, true).is_none());
}

#[test]
fn castle_960_targets() {
    let mut board = Board::from_vec(&vec![
        (1, 0, '♔', true),
        (0, 0, '♖', true),
        (4, 0, '♖', true),
    ]);
    assert!(board.make_move("O-O", true));
    assert_eq!(board.grid[0][6].unwrap().id, Id::King);
    assert_eq!(board.grid[0][5].unwrap().id, Id::Rook);
    assert!(board.grid[0][1].is_none() && board.grid[0][4].is_none());
    assert_eq!(board.grid[0][0].unwrap().id, Id::Rook);

    // king and rook on neighbouring files that trade places
    let mut board = Board::from_vec(&vec![(5, 0, '♔', true), (6, 0, '♖', true)]);
    assert!(board.make_move("O-O", true));
    assert_eq!(board.grid[0][6].unwrap().id, Id::King);
    assert_eq!(board.grid[0][5].unwrap().id, Id::Rook);
}

#[test]
fn en_passant_only_right_away() {
    let mut board = Board::from_vec(&vec![
        (1, 4, '♙', true),
        (0, 6, '♙', false),
        (7, 1, '♙', true),
        (7, 6, '♙', false),
    ]);
    assert!(board.make_move("a5", false));
    assert!(board.make_move("h3", true));
    assert!(board.make_move("h6", false));
    // one ply too late
    assert!(!board.make_move("bxa6", true));
    assert!(board.grid[4][0].is_some());

    let mut board = Board::from_vec(&vec![
        (1, 4, '♙', true),
        (0, 6, '♙', false),
        (6, 6, '♙', false),
    ]);
    assert!(board.make_move("a5", false));
    assert!(board.make_move("g5", false));
    // the last two-square advance was elsewhere
    assert!(!board.make_move("bxa6", true));
}

#[test]
fn en_passant_removes_the_passed_pawn() {
    let mut board = Board::from_vec(&vec![(6, 3, '♙', false), (5, 1, '♙', true)]);
    assert!(board.make_move("f4", true));
    match board.parse_move("gxf3", false) {
        Ok(MoveType::EnPassant { from, target, capture }) => {
            assert_eq!((from.x, from.y), (6, 3));
            assert_eq!((target.x, target.y), (5, 2));
            assert_eq!((capture.x, capture.y), (5, 3));
        }
        _ => assert!(false),
    }
    assert!(board.make_move("gxf3 e.p.", false));
    assert!(!board.grid[2][5].unwrap().white);
    assert!(board.grid[3][5].is_none());
    assert!(board.grid[3][6].is_none());
    assert_eq!(board.history.len(), 2);
}

#[test]
fn no_king_no_check() {
    let board = Board::from_vec(&vec![(4, 4, '♕', false)]);
    assert!(!MoveChecker::in_check(&board, true));
    assert!(!MoveChecker::checkmate(&board, true));
}

#[test]
fn fools_mate_is_game_over() {
    let mut board = Board::new();
    assert!(board.make_move("f3", true));
    assert!(!board.game_over(true));
    assert!(board.make_move("e6", false));
    assert!(board.make_move("g4", true));
    assert!(board.make_move("Qh4#", false));
    assert!(MoveChecker::in_check(&board, true));
    assert!(!board.game_over(true));
    assert!(board.game_over(false));
    assert_eq!(board.message, "\u{1b}[5mBlack has won!\u{1b}[0m");
}

#[test]
fn check_that_can_be_blocked_is_not_mate() {
    let board = Board::from_vec(&vec![
        (4, 0, '♔', true),
        (4, 7, '♖', false),
        (0, 2, '♖', true),
    ]);
    assert!(MoveChecker::in_check(&board, true));
    assert!(!MoveChecker::checkmate(&board, true));
}

#[test]
fn chess960_layouts() {
    let standard = [Id::Rook, Id::Knight, Id::Bishop, Id::Queen, Id::King, Id::Bishop, Id::Knight, Id::Rook];
    let board = Board::new_960(standard).unwrap();
    assert_eq!(board.grid[0][4].unwrap().id, Id::King);
    assert_eq!(board.grid[7][3].unwrap().id, Id::Queen);
    assert!(!board.grid[7][3].unwrap().white);
    assert_eq!(board.grid[6][5].unwrap().id, Id::Pawn);
    let shuffled = [Id::Rook, Id::King, Id::Rook, Id::Bishop, Id::Bishop, Id::Queen, Id::Knight, Id::Knight];
    let mut board = Board::new_960(shuffled).unwrap();
    assert_eq!(board.grid[0][1].unwrap().icon, '♔');
    assert_eq!(board.grid[7][4].unwrap().icon, '♗');
    // bishops on squares of the same colour
    assert!(matches!(Board::new_960([Id::Rook, Id::King, Id::Rook, Id::Bishop, Id::Queen, Id::Bishop, Id::Knight, Id::Knight]), Err(Error::InvalidArgument)));
    // king outside the rooks
    assert!(matches!(Board::new_960([Id::King, Id::Rook, Id::Rook, Id::Bishop, Id::Bishop, Id::Queen, Id::Knight, Id::Knight]), Err(Error::InvalidArgument)));
    // two queens
    assert!(matches!(Board::new_960([Id::Rook, Id::King, Id::Rook, Id::Bishop, Id::Bishop, Id::Queen, Id::Queen, Id::Knight]), Err(Error::InvalidArgument)));
    // a pawn on the back rank
    assert!(matches!(Board::new_960([Id::Rook, Id::King, Id::Rook, Id::Bishop, Id::Bishop, Id::Queen, Id::Pawn, Id::Knight]), Err(Error::InvalidArgument)));
    // the rook on c1 stands on the queen's side target files
    assert!(!board.make_move("O-O-O", true));
    assert_eq!(board.message, "\u{1b}[31mO-O-O cannot castle");
}

#[test]
fn castling_into_check_is_refused() {
    // the rook leaving b1 would open the rank to the rook on a1
    let mut board = Board::from_vec(&vec![
        (2, 0, '♔', true),
        (1, 0, '♖', true),
        (0, 0, '♖', false),
    ]);
    assert!(MoveChecker::castle(&board, false, true).is_none());
    assert!(!board.make_move("O-O-O", true));
    assert_eq!(board.message, "\u{1b}[31mO-O-O cannot castle");
    assert_eq!(board.grid[0][2].unwrap().id, Id::King);
    assert_eq!(board.grid[0][1].unwrap().id, Id::Rook);
    assert!(!MoveChecker::in_check(&board, true));
}

#[test]
fn en_passant_after_annotated_advance() {
    let mut board = Board::from_vec(&vec![(1, 4, '♙', true), (0, 6, '♙', false)]);
    assert!(board.make_move("a5+", false));
    assert!(board.make_move("bxa6", true));
    assert!(board.grid[4][0].is_none());

    let mut board = Board::from_vec(&vec![(1, 4, '♙', true), (0, 6, '♙', false)]);
    assert!(board.make_move("a7a5", false));
    match MoveChecker::en_passant(&board, Some(1), &Coordinate { x: 0, y: 5 }, true) {
        Some((x, y)) => assert_eq!((x, y), (1, 4)),
        None => assert!(false),
    }
    assert!(board.make_move("bxa6 e.p.", true));
    assert!(board.grid[5][0].unwrap().white);
}
