use queen_placement::board_old::Board;
use queen_placement::board_old::PiecePlace;
use queen_placement::board_old::PlacementError;

#[test]
fn has_beaten_test_horizontal() {
    let mut board = Board::new(5, 5);
    board.try_add_piece(PiecePlace([0, 0])).unwrap();
    board.try_add_piece(PiecePlace([1, 0])).unwrap();
    assert!(board.has_beaten())
}

#[test]
fn has_beaten_test_vertical() {
    let mut board = Board::new(5, 5);
    board.try_add_piece(PiecePlace([0, 0])).unwrap();
    board.try_add_piece(PiecePlace([0, 1])).unwrap();
    assert!(board.has_beaten())
}

#[test]
fn has_beaten_test_diagonal1() {
    let mut board = Board::new(5, 5);
    board.try_add_piece(PiecePlace([0, 0])).unwrap();
    board.try_add_piece(PiecePlace([1, 1])).unwrap();
    assert!(board.has_beaten())
}

#[test]
fn has_beaten_test_diagonal2() {
    let mut board = Board::new(5, 5);
    board.try_add_piece(PiecePlace([1, 0])).unwrap();
    board.try_add_piece(PiecePlace([0, 1])).unwrap();
    assert!(board.has_beaten())
}

#[test]
fn has_beaten_test_diagonal3() {
    let mut board = Board::new(5, 5);
    board.try_add_piece(PiecePlace([2, 0])).unwrap();
    board.try_add_piece(PiecePlace([1, 1])).unwrap();
    assert!(board.has_beaten())
}

#[test]
fn has_beaten_test_diagonal4() {
    let mut board = Board::new(5, 5);
    board.try_add_piece(PiecePlace([1, 0])).unwrap();
    board.try_add_piece(PiecePlace([2, 1])).unwrap();
    assert!(board.has_beaten())
}

#[test]
fn has_no_beaten_test1() {
    let mut board = Board::new(5, 5);
    board.try_add_piece(PiecePlace([0, 0])).unwrap();
    board.try_add_piece(PiecePlace([1, 2])).unwrap();
    assert!(!board.has_beaten())
}

#[test]
fn has_no_beaten_test2() {
    let mut board = Board::new(5, 5);
    board.try_add_piece(PiecePlace([2, 0])).unwrap();
    board.try_add_piece(PiecePlace([0, 1])).unwrap();
    assert!(!board.has_beaten())
}

#[test]
fn has_no_beaten_test3() {
    let mut board = Board::new(5, 5);
    board.try_add_piece(PiecePlace([2, 0])).unwrap();
    board.try_add_piece(PiecePlace([4, 1])).unwrap();
    assert!(!board.has_beaten())
}

#[test]
fn try_add_piece_rejects_out_of_board() {
    let mut board = Board::new(3, 3);
    assert_eq!(Err(PlacementError::OutOfBoard), board.try_add_piece(PiecePlace([3, 0])));
    assert_eq!(Err(PlacementError::OutOfBoard), board.try_add_piece(PiecePlace([0, 3])));
    assert!(board.pieces.is_empty());
}

#[test]
fn try_add_piece_rejects_occupied_place() {
    let mut board = Board::new(3, 3);
    board.try_add_piece(PiecePlace([1, 2])).unwrap();
    assert_eq!(Err(PlacementError::AlreadyExists), board.try_add_piece(PiecePlace([1, 2])));
    assert_eq!(1, board.pieces.len());
}

#[test]
fn piece_place_conversions() {
    let from_array = PiecePlace::from([2, 4]);
    let from_pair = PiecePlace::from((2, 4));
    assert_eq!(from_array.0, from_pair.0);
    assert_eq!([2, 4], from_pair.0);
}
