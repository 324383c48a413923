use rustichess::board::Board;
use rustichess::pieces::Piece;

#[test]
fn board_test_board() {
    let board = Board::set_up();
    assert_eq!(board.squares.iter().filter(|x| x.is_some()).count(), 32);
}

#[test]
fn board_test_display() {
    let mut board = Board::set_up();
    println!("{}", board.to_string());
    let _result = board.move_piece(8, 16);
    println!("{}", board.to_string());
}

#[test]
fn board_test_move_rook() {
    // a1 -> a2 legal move
    let mut board = Board::empty();
    board.squares[0] = Some(Piece::WhiteRook);
    assert_eq!(board.move_piece(0, 8), Ok(None));
}

#[test]
fn board_test_move_rook_wrong_direction() {
    // a1 -> b2 illegal move
    let mut board = Board::empty();
    board.squares[0] = Some(Piece::WhiteRook);
    assert!(board.move_piece(0, 9).is_err());
}

#[test]
fn board_test_move_bishop() {
    // c1 -> e3 legal move
    let mut board = Board::empty();
    board.squares[2] = Some(Piece::WhiteBishop);
    assert_eq!(board.move_piece(2, 20), Ok(None));
}

#[test]
fn board_test_move_bishop_wrong_direction() {
    // c1 -> d1 illegal move
    let mut board = Board::empty();
    board.squares[2] = Some(Piece::WhiteBishop);
    assert!(board.move_piece(2, 3).is_err());
}

#[test]
fn piece_test_board() {
    let board = Board::set_up();
    assert_eq!(board.squares.iter().filter(|x| x.is_some()).count(), 32);
}

#[test]
fn piece_test_display() {
    let mut board = Board::set_up();
    println!("{}", board.to_string());
    let _result = board.move_piece(8, 16);
    println!("{}", board.to_string());
}

#[test]
fn piece_test_move_rook() {
    let mut board = Board::empty();
    board.squares[0] = Some(Piece::WhiteRook);
    assert_eq!(board.move_piece(0, 8), Ok(None));
}

#[test]
fn piece_test_move_rook_wrong_direction() {
    let mut board = Board::empty();
    board.squares[0] = Some(Piece::WhiteRook);
    assert!(board.move_piece(0, 9).is_err());
}

#[test]
fn piece_test_move_bishop() {
    let mut board = Board::empty();
    board.squares[2] = Some(Piece::WhiteBishop);
    assert_eq!(board.move_piece(2, 20), Ok(None));
}

#[test]
fn piece_test_move_bishop_wrong_direction() {
    let mut board = Board::empty();
    board.squares[2] = Some(Piece::WhiteBishop);
    assert!(board.move_piece(2, 3).is_err());
}
