use image_to_tetris::approx_image::board::Board;
use image_to_tetris::approx_image::piece::{Cell, Orientation, Piece};
use image_to_tetris::board::Board as GeneticBoard;
use image_to_tetris::piece::{Orientation as GeneticOrientation, Piece as GeneticPiece};

#[test]
fn board_test_place_empty_board() {
    let mut board = Board::new(10, 20);
    let piece = Piece::I(Cell { x: 1, y: 0 }, Orientation::North);
    assert!(board.place(&piece).is_ok());

    let mut board = GeneticBoard::new(10, 20);
    let piece = GeneticPiece::I(Cell { x: 1, y: 0 }, GeneticOrientation::NORTH);
    assert!(board.place(&piece).is_ok());
}

#[test]
fn test_place_out_of_bounds_low() {
    let mut board = GeneticBoard::new(10, 20);
    let piece = GeneticPiece::I(Cell { x: 0, y: 0 }, GeneticOrientation::NORTH);
    assert!(board.place(&piece).is_err());
}

#[test]
fn board_test_place_out_of_bounds_high() {
    let mut board = Board::new(10, 20);
    let piece = Piece::I(Cell { x: 8, y: 0 }, Orientation::North);
    assert!(board.place(&piece).is_err());

    let mut board = GeneticBoard::new(10, 20);
    let piece = GeneticPiece::I(Cell { x: 8, y: 0 }, GeneticOrientation::NORTH);
    assert!(board.place(&piece).is_err());
}

#[test]
fn board_test_place_overlap() {
    let mut board = Board::new(10, 20);
    let piece = Piece::I(Cell { x: 2, y: 0 }, Orientation::North);
    assert!(board.place(&piece).is_ok());
    assert!(board.place(&piece).is_err());

    let mut board = GeneticBoard::new(10, 20);
    let piece = GeneticPiece::I(Cell { x: 2, y: 0 }, GeneticOrientation::NORTH);
    assert!(board.place(&piece).is_ok());
    assert!(board.place(&piece).is_err());
}

#[test]
fn board_test_place_overlap_2() {
    let mut board = Board::new(10, 20);
    let piece = Piece::I(Cell { x: 2, y: 0 }, Orientation::North);
    let piece2 = Piece::T(Cell { x: 2, y: 0 }, Orientation::North);
    assert!(board.place(&piece).is_ok());
    assert!(board.place(&piece2).is_err());

    let mut board = GeneticBoard::new(10, 20);
    let piece = GeneticPiece::I(Cell { x: 2, y: 0 }, GeneticOrientation::NORTH);
    let piece2 = GeneticPiece::T(Cell { x: 2, y: 0 }, GeneticOrientation::NORTH);
    assert!(board.place(&piece).is_ok());
    assert!(board.place(&piece2).is_err());
}
