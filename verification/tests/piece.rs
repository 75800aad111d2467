use image_to_tetris::approx_image::piece::{Cell, Orientation, Piece};
use image_to_tetris::piece::{Orientation as GeneticOrientation, Piece as GeneticPiece};

#[test]
fn piece_test_get_orientation() {
    let piece = Piece::I(Cell { x: 0, y: 0 }, Orientation::North);
    assert_eq!(piece.get_orientation(), Orientation::North);

    let piece = GeneticPiece::I(Cell { x: 0, y: 0 }, GeneticOrientation::NORTH);
    assert_eq!(piece.get_orientation(), GeneticOrientation::NORTH);
}

#[test]
fn piece_test_get_cell() {
    let piece = Piece::I(Cell { x: 1, y: 1 }, Orientation::North);
    assert_eq!(piece.get_cell(), Cell { x: 1, y: 1 });

    let piece = GeneticPiece::I(Cell { x: 1, y: 1 }, GeneticOrientation::NORTH);
    assert_eq!(piece.get_cell(), Cell { x: 1, y: 1 });
}

#[test]
fn piece_test_get_occupancy() {
    let piece = Piece::I(Cell { x: 2, y: 2 }, Orientation::North);
    assert!(piece.get_occupancy().is_ok());

    let piece = GeneticPiece::I(Cell { x: 2, y: 2 }, GeneticOrientation::NORTH);
    assert!(piece.get_occupancy().is_ok());
}

#[test]
fn test_get_occupancy_negative() {
    let piece = GeneticPiece::I(Cell { x: 0, y: 0 }, GeneticOrientation::NORTH);
    assert!(piece.get_occupancy().is_err());
}
