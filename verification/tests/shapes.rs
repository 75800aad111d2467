use image_to_tetris::approx_image::piece::{Cell, Orientation, Piece, PieceError};
use image_to_tetris::piece::{all_shapes, piece_canvas, Dir};
use image_to_tetris::tetris::{piece_canvas as tetris_canvas, shapes};

fn rows(canvas: &[Vec<char>]) -> Vec<String> {
    canvas.iter().map(|row| row.iter().collect()).collect()
}

#[test]
fn every_shape_has_four_orientations() {
    assert_eq!(all_shapes().len(), 28);
    assert_eq!(shapes().len(), 28);
}

#[test]
fn the_first_shape_is_a_flat_i() {
    let first = all_shapes()[0];
    assert_eq!(first, [Dir { x: -1, y: 0 }, Dir { x: 0, y: 0 }, Dir { x: 1, y: 0 }, Dir { x: 2, y: 0 }]);
    assert_eq!(rows(&piece_canvas(&first)), vec!["     ", "     ", " XXXX", "     ", "     "]);
    assert_eq!(rows(&tetris_canvas(&shapes()[0])), vec!["     ", "     ", " XXXX", "     ", "     "]);
}

#[test]
fn every_drawing_has_four_minos() {
    for shape in all_shapes() {
        let marks: usize = piece_canvas(&shape).iter().map(|row| row.iter().filter(|c| **c == 'X').count()).sum();
        assert_eq!(marks, 4);
    }
    for shape in shapes() {
        let marks: usize = tetris_canvas(&shape).iter().map(|row| row.iter().filter(|c| **c == 'X').count()).sum();
        assert_eq!(marks, 4);
    }
}

#[test]
fn occupancy_offsets_the_shape() {
    let piece = Piece::T(Cell { x: 5, y: 5 }, Orientation::South);
    assert_eq!(
        piece.get_occupancy().unwrap(),
        vec![Cell { x: 4, y: 4 }, Cell { x: 5, y: 5 }, Cell { x: 4, y: 5 }, Cell { x: 3, y: 5 }]
    );
    assert_eq!(piece.get_char(), 'T');
    assert_eq!(Piece::Gray(Cell { x: 1, y: 2 }).get_occupancy().unwrap(), vec![Cell { x: 1, y: 2 }]);
    assert_eq!(Piece::Black(Cell { x: 1, y: 2 }).get_char(), 'B');
}

#[test]
fn occupancy_errors() {
    let piece = Piece::L(Cell { x: 0, y: 0 }, Orientation::North);
    match piece.get_occupancy() {
        Err(PieceError::NegativeOccupancy(dirs)) => assert_eq!(dirs.len(), 4),
        other => panic!("{other:?}"),
    }
    let far = Cell { x: i32::MAX as usize + 1, y: 0 };
    assert!(matches!(Piece::I(far, Orientation::North).get_occupancy(), Err(PieceError::CoordinateTooLarge(c)) if c == far));
}

#[test]
fn pieces_tried_on_a_cell() {
    let cell = Cell { x: 3, y: 3 };
    assert_eq!(Orientation::all(), [Orientation::North, Orientation::East, Orientation::South, Orientation::West]);
    let normal = Piece::all_normal(cell, Orientation::East);
    assert_eq!(normal.len(), 7);
    assert_eq!(normal[0], Piece::I(cell, Orientation::East));
    assert_eq!(normal[6], Piece::Z(cell, Orientation::East));
    assert_eq!(Piece::all_garbage(cell), vec![Piece::Gray(cell), Piece::Black(cell)]);
}

#[test]
fn both_shape_tables_draw_alike() {
    for (a, b) in all_shapes().iter().zip(shapes().iter()) {
        assert_eq!(piece_canvas(a), tetris_canvas(b));
    }
}
