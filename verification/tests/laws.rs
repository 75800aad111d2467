use image_to_tetris::approx_image::board::Board;
use image_to_tetris::approx_image::piece::{Cell, Orientation, Piece};
use image_to_tetris::board::Board as GeneticBoard;
use image_to_tetris::grid::EMPTY_CELL;
use image_to_tetris::piece::{Orientation as GeneticOrientation, Piece as GeneticPiece};

#[test]
fn undo_takes_back_a_placement() {
    let mut board = Board::new(6, 5);
    board.place(&Piece::T(Cell { x: 3, y: 3 }, Orientation::North)).unwrap();
    let before = board.clone();
    board.place(&Piece::L(Cell { x: 2, y: 1 }, Orientation::East)).unwrap();
    board.undo_last_move().unwrap();
    assert_eq!(board.cells, before.cells);
    assert_eq!(board.pieces, before.pieces);

    let mut board = GeneticBoard::new(6, 5);
    let before = board.clone();
    board.place(&GeneticPiece::J(Cell { x: 2, y: 2 }, GeneticOrientation::SOUTH)).unwrap();
    board.undo_last_move().unwrap();
    assert_eq!(board.cells, before.cells);
    assert_eq!(board.pieces, before.pieces);
    assert!(board.undo_last_move().is_err());
}

#[test]
fn remove_takes_back_a_placement() {
    let mut board = Board::new(6, 5);
    board.place(&Piece::Gray(Cell { x: 0, y: 0 })).unwrap();
    let before = board.clone();
    let piece = Piece::S(Cell { x: 3, y: 2 }, Orientation::West);
    board.place(&piece).unwrap();
    board.remove_piece(&piece).unwrap();
    assert_eq!(board.cells, before.cells);
    assert_eq!(board.pieces, before.pieces);
}

#[test]
fn placing_fills_exactly_the_piece_cells() {
    let mut board = Board::new(5, 5);
    let piece = Piece::Z(Cell { x: 2, y: 2 }, Orientation::North);
    board.place(&piece).unwrap();
    let occupancy = piece.get_occupancy().unwrap();
    for y in 0..5 {
        for x in 0..5 {
            let cell = Cell { x, y };
            let expected = if occupancy.contains(&cell) { 'Z' } else { EMPTY_CELL };
            assert_eq!(board.get(&cell).unwrap(), expected);
        }
    }
    // the same piece no longer fits
    assert!(!board.can_place(&piece));
}

/// The board holds exactly its listed pieces: the cells of each hold its letter, no two share
/// a cell, and every other cell is empty.
fn holds_exactly_its_pieces(board: &Board) -> bool {
    let mut expected = vec![EMPTY_CELL; board.width * board.height];
    for piece in &board.pieces {
        for cell in piece.get_occupancy().unwrap() {
            let i = cell.y * board.width + cell.x;
            if expected[i] != EMPTY_CELL {
                return false;
            }
            expected[i] = piece.get_char();
        }
    }
    expected == board.cells
}

#[test]
fn placing_undoing_and_removing_keep_the_board_consistent() {
    let mut board = Board::new(7, 6);
    assert!(holds_exactly_its_pieces(&board));
    let pieces = [
        Piece::T(Cell { x: 3, y: 3 }, Orientation::North),
        Piece::I(Cell { x: 0, y: 0 }, Orientation::North),
        Piece::Gray(Cell { x: 6, y: 5 }),
        Piece::J(Cell { x: 6, y: 2 }, Orientation::West),
    ];
    for piece in &pieces {
        board.place(piece).unwrap();
        assert!(holds_exactly_its_pieces(&board));
    }
    // a piece that does not fit changes nothing
    assert!(board.place(&pieces[0]).is_err());
    assert!(holds_exactly_its_pieces(&board));

    board.remove_piece(&pieces[1]).unwrap();
    assert!(holds_exactly_its_pieces(&board));
    board.undo_last_move().unwrap();
    assert!(holds_exactly_its_pieces(&board));
    assert_eq!(board.pieces, vec![pieces[0], pieces[2]]);
}

#[test]
fn removing_takes_back_a_placement_on_the_genetic_board() {
    let mut board = GeneticBoard::new(6, 5);
    board.place(&GeneticPiece::O(Cell { x: 0, y: 0 }, GeneticOrientation::NORTH)).unwrap();
    let before = board.clone();
    let piece = GeneticPiece::T(Cell { x: 3, y: 2 }, GeneticOrientation::EAST);
    board.place(&piece).unwrap();
    board.remove_piece(&piece).unwrap();
    assert_eq!(board.cells, before.cells);
    assert_eq!(board.pieces, before.pieces);
}
