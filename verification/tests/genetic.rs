use image_to_tetris::board::Board;
use image_to_tetris::genetic::{breed, mutate, mutate_with, GeneticError};
use image_to_tetris::grid::EMPTY_CELL;
use image_to_tetris::piece::{Cell, Orientation, Piece};

fn filled(board: &Board) -> usize {
    board.cells.iter().filter(|c| **c != EMPTY_CELL).count()
}

#[test]
fn mutation_adds_or_removes_exactly_one_piece() {
    for _ in 0..50 {
        let mut board = Board::new(6, 6);
        board.place(&Piece::O(Cell { x: 3, y: 3 }, Orientation::NORTH)).unwrap();
        let before = board.clone();
        match mutate(&mut board) {
            Ok(()) => {
                if board.pieces.len() == 2 {
                    // a random piece was added
                    assert_eq!(board.pieces[0], before.pieces[0]);
                    assert_eq!(filled(&board), 8);
                } else {
                    // the only piece was removed
                    assert_eq!(board.pieces.len(), 0);
                    assert_eq!(filled(&board), 0);
                }
            }
            Err(GeneticError::FailedToGenerate) => {
                assert_eq!(board.pieces, before.pieces);
                assert_eq!(board.cells, before.cells);
            }
        }
    }
}

#[test]
fn mutating_an_empty_board_tries_a_piece() {
    for _ in 0..50 {
        let mut board = Board::new(5, 5);
        match mutate(&mut board) {
            Ok(()) => {
                assert_eq!(board.pieces.len(), 1);
                assert_eq!(filled(&board), 4);
            }
            Err(GeneticError::FailedToGenerate) => {
                assert!(board.pieces.is_empty());
                assert_eq!(filled(&board), 0);
            }
        }
    }
}

#[test]
fn a_child_keeps_the_size_of_its_first_parent() {
    let mut parent1 = Board::new(8, 6);
    parent1.place(&Piece::I(Cell { x: 2, y: 0 }, Orientation::NORTH)).unwrap();
    let mut parent2 = Board::new(4, 4);
    parent2.place(&Piece::O(Cell { x: 1, y: 1 }, Orientation::NORTH)).unwrap();
    for _ in 0..50 {
        match breed(&parent1, &parent2) {
            Ok(child) => {
                assert_eq!((child.width, child.height), (8, 6));
                // both parents' pieces fit side by side; the mutation adds or removes one
                let n = child.pieces.len();
                assert!((1..=3).contains(&n), "{n} pieces");
                assert_eq!(filled(&child), 4 * n);
            }
            Err(GeneticError::FailedToGenerate) => {}
        }
    }
}

#[test]
fn mutation_step_deletes_the_chosen_piece() {
    let mut board = Board::new(6, 6);
    let first = Piece::O(Cell { x: 3, y: 3 }, Orientation::NORTH);
    let second = Piece::I(Cell { x: 1, y: 0 }, Orientation::NORTH);
    board.place(&first).unwrap();
    board.place(&second).unwrap();
    assert!(mutate_with(&mut board, true, 1, 0, 0, 0, 0).is_ok());
    assert_eq!(board.pieces, vec![first]);
    assert_eq!(filled(&board), 4);
}

#[test]
fn mutation_step_places_the_drawn_piece() {
    let mut board = Board::new(6, 6);
    // kind 6 is Z and orientation 2 is SOUTH
    assert!(mutate_with(&mut board, false, 0, 3, 3, 2, 6).is_ok());
    assert_eq!(board.pieces, vec![Piece::Z(Cell { x: 3, y: 3 }, Orientation::SOUTH)]);
    // kind 0 is I and orientation 0 is NORTH
    assert!(mutate_with(&mut board, false, 0, 1, 0, 0, 0).is_ok());
    assert_eq!(board.pieces[1], Piece::I(Cell { x: 1, y: 0 }, Orientation::NORTH));
    assert_eq!(filled(&board), 8);
}

#[test]
fn mutation_step_fails_when_the_piece_does_not_fit() {
    let mut board = Board::new(6, 6);
    let before = board.clone();
    // an I pointing EAST at the corner leaves the board
    assert!(matches!(mutate_with(&mut board, false, 0, 0, 0, 1, 0), Err(GeneticError::FailedToGenerate)));
    assert_eq!(board.cells, before.cells);
    assert!(board.pieces.is_empty());
}
