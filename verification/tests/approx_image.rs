use image_to_tetris::approx_image::draw::{BlockSkin, SkinnedBoard};
use image_to_tetris::approx_image::piece::{Cell, Orientation, Piece};
use image_to_tetris::approx_image::raster::PixelImage;
use image_to_tetris::approx_image::{
    average_pixel_grid, best_candidate, find_average_source_cell_pixel, find_context_cells, resize_image,
    scaled_config, subtract_pixels, ApproxError, Approximation, Candidate, PrioritizeColor,
};
use image_to_tetris::cli::Config;
use image_to_tetris::grid::EMPTY_CELL;

fn uniform_skin(side: u32, id: usize) -> BlockSkin {
    let width = 9 * side;
    let mut data = Vec::new();
    for _ in 0..(width * side) {
        data.extend_from_slice(&[50, 60, 70, 255]);
    }
    BlockSkin::from_sheet(&PixelImage { width, height: side, data }, id)
}

fn board_is_full(board: &SkinnedBoard) -> bool {
    board.board().cells.iter().all(|c| *c != EMPTY_CELL)
}

#[test]
fn subtract_pixels_ignores_alpha() {
    assert_eq!(subtract_pixels([10, 200, 0, 1], [20, 100, 255, 9]), [-10, 100, -255]);
}

#[test]
fn average_of_source_cells() {
    // a 2x2 grid of average pixels
    let grid = vec![[0, 0, 0, 0], [10, 20, 30, 40], [20, 40, 60, 80], [31, 61, 91, 121]];
    let skins = vec![uniform_skin(1, 0)];
    let board = SkinnedBoard::new(2, 2, &skins);
    let occupancy = vec![Cell { x: 1, y: 0 }, Cell { x: 1, y: 1 }];
    // (10 + 31) / 2, (20 + 61) / 2, ...
    assert_eq!(find_average_source_cell_pixel(&grid, &occupancy, &board), [20, 40, 60, 80]);
}

#[test]
fn average_pixel_grid_averages_each_block() {
    // a 4x2 image cut into 2x2 blocks
    let mut data = Vec::new();
    for y in 0..2u8 {
        for x in 0..4u8 {
            data.extend_from_slice(&[x * 10, y * 10, 7, 255]);
        }
    }
    let img = PixelImage { width: 4, height: 2, data };
    let grid = average_pixel_grid(&img, 2, 2);
    assert_eq!(grid, vec![[5, 5, 7, 255], [25, 5, 7, 255]]);
}

#[test]
fn best_candidate_takes_the_first_smallest_key_below_the_bound() {
    assert_eq!(best_candidate(&vec![5, 3, 3, 7], 10), Some(1));
    assert_eq!(best_candidate(&vec![5, 3, 3, 7], 3), None);
    assert_eq!(best_candidate(&vec![5, 3, 3, 7], 4), Some(1));
    assert_eq!(best_candidate(&vec![], 4), None);
}

#[test]
fn scaled_config_scales_the_board_height() {
    let config = Config {
        board_width: 10,
        board_height: 0,
        prioritize_tetrominos: PrioritizeColor::Yes,
        approx_audio: false,
    };
    let scaled = scaled_config(&config, 200, 100).expect("width fits");
    assert_eq!(scaled.board_width, 10);
    assert_eq!(scaled.board_height, 20);
    assert_eq!(scaled.prioritize_tetrominos, PrioritizeColor::Yes);
    assert!(!scaled.approx_audio);
    assert_eq!(scaled_config(&config, 7, 3).expect("width fits").board_height, 23);

    let wide = Config { board_width: u32::MAX as usize + 1, ..config };
    assert!(scaled_config(&wide, 1, 1).is_none());
}

#[test]
fn resize_image_fits_the_board() {
    let mut img = PixelImage { width: 2, height: 2, data: vec![200; 16] };
    resize_image(&mut img, 3, 2, 2, 2);
    assert_eq!((img.width, img.height), (6, 4));
    assert_eq!(img.data.len(), 6 * 4 * 4);

    // an image of the right size is left untouched
    let data: Vec<u8> = (0..24).collect();
    let mut img = PixelImage { width: 3, height: 2, data: data.clone() };
    resize_image(&mut img, 3, 1, 1, 2);
    assert_eq!(img.data, data);
}

#[test]
fn context_cells_are_filled_cells_around_the_center() {
    let skins = vec![uniform_skin(1, 0)];
    let mut board = SkinnedBoard::new(10, 10, &skins);
    board.place(&Piece::Gray(Cell { x: 3, y: 2 }), 0).unwrap();
    board.place(&Piece::Gray(Cell { x: 9, y: 2 }), 0).unwrap();
    board.place(&Piece::Black(Cell { x: 2, y: 4 }), 0).unwrap();
    board.place(&Piece::Black(Cell { x: 2, y: 3 }), 0).unwrap();
    board.place(&Piece::Black(Cell { x: 4, y: 9 }), 0).unwrap();

    let occupancy = vec![Cell { x: 2, y: 3 }];
    let context = find_context_cells(&board, &occupancy, &Cell { x: 2, y: 2 }).unwrap();
    // row by row from the center; the occupied cell itself and cells past 8 x 8 are left out
    assert_eq!(context, vec![Cell { x: 3, y: 2 }, Cell { x: 9, y: 2 }, Cell { x: 2, y: 4 }, Cell { x: 4, y: 9 }]);

    let far = Cell { x: i32::MAX as usize + 1, y: 0 };
    assert!(matches!(find_context_cells(&board, &occupancy, &far), Err(ApproxError::CoordinateTooLarge(c)) if c == far));
}

#[test]
fn approximation_visits_cells_from_the_last_column() {
    let skins = vec![uniform_skin(1, 0)];
    let mut approximation = Approximation::new(2, 2, &skins, PrioritizeColor::No);
    assert_eq!(approximation.queue, vec![
        Cell { x: 0, y: 0 },
        Cell { x: 0, y: 1 },
        Cell { x: 1, y: 0 },
        Cell { x: 1, y: 1 },
    ]);
    assert_eq!(approximation.next_cell(), Some(Cell { x: 1, y: 1 }));
    assert_eq!(approximation.next_cell(), Some(Cell { x: 1, y: 0 }));
}

#[test]
fn candidates_list_garbage_then_fitting_tetrominoes() {
    let skins = vec![uniform_skin(1, 0), uniform_skin(1, 5)];
    let approximation = Approximation::new(4, 4, &skins, PrioritizeColor::No);
    let cell = Cell { x: 0, y: 0 };
    let candidates = approximation.candidates(cell);
    assert_eq!(candidates[0], Candidate { piece: Piece::Gray(cell), skin_index: 0, skin_id: 0 });
    assert_eq!(candidates[1], Candidate { piece: Piece::Black(cell), skin_index: 0, skin_id: 0 });
    // at the corner only the north-pointing I and the west-pointing I fit
    assert_eq!(candidates[2], Candidate { piece: Piece::I(cell, Orientation::North), skin_index: 0, skin_id: 0 });
    assert_eq!(candidates[3], Candidate { piece: Piece::I(cell, Orientation::West), skin_index: 0, skin_id: 0 });
    assert_eq!(candidates.len(), 8);
    assert_eq!(candidates[4], Candidate { piece: Piece::Gray(cell), skin_index: 1, skin_id: 5 });

    let prioritized = Approximation::new(4, 4, &skins, PrioritizeColor::Yes);
    let candidates = prioritized.candidates(cell);
    assert_eq!(candidates.len(), 4);
    assert!(candidates.iter().all(|c| matches!(c.piece, Piece::I(_, _))));
}

#[test]
fn fill_board_with_scores_below_the_bound_fills_every_cell() {
    let skins = vec![uniform_skin(1, 0)];
    let mut approximation = Approximation::new(5, 3, &skins, PrioritizeColor::No);
    let score = |_: &SkinnedBoard, _: &Candidate| -> Result<u64, ()> { Ok(0) };
    assert!(approximation.fill_board(&score, 1).is_ok());
    // every key ties, so the first candidate of every cell is taken: gray garbage
    assert!(approximation.board().board().cells.iter().all(|c| *c == 'G'));
    assert_eq!(approximation.board().board().pieces.len(), 15);

    let mut prioritized = Approximation::new(5, 3, &skins, PrioritizeColor::Yes);
    assert!(prioritized.fill_board(&score, 1).is_ok());
    let board = prioritized.into_board();
    assert!(board_is_full(&board));
    assert!(board.board().cells.iter().any(|c| *c != 'G'));
}

#[test]
fn fill_board_prefers_the_smallest_key() {
    let skins = vec![uniform_skin(1, 0)];
    let mut approximation = Approximation::new(2, 1, &skins, PrioritizeColor::No);
    // black garbage scores lower than gray garbage
    let score = |_: &SkinnedBoard, c: &Candidate| -> Result<u64, ()> {
        Ok(match c.piece {
            Piece::Gray(_) => 5,
            Piece::Black(_) => 2,
            _ => 9,
        })
    };
    assert!(approximation.fill_board(&score, 10).is_ok());
    assert_eq!(approximation.board().board().cells, vec!['B', 'B']);
}

#[test]
fn fill_board_leaves_cells_without_a_key_below_the_bound() {
    let skins = vec![uniform_skin(1, 0)];
    let mut approximation = Approximation::new(3, 3, &skins, PrioritizeColor::No);
    let score = |_: &SkinnedBoard, _: &Candidate| -> Result<u64, ()> { Ok(7) };
    assert!(approximation.fill_board(&score, 7).is_ok());
    assert!(approximation.board().board().cells.iter().all(|c| *c == EMPTY_CELL));
}

#[test]
fn fill_board_stops_at_a_scoring_error() {
    let skins = vec![uniform_skin(1, 0)];
    let mut approximation = Approximation::new(3, 3, &skins, PrioritizeColor::No);
    let score = |_: &SkinnedBoard, _: &Candidate| -> Result<u64, String> { Err("no score".to_string()) };
    assert_eq!(approximation.fill_board(&score, 7), Err("no score".to_string()));
}

#[test]
fn place_best_places_the_first_smallest_key() {
    let skins = vec![uniform_skin(1, 0)];
    let mut approximation = Approximation::new(4, 4, &skins, PrioritizeColor::No);
    let cell = Cell { x: 0, y: 0 };
    let candidates = approximation.candidates(cell);
    // Gray, Black, I North, I West: the two I pieces tie below the bound
    assert_eq!(approximation.place_best(cell, &candidates, &vec![9, 8, 3, 3], 5), Some(2));
    let board = approximation.board().board();
    assert_eq!(board.pieces, vec![Piece::I(cell, Orientation::North)]);
    assert_eq!(board.cells[0..4].to_vec(), vec!['I'; 4]);

    let cell = Cell { x: 3, y: 3 };
    let candidates = approximation.candidates(cell);
    let keys = vec![5; candidates.len()];
    assert_eq!(approximation.place_best(cell, &candidates, &keys, 5), None);
    assert_eq!(approximation.board().board().pieces.len(), 1);
}
