use image_to_tetris::approx_image::draw::{
    draw_board, resize_skins, skin_size_for, BlockSkin, SkinError, SkinnedBoard, INVALID_SKIN_ID,
};
use image_to_tetris::approx_image::board::BoardError;
use image_to_tetris::approx_image::piece::{Cell, Orientation, Piece};
use image_to_tetris::approx_image::raster::PixelImage;

/// A skin sheet of nine `side x side` sections; section `i` is filled with the color
/// `[10 * i, 100, 200 - 10 * i, 255]`.
fn sheet(side: u32) -> PixelImage {
    let width = 9 * side;
    let mut data = Vec::new();
    for _y in 0..side {
        for x in 0..width {
            let i = (x / side) as u8;
            data.extend_from_slice(&[10 * i, 100, 200 - 10 * i, 255]);
        }
    }
    PixelImage { width, height: side, data }
}

fn skin(side: u32, id: usize) -> BlockSkin {
    BlockSkin::from_sheet(&sheet(side), id)
}

#[test]
fn draw_test_init() {
    let skin = skin(36, 0);
    assert_eq!(skin.width, 36);
    assert_eq!(skin.height, 36);

    for i in skin.as_array_ref() {
        assert_eq!(i.width(), skin.width);
        assert_eq!(i.height(), skin.height);
    }
}

#[test]
fn draw_test_resize_larger() {
    let mut skin = skin(36, 0);
    skin.resize(64, 64);
    assert_eq!(skin.width, 64);
    assert_eq!(skin.height, 64);

    for i in skin.as_array_ref() {
        assert_eq!(i.width(), skin.width);
        assert_eq!(i.height(), skin.height);
    }
}

#[test]
fn draw_test_resize_smaller() {
    let mut skin = skin(36, 0);
    skin.resize(16, 16);
    assert_eq!(skin.width, 16);
    assert_eq!(skin.height, 16);

    for i in skin.as_array_ref() {
        assert_eq!(i.width(), skin.width);
        assert_eq!(i.height(), skin.height);
    }
}

#[test]
fn test_save_skinned_board() {
    let mut skin = skin(36, 0);
    skin.resize(16, 16);
    let skins = vec![skin];

    // board should have all cells be set to INVALID by default
    let board_width = 4;
    let board_height = 4;
    let mut board = SkinnedBoard::new(4, 4, &skins);
    for cell in board.cells_skin.iter() {
        assert_eq!(*cell, INVALID_SKIN_ID);
    }

    // replace the invalid
    for y in 0..board_height {
        for x in 0..board_width {
            board.place(&Piece::Black(Cell { x, y }), 0).expect("failed to place piece");
        }
    }

    let image = draw_board(&board);
    assert_eq!(image.width, 64);
    assert_eq!(image.height, 64);
}

#[test]
fn skin_sections_go_to_their_pieces() {
    let skin = skin(4, 7);
    assert_eq!(skin.id(), 7);
    // sections left to right: black garbage, gray garbage, Z, L, O, S, I, J, T
    assert_eq!(skin.black_img.get_average_pixel(), [0, 100, 200, 255]);
    assert_eq!(skin.gray_img.get_average_pixel(), [10, 100, 190, 255]);
    assert_eq!(skin.z_img.get_average_pixel(), [20, 100, 180, 255]);
    assert_eq!(skin.l_img.get_average_pixel(), [30, 100, 170, 255]);
    assert_eq!(skin.o_img.get_average_pixel(), [40, 100, 160, 255]);
    assert_eq!(skin.s_img.get_average_pixel(), [50, 100, 150, 255]);
    assert_eq!(skin.i_img.get_average_pixel(), [60, 100, 140, 255]);
    assert_eq!(skin.j_img.get_average_pixel(), [70, 100, 130, 255]);
    assert_eq!(skin.t_img.get_average_pixel(), [80, 100, 120, 255]);
    assert_eq!(skin.t_img.get_pixel(3, 3), [80, 100, 120, 255]);

    let cell = Cell { x: 0, y: 0 };
    let t = skin.block_image_from_piece(&Piece::T(cell, Orientation::North));
    assert_eq!(t.get_average_pixel(), [80, 100, 120, 255]);
    assert_eq!(skin.block_image_from_char(&'S').get_average_pixel(), [50, 100, 150, 255]);
    // anything that is not a piece letter is drawn as black garbage
    assert_eq!(skin.block_image_from_char(&' ').get_average_pixel(), [0, 100, 200, 255]);
}

#[test]
fn block_average_is_rounded_down() {
    // a 2x1 picture of the values 1 and 2 averages to 1
    let mut data = Vec::new();
    for _x in 0..9 {
        data.extend_from_slice(&[1, 1, 1, 1, 2, 2, 2, 2]);
    }
    let sheet = PixelImage { width: 18, height: 1, data };
    let skin = BlockSkin::from_sheet(&sheet, 0);
    assert_eq!(skin.width(), 2);
    assert_eq!(skin.height(), 1);
    assert_eq!(skin.i_img.get_average_pixel(), [1, 1, 1, 1]);
}

#[test]
fn resized_block_keeps_its_average() {
    let mut skin = skin(4, 0);
    let before = skin.o_img.get_average_pixel();
    skin.resize(8, 2);
    assert_eq!(skin.o_img.get_average_pixel(), before);
    assert_eq!(skin.o_img.width(), 8);
    assert_eq!(skin.o_img.height(), 2);
    assert_eq!(skin.o_img.img.data.len(), 4 * 8 * 2);
}

#[test]
fn skin_size_divides_the_image() {
    assert!(matches!(skin_size_for(100, 50, 10, 5), Ok((10, 10))));
    assert!(matches!(skin_size_for(105, 59, 10, 5), Ok((10, 11))));
    assert!(matches!(skin_size_for(9, 50, 10, 5), Err(SkinError::EmptySkin)));
    assert!(matches!(skin_size_for(100, 4, 10, 5), Err(SkinError::EmptySkin)));
    let too_wide = u32::MAX as usize + 1;
    assert!(matches!(skin_size_for(100, 50, too_wide, 5), Err(SkinError::DimensionTooLarge(w)) if w == too_wide));
    assert!(matches!(skin_size_for(100, 50, 10, too_wide), Err(SkinError::DimensionTooLarge(h)) if h == too_wide));
}

#[test]
fn resize_skins_sizes_every_skin() {
    let mut skins = vec![skin(4, 0), skin(6, 1)];
    resize_skins(&mut skins, 90, 60, 9, 6).expect("skins fit");
    for skin in &skins {
        assert_eq!((skin.width(), skin.height()), (10, 10));
        for block in skin.as_array_ref() {
            assert_eq!((block.width(), block.height()), (10, 10));
        }
    }
    assert_eq!(skins[1].id(), 1);

    // an error leaves the skins as they were
    let result = resize_skins(&mut skins, 5, 60, 9, 6);
    assert!(matches!(result, Err(SkinError::EmptySkin)));
    assert_eq!(skins[0].width(), 10);
}

#[test]
fn draw_board_puts_each_block_in_its_cell() {
    let skins = vec![skin(2, 0)];
    let mut board = SkinnedBoard::new(2, 1, &skins);
    board.place(&Piece::Black(Cell { x: 0, y: 0 }), 0).expect("cell is empty");
    board.place(&Piece::Gray(Cell { x: 1, y: 0 }), 0).expect("cell is empty");
    assert_eq!(board.get_cells_skin(&Cell { x: 1, y: 0 }), 0);

    let image = draw_board(&board);
    assert_eq!((image.width, image.height), (4, 2));
    assert_eq!(image.get_pixel(0, 0), [0, 100, 200, 255]);
    assert_eq!(image.get_pixel(1, 1), [0, 100, 200, 255]);
    assert_eq!(image.get_pixel(2, 0), [10, 100, 190, 255]);
    assert_eq!(image.get_pixel(3, 1), [10, 100, 190, 255]);
}

#[test]
fn skinned_board_place_records_the_skin() {
    let skins = vec![skin(2, 0), skin(2, 1)];
    let mut board = SkinnedBoard::new(4, 4, &skins);
    assert_eq!(board.board_width(), 4);
    assert_eq!(board.board_height(), 4);
    assert_eq!(board.skins_width(), 2);
    assert_eq!(board.skins_height(), 2);
    assert_eq!(board.iter_skins().count(), 2);
    assert_eq!(board.get_skin(1).id(), 1);

    let piece = Piece::O(Cell { x: 1, y: 1 }, Orientation::North);
    board.place(&piece, 1).expect("piece fits");
    for cell in [Cell { x: 1, y: 1 }, Cell { x: 0, y: 1 }, Cell { x: 1, y: 0 }, Cell { x: 0, y: 0 }] {
        assert!(!board.empty_at(&cell));
        assert_eq!(board.get_cells_skin(&cell), 1);
    }
    assert!(board.empty_at(&Cell { x: 2, y: 2 }));
    assert_eq!(board.get_cells_skin(&Cell { x: 2, y: 2 }), INVALID_SKIN_ID);

    // a piece that does not fit changes nothing
    assert!(board.place(&piece, 0).is_err());
    assert_eq!(board.get_cells_skin(&Cell { x: 1, y: 1 }), 1);
    assert_eq!(board.board().pieces.len(), 1);
}

#[test]
fn mutable_pictures_are_the_skin_pictures() {
    let mut skin = skin(4, 0);
    for block in skin.as_array_ref_mut() {
        block.resize(2, 3);
    }
    for block in skin.as_array_ref() {
        assert_eq!((block.width(), block.height()), (2, 3));
    }
    // the pictures keep their places
    assert_eq!(skin.as_array_ref_mut()[4].get_average_pixel(), [80, 100, 120, 255]);
}

#[test]
fn place_cell_blocks_an_empty_cell() {
    let skins = vec![skin(2, 0), skin(2, 1)];
    let mut board = SkinnedBoard::new(3, 2, &skins);
    let cell = Cell { x: 2, y: 1 };
    assert!(board.place_cell(&cell, 1).is_ok());
    assert_eq!(board.board().get(&cell).unwrap(), 'B');
    assert_eq!(board.get_cells_skin(&cell), 1);
    assert!(board.board().pieces.is_empty());

    assert!(matches!(board.place_cell(&cell, 0), Err(BoardError::OccupiedCell(c)) if c == cell));
    assert_eq!(board.get_cells_skin(&cell), 1);
    let outside = Cell { x: 3, y: 0 };
    assert!(matches!(board.place_cell(&outside, 0), Err(BoardError::InvalidCell(c)) if c == outside));
}
