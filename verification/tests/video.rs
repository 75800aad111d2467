use image_to_tetris::approx_image::draw::BlockSkin;
use image_to_tetris::approx_image::raster::PixelImage;
use image_to_tetris::approx_video::VideoConfig;
use image_to_tetris::cli::GlobalData;

#[test]
fn frame_rate_is_rounded_toward_zero() {
    let config = VideoConfig::from_stream(1920, 1080, 30000, 1001);
    assert_eq!((config.image_width, config.image_height, config.fps), (1920, 1080, 29));
    assert_eq!(VideoConfig::from_stream(1, 1, -7, 2).fps, -3);
    assert_eq!(VideoConfig::from_stream(1, 1, 7, -2).fps, -3);
    assert_eq!(VideoConfig::from_stream(1, 1, -7, -2).fps, 3);
    assert_eq!(VideoConfig::from_stream(1, 1, i32::MIN, 2).fps, i32::MIN / 2);
}

#[test]
fn fitting_a_board_resizes_skins_and_frames() {
    let sheet = PixelImage { width: 36, height: 4, data: vec![128; 4 * 36 * 4] };
    let mut glob = GlobalData { skins: vec![BlockSkin::from_sheet(&sheet, 0)] };
    let mut config = VideoConfig::from_stream(1920, 1080, 24, 1);
    config.fit_to_board(&mut glob, 63, 35);
    // 1920 / 63 = 30 and 1080 / 35 = 30
    assert_eq!((glob.skin_width(), glob.skin_height()), (30, 30));
    assert_eq!((config.image_width, config.image_height), (1890, 1050));
    assert_eq!(config.fps, 24);
}
