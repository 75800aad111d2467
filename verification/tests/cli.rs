use std::path::PathBuf;

use image_to_tetris::approx_image::draw::BlockSkin;
use image_to_tetris::approx_image::raster::PixelImage;
use image_to_tetris::approx_image::PrioritizeColor;
use image_to_tetris::cli::{Cli, Commands, Config, GlobalData};

fn cli(threads: Option<usize>, prioritize_tetrominos: bool, approx_audio: bool, command: Commands) -> Cli {
    Cli { threads, prioritize_tetrominos, approx_audio, command }
}

#[test]
fn thread_count_defaults_to_four() {
    let command = Commands::Integration { board_width: None };
    assert_eq!(cli(None, false, false, command).thread_count(), 4);
    let command = Commands::Integration { board_width: None };
    assert_eq!(cli(Some(12), false, false, command).thread_count(), 12);
}

#[test]
fn prioritize_flag_selects_the_color_priority() {
    let command = Commands::Integration { board_width: None };
    assert_eq!(cli(None, true, false, command).prioritize(), PrioritizeColor::Yes);
    let command = Commands::Integration { board_width: None };
    assert_eq!(cli(None, false, false, command).prioritize(), PrioritizeColor::No);
}

#[test]
fn integration_board_is_100_wide_by_default() {
    let config = cli(None, true, true, Commands::Integration { board_width: None }).config();
    assert_eq!(
        config,
        Some(Config { board_width: 100, board_height: 0, prioritize_tetrominos: PrioritizeColor::Yes, approx_audio: false })
    );
    let config = cli(None, false, false, Commands::Integration { board_width: Some(40) }).config();
    assert_eq!(config.map(|c| c.board_width), Some(40));
}

#[test]
fn image_and_video_commands_carry_their_board() {
    let image = Commands::ApproxImage {
        source: PathBuf::from("a.png"),
        output: PathBuf::from("b.png"),
        board_width: 32,
        board_height: 24,
    };
    assert_eq!(
        cli(None, false, true, image).config(),
        Some(Config { board_width: 32, board_height: 24, prioritize_tetrominos: PrioritizeColor::No, approx_audio: false })
    );

    let video = Commands::ApproxVideo {
        source: PathBuf::from("a.mp4"),
        output: PathBuf::from("b.mp4"),
        board_width: 63,
        board_height: 35,
    };
    assert_eq!(
        cli(None, true, true, video).config(),
        Some(Config { board_width: 63, board_height: 35, prioritize_tetrominos: PrioritizeColor::Yes, approx_audio: true })
    );

    let audio = Commands::ApproxAudio { source: PathBuf::from("a.wav"), output: PathBuf::from("b.wav") };
    assert_eq!(cli(None, false, false, audio).config(), None);
}

#[test]
fn global_data_reports_the_first_skin_size() {
    let data = vec![9; 4 * 27 * 2];
    let sheet = PixelImage { width: 27, height: 2, data };
    let skins = vec![BlockSkin::from_sheet(&sheet, 0)];
    let glob = GlobalData { skins };
    assert_eq!(glob.skin_width(), 3);
    assert_eq!(glob.skin_height(), 2);
    let copy = glob.clone();
    assert_eq!(copy.skins.len(), 1);
}
