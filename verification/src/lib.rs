pub mod approx_image;
pub mod approx_video;
pub mod board;
pub mod cli;
pub mod genetic;
pub mod grid;
pub mod piece;
pub mod tetris;
pub mod utils;
pub mod note_intervals;
