# image_to_tetris

Approximates images (and the frames of videos) with boards of Tetris pieces drawn in block
skins. Every cell of the board is filled with a tetromino or, where no tetromino fits, a
garbage mino; each piece is drawn with the block picture of its own kind.

The library under `src/` is verified with Verus:

- `approx_image/piece.rs`, `approx_image/board.rs`: pieces, their cells, and the board they
  are placed on, removed from and taken back from. The board provably keeps holding exactly
  its listed pieces.
- `approx_image/raster.rs`, `approx_image/draw.rs`: RGBA images, block skins cut from a skin
  sheet, resizing (through the `image` crate) and drawing a filled board.
- `approx_image.rs`: the approximation itself. It decides which cell to fill next and which
  candidate piece to place; candidates are keyed by a caller-supplied score, and when every
  score is below the bound the whole board ends up filled.
- `cli.rs`, `approx_video.rs`, `utils.rs`: command-line settings, frame sizes of a video and
  the outcome of external commands.
- `board.rs`, `piece.rs`, `tetris.rs`, `genetic.rs`: a second board and piece model, their
  shape drawings, and the mutation and breeding steps of a genetic search (through `rand`).
- `grid.rs`: the mathematical model of a board shared by both board types.

`app/` holds the program: argument parsing, file and video I/O, the floating-point colour
distance that scores candidates, and the audio approximation, which is floating-point signal
processing throughout.
