use vstd::prelude::*;
use std::path::PathBuf;
use crate::approx_image::PrioritizeColor;
use crate::approx_image::draw::Skins;

verus! {

/// std's owned path, carried through the commands unchanged.
#[verifier::external_type_specification]
#[verifier::external_body]
pub struct ExPathBuf(PathBuf);

/// The number of worker threads when none is asked for.
pub const DEFAULT_THREADS: usize = 4;

/// The board width of an integration run when none is given.
pub const DEFAULT_INTEGRATION_BOARD_WIDTH: usize = 100;

/// Data shared by every approximation of a run: the block skins.
#[derive(Clone)]
pub struct GlobalData {
    pub skins: Skins,
}

impl GlobalData {
    /// The width of the first skin.
    pub fn skin_width(&self) -> (w: u32)
        requires
            self.skins@.len() > 0,
        ensures
            w == self.skins@[0].width,
    {
        self.skins[0].width()
    }

    /// The height of the first skin.
    pub fn skin_height(&self) -> (h: u32)
        requires
            self.skins@.len() > 0,
        ensures
            h == self.skins@[0].height,
    {
        self.skins[0].height()
    }
}

/// The settings of one approximation.
#[derive(Copy, Clone, Debug, PartialEq, Eq, Structural)]
pub struct Config {
    pub board_width: usize,
    pub board_height: usize,
    pub prioritize_tetrominos: PrioritizeColor,
    pub approx_audio: bool,
}

/// The command line: global options and the command to run.
#[derive(Debug)]
pub struct Cli {
    /// Number of threads to use; 4 when not given.
    pub threads: Option<usize>,
    /// Whether to fill the board with tetrominoes before garbage: more color, less accuracy.
    pub prioritize_tetrominos: bool,
    /// Whether to approximate the audio too; only used with video.
    pub approx_audio: bool,
    pub command: Commands,
}

#[derive(Debug)]
pub enum Commands {
    /// Approximates every image of the `sources` directory; the board is 100 wide when no
    /// width is given.
    Integration { board_width: Option<usize> },
    /// Approximates a single image with tetris blocks.
    ApproxImage { source: PathBuf, output: PathBuf, board_width: usize, board_height: usize },
    /// Approximates a single audio file with tetris sound clips.
    ApproxAudio { source: PathBuf, output: PathBuf },
    /// Approximates a single video with tetris blocks.
    ApproxVideo { source: PathBuf, output: PathBuf, board_width: usize, board_height: usize },
}

/// What the prioritize flag selects.
pub open spec fn spec_prioritize(flag: bool) -> PrioritizeColor {
    if flag {
        PrioritizeColor::Yes
    } else {
        PrioritizeColor::No
    }
}

/// The settings a command runs with; `None` for the audio command, which takes none.
pub open spec fn spec_config(cli: Cli) -> Option<Config> {
    let prioritize_tetrominos = spec_prioritize(cli.prioritize_tetrominos);
    match cli.command {
        Commands::Integration { board_width } => Some(
            Config {
                board_width: match board_width {
                    Some(w) => w,
                    None => DEFAULT_INTEGRATION_BOARD_WIDTH,
                },
                board_height: 0,
                prioritize_tetrominos,
                approx_audio: false,
            },
        ),
        Commands::ApproxImage { board_width, board_height, .. } => Some(
            Config { board_width, board_height, prioritize_tetrominos, approx_audio: false },
        ),
        Commands::ApproxAudio { .. } => None,
        Commands::ApproxVideo { board_width, board_height, .. } => Some(
            Config { board_width, board_height, prioritize_tetrominos, approx_audio: cli.approx_audio },
        ),
    }
}

impl Cli {
    /// The number of worker threads: the one asked for, else 4.
    pub fn thread_count(&self) -> (n: usize)
        ensures
            n == match self.threads {
                Some(t) => t,
                None => DEFAULT_THREADS,
            },
    {
        match self.threads {
            Some(t) => t,
            None => DEFAULT_THREADS,
        }
    }

    /// The color priority the flag selects.
    pub fn prioritize(&self) -> (p: PrioritizeColor)
        ensures
            p == spec_prioritize(self.prioritize_tetrominos),
    {
        if self.prioritize_tetrominos {
            PrioritizeColor::Yes
        } else {
            PrioritizeColor::No
        }
    }

    /// The settings the command runs with. An integration run scales the board height to
    /// each image, so it is left at 0 here.
    pub fn config(&self) -> (c: Option<Config>)
        ensures
            c == spec_config(*self),
    {
        let prioritize_tetrominos = self.prioritize();
        match &self.command {
            Commands::Integration { board_width } => {
                let w = match board_width {
                    Some(w) => *w,
                    None => DEFAULT_INTEGRATION_BOARD_WIDTH,
                };
                Some(Config { board_width: w, board_height: 0, prioritize_tetrominos, approx_audio: false })
            },
            Commands::ApproxImage { board_width, board_height, .. } => Some(
                Config {
                    board_width: *board_width,
                    board_height: *board_height,
                    prioritize_tetrominos,
                    approx_audio: false,
                },
            ),
            Commands::ApproxAudio { .. } => None,
            Commands::ApproxVideo { board_width, board_height, .. } => Some(
                Config {
                    board_width: *board_width,
                    board_height: *board_height,
                    prioritize_tetrominos,
                    approx_audio: self.approx_audio,
                },
            ),
        }
    }
}

/// The settings keep what the command line asks for. A video runs on the board it names and
/// approximates its audio exactly when the audio flag is given; an image runs on the board it
/// names; an integration run is 100 cells wide unless a width is given; audio is never approximated for anything but a video; tetrominoes are prioritized
/// exactly when the flag is given; only the audio command has no settings.
pub proof fn lemma_config_follows_command_line(cli: Cli, c: Option<Config>)
    requires
        c == spec_config(cli),
    ensures
        c is None <==> cli.command is ApproxAudio,
        cli.command matches Commands::ApproxVideo { board_width, board_height, .. } ==> c == Some(
            Config {
                board_width,
                board_height,
                prioritize_tetrominos: if cli.prioritize_tetrominos {
                    PrioritizeColor::Yes
                } else {
                    PrioritizeColor::No
                },
                approx_audio: cli.approx_audio,
            },
        ),
        cli.command matches Commands::ApproxImage { board_width, board_height, .. } ==> c matches Some(k)
            && k.board_width == board_width && k.board_height == board_height,
        cli.command matches Commands::Integration { board_width } ==> c matches Some(k) && k.board_width == match board_width {
            Some(w) => w,
            None => 100,
        },
        c matches Some(k) ==> (k.approx_audio ==> cli.approx_audio && cli.command is ApproxVideo),
        c matches Some(k) ==> (k.prioritize_tetrominos == PrioritizeColor::Yes <==> cli.prioritize_tetrominos),
{
}

} // verus!
