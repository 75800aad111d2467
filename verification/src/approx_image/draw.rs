use vstd::prelude::*;
use super::piece::{Cell, Piece, occupancy_overflows, spec_char, spec_occupancy};
use super::board::{BLOCKED_CELL, Board, BoardError, EMPTY_CELL};
use super::raster::overlaid;
use crate::grid::{BoardView, lemma_covers_step, lemma_index_in_bounds};
use super::raster::{PixelImage, byte_len, resize_fits};

verus! {

/// The skin id of a cell no piece has been placed on.
pub const INVALID_SKIN_ID: usize = usize::MAX;

/// One block picture of a skin, with the average of its pixels taken when it was made.
#[derive(Clone)]
pub struct BlockImage {
    pub img: PixelImage,
    pub avg_pixel: [u8; 4],
}

/// The sum of channel `c` over the first `n` pixels of an RGBA buffer.
pub open spec fn channel_total(data: Seq<u8>, c: int, n: int) -> int
    decreases n,
{
    if n <= 0 {
        0
    } else {
        channel_total(data, c, n - 1) + data[4 * (n - 1) + c]
    }
}

proof fn lemma_channel_total_monotone(data: Seq<u8>, c: int, m: int, n: int)
    requires
        0 <= m <= n,
    ensures
        channel_total(data, c, m) <= channel_total(data, c, n),
    decreases n - m,
{
    if m < n {
        lemma_channel_total_monotone(data, c, m, n - 1);
    }
}

proof fn lemma_channel_total_bound(data: Seq<u8>, c: int, n: int)
    requires
        0 <= n,
    ensures
        0 <= channel_total(data, c, n) <= 255 * n,
    decreases n,
{
    if n > 0 {
        lemma_channel_total_bound(data, c, n - 1);
    }
}

/// The number of pixels of an image.
pub open spec fn pixel_count(img: PixelImage) -> int {
    img.width * img.height
}

/// The per-channel averages of a `width x height` RGBA buffer can be computed with `u32`
/// arithmetic: it has pixels, their number fits, and so does each channel's sum.
pub open spec fn averageable(data: Seq<u8>, width: int, height: int) -> bool {
    &&& 0 < width * height <= u32::MAX
    &&& forall|c: int| 0 <= c < 4 ==> #[trigger] channel_total(data, c, width * height) <= u32::MAX
}

pub open spec fn average_channel(img: PixelImage, c: int) -> int {
    channel_total(img.data@, c, pixel_count(img)) / pixel_count(img)
}

impl BlockImage {
    /// A block picture and the average of its pixels.
    pub fn new(img: PixelImage) -> (b: BlockImage)
        requires
            img.wf(),
            averageable(img.data@, img.width as int, img.height as int),
        ensures
            b.img == img,
            forall|c: int| 0 <= c < 4 ==> #[trigger] b.avg_pixel@[c] == average_channel(img, c),
    {
        let num_pixels: u32 = img.width * img.height;
        let n = num_pixels as usize;
        let dl = img.data.len();
        let mut acc: [u32; 4] = [0, 0, 0, 0];
        let mut i: usize = 0;
        while i < n
            invariant
                img.wf(),
                averageable(img.data@, img.width as int, img.height as int),
                n == pixel_count(img),
                dl == img.data@.len(),
                i <= n,
                forall|c: int| 0 <= c < 4 ==> #[trigger] acc@[c] == channel_total(img.data@, c, i as int),
            decreases n - i,
        {
            proof {
                assert(4 * i + 3 < img.data@.len()) by (nonlinear_arith)
                    requires
                        i < n,
                        n == img.width * img.height,
                        img.data@.len() == 4 * (img.width * img.height),
                ;
            }
            let mut c: usize = 0;
            while c < 4
                invariant
                    img.wf(),
                    averageable(img.data@, img.width as int, img.height as int),
                    n == pixel_count(img),
                    i < n,
                    c <= 4,
                    4 * i + 3 < img.data@.len(),
                    dl == img.data@.len(),
                    forall|k: int| 0 <= k < c ==> #[trigger] acc@[k] == channel_total(img.data@, k, i + 1),
                    forall|k: int| c <= k < 4 ==> #[trigger] acc@[k] == channel_total(img.data@, k, i as int),
                decreases 4 - c,
            {
                proof {
                    lemma_channel_total_monotone(img.data@, c as int, i + 1, n as int);
                    assert(channel_total(img.data@, c as int, n as int) <= u32::MAX);
                }
                acc[c] = acc[c] + img.data[4 * i + c] as u32;
                c = c + 1;
            }
            i = i + 1;
        }
        let avg_pixel: [u8; 4] = [
            (acc[0] / num_pixels) as u8,
            (acc[1] / num_pixels) as u8,
            (acc[2] / num_pixels) as u8,
            (acc[3] / num_pixels) as u8,
        ];
        proof {
            assert forall|c: int| 0 <= c < 4 implies (acc@[c] as int) / (num_pixels as int) <= 255 by {
                lemma_channel_total_bound(img.data@, c, n as int);
                vstd::arithmetic::div_mod::lemma_div_is_ordered(acc@[c] as int, 255 * (n as int), n as int);
                vstd::arithmetic::div_mod::lemma_div_multiples_vanish(255, n as int);
            }
            assert(avg_pixel@[0] == average_channel(img, 0));
            assert(avg_pixel@[1] == average_channel(img, 1));
            assert(avg_pixel@[2] == average_channel(img, 2));
            assert(avg_pixel@[3] == average_channel(img, 3));
        }
        BlockImage { img, avg_pixel }
    }

    pub open spec fn wf(&self) -> bool {
        self.img.wf() && self.img.width > 0 && self.img.height > 0
    }

    /// Resamples the picture to `width x height`; the average is not recomputed.
    pub fn resize(&mut self, width: u32, height: u32)
        requires
            old(self).wf(),
            width > 0,
            height > 0,
            resize_fits(old(self).img.width as int, old(self).img.height as int, width as int, height as int),
        ensures
            final(self).wf(),
            final(self).avg_pixel == old(self).avg_pixel,
            final(self).img.width == width,
            final(self).img.height == height,
            old(self).img.width == width && old(self).img.height == height ==> final(self).img == old(self).img,
            final(self).img.data@ == if old(self).img.width != width || old(self).img.height != height {
                super::raster::lanczos3_resized(old(self).img.data@, old(self).img.width, old(self).img.height, width, height)
            } else {
                old(self).img.data@
            },
    {
        if self.img.width != width || self.img.height != height {
            self.img = self.img.resized(width, height);
        }
    }

    pub fn width(&self) -> (w: u32)
        ensures
            w == self.img.width,
    {
        self.img.width
    }

    pub fn height(&self) -> (h: u32)
        ensures
            h == self.img.height,
    {
        self.img.height
    }

    pub fn get_pixel(&self, x: u32, y: u32) -> (p: [u8; 4])
        requires
            self.img.wf(),
            self.img.contains(x as int, y as int),
        ensures
            forall|c: int| 0 <= c < 4 ==> #[trigger] p@[c] == self.img.channel(x as int, y as int, c),
    {
        self.img.get_pixel(x, y)
    }

    pub fn get_average_pixel(&self) -> (p: [u8; 4])
        ensures
            p == self.avg_pixel,
    {
        self.avg_pixel
    }
}


/// The nine block pictures of one skin, all `width x height`.
#[derive(Clone)]
pub struct BlockSkin {
    pub black_img: BlockImage,
    pub gray_img: BlockImage,
    pub i_img: BlockImage,
    pub o_img: BlockImage,
    pub t_img: BlockImage,
    pub l_img: BlockImage,
    pub j_img: BlockImage,
    pub s_img: BlockImage,
    pub z_img: BlockImage,
    pub width: u32,
    pub height: u32,
    pub id: usize,
}

/// The number of pictures side by side in a skin sheet.
pub const NUM_SECTIONS: u32 = 9;

/// The bytes of section `i` of a skin sheet: the `width / 9`-wide strip starting at column
/// `i * (width / 9)`.
pub open spec fn section_data(sheet: PixelImage, i: int) -> Seq<u8> {
    let w = sheet.width / 9;
    Seq::new(
        byte_len(w as int, sheet.height as int) as nat,
        |k: int| sheet.channel(i * w + (k / 4) % (w as int), (k / 4) / (w as int), k % 4),
    )
}

/// `b` is the block picture made from `data`, a `width x height` buffer.
pub open spec fn block_made_from(b: BlockImage, data: Seq<u8>, width: int, height: int) -> bool {
    &&& b.img.width == width
    &&& b.img.height == height
    &&& b.img.data@ == data
    &&& forall|c: int| 0 <= c < 4 ==> #[trigger] b.avg_pixel@[c] == average_channel(b.img, c)
}

/// `skin` holds the nine pictures of `sheet`, left to right: black garbage, gray garbage,
/// Z, L, O, S, I, J, T.
pub open spec fn cut_from_sheet(skin: BlockSkin, sheet: PixelImage) -> bool {
    let (w, h) = (skin.width as int, skin.height as int);
    &&& block_made_from(skin.black_img, section_data(sheet, 0), w, h)
    &&& block_made_from(skin.gray_img, section_data(sheet, 1), w, h)
    &&& block_made_from(skin.z_img, section_data(sheet, 2), w, h)
    &&& block_made_from(skin.l_img, section_data(sheet, 3), w, h)
    &&& block_made_from(skin.o_img, section_data(sheet, 4), w, h)
    &&& block_made_from(skin.s_img, section_data(sheet, 5), w, h)
    &&& block_made_from(skin.i_img, section_data(sheet, 6), w, h)
    &&& block_made_from(skin.j_img, section_data(sheet, 7), w, h)
    &&& block_made_from(skin.t_img, section_data(sheet, 8), w, h)
}

/// The block picture a skin draws for a cell holding `ch`.
pub open spec fn block_for_char(skin: BlockSkin, ch: char) -> BlockImage {
    if ch == 'I' {
        skin.i_img
    } else if ch == 'O' {
        skin.o_img
    } else if ch == 'T' {
        skin.t_img
    } else if ch == 'L' {
        skin.l_img
    } else if ch == 'J' {
        skin.j_img
    } else if ch == 'S' {
        skin.s_img
    } else if ch == 'Z' {
        skin.z_img
    } else if ch == 'G' {
        skin.gray_img
    } else {
        skin.black_img
    }
}

/// The characters a filled cell can hold.
pub open spec fn drawable_char(ch: char) -> bool {
    ch == 'I' || ch == 'O' || ch == 'T' || ch == 'L' || ch == 'J' || ch == 'S' || ch == 'Z' || ch == 'G'
        || ch == 'B'
}

proof fn lemma_section_crop(sheet: PixelImage, i: int, img: PixelImage)
    requires
        sheet.wf(),
        0 <= i < 9,
        sheet.width / 9 > 0,
        img.wf(),
        img.width == sheet.width / 9,
        img.height == sheet.height,
        forall|x: int, y: int, c: int|
            0 <= x < img.width && 0 <= y < img.height && 0 <= c < 4 ==> #[trigger] img.channel(x, y, c)
                == sheet.channel(i * img.width + x, y, c),
    ensures
        img.data@ == section_data(sheet, i),
{
    let w = img.width as int;
    let sd = section_data(sheet, i);
    assert forall|k: int| 0 <= k < img.data@.len() implies img.data@[k] == sd[k] by {
        let q = k / 4;
        let x = q % w;
        let y = q / w;
        let c = k % 4;
        vstd::arithmetic::div_mod::lemma_fundamental_div_mod(k, 4);
        vstd::arithmetic::div_mod::lemma_fundamental_div_mod(q, w);
        assert(0 <= c < 4);
        assert(0 <= x < w) by {
            vstd::arithmetic::div_mod::lemma_mod_bound(q, w);
        }
        assert(0 <= y < img.height) by (nonlinear_arith)
            requires
                0 <= k < 4 * (w * img.height),
                k == 4 * q + c,
                0 <= c < 4,
                q == w * y + x,
                0 <= x < w,
                w > 0,
        {
            if y >= img.height {
                assert(w * y >= w * img.height);
            }
            if y < 0 {
                assert(w * y <= -w);
            }
        }
        assert(img.offset(x, y, c) == k) by (nonlinear_arith)
            requires
                k == 4 * q + c,
                q == w * y + x,
                img.width == w,
        ;
        assert(img.channel(x, y, c) == sheet.channel(i * img.width + x, y, c));
        assert(sd[k] == sheet.channel(i * w + x, y, c));
    }
    assert(img.data@ =~= sd);
}

impl BlockSkin {
    /// Cuts a skin sheet into its nine pictures, left to right: black garbage, gray garbage,
    /// Z, L, O, S, I, J, T.
    pub fn from_sheet(sheet: &PixelImage, id: usize) -> (skin: BlockSkin)
        requires
            sheet.wf(),
            sheet.width / 9 > 0,
            sheet.height > 0,
            forall|i: int| 0 <= i < 9 ==> averageable(
                #[trigger] section_data(*sheet, i),
                (sheet.width / 9) as int,
                sheet.height as int,
            ),
        ensures
            skin.wf(),
            skin.width == sheet.width / 9,
            skin.height == sheet.height,
            skin.id == id,
            block_made_from(skin.black_img, section_data(*sheet, 0), skin.width as int, skin.height as int),
            block_made_from(skin.gray_img, section_data(*sheet, 1), skin.width as int, skin.height as int),
            block_made_from(skin.z_img, section_data(*sheet, 2), skin.width as int, skin.height as int),
            block_made_from(skin.l_img, section_data(*sheet, 3), skin.width as int, skin.height as int),
            block_made_from(skin.o_img, section_data(*sheet, 4), skin.width as int, skin.height as int),
            block_made_from(skin.s_img, section_data(*sheet, 5), skin.width as int, skin.height as int),
            block_made_from(skin.i_img, section_data(*sheet, 6), skin.width as int, skin.height as int),
            block_made_from(skin.j_img, section_data(*sheet, 7), skin.width as int, skin.height as int),
            block_made_from(skin.t_img, section_data(*sheet, 8), skin.width as int, skin.height as int),
            cut_from_sheet(skin, *sheet),
    {
        let section_width = sheet.width / NUM_SECTIONS;
        let height = sheet.height;
        let black_img = Self::section(sheet, 0);
        let gray_img = Self::section(sheet, 1);
        let z_img = Self::section(sheet, 2);
        let l_img = Self::section(sheet, 3);
        let o_img = Self::section(sheet, 4);
        let s_img = Self::section(sheet, 5);
        let i_img = Self::section(sheet, 6);
        let j_img = Self::section(sheet, 7);
        let t_img = Self::section(sheet, 8);
        BlockSkin {
            black_img,
            gray_img,
            i_img,
            o_img,
            t_img,
            l_img,
            j_img,
            s_img,
            z_img,
            width: section_width,
            height,
            id,
        }
    }

    fn section(sheet: &PixelImage, i: u32) -> (b: BlockImage)
        requires
            sheet.wf(),
            i < 9,
            sheet.width / 9 > 0,
            sheet.height > 0,
            averageable(section_data(*sheet, i as int), (sheet.width / 9) as int, sheet.height as int),
        ensures
            b.wf(),
            block_made_from(b, section_data(*sheet, i as int), (sheet.width / 9) as int, sheet.height as int),
    {
        let section_width = sheet.width / NUM_SECTIONS;
        assert(i * section_width + section_width <= sheet.width) by (nonlinear_arith)
            requires
                i < 9,
                section_width == sheet.width / 9,
        {
            assert(9 * section_width <= sheet.width);
            assert(i * section_width + section_width == (i + 1) * section_width);
            assert((i + 1) * section_width <= 9 * section_width);
        }
        let img = sheet.crop(i * section_width, 0, section_width, sheet.height);
        proof {
            lemma_section_crop(*sheet, i as int, img);
        }
        BlockImage::new(img)
    }

    /// Every picture is well formed and `width x height`.
    pub open spec fn wf(&self) -> bool {
        &&& self.width > 0
        &&& self.height > 0
        &&& self.black_img.wf() && self.black_img.img.width == self.width && self.black_img.img.height == self.height
        &&& self.gray_img.wf() && self.gray_img.img.width == self.width && self.gray_img.img.height == self.height
        &&& self.i_img.wf() && self.i_img.img.width == self.width && self.i_img.img.height == self.height
        &&& self.o_img.wf() && self.o_img.img.width == self.width && self.o_img.img.height == self.height
        &&& self.t_img.wf() && self.t_img.img.width == self.width && self.t_img.img.height == self.height
        &&& self.l_img.wf() && self.l_img.img.width == self.width && self.l_img.img.height == self.height
        &&& self.j_img.wf() && self.j_img.img.width == self.width && self.j_img.img.height == self.height
        &&& self.s_img.wf() && self.s_img.img.width == self.width && self.s_img.img.height == self.height
        &&& self.z_img.wf() && self.z_img.img.width == self.width && self.z_img.img.height == self.height
    }

    /// Resamples every picture to `width x height`.
    pub fn resize(&mut self, width: u32, height: u32)
        requires
            old(self).wf(),
            width > 0,
            height > 0,
            resize_fits(old(self).width as int, old(self).height as int, width as int, height as int),
        ensures
            skin_resized(*old(self), *final(self), width, height),
    {
        self.black_img.resize(width, height);
        self.gray_img.resize(width, height);
        self.i_img.resize(width, height);
        self.o_img.resize(width, height);
        self.t_img.resize(width, height);
        self.l_img.resize(width, height);
        self.j_img.resize(width, height);
        self.s_img.resize(width, height);
        self.z_img.resize(width, height);
        self.width = width;
        self.height = height;
    }

    /// The pictures in the order black garbage, gray garbage, I, O, T, L, J, S, Z.
    pub fn as_array_ref(&self) -> (r: [&BlockImage; 9])
        ensures
            r@ == seq![
                &self.black_img,
                &self.gray_img,
                &self.i_img,
                &self.o_img,
                &self.t_img,
                &self.l_img,
                &self.j_img,
                &self.s_img,
                &self.z_img,
            ],
    {
        [
            &self.black_img,
            &self.gray_img,
            &self.i_img,
            &self.o_img,
            &self.t_img,
            &self.l_img,
            &self.j_img,
            &self.s_img,
            &self.z_img,
        ]
    }

    /// Mutable references to the pictures, in the order of `as_array_ref`.
    pub fn as_array_ref_mut(&mut self) -> (r: [&mut BlockImage; 9])
        ensures
            *r[0] == old(self).black_img,
            *r[1] == old(self).gray_img,
            *r[2] == old(self).i_img,
            *r[3] == old(self).o_img,
            *r[4] == old(self).t_img,
            *r[5] == old(self).l_img,
            *r[6] == old(self).j_img,
            *r[7] == old(self).s_img,
            *r[8] == old(self).z_img,
            final(self).black_img == *final(r[0]),
            final(self).gray_img == *final(r[1]),
            final(self).i_img == *final(r[2]),
            final(self).o_img == *final(r[3]),
            final(self).t_img == *final(r[4]),
            final(self).l_img == *final(r[5]),
            final(self).j_img == *final(r[6]),
            final(self).s_img == *final(r[7]),
            final(self).z_img == *final(r[8]),
            final(self).width == old(self).width,
            final(self).height == old(self).height,
            final(self).id == old(self).id,
    {
        [
            &mut self.black_img,
            &mut self.gray_img,
            &mut self.i_img,
            &mut self.o_img,
            &mut self.t_img,
            &mut self.l_img,
            &mut self.j_img,
            &mut self.s_img,
            &mut self.z_img,
        ]
    }

    /// The picture of a piece: its tetromino's, or the gray or black garbage.
    pub fn block_image_from_piece(&self, piece: &Piece) -> (b: &BlockImage)
        ensures
            *b == block_for_char(*self, spec_char(*piece)),
    {
        match piece {
            Piece::I(_, _) => &self.i_img,
            Piece::O(_, _) => &self.o_img,
            Piece::T(_, _) => &self.t_img,
            Piece::L(_, _) => &self.l_img,
            Piece::J(_, _) => &self.j_img,
            Piece::S(_, _) => &self.s_img,
            Piece::Z(_, _) => &self.z_img,
            Piece::Gray(_) => &self.gray_img,
            Piece::Black(_) => &self.black_img,
        }
    }

    /// The picture for a cell's content; black garbage for anything that is not a piece's
    /// character.
    pub fn block_image_from_char(&self, cell_val: &char) -> (b: &BlockImage)
        ensures
            *b == block_for_char(*self, *cell_val),
    {
        match *cell_val {
            'I' => &self.i_img,
            'O' => &self.o_img,
            'T' => &self.t_img,
            'L' => &self.l_img,
            'J' => &self.j_img,
            'S' => &self.s_img,
            'Z' => &self.z_img,
            'G' => &self.gray_img,
            _ => &self.black_img,
        }
    }

    pub fn width(&self) -> (w: u32)
        ensures
            w == self.width,
    {
        self.width
    }

    pub fn height(&self) -> (h: u32)
        ensures
            h == self.height,
    {
        self.height
    }

    pub fn id(&self) -> (i: usize)
        ensures
            i == self.id,
    {
        self.id
    }
}

/// `new` is `old` resampled to `width x height`, with the average it had.
pub open spec fn resized_block(old: BlockImage, new: BlockImage, width: u32, height: u32) -> bool {
    &&& new.avg_pixel == old.avg_pixel
    &&& new.img.width == width
    &&& new.img.height == height
    &&& new.img.data@ == if old.img.width != width || old.img.height != height {
        super::raster::lanczos3_resized(old.img.data@, old.img.width, old.img.height, width, height)
    } else {
        old.img.data@
    }
}


/// `new` is the skin `old` with every picture resampled to `width x height`.
pub open spec fn skin_resized(old: BlockSkin, new: BlockSkin, width: u32, height: u32) -> bool {
    &&& new.wf()
    &&& new.width == width
    &&& new.height == height
    &&& new.id == old.id
    &&& resized_block(old.black_img, new.black_img, width, height)
    &&& resized_block(old.gray_img, new.gray_img, width, height)
    &&& resized_block(old.i_img, new.i_img, width, height)
    &&& resized_block(old.o_img, new.o_img, width, height)
    &&& resized_block(old.t_img, new.t_img, width, height)
    &&& resized_block(old.l_img, new.l_img, width, height)
    &&& resized_block(old.j_img, new.j_img, width, height)
    &&& resized_block(old.s_img, new.s_img, width, height)
    &&& resized_block(old.z_img, new.z_img, width, height)
}

pub type Skins = Vec<BlockSkin>;

#[derive(Debug)]
pub enum SkinError {
    /// A board dimension does not fit in a `u32`.
    DimensionTooLarge(usize),
    /// The image is too small for the board: a skin would have no pixels.
    EmptySkin,
}

/// The size of a skin so that `board_width x board_height` of them cover an image of
/// `image_width x image_height` pixels, or why there is none.
pub open spec fn skin_size(image_width: u32, image_height: u32, board_width: usize, board_height: usize) -> Result<
    (u32, u32),
    SkinError,
> {
    if board_width > u32::MAX {
        Err(SkinError::DimensionTooLarge(board_width))
    } else if board_height > u32::MAX {
        Err(SkinError::DimensionTooLarge(board_height))
    } else if image_width / (board_width as u32) == 0 || image_height / (board_height as u32) == 0 {
        Err(SkinError::EmptySkin)
    } else {
        Ok(((image_width / (board_width as u32)) as u32, (image_height / (board_height as u32)) as u32))
    }
}

/// The size of a skin so that `board_width x board_height` of them cover an image of
/// `image_width x image_height` pixels: the image's size divided by the board's, rounded
/// down; an error when a board dimension does not fit in a `u32` or a skin would be empty.
pub fn skin_size_for(image_width: u32, image_height: u32, board_width: usize, board_height: usize) -> (r: Result<
    (u32, u32),
    SkinError,
>)
    requires
        board_width != 0,
        board_width <= u32::MAX ==> board_height != 0,
    ensures
        r == skin_size(image_width, image_height, board_width, board_height),
{
    if board_width > 0xffff_ffff {
        return Err(SkinError::DimensionTooLarge(board_width));
    }
    let skin_width = image_width / (board_width as u32);
    if board_height > 0xffff_ffff {
        return Err(SkinError::DimensionTooLarge(board_height));
    }
    let skin_height = image_height / (board_height as u32);
    if skin_width == 0 || skin_height == 0 {
        return Err(SkinError::EmptySkin);
    }
    Ok((skin_width, skin_height))
}

/// Resizes every skin so that a `board_width x board_height` board of blocks covers an image
/// of `image_width x image_height` pixels.
pub fn resize_skins(
    skins: &mut Skins,
    image_width: u32,
    image_height: u32,
    board_width: usize,
    board_height: usize,
) -> (r: Result<(), SkinError>)
    requires
        board_width != 0,
        board_width <= u32::MAX ==> board_height != 0,
        forall|i: int| 0 <= i < old(skins)@.len() ==> (#[trigger] old(skins)@[i]).wf(),
        skin_size(image_width, image_height, board_width, board_height) matches Ok((w, h)) ==> forall|i: int|
            0 <= i < old(skins)@.len() ==> resize_fits(
                (#[trigger] old(skins)@[i]).width as int,
                old(skins)@[i].height as int,
                w as int,
                h as int,
            ),
    ensures
        r is Ok <==> skin_size(image_width, image_height, board_width, board_height) is Ok,
        r matches Err(e) ==> skin_size(image_width, image_height, board_width, board_height) == Err::<(u32, u32), SkinError>(e)
            && final(skins)@ == old(skins)@,
        skin_size(image_width, image_height, board_width, board_height) matches Ok((w, h)) ==> {
            &&& final(skins)@.len() == old(skins)@.len()
            &&& forall|i: int| 0 <= i < old(skins)@.len() ==> skin_resized(old(skins)@[i], #[trigger] final(skins)@[i], w, h)
        },
{
    let (skin_width, skin_height) = match skin_size_for(image_width, image_height, board_width, board_height) {
        Ok(size) => size,
        Err(e) => {
            return Err(e);
        },
    };
    let ghost before = skins@;
    let mut i: usize = 0;
    while i < skins.len()
        invariant
            i <= skins@.len(),
            skins@.len() == before.len(),
            skin_width > 0,
            skin_height > 0,
            forall|j: int| 0 <= j < before.len() ==> (#[trigger] before[j]).wf(),
            forall|j: int|
                0 <= j < before.len() ==> resize_fits(
                    (#[trigger] before[j]).width as int,
                    before[j].height as int,
                    skin_width as int,
                    skin_height as int,
                ),
            forall|j: int| 0 <= j < i ==> skin_resized(before[j], #[trigger] skins@[j], skin_width, skin_height),
            forall|j: int| i <= j < before.len() ==> #[trigger] skins@[j] == before[j],
        decreases before.len() - i,
    {
        let skin = &mut skins[i];
        skin.resize(skin_width, skin_height);
        i = i + 1;
    }
    Ok(())
}

/// `new` is what placing `piece` with skin `skin_id` on `old` leaves, and `r` what it returns:
/// the piece and its skin are recorded when it fits, and nothing changes when it does not.
pub open spec fn place_outcome<'a>(
    old: SkinnedBoard<'a>,
    new: SkinnedBoard<'a>,
    piece: Piece,
    skin_id: usize,
    r: Result<(), BoardError>,
) -> bool {
    &&& new.wf()
    &&& new.skins == old.skins
    &&& r is Ok <==> old.board@.can_place(piece)
    &&& r is Ok ==> new.board@ == old.board@.placed(piece) && new.cells_skin@ == old.board@.fill(
        old.cells_skin@,
        spec_occupancy(piece),
        skin_id,
    )
    &&& r is Err ==> new.board == old.board && new.cells_skin == old.cells_skin
}

pub struct SkinnedBoard<'a> {
    pub board: Board,
    pub cells_skin: Vec<usize>,
    pub skins: &'a Skins,
}

impl<'a> SkinnedBoard<'a> {
    /// The board is well formed and every cell has a skin entry.
    pub open spec fn wf(&self) -> bool {
        self.board@.wf() && self.cells_skin@.len() == self.board@.cells.len()
    }

    /// An empty `width x height` board drawn with `skins`; no cell has a skin yet.
    pub fn new(width: usize, height: usize, skins: &'a Skins) -> (b: SkinnedBoard<'a>)
        requires
            width * height <= usize::MAX,
        ensures
            b.wf(),
            b.skins == skins,
            b.board@.width == width,
            b.board@.height == height,
            b.board@.pieces == Seq::<Piece>::empty(),
            forall|i: int| 0 <= i < b.board@.cells.len() ==> #[trigger] b.board@.cells[i] == EMPTY_CELL,
            forall|i: int| 0 <= i < b.cells_skin@.len() ==> #[trigger] b.cells_skin@[i] == INVALID_SKIN_ID,
    {
        let board = Board::new(width, height);
        let n = width * height;
        let mut cells_skin: Vec<usize> = Vec::new();
        let mut i: usize = 0;
        while i < n
            invariant
                i <= n,
                cells_skin@.len() == i,
                forall|j: int| 0 <= j < i ==> #[trigger] cells_skin@[j] == INVALID_SKIN_ID,
            decreases n - i,
        {
            cells_skin.push(INVALID_SKIN_ID);
            i = i + 1;
        }
        SkinnedBoard { board, cells_skin, skins }
    }

    pub fn iter_skins(&self) -> (it: std::slice::Iter<'_, BlockSkin>)
        ensures
            vstd::std_specs::iter::IteratorSpec::remaining(&it) == self.skins@.as_ref(),
    {
        broadcast use vstd::std_specs::slice::axiom_spec_slice_iter;

        let s = self.skins.as_slice();
        s.iter()
    }

    pub fn get_skin(&self, index: usize) -> (s: &BlockSkin)
        requires
            index < self.skins@.len(),
        ensures
            *s == self.skins@[index as int],
    {
        &self.skins[index]
    }

    /// The width of the first skin.
    pub fn skins_width(&self) -> (w: u32)
        requires
            self.skins@.len() > 0,
        ensures
            w == self.skins@[0].width,
    {
        self.skins[0].width
    }

    /// The height of the first skin.
    pub fn skins_height(&self) -> (h: u32)
        requires
            self.skins@.len() > 0,
        ensures
            h == self.skins@[0].height,
    {
        self.skins[0].height
    }

    pub fn board(&self) -> (b: &Board)
        ensures
            *b == self.board,
    {
        &self.board
    }

    pub fn board_width(&self) -> (w: usize)
        ensures
            w == self.board.width,
    {
        self.board.width
    }

    pub fn board_height(&self) -> (h: usize)
        ensures
            h == self.board.height,
    {
        self.board.height
    }

    /// Whether the cell lies on the board and is empty.
    pub fn empty_at(&self, cell: &Cell) -> (r: bool)
        requires
            self.wf(),
        ensures
            r == self.board@.is_free(*cell),
    {
        match self.board.get(cell) {
            Ok(c) => c == EMPTY_CELL,
            Err(_) => false,
        }
    }

    /// Places `piece` on the board and gives its cells the skin `skin_id`; nothing changes
    /// when the piece does not fit.
    pub fn place(&mut self, piece: &Piece, skin_id: usize) -> (r: Result<(), BoardError>)
        requires
            old(self).wf(),
            !occupancy_overflows(*piece),
        ensures
            place_outcome(*old(self), *final(self), *piece, skin_id, r),
    {
        let board_width = self.board_width();
        let ghost v = self.board@;
        let ghost before = self.cells_skin@;
        match self.board.place(piece) {
            Ok(()) => {},
            Err(e) => {
                return Err(e);
            },
        }
        let occ_r = piece.get_occupancy();
        proof {
            super::piece::lemma_occupancy_result(*piece, occ_r);
        }
        let occupancy = match occ_r {
            Ok(o) => o,
            Err(_) => {
                return Ok(());
            },
        };
        let mut i: usize = 0;
        proof {
            assert(v.fill(before, occupancy@.take(0), skin_id) =~= before);
        }
        while i < occupancy.len()
            invariant
                i <= occupancy@.len(),
                occupancy@ == spec_occupancy(*piece),
                v.wf(),
                v.can_place(*piece),
                board_width == v.width,
                self.board@ == v.placed(*piece),
                self.skins == old(self).skins,
                before.len() == v.cells.len(),
                self.cells_skin@ == v.fill(before, occupancy@.take(i as int), skin_id),
            decreases occupancy@.len() - i,
        {
            let cell = occupancy[i];
            assert(v.is_free(occupancy@[i as int]));
            let n = self.cells_skin.len();
            proof {
                lemma_index_in_bounds(cell.x as int, cell.y as int, v.width as int, v.height as int);
            }
            self.cells_skin.set(cell.y * board_width + cell.x, skin_id);
            proof {
                assert forall|j: int| 0 <= j < before.len() implies self.cells_skin@[j] == v.fill(
                    before,
                    occupancy@.take(i + 1),
                    skin_id,
                )[j] by {
                    lemma_covers_step(v, occupancy@, i as int, j);
                }
                assert(self.cells_skin@ =~= v.fill(before, occupancy@.take(i + 1), skin_id));
            }
            i = i + 1;
        }
        proof {
            assert(occupancy@.take(occupancy@.len() as int) =~= occupancy@);
        }
        Ok(())
    }

    /// Blocks an empty cell and gives it the skin `skin_id`, without listing a piece; an error
    /// for a cell outside the board or one that already holds something, and then nothing
    /// changes.
    pub fn place_cell(&mut self, cell: &Cell, skin_id: usize) -> (r: Result<(), BoardError>)
        requires
            old(self).wf(),
        ensures
            final(self).wf(),
            final(self).skins == old(self).skins,
            final(self).board@.width == old(self).board@.width,
            final(self).board@.height == old(self).board@.height,
            final(self).board@.pieces == old(self).board@.pieces,
            !old(self).board@.in_bounds(*cell) ==> r == Err::<(), BoardError>(BoardError::InvalidCell(*cell))
                && *final(self) == *old(self),
            old(self).board@.in_bounds(*cell) && !old(self).board@.is_free(*cell) ==> r == Err::<(), BoardError>(
                BoardError::OccupiedCell(*cell),
            ) && *final(self) == *old(self),
            old(self).board@.is_free(*cell) ==> r is Ok && final(self).board@.cells == old(self).board@.cells.update(
                old(self).board@.index_of(*cell),
                BLOCKED_CELL,
            ) && final(self).cells_skin@ == old(self).cells_skin@.update(old(self).board@.index_of(*cell), skin_id),
    {
        let current = match self.board.get(cell) {
            Ok(c) => c,
            Err(e) => {
                return Err(e);
            },
        };
        if current != EMPTY_CELL {
            return Err(BoardError::OccupiedCell(*cell));
        }
        let board_width = self.board_width();
        let n = self.board.cells.len();
        proof {
            lemma_index_in_bounds(cell.x as int, cell.y as int, self.board@.width as int, self.board@.height as int);
        }
        let idx = cell.y * board_width + cell.x;
        self.cells_skin.set(idx, skin_id);
        self.board.cells.set(idx, BLOCKED_CELL);
        Ok(())
    }

    /// The skin id of a cell.
    pub fn get_cells_skin(&self, cell: &Cell) -> (id: usize)
        requires
            cell.y * self.board.width + cell.x < self.cells_skin@.len(),
        ensures
            id == self.cells_skin@[cell.y * self.board.width + cell.x],
    {
        let n = self.cells_skin.len();
        self.cells_skin[cell.y * self.board_width() + cell.x]
    }
}


/// The size of the drawing of a board: its cells times the first skin's size.
pub open spec fn canvas_width(sb: &SkinnedBoard) -> int {
    sb.board.width * sb.skins@[0].width
}

pub open spec fn canvas_height(sb: &SkinnedBoard) -> int {
    sb.board.height * sb.skins@[0].height
}

/// The skin of the cell at position `k`.
pub open spec fn cell_skin(sb: &SkinnedBoard, k: int) -> BlockSkin {
    sb.skins@[sb.cells_skin@[k] as int]
}

/// The picture drawn for the cell at position `k`.
pub open spec fn cell_block(sb: &SkinnedBoard, k: int) -> BlockImage {
    block_for_char(cell_skin(sb, k), sb.board.cells@[k])
}

/// A board can be drawn: it is completely filled with pieces and garbage, every cell has a
/// skin, and every size and position of the drawing fits.
pub open spec fn drawable(sb: &SkinnedBoard) -> bool {
    &&& sb.wf()
    &&& sb.skins@.len() > 0
    &&& sb.board.width <= u32::MAX
    &&& sb.board.height <= u32::MAX
    &&& canvas_width(sb) <= u32::MAX
    &&& canvas_height(sb) <= u32::MAX
    &&& byte_len(canvas_width(sb), canvas_height(sb)) <= usize::MAX
    &&& forall|k: int| 0 <= k < sb.board.cells@.len() ==> {
        &&& drawable_char(#[trigger] sb.board.cells@[k])
        &&& sb.cells_skin@[k] < sb.skins@.len()
        &&& cell_skin(sb, k).wf()
        &&& (k % (sb.board.width as int)) * cell_skin(sb, k).width <= u32::MAX
        &&& (k / (sb.board.width as int)) * cell_skin(sb, k).height <= u32::MAX
    }
}

/// The canvas after the first `k` cells, row by row, have been drawn on a transparent one.
pub open spec fn drawn(sb: &SkinnedBoard, k: int) -> Seq<u8>
    decreases k,
{
    if k <= 0 {
        Seq::new(byte_len(canvas_width(sb), canvas_height(sb)) as nat, |i: int| 0u8)
    } else {
        let j = k - 1;
        let skin = cell_skin(sb, j);
        let b = cell_block(sb, j);
        overlaid(
            drawn(sb, j),
            canvas_width(sb) as u32,
            canvas_height(sb) as u32,
            b.img.data@,
            b.img.width,
            b.img.height,
            ((j % (sb.board.width as int)) * skin.width) as i64,
            ((j / (sb.board.width as int)) * skin.height) as i64,
        )
    }
}

/// Draws every cell of the board with the picture of its content in its skin.
pub fn draw_board(skin_board: &SkinnedBoard) -> (img: PixelImage)
    requires
        drawable(skin_board),
    ensures
        img.wf(),
        img.width == canvas_width(skin_board),
        img.height == canvas_height(skin_board),
        img.data@ == drawn(skin_board, skin_board.board.cells@.len() as int),
{
    let board = &skin_board.board;
    let skins = skin_board.skins;
    let cells_skin = &skin_board.cells_skin;
    let bw = board.width as u32;
    let bh = board.height as u32;
    let mut img = PixelImage::new_blank(bw * skins[0].width, bh * skins[0].height);
    proof {
        assert(img.data@ =~= drawn(skin_board, 0));
    }
    let mut y: usize = 0;
    while y < board.height
        invariant
            drawable(skin_board),
            *board == skin_board.board,
            skins == skin_board.skins,
            *cells_skin == skin_board.cells_skin,
            y <= board.height,
            img.wf(),
            img.width == canvas_width(skin_board),
            img.height == canvas_height(skin_board),
            img.data@ == drawn(skin_board, y * board.width),
        decreases board.height - y,
    {
        let mut x: usize = 0;
        while x < board.width
            invariant
                drawable(skin_board),
                *board == skin_board.board,
                skins == skin_board.skins,
                *cells_skin == skin_board.cells_skin,
                y < board.height,
                x <= board.width,
                img.wf(),
                img.width == canvas_width(skin_board),
                img.height == canvas_height(skin_board),
                img.data@ == drawn(skin_board, y * board.width + x),
            decreases board.width - x,
        {
            let ghost k = y * board.width + x;
            proof {
                lemma_index_in_bounds(x as int, y as int, board.width as int, board.height as int);
                vstd::arithmetic::div_mod::lemma_fundamental_div_mod_converse(k, board.width as int, y as int, x as int);
                assert(y * board.width == board.width * y) by (nonlinear_arith);
                assert(drawable_char(skin_board.board.cells@[k as int]));
            }
            let n = board.cells.len();
            let idx = y * board.width + x;
            let skin_id = cells_skin[idx];
            let skin = skin_board.get_skin(skin_id);
            let block = skin.block_image_from_char(&board.cells[idx]);
            let px: u32 = (x as u32) * skin.width;
            let py: u32 = (y as u32) * skin.height;
            img.overlay(&block.img, px as i64, py as i64);
            x = x + 1;
        }
        proof {
            assert(y * board.width + board.width == (y + 1) * board.width) by (nonlinear_arith);
        }
        y = y + 1;
    }
    assert(board.height * board.width == board.width * board.height) by (nonlinear_arith);
    img
}

/// The section of a skin sheet whose picture is drawn for a cell holding `ch`: I 6, O 4,
/// T 8, L 3, J 7, S 5, Z 2, gray garbage G 1, and black garbage 0 for anything else.
pub open spec fn sheet_section_of_char(ch: char) -> int {
    if ch == 'I' {
        6
    } else if ch == 'O' {
        4
    } else if ch == 'T' {
        8
    } else if ch == 'L' {
        3
    } else if ch == 'J' {
        7
    } else if ch == 'S' {
        5
    } else if ch == 'Z' {
        2
    } else if ch == 'G' {
        1
    } else {
        0
    }
}

/// A cell holding `ch` is drawn with the picture of the section of the skin sheet that
/// belongs to `ch`: each letter of a piece with its own tetromino's or garbage's picture.
pub proof fn lemma_char_picture_from_sheet(skin: BlockSkin, sheet: PixelImage, ch: char, b: BlockImage)
    requires
        cut_from_sheet(skin, sheet),
        b == block_for_char(skin, ch),
    ensures
        b.img.data@ == section_data(sheet, sheet_section_of_char(ch)),
        b.img.width == skin.width,
        b.img.height == skin.height,
{
}

/// A piece is drawn with the picture of its own kind from the skin sheet: I from section 6,
/// O 4, T 8, L 3, J 7, S 5, Z 2, gray garbage 1 and black garbage 0.
pub proof fn lemma_piece_picture_from_sheet(skin: BlockSkin, sheet: PixelImage, p: Piece, b: BlockImage)
    requires
        cut_from_sheet(skin, sheet),
        b == block_for_char(skin, spec_char(p)),
    ensures
        b.img.data@ == section_data(
            sheet,
            match p {
                Piece::I(_, _) => 6,
                Piece::O(_, _) => 4,
                Piece::T(_, _) => 8,
                Piece::L(_, _) => 3,
                Piece::J(_, _) => 7,
                Piece::S(_, _) => 5,
                Piece::Z(_, _) => 2,
                Piece::Gray(_) => 1,
                Piece::Black(_) => 0,
            },
        ),
{
}

} // verus!
