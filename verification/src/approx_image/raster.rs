use vstd::prelude::*;

verus! {

/// An RGBA image with 8 bits per channel, stored row by row, four bytes per pixel.
#[derive(Clone)]
pub struct PixelImage {
    pub width: u32,
    pub height: u32,
    pub data: Vec<u8>,
}

/// The pixels `resize` with the Lanczos3 filter computes from an RGBA buffer of
/// `width x height` pixels for a target of `new_width x new_height` pixels.
pub uninterp spec fn lanczos3_resized(
    data: Seq<u8>,
    width: u32,
    height: u32,
    new_width: u32,
    new_height: u32,
) -> Seq<u8>;

/// The pixels `overlay` leaves in an RGBA buffer of `width x height` pixels after drawing
/// the buffer `top` of `top_width x top_height` pixels with its top-left corner at (`x`, `y`).
pub uninterp spec fn overlaid(
    bottom: Seq<u8>,
    width: u32,
    height: u32,
    top: Seq<u8>,
    top_width: u32,
    top_height: u32,
    x: i64,
    y: i64,
) -> Seq<u8>;

pub open spec fn byte_len(width: int, height: int) -> int {
    4 * (width * height)
}

impl PixelImage {
    pub open spec fn wf(&self) -> bool {
        self.data@.len() == byte_len(self.width as int, self.height as int)
    }

    /// Where channel `c` of pixel (`x`, `y`) is stored.
    pub open spec fn offset(&self, x: int, y: int, c: int) -> int {
        4 * (y * self.width + x) + c
    }

    pub open spec fn channel(&self, x: int, y: int, c: int) -> u8 {
        self.data@[self.offset(x, y, c)]
    }

    pub open spec fn contains(&self, x: int, y: int) -> bool {
        0 <= x < self.width && 0 <= y < self.height
    }

    /// A fully transparent black image.
    pub fn new_blank(width: u32, height: u32) -> (img: PixelImage)
        requires
            byte_len(width as int, height as int) <= usize::MAX,
        ensures
            img.wf(),
            img.width == width,
            img.height == height,
            forall|i: int| 0 <= i < img.data@.len() ==> img.data@[i] == 0,
    {
        let n = 4 * ((width as usize) * (height as usize));
        let mut data: Vec<u8> = Vec::new();
        let mut i: usize = 0;
        while i < n
            invariant
                i <= n,
                data@.len() == i,
                forall|j: int| 0 <= j < i ==> data@[j] == 0,
            decreases n - i,
        {
            data.push(0);
            i = i + 1;
        }
        PixelImage { width, height, data }
    }

    /// The four channels of pixel (`x`, `y`).
    pub fn get_pixel(&self, x: u32, y: u32) -> (p: [u8; 4])
        requires
            self.wf(),
            self.contains(x as int, y as int),
        ensures
            forall|c: int| 0 <= c < 4 ==> #[trigger] p@[c] == self.channel(x as int, y as int, c),
    {
        let base = self.pixel_offset(x, y);
        [self.data[base], self.data[base + 1], self.data[base + 2], self.data[base + 3]]
    }

    fn pixel_offset(&self, x: u32, y: u32) -> (o: usize)
        requires
            self.wf(),
            self.contains(x as int, y as int),
        ensures
            o == self.offset(x as int, y as int, 0),
            o + 3 < self.data@.len(),
    {
        let n = self.data.len();
        proof {
            lemma_pixel_offset(x as int, y as int, self.width as int, self.height as int);
        }
        4 * ((y as usize) * (self.width as usize) + (x as usize))
    }

    /// The `width x height` part of the image whose top-left corner is (`x0`, `y0`).
    pub fn crop(&self, x0: u32, y0: u32, width: u32, height: u32) -> (img: PixelImage)
        requires
            self.wf(),
            x0 + width <= self.width,
            y0 + height <= self.height,
        ensures
            img.wf(),
            img.width == width,
            img.height == height,
            forall|x: int, y: int, c: int|
                0 <= x < width && 0 <= y < height && 0 <= c < 4 ==> #[trigger] img.channel(x, y, c)
                    == self.channel(x0 + x, y0 + y, c),
    {
        let mut data: Vec<u8> = Vec::new();
        let mut y: u32 = 0;
        proof {
            lemma_byte_len_le(width as int, height as int, self.width as int, self.height as int);
        }
        while y < height
            invariant
                self.wf(),
                x0 + width <= self.width,
                y0 + height <= self.height,
                y <= height,
                data@.len() == 4 * (y * width),
                forall|i: int| 0 <= i < data@.len() ==> #[trigger] data@[i] == self.channel(
                    x0 + (i / 4) % (width as int),
                    y0 + (i / 4) / (width as int),
                    i % 4,
                ),
            decreases height - y,
        {
            let mut x: u32 = 0;
            while x < width
                invariant
                    self.wf(),
                    x0 + width <= self.width,
                    y0 + height <= self.height,
                    y < height,
                    x <= width,
                    data@.len() == 4 * (y * width + x),
                    forall|i: int| 0 <= i < data@.len() ==> #[trigger] data@[i] == self.channel(
                        x0 + (i / 4) % (width as int),
                        y0 + (i / 4) / (width as int),
                        i % 4,
                    ),
                decreases width - x,
            {
                let p = self.get_pixel(x0 + x, y0 + y);
                let ghost before = data@;
                let mut c: usize = 0;
                while c < 4
                    invariant
                        c <= 4,
                        x < width,
                        data@.len() == 4 * (y * width + x) + c,
                        data@.subrange(0, 4 * (y * width + x)) == before,
                        forall|k: int| 0 <= k < c ==> #[trigger] data@[4 * (y * width + x) + k] == p@[k],
                    decreases 4 - c,
                {
                    data.push(p[c]);
                    c = c + 1;
                }
                proof {
                    assert forall|i: int| 0 <= i < data@.len() implies #[trigger] data@[i] == self.channel(
                        x0 + (i / 4) % (width as int),
                        y0 + (i / 4) / (width as int),
                        i % 4,
                    ) by {
                        let base = 4 * (y * width + x);
                        if i < base {
                            assert(data@[i] == before[i]);
                        } else {
                            let k = i - base;
                            lemma_split_index(i, k, x as int, y as int, width as int);
                            assert(data@[base + k] == p@[k]);
                        }
                    }
                }
                x = x + 1;
            }
            assert(4 * (y * width + width) == 4 * ((y + 1) * width)) by (nonlinear_arith);
            y = y + 1;
        }
        let img = PixelImage { width, height, data };
        assert(height * width == width * height) by (nonlinear_arith);
        proof {
            assert forall|x: int, y: int, c: int|
                0 <= x < width && 0 <= y < height && 0 <= c < 4 implies #[trigger] img.channel(x, y, c)
                == self.channel(x0 + x, y0 + y, c) by {
                let i = img.offset(x, y, c);
                lemma_split_index(i, c, x, y, width as int);
                lemma_index_bound(x, y, c, width as int, height as int);
            }
        }
        img
    }
}

/// The flat index `i = 4 * (y * w + x) + k` of channel `k` of pixel (`x`, `y`) decodes back.
proof fn lemma_split_index(i: int, k: int, x: int, y: int, w: int)
    requires
        0 <= k < 4,
        0 <= x < w,
        0 <= y,
        i == 4 * (y * w + x) + k,
    ensures
        i / 4 == y * w + x,
        i % 4 == k,
        (i / 4) % w == x,
        (i / 4) / w == y,
{
    vstd::arithmetic::div_mod::lemma_fundamental_div_mod_converse(i, 4, y * w + x, k);
    assert(0 <= y * w) by (nonlinear_arith)
        requires
            0 <= y,
            0 <= x < w,
    ;
    vstd::arithmetic::div_mod::lemma_fundamental_div_mod_converse(y * w + x, w, y, x);
}

proof fn lemma_index_bound(x: int, y: int, c: int, w: int, h: int)
    requires
        0 <= x < w,
        0 <= y < h,
        0 <= c < 4,
    ensures
        0 <= 4 * (y * w + x) + c < byte_len(w, h),
{
    assert(0 <= y * w + x < w * h) by (nonlinear_arith)
        requires
            0 <= x < w,
            0 <= y < h,
    ;
}

proof fn lemma_pixel_offset(x: int, y: int, w: int, h: int)
    requires
        0 <= x < w,
        0 <= y < h,
    ensures
        0 <= y * w,
        0 <= y * w + x < w * h,
        4 * (y * w + x) + 3 < byte_len(w, h),
{
    assert(0 <= y * w && y * w + x < w * h) by (nonlinear_arith)
        requires
            0 <= x < w,
            0 <= y < h,
    ;
}

proof fn lemma_byte_len_le(w1: int, h1: int, w2: int, h2: int)
    requires
        0 <= w1 <= w2,
        0 <= h1 <= h2,
    ensures
        byte_len(w1, h1) <= byte_len(w2, h2),
{
    assert(w1 * h1 <= w2 * h2) by (nonlinear_arith)
        requires
            0 <= w1 <= w2,
            0 <= h1 <= h2,
    ;
}

/// The buffers `resize` allocates when the size changes fit in memory: the target, and the
/// intermediate image of `width x new_height` pixels of four `f32` channels (16 bytes each)
/// that the vertical pass leaves.
pub open spec fn resize_fits(width: int, height: int, new_width: int, new_height: int) -> bool {
    (width != new_width || height != new_height) ==> {
        &&& byte_len(new_width, new_height) <= isize::MAX
        &&& 4 * byte_len(width, new_height) <= isize::MAX
    }
}

/// Resizes an RGBA buffer with the Lanczos3 filter.
/// Calls `image::imageops::resize`; its result is named `lanczos3_resized`, and the crate's
/// source shows that it has the target's size and is a copy when the size does not change.
/// Empty sources and targets are accepted: the resampling loops then read no pixel.
#[verifier::external_body]
fn lanczos3_resize(data: &Vec<u8>, width: u32, height: u32, new_width: u32, new_height: u32) -> (r: Vec<u8>)
    requires
        data@.len() == byte_len(width as int, height as int),
        resize_fits(width as int, height as int, new_width as int, new_height as int),
    ensures
        r@ == lanczos3_resized(data@, width, height, new_width, new_height),
        r@.len() == byte_len(new_width as int, new_height as int),
        width == new_width && height == new_height ==> r@ == data@,
{
    let img = image::RgbaImage::from_raw(width, height, data.clone()).unwrap();
    image::imageops::resize(&img, new_width, new_height, image::imageops::FilterType::Lanczos3).into_raw()
}

/// Draws `top` over `bottom` with alpha blending, its top-left corner at (`x`, `y`).
/// Calls `image::imageops::overlay`; the pixels it leaves are named `overlaid`, and it does not
/// change the size of `bottom`.
#[verifier::external_body]
fn overlay_onto(bottom: &mut PixelImage, top: &PixelImage, x: i64, y: i64)
    requires
        old(bottom).wf(),
        top.wf(),
    ensures
        final(bottom).width == old(bottom).width,
        final(bottom).height == old(bottom).height,
        final(bottom).data@ == overlaid(
            old(bottom).data@,
            old(bottom).width,
            old(bottom).height,
            top.data@,
            top.width,
            top.height,
            x,
            y,
        ),
        final(bottom).data@.len() == old(bottom).data@.len(),
{
    let mut canvas = image::RgbaImage::from_raw(bottom.width, bottom.height, bottom.data.clone()).unwrap();
    let block = image::RgbaImage::from_raw(top.width, top.height, top.data.clone()).unwrap();
    image::imageops::overlay(&mut canvas, &block, x, y);
    bottom.data = canvas.into_raw();
}

impl PixelImage {
    /// The image resized to `width x height` with the Lanczos3 filter.
    pub fn resized(&self, width: u32, height: u32) -> (img: PixelImage)
        requires
            self.wf(),
            resize_fits(self.width as int, self.height as int, width as int, height as int),
        ensures
            img.wf(),
            img.width == width,
            img.height == height,
            img.data@ == lanczos3_resized(self.data@, self.width, self.height, width, height),
            self.width == width && self.height == height ==> img.data@ == self.data@,
    {
        let data = lanczos3_resize(&self.data, self.width, self.height, width, height);
        PixelImage { width, height, data }
    }

    /// Draws `top` over this image with alpha blending, its top-left corner at (`x`, `y`).
    pub fn overlay(&mut self, top: &PixelImage, x: i64, y: i64)
        requires
            old(self).wf(),
            top.wf(),
        ensures
            final(self).wf(),
            final(self).width == old(self).width,
            final(self).height == old(self).height,
            final(self).data@ == overlaid(
                old(self).data@,
                old(self).width,
                old(self).height,
                top.data@,
                top.width,
                top.height,
                x,
                y,
            ),
    {
        overlay_onto(self, top, x, y);
    }
}

} // verus!
