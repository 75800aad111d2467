use vstd::prelude::*;
use crate::approx_image::draw::{resize_skins, skin_resized, skin_size};
use crate::approx_image::raster::resize_fits;
use crate::cli::GlobalData;

verus! {

/// The frames of a video: their size and how many are taken per second (`fps`).
#[derive(Debug, Clone, Copy)]
pub struct VideoConfig {
    pub image_width: u32,
    pub image_height: u32,
    pub fps: i32,
}

/// `n / d` rounded toward zero, as integer division does.
pub open spec fn quotient_toward_zero(n: int, d: int) -> int {
    if n == 0 {
        0
    } else if n > 0 && d > 0 {
        n / d
    } else if n < 0 && d < 0 {
        (-n) / (-d)
    } else if n < 0 {
        -((-n) / d)
    } else {
        -(n / (-d))
    }
}

proof fn lemma_quotient_bounded(n: int, d: int)
    requires
        d != 0,
    ensures
        n >= 0 && d > 0 ==> 0 <= n / d <= n,
        n <= 0 && d < 0 ==> 0 <= (-n) / (-d) <= -n,
        n < 0 && d > 0 ==> 0 <= (-n) / d <= -n,
        n > 0 && d < 0 ==> 0 <= n / (-d) <= n,
        n < 0 && d < -1 ==> 2 * ((-n) / (-d)) <= -n,
{
    if n >= 0 && d > 0 {
        assert(0 <= n / d <= n) by (nonlinear_arith)
            requires
                n >= 0,
                d > 0,
        ;
    }
    if n <= 0 && d < 0 {
        assert(0 <= (-n) / (-d) <= -n) by (nonlinear_arith)
            requires
                -n >= 0,
                -d > 0,
        ;
    }
    if n < 0 && d < -1 {
        assert(2 * ((-n) / (-d)) <= -n) by (nonlinear_arith)
            requires
                -n > 0,
                -d >= 2,
        ;
    }
    if n < 0 && d > 0 {
        assert(0 <= (-n) / d <= -n) by (nonlinear_arith)
            requires
                -n > 0,
                d > 0,
        ;
    }
    if n > 0 && d < 0 {
        assert(0 <= n / (-d) <= n) by (nonlinear_arith)
            requires
                n > 0,
                -d > 0,
        ;
    }
}

impl VideoConfig {
    /// The frames of a `width x height` stream whose average frame rate is
    /// `rate_numerator / rate_denominator`, rounded toward zero to whole frames per second.
    pub fn from_stream(width: u32, height: u32, rate_numerator: i32, rate_denominator: i32) -> (c: VideoConfig)
        requires
            rate_denominator != 0,
            !(rate_numerator == i32::MIN && rate_denominator == -1),
        ensures
            c.image_width == width,
            c.image_height == height,
            c.fps == quotient_toward_zero(rate_numerator as int, rate_denominator as int),
    {
        proof {
            lemma_quotient_bounded(rate_numerator as int, rate_denominator as int);
        }
        let fps = match rate_numerator.checked_div(rate_denominator) {
            Some(q) => q,
            None => 0,
        };
        VideoConfig { image_width: width, image_height: height, fps }
    }

    /// Resizes the skins so that a `board_width x board_height` board of blocks covers a
    /// frame, then makes the frames exactly that board's size in pixels.
    pub fn fit_to_board(&mut self, glob: &mut GlobalData, board_width: usize, board_height: usize)
        requires
            board_width != 0,
            board_height != 0,
            skin_size(old(self).image_width, old(self).image_height, board_width, board_height) is Ok,
            old(glob).skins@.len() > 0,
            forall|i: int| 0 <= i < old(glob).skins@.len() ==> (#[trigger] old(glob).skins@[i]).wf(),
            skin_size(old(self).image_width, old(self).image_height, board_width, board_height) matches Ok((w, h))
                ==> forall|i: int|
                0 <= i < old(glob).skins@.len() ==> resize_fits(
                    (#[trigger] old(glob).skins@[i]).width as int,
                    old(glob).skins@[i].height as int,
                    w as int,
                    h as int,
                ),
        ensures
            skin_size(old(self).image_width, old(self).image_height, board_width, board_height) matches Ok((w, h))
                && {
                &&& final(glob).skins@.len() == old(glob).skins@.len()
                &&& forall|i: int| 0 <= i < old(glob).skins@.len() ==> skin_resized(
                    old(glob).skins@[i],
                    #[trigger] final(glob).skins@[i],
                    w,
                    h,
                )
                &&& final(self).image_width == w * board_width
                &&& final(self).image_height == h * board_height
            },
            final(self).fps == old(self).fps,
    {
        let r = resize_skins(&mut glob.skins, self.image_width, self.image_height, board_width, board_height);
        let skin_width = glob.skin_width();
        let skin_height = glob.skin_height();
        proof {
            let w = self.image_width / (board_width as u32);
            let h = self.image_height / (board_height as u32);
            assert(skin_width == w && skin_height == h);
            let (bw, bh, iw, ih) = (board_width as int, board_height as int, self.image_width as int, self.image_height as int);
            assert((board_width as u32) as int == bw && (board_height as u32) as int == bh);
            assert(w * bw <= iw) by (nonlinear_arith)
                requires
                    w == iw / bw,
                    bw > 0,
                    iw >= 0,
            ;
            assert(h * bh <= ih) by (nonlinear_arith)
                requires
                    h == ih / bh,
                    bh > 0,
                    ih >= 0,
            ;
        }
        self.image_width = skin_width * (board_width as u32);
        self.image_height = skin_height * (board_height as u32);
    }
}

} // verus!
