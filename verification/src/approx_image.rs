pub mod board;
pub mod draw;
pub mod piece;
pub mod raster;

use vstd::prelude::*;
use board::{BoardError, EMPTY_CELL};
use draw::{SkinnedBoard, Skins, place_outcome};
use piece::{Cell, Orientation, Piece, occupancy_overflows, spec_occupancy};
use raster::{PixelImage, lanczos3_resized, resize_fits};
use crate::grid::BoardView;
use crate::cli::Config;

verus! {

/// Whether the approximation fills the board with tetrominoes before it uses garbage.
#[derive(Copy, Clone, Debug, PartialEq, Eq, Structural)]
pub enum PrioritizeColor {
    Yes,
    No,
}

#[derive(Debug)]
pub enum ApproxError {
    /// A cell coordinate does not fit in an `i32`.
    CoordinateTooLarge(Cell),
    Board(BoardError),
}

/// The difference of the red, green and blue channels of two pixels.
pub fn subtract_pixels(a: [u8; 4], b: [u8; 4]) -> (d: [i32; 3])
    ensures
        d@[0] == a@[0] - b@[0],
        d@[1] == a@[1] - b@[1],
        d@[2] == a@[2] - b@[2],
{
    [a[0] as i32 - b[0] as i32, a[1] as i32 - b[1] as i32, a[2] as i32 - b[2] as i32]
}

/// The sum of channel `c` of the grid entries of the first `n` cells of `occ`, on a grid
/// with `width` entries per row.
pub open spec fn grid_total(grid: Seq<[u8; 4]>, occ: Seq<Cell>, width: int, c: int, n: int) -> int
    decreases n,
{
    if n <= 0 {
        0
    } else {
        grid_total(grid, occ, width, c, n - 1) + grid[occ[n - 1].y * width + occ[n - 1].x]@[c]
    }
}

proof fn lemma_grid_total_monotone(grid: Seq<[u8; 4]>, occ: Seq<Cell>, width: int, c: int, m: int, n: int)
    requires
        0 <= m <= n,
    ensures
        grid_total(grid, occ, width, c, m) <= grid_total(grid, occ, width, c, n),
    decreases n - m,
{
    if m < n {
        lemma_grid_total_monotone(grid, occ, width, c, m, n - 1);
    }
}

proof fn lemma_grid_total_bound(grid: Seq<[u8; 4]>, occ: Seq<Cell>, width: int, c: int, n: int)
    requires
        0 <= n,
    ensures
        0 <= grid_total(grid, occ, width, c, n) <= 255 * n,
    decreases n,
{
    if n > 0 {
        lemma_grid_total_bound(grid, occ, width, c, n - 1);
    }
}

/// The average of the grid entries of the cells of `occupancy`, channel by channel.
pub fn find_average_source_cell_pixel(
    avg_pixel_grid: &Vec<[u8; 4]>,
    occupancy: &Vec<Cell>,
    board: &SkinnedBoard,
) -> (p: [u8; 4])
    requires
        0 < occupancy@.len() <= u32::MAX,
        forall|k: int| 0 <= k < occupancy@.len() ==> (#[trigger] occupancy@[k]).y * board.board.width
            + occupancy@[k].x < avg_pixel_grid@.len(),
        forall|c: int| 0 <= c < 4 ==> #[trigger] grid_total(
            avg_pixel_grid@,
            occupancy@,
            board.board.width as int,
            c,
            occupancy@.len() as int,
        ) <= u32::MAX,
    ensures
        forall|c: int| 0 <= c < 4 ==> #[trigger] p@[c] == grid_total(
            avg_pixel_grid@,
            occupancy@,
            board.board.width as int,
            c,
            occupancy@.len() as int,
        ) / (occupancy@.len() as int),
{
    let width = board.board_width();
    let n = occupancy.len();
    let gl = avg_pixel_grid.len();
    let mut pixel_sum: [u32; 4] = [0, 0, 0, 0];
    let mut i: usize = 0;
    while i < n
        invariant
            i <= n,
            n == occupancy@.len(),
            gl == avg_pixel_grid@.len(),
            width == board.board.width,
            forall|k: int| 0 <= k < occupancy@.len() ==> (#[trigger] occupancy@[k]).y * board.board.width
                + occupancy@[k].x < avg_pixel_grid@.len(),
            forall|c: int| 0 <= c < 4 ==> #[trigger] grid_total(avg_pixel_grid@, occupancy@, width as int, c, n as int)
                <= u32::MAX,
            forall|c: int| 0 <= c < 4 ==> #[trigger] pixel_sum@[c] == grid_total(
                avg_pixel_grid@,
                occupancy@,
                width as int,
                c,
                i as int,
            ),
        decreases n - i,
    {
        let cell = occupancy[i];
        assert(cell.y * width + cell.x < gl);
        let pixel = avg_pixel_grid[cell.y * width + cell.x];
        proof {
            assert forall|c: int| 0 <= c < 4 implies #[trigger] grid_total(
                avg_pixel_grid@,
                occupancy@,
                width as int,
                c,
                i + 1,
            ) <= u32::MAX by {
                lemma_grid_total_monotone(avg_pixel_grid@, occupancy@, width as int, c, i + 1, n as int);
            }
            assert forall|c: int| 0 <= c < 4 implies #[trigger] grid_total(
                avg_pixel_grid@,
                occupancy@,
                width as int,
                c,
                i + 1,
            ) == grid_total(avg_pixel_grid@, occupancy@, width as int, c, i as int) + pixel@[c] by {
                assert(occupancy@[i as int] == cell);
            }
            assert(grid_total(avg_pixel_grid@, occupancy@, width as int, 0, i + 1) <= u32::MAX);
            assert(grid_total(avg_pixel_grid@, occupancy@, width as int, 1, i + 1) <= u32::MAX);
            assert(grid_total(avg_pixel_grid@, occupancy@, width as int, 2, i + 1) <= u32::MAX);
            assert(grid_total(avg_pixel_grid@, occupancy@, width as int, 3, i + 1) <= u32::MAX);
        }
        pixel_sum[0] = pixel_sum[0] + pixel[0] as u32;
        pixel_sum[1] = pixel_sum[1] + pixel[1] as u32;
        pixel_sum[2] = pixel_sum[2] + pixel[2] as u32;
        pixel_sum[3] = pixel_sum[3] + pixel[3] as u32;
        i = i + 1;
    }
    let count = n as u32;
    proof {
        assert forall|c: int| 0 <= c < 4 implies (pixel_sum@[c] as int) / (count as int) <= 255 by {
            lemma_grid_total_bound(avg_pixel_grid@, occupancy@, width as int, c, n as int);
            vstd::arithmetic::div_mod::lemma_div_is_ordered(pixel_sum@[c] as int, 255 * (n as int), n as int);
            vstd::arithmetic::div_mod::lemma_div_multiples_vanish(255, n as int);
        }
    }
    let p: [u8; 4] = [
        (pixel_sum[0] / count) as u8,
        (pixel_sum[1] / count) as u8,
        (pixel_sum[2] / count) as u8,
        (pixel_sum[3] / count) as u8,
    ];
    proof {
        assert(p@[0] == pixel_sum@[0] / count);
        assert(p@[1] == pixel_sum@[1] / count);
        assert(p@[2] == pixel_sum@[2] / count);
        assert(p@[3] == pixel_sum@[3] / count);
    }
    p
}


/// The `k`-th cell looked at around `center`: rows `center.y..center.y + 8`, each from
/// column `center.x` to `center.x + 7`.
pub open spec fn context_candidate(center: Cell, k: int) -> Cell {
    Cell { x: (center.x + k % 8) as usize, y: (center.y + k / 8) as usize }
}

/// A cell gives context: it lies on the board, already holds something, and is not one of
/// the cells being filled.
pub open spec fn is_context(v: BoardView<piece::Piece>, occ: Seq<Cell>, c: Cell) -> bool {
    v.in_bounds(c) && v.at(c) != EMPTY_CELL && !occ.contains(c)
}

pub open spec fn context_pred(v: BoardView<piece::Piece>, occ: Seq<Cell>) -> spec_fn(Cell) -> bool {
    |c: Cell| is_context(v, occ, c)
}

/// The context cells of `center`, in the order they are looked at.
pub open spec fn spec_context_cells(v: BoardView<piece::Piece>, occ: Seq<Cell>, center: Cell) -> Seq<Cell> {
    Seq::new(64, |k: int| context_candidate(center, k)).filter(context_pred(v, occ))
}

/// Computing the context of `center` overflows `i32` arithmetic.
pub open spec fn context_overflows(center: Cell) -> bool {
    &&& center.x <= i32::MAX
    &&& center.y <= i32::MAX
    &&& (center.x + 7 > i32::MAX || center.y + 7 > i32::MAX)
}

fn contains_cell(cells: &Vec<Cell>, c: &Cell) -> (r: bool)
    ensures
        r == cells@.contains(*c),
{
    let mut i: usize = 0;
    while i < cells.len()
        invariant
            i <= cells@.len(),
            forall|j: int| 0 <= j < i ==> cells@[j] != *c,
        decreases cells@.len() - i,
    {
        if cells[i] == *c {
            return true;
        }
        i = i + 1;
    }
    false
}

/// The cells of the 8 x 8 square that starts at `center` (its column and the seven after it,
/// its row and the seven after it) that lie on the board, already hold something and are not
/// among `occupancy`, row by row; an error when `center` has a coordinate too large for an
/// `i32`.
pub fn find_context_cells(board: &SkinnedBoard, occupancy: &Vec<Cell>, center_cell: &Cell) -> (r: Result<
    Vec<Cell>,
    ApproxError,
>)
    requires
        board.wf(),
        !context_overflows(*center_cell),
    ensures
        (center_cell.y > i32::MAX || center_cell.x > i32::MAX) ==> (r matches Err(ApproxError::CoordinateTooLarge(c))
            && c == *center_cell),
        (center_cell.y <= i32::MAX && center_cell.x <= i32::MAX) ==> (r matches Ok(cells) && cells@
            == spec_context_cells(board.board@, occupancy@, *center_cell)),
{
    if center_cell.y > 0x7fff_ffff || center_cell.x > 0x7fff_ffff {
        return Err(ApproxError::CoordinateTooLarge(*center_cell));
    }
    let ghost v = board.board@;
    let ghost occ = occupancy@;
    let ghost cands = Seq::new(64, |k: int| context_candidate(*center_cell, k));
    let mut context_cells: Vec<Cell> = Vec::new();
    let mut dy: i32 = 0;
    proof {
        assert(cands.take(0) =~= Seq::<Cell>::empty());
        reveal_with_fuel(Seq::filter, 1);
    }
    while dy < 8
        invariant
            board.wf(),
            v == board.board@,
            occ == occupancy@,
            cands == Seq::new(64, |k: int| context_candidate(*center_cell, k)),
            center_cell.y + 7 <= i32::MAX,
            center_cell.x + 7 <= i32::MAX,
            0 <= dy <= 8,
            context_cells@ == cands.take(dy * 8).filter(context_pred(v, occ)),
        decreases 8 - dy,
    {
        let new_y = (center_cell.y as i32 + dy) as usize;
        let mut dx: i32 = 0;
        while dx < 8
            invariant
                board.wf(),
                v == board.board@,
                occ == occupancy@,
                cands == Seq::new(64, |k: int| context_candidate(*center_cell, k)),
                center_cell.y + 7 <= i32::MAX,
                center_cell.x + 7 <= i32::MAX,
                0 <= dy < 8,
                new_y == center_cell.y + dy,
                0 <= dx <= 8,
                context_cells@ == cands.take(dy * 8 + dx).filter(context_pred(v, occ)),
            decreases 8 - dx,
        {
            let new_x = (center_cell.x as i32 + dx) as usize;
            let context_cell = Cell { x: new_x, y: new_y };
            let ghost k = dy * 8 + dx;
            proof {
                assert(k / 8 == dy && k % 8 == dx) by (nonlinear_arith)
                    requires
                        k == dy * 8 + dx,
                        0 <= dx < 8,
                        0 <= dy,
                ;
                assert(cands[k] == context_cell);
                assert(cands.take(k + 1) =~= cands.take(k).push(context_cell));
                cands.take(k).lemma_filter_push(context_cell, context_pred(v, occ));
            }
            let context_char = board.board().get(&context_cell);
            let keep = match context_char {
                Ok(c) => c != EMPTY_CELL && !contains_cell(occupancy, &context_cell),
                Err(_) => false,
            };
            if keep {
                context_cells.push(context_cell);
            }
            dx = dx + 1;
        }
        dy = dy + 1;
    }
    proof {
        assert(cands.take(64) =~= cands);
    }
    Ok(context_cells)
}


/// The sum of channel `c` over the `n` pixels of row `y` starting at column `x0`.
pub open spec fn row_total(img: PixelImage, x0: int, y: int, n: int, c: int) -> int
    decreases n,
{
    if n <= 0 {
        0
    } else {
        row_total(img, x0, y, n - 1, c) + img.channel(x0 + n - 1, y, c)
    }
}

/// The sum of channel `c` over the first `m` rows of the `gw`-wide block whose top-left pixel
/// is (`x0`, `y0`).
pub open spec fn block_total(img: PixelImage, x0: int, y0: int, gw: int, m: int, c: int) -> int
    decreases m,
{
    if m <= 0 {
        0
    } else {
        block_total(img, x0, y0, gw, m - 1, c) + row_total(img, x0, y0 + m - 1, gw, c)
    }
}

proof fn lemma_row_total_monotone(img: PixelImage, x0: int, y: int, m: int, n: int, c: int)
    requires
        0 <= m <= n,
    ensures
        0 <= row_total(img, x0, y, m, c) <= row_total(img, x0, y, n, c),
    decreases n,
{
    if m < n {
        lemma_row_total_monotone(img, x0, y, m, n - 1, c);
    } else if m > 0 {
        lemma_row_total_monotone(img, x0, y, m - 1, m - 1, c);
    }
}

proof fn lemma_block_total_monotone(img: PixelImage, x0: int, y0: int, gw: int, m: int, n: int, c: int)
    requires
        0 <= m <= n,
        0 <= gw,
    ensures
        0 <= block_total(img, x0, y0, gw, m, c) <= block_total(img, x0, y0, gw, n, c),
    decreases n,
{
    if m < n {
        lemma_block_total_monotone(img, x0, y0, gw, m, n - 1, c);
        lemma_row_total_monotone(img, x0, y0 + n - 1, 0, gw, c);
    } else if m > 0 {
        lemma_block_total_monotone(img, x0, y0, gw, m - 1, m - 1, c);
        lemma_row_total_monotone(img, x0, y0 + m - 1, 0, gw, c);
    }
}

proof fn lemma_row_total_bound(img: PixelImage, x0: int, y: int, n: int, c: int)
    requires
        0 <= n,
    ensures
        row_total(img, x0, y, n, c) <= 255 * n,
    decreases n,
{
    if n > 0 {
        lemma_row_total_bound(img, x0, y, n - 1, c);
    }
}

proof fn lemma_block_total_bound(img: PixelImage, x0: int, y0: int, gw: int, m: int, c: int)
    requires
        0 <= m,
        0 <= gw,
    ensures
        block_total(img, x0, y0, gw, m, c) <= 255 * (gw * m),
    decreases m,
{
    if m > 0 {
        lemma_block_total_bound(img, x0, y0, gw, m - 1, c);
        lemma_row_total_bound(img, x0, y0 + m - 1, gw, c);
        assert(255 * (gw * (m - 1)) + 255 * gw == 255 * (gw * m)) by (nonlinear_arith);
    }
}

/// The image can be cut into `gw x gh` blocks whose channel sums fit in a `u32`.
pub open spec fn grid_averageable(img: PixelImage, gw: int, gh: int) -> bool {
    &&& img.wf()
    &&& gw > 0
    &&& gh > 0
    &&& (img.width as int) % gw == 0
    &&& (img.height as int) % gh == 0
    &&& gw * gh <= u32::MAX
    &&& forall|bx: int, by: int, c: int|
        0 <= bx < (img.width as int) / gw && 0 <= by < (img.height as int) / gh && 0 <= c < 4 ==> #[trigger] block_total(
            img,
            bx * gw,
            by * gh,
            gw,
            gh,
            c,
        ) <= u32::MAX
}

/// Channel `c` of the entry of block (`bx`, `by`) in a grid with `cols` blocks per row.
pub open spec fn grid_entry(grid: Seq<[u8; 4]>, cols: int, bx: int, by: int, c: int) -> u8 {
    grid[by * cols + bx]@[c]
}

/// The average pixel of every `gw x gh` block of the image, row of blocks by row of blocks.
pub fn average_pixel_grid(source_img: &PixelImage, pixels_grid_width: u32, pixels_grid_height: u32) -> (grid: Vec<
    [u8; 4],
>)
    requires
        grid_averageable(*source_img, pixels_grid_width as int, pixels_grid_height as int),
    ensures
        ({
            let gw = pixels_grid_width as int;
            let gh = pixels_grid_height as int;
            let cols = (source_img.width as int) / gw;
            &&& grid@.len() == cols * ((source_img.height as int) / gh)
            &&& forall|bx: int, by: int, c: int|
                0 <= bx < cols && 0 <= by < (source_img.height as int) / gh && 0 <= c < 4 ==> #[trigger] grid_entry(grid@, cols, bx, by, c) == block_total(*source_img, bx * gw, by * gh, gw, gh, c) / (gw * gh)
        }),
{
    let gw = pixels_grid_width;
    let gh = pixels_grid_height;
    let pixels_w = source_img.width;
    let pixels_h = source_img.height;
    let pixels_per_grid = gw * gh;
    let ghost img = *source_img;
    let ghost cols = pixels_w / gw;
    let ghost rows = pixels_h / gh;
    let mut avg_pixels: Vec<[u8; 4]> = Vec::new();
    let mut py: u32 = 0;
    let mut by: u32 = 0;
    proof {
        vstd::arithmetic::div_mod::lemma_fundamental_div_mod(pixels_w as int, gw as int);
        vstd::arithmetic::div_mod::lemma_fundamental_div_mod(pixels_h as int, gh as int);
    }
    while py < pixels_h
        invariant
            grid_averageable(img, gw as int, gh as int),
            img == *source_img,
            pixels_w == img.width,
            pixels_h == img.height,
            pixels_per_grid == gw * gh,
            cols == pixels_w / gw,
            rows == pixels_h / gh,
            pixels_w == gw * cols,
            pixels_h == gh * rows,
            py == by * gh,
            by <= rows,
            avg_pixels@.len() == by * cols,
            forall|bx: int, bj: int, c: int|
                0 <= bx < cols && 0 <= bj < by && 0 <= c < 4 ==> #[trigger] grid_entry(avg_pixels@, cols as int, bx, bj, c)
                    == block_total(img, bx * gw, bj * gh, gw as int, gh as int, c) / (gw * gh),
        decreases pixels_h - py,
    {
        assert(by < rows) by (nonlinear_arith)
            requires
                py == by * gh,
                py < pixels_h,
                pixels_h == gh * rows,
                gh > 0,
        ;
        let mut px: u32 = 0;
        let mut bx: u32 = 0;
        while px < pixels_w
            invariant
                grid_averageable(img, gw as int, gh as int),
                img == *source_img,
                pixels_w == img.width,
                pixels_h == img.height,
                pixels_per_grid == gw * gh,
                cols == pixels_w / gw,
                rows == pixels_h / gh,
                pixels_w == gw * cols,
                pixels_h == gh * rows,
                py == by * gh,
                by < rows,
                px == bx * gw,
                bx <= cols,
                avg_pixels@.len() == by * cols + bx,
                forall|bi: int, bj: int, c: int|
                    0 <= bi < cols && 0 <= bj < by && 0 <= c < 4 ==> #[trigger] grid_entry(avg_pixels@, cols as int, bi, bj, c)
                        == block_total(img, bi * gw, bj * gh, gw as int, gh as int, c) / (gw * gh),
                forall|bi: int, c: int|
                    0 <= bi < bx && 0 <= c < 4 ==> #[trigger] grid_entry(avg_pixels@, cols as int, bi, by as int, c) == block_total(
                        img,
                        bi * gw,
                        by * gh,
                        gw as int,
                        gh as int,
                        c,
                    ) / (gw * gh),
            decreases pixels_w - px,
        {
            assert(bx < cols) by (nonlinear_arith)
                requires
                    px == bx * gw,
                    px < pixels_w,
                    pixels_w == gw * cols,
                    gw > 0,
            ;
            assert(px + gw <= pixels_w && py + gh <= pixels_h) by (nonlinear_arith)
                requires
                    px == bx * gw,
                    bx < cols,
                    pixels_w == gw * cols,
                    py == by * gh,
                    by < rows,
                    pixels_h == gh * rows,
            ;
            proof {
                vstd::arithmetic::div_mod::lemma_mod_multiples_basic(bx as int, gw as int);
                vstd::arithmetic::div_mod::lemma_mod_multiples_basic(by as int, gh as int);
            }
            let sum = block_sum(source_img, px, py, gw, gh);
            assert(gw * gh > 0) by (nonlinear_arith)
                requires
                    gw > 0,
                    gh > 0,
            ;
            proof {
                assert forall|c: int| 0 <= c < 4 implies (#[trigger] sum@[c] as int) / (pixels_per_grid as int) <= 255 by {
                    lemma_block_total_bound(img, px as int, py as int, gw as int, gh as int, c);
                    assert(gw * gh == gw as int * gh as int);
                    vstd::arithmetic::div_mod::lemma_div_is_ordered(sum@[c] as int, 255 * (gw * gh), gw * gh);
                    vstd::arithmetic::div_mod::lemma_div_multiples_vanish(255, gw * gh);
                }
            }
            let pixel_avg: [u8; 4] = [
                (sum[0] / pixels_per_grid) as u8,
                (sum[1] / pixels_per_grid) as u8,
                (sum[2] / pixels_per_grid) as u8,
                (sum[3] / pixels_per_grid) as u8,
            ];
            let ghost before = avg_pixels@;
            avg_pixels.push(pixel_avg);
            proof {
                assert(pixel_avg@[0] == sum@[0] / pixels_per_grid);
                assert(pixel_avg@[1] == sum@[1] / pixels_per_grid);
                assert(pixel_avg@[2] == sum@[2] / pixels_per_grid);
                assert(pixel_avg@[3] == sum@[3] / pixels_per_grid);
                assert forall|bi: int, bj: int, c: int|
                    0 <= bi < cols && 0 <= bj < by && 0 <= c < 4 implies #[trigger] grid_entry(avg_pixels@, cols as int, bi, bj, c)
                    == block_total(img, bi * gw, bj * gh, gw as int, gh as int, c) / (gw * gh) by {
                    assert(bj * cols + bi < by * cols) by (nonlinear_arith)
                        requires
                            0 <= bi < cols,
                            0 <= bj < by,
                    ;
                    assert(avg_pixels@[bj * cols + bi] == before[bj * cols + bi]);
                    assert(grid_entry(before, cols as int, bi, bj, c) == block_total(img, bi * gw, bj * gh, gw as int, gh as int, c) / (gw * gh));
                }
                assert forall|bi: int, c: int|
                    0 <= bi < bx + 1 && 0 <= c < 4 implies #[trigger] grid_entry(avg_pixels@, cols as int, bi, by as int, c) == block_total(
                    img,
                    bi * gw,
                    by * gh,
                    gw as int,
                    gh as int,
                    c,
                ) / (gw * gh) by {
                    if bi < bx {
                        assert(avg_pixels@[by * cols + bi] == before[by * cols + bi]);
                        assert(grid_entry(before, cols as int, bi, by as int, c) == block_total(img, bi * gw, by * gh, gw as int, gh as int, c) / (gw * gh));
                    } else {
                        assert(avg_pixels@[by * cols + bi] == pixel_avg);
                    }
                }
            }
            assert(px + gw == (bx + 1) * gw) by (nonlinear_arith)
                requires
                    px == bx * gw,
            ;
            px = px + gw;
            bx = bx + 1;
        }
        assert(bx == cols) by (nonlinear_arith)
            requires
                px == bx * gw,
                px >= pixels_w,
                bx <= cols,
                pixels_w == gw * cols,
                gw > 0,
        ;
        assert(avg_pixels@.len() == (by + 1) * cols) by (nonlinear_arith)
            requires
                avg_pixels@.len() == by * cols + bx,
                bx == cols,
        ;
        assert(py + gh <= pixels_h && py + gh == (by + 1) * gh) by (nonlinear_arith)
            requires
                py == by * gh,
                by < rows,
                pixels_h == gh * rows,
        ;
        proof {
            assert forall|bi: int, bj: int, c: int|
                0 <= bi < cols && 0 <= bj < by + 1 && 0 <= c < 4 implies #[trigger] grid_entry(avg_pixels@, cols as int, bi, bj, c)
                == block_total(img, bi * gw, bj * gh, gw as int, gh as int, c) / (gw * gh) by {
                if bj == by {
                    assert(grid_entry(avg_pixels@, cols as int, bi, by as int, c) == block_total(img, bi * gw, by * gh, gw as int, gh as int, c) / (gw * gh));
                }
            }
        }
        py = py + gh;
        by = by + 1;
    }
    assert(by == rows) by (nonlinear_arith)
        requires
            py == by * gh,
            py >= pixels_h,
            by <= rows,
            pixels_h == gh * rows,
            gh > 0,
    ;
    assert(cols * rows == rows * cols) by (nonlinear_arith);
    avg_pixels
}

/// The channel sums of the `gw x gh` block whose top-left pixel is (`x0`, `y0`).
fn block_sum(img: &PixelImage, x0: u32, y0: u32, gw: u32, gh: u32) -> (sum: [u32; 4])
    requires
        grid_averageable(*img, gw as int, gh as int),
        x0 % gw == 0,
        y0 % gh == 0,
        x0 + gw <= img.width,
        y0 + gh <= img.height,
    ensures
        forall|c: int| 0 <= c < 4 ==> #[trigger] sum@[c] == block_total(*img, x0 as int, y0 as int, gw as int, gh as int, c),
{
    let ghost bx = x0 / gw;
    let ghost by = y0 / gh;
    proof {
        vstd::arithmetic::div_mod::lemma_fundamental_div_mod(x0 as int, gw as int);
        vstd::arithmetic::div_mod::lemma_fundamental_div_mod(y0 as int, gh as int);
        assert(bx * gw == x0 && by * gh == y0) by (nonlinear_arith)
            requires
                x0 == gw * (x0 / gw) + x0 % gw,
                x0 % gw == 0,
                y0 == gh * (y0 / gh) + y0 % gh,
                y0 % gh == 0,
                bx == x0 / gw,
                by == y0 / gh,
        ;
        assert(bx < (img.width as int) / (gw as int)) by {
            vstd::arithmetic::div_mod::lemma_div_is_ordered(x0 + gw, img.width as int, gw as int);
            vstd::arithmetic::div_mod::lemma_div_plus_one(x0 as int, gw as int);
        }
        assert(by < (img.height as int) / (gh as int)) by {
            vstd::arithmetic::div_mod::lemma_div_is_ordered(y0 + gh, img.height as int, gh as int);
            vstd::arithmetic::div_mod::lemma_div_plus_one(y0 as int, gh as int);
        }
        assert forall|c: int| 0 <= c < 4 implies #[trigger] block_total(*img, x0 as int, y0 as int, gw as int, gh as int, c)
            <= u32::MAX by {
            assert(block_total(*img, bx * gw, by * gh, gw as int, gh as int, c) <= u32::MAX);
        }
    }
    let mut sum: [u32; 4] = [0, 0, 0, 0];
    let mut y: u32 = 0;
    while y < gh
        invariant
            grid_averageable(*img, gw as int, gh as int),
            x0 + gw <= img.width,
            y0 + gh <= img.height,
            y <= gh,
            forall|c: int| 0 <= c < 4 ==> #[trigger] block_total(*img, x0 as int, y0 as int, gw as int, gh as int, c)
                <= u32::MAX,
            forall|c: int| 0 <= c < 4 ==> #[trigger] sum@[c] == block_total(*img, x0 as int, y0 as int, gw as int, y as int, c),
        decreases gh - y,
    {
        let mut x: u32 = 0;
        while x < gw
            invariant
                grid_averageable(*img, gw as int, gh as int),
                x0 + gw <= img.width,
                y0 + gh <= img.height,
                y < gh,
                x <= gw,
                forall|c: int| 0 <= c < 4 ==> #[trigger] block_total(*img, x0 as int, y0 as int, gw as int, gh as int, c)
                    <= u32::MAX,
                forall|c: int| 0 <= c < 4 ==> #[trigger] sum@[c] == block_total(*img, x0 as int, y0 as int, gw as int, y as int, c)
                    + row_total(*img, x0 as int, y0 + y, x as int, c),
            decreases gw - x,
        {
            let pixel = img.get_pixel(x0 + x, y0 + y);
            let mut c: usize = 0;
            while c < 4
                invariant
                    grid_averageable(*img, gw as int, gh as int),
                    x0 + gw <= img.width,
                    y0 + gh <= img.height,
                    y < gh,
                    x < gw,
                    c <= 4,
                    forall|k: int| 0 <= k < 4 ==> #[trigger] pixel@[k] == img.channel(x0 + x, y0 + y, k),
                    forall|k: int| 0 <= k < 4 ==> #[trigger] block_total(*img, x0 as int, y0 as int, gw as int, gh as int, k)
                        <= u32::MAX,
                    forall|k: int| 0 <= k < c ==> #[trigger] sum@[k] == block_total(*img, x0 as int, y0 as int, gw as int, y as int, k)
                        + row_total(*img, x0 as int, y0 + y, x + 1, k),
                    forall|k: int| c <= k < 4 ==> #[trigger] sum@[k] == block_total(*img, x0 as int, y0 as int, gw as int, y as int, k)
                        + row_total(*img, x0 as int, y0 + y, x as int, k),
                decreases 4 - c,
            {
                proof {
                    let k = c as int;
                    lemma_block_total_monotone(*img, x0 as int, y0 as int, gw as int, y + 1, gh as int, k);
                    lemma_row_total_monotone(*img, x0 as int, y0 + y, x + 1, gw as int, k);
                    assert(block_total(*img, x0 as int, y0 as int, gw as int, y + 1, k) == block_total(
                        *img,
                        x0 as int,
                        y0 as int,
                        gw as int,
                        y as int,
                        k,
                    ) + row_total(*img, x0 as int, y0 + y, gw as int, k));
                }
                sum[c] = sum[c] + pixel[c] as u32;
                c = c + 1;
            }
            x = x + 1;
        }
        proof {
            assert forall|c: int| 0 <= c < 4 implies #[trigger] sum@[c] == block_total(
                *img,
                x0 as int,
                y0 as int,
                gw as int,
                y + 1,
                c,
            ) by {}
        }
        y = y + 1;
    }
    sum
}


/// Resizes the image with the Lanczos3 filter so that a `board_width x board_height` board of
/// `skin_width x skin_height` blocks covers it exactly; an image of that size is left as it is.
pub fn resize_image(
    source_img: &mut PixelImage,
    skin_width: u32,
    skin_height: u32,
    board_width: usize,
    board_height: usize,
)
    requires
        old(source_img).wf(),
        board_width <= u32::MAX,
        board_height <= u32::MAX,
        skin_width * board_width <= u32::MAX,
        skin_height * board_height <= u32::MAX,
        resize_fits(
            old(source_img).width as int,
            old(source_img).height as int,
            skin_width * board_width,
            skin_height * board_height,
        ),
    ensures
        final(source_img).wf(),
        final(source_img).width == skin_width * board_width,
        final(source_img).height == skin_height * board_height,
        final(source_img).data@ == if skin_width * board_width != old(source_img).width || skin_height
            * board_height != old(source_img).height {
            lanczos3_resized(
                old(source_img).data@,
                old(source_img).width,
                old(source_img).height,
                (skin_width * board_width) as u32,
                (skin_height * board_height) as u32,
            )
        } else {
            old(source_img).data@
        },
{
    let resized_width = skin_width * (board_width as u32);
    let resized_height = skin_height * (board_height as u32);
    if resized_width != source_img.width || resized_height != source_img.height {
        *source_img = source_img.resized(resized_width, resized_height);
    }
}

/// A piece the approximation may put on the current cell, drawn with a skin.
#[derive(Clone, Copy, Debug, PartialEq, Eq, Structural)]
pub struct Candidate {
    pub piece: Piece,
    /// The position of the skin in the list of skins.
    pub skin_index: usize,
    /// The id the skin carries.
    pub skin_id: usize,
}

/// `keys[i]` is below `bound`, smaller than every key before it and no larger than any key
/// after it: the first minimum of the keys below `bound`.
pub open spec fn first_min_below(keys: Seq<u64>, bound: u64, i: int) -> bool {
    &&& 0 <= i < keys.len()
    &&& keys[i] < bound
    &&& forall|j: int| 0 <= j < i ==> keys[i] < #[trigger] keys[j]
    &&& forall|j: int| i < j < keys.len() ==> keys[i] <= #[trigger] keys[j]
}

/// The candidate with the smallest key below `bound`, the first one on a tie; `None` when no
/// key is below `bound`.
pub fn best_candidate(keys: &Vec<u64>, bound: u64) -> (r: Option<usize>)
    ensures
        r is None <==> forall|j: int| 0 <= j < keys@.len() ==> bound <= #[trigger] keys@[j],
        r matches Some(i) ==> first_min_below(keys@, bound, i as int),
{
    let mut best: Option<usize> = None;
    let mut best_key = bound;
    let mut i: usize = 0;
    while i < keys.len()
        invariant
            i <= keys@.len(),
            best is None ==> best_key == bound && forall|j: int| 0 <= j < i ==> bound <= #[trigger] keys@[j],
            best matches Some(b) ==> b < i && best_key == keys@[b as int] && first_min_below(keys@.take(i as int), bound, b as int),
        decreases keys@.len() - i,
    {
        if keys[i] < best_key {
            best = Some(i);
            best_key = keys[i];
        }
        proof {
            if let Some(b) = best {
                assert forall|j: int| 0 <= j < b implies keys@[b as int] < #[trigger] keys@.take(i + 1)[j] by {
                    if b == i {
                        assert(keys@.take(i as int)[j] == keys@[j]);
                    } else {
                        assert(keys@.take(i as int)[j] == keys@[j]);
                    }
                }
                assert forall|j: int| b < j < i + 1 implies keys@[b as int] <= #[trigger] keys@.take(i + 1)[j] by {
                    if j < i {
                        assert(keys@.take(i as int)[j] == keys@[j]);
                    }
                }
            }
        }
        i = i + 1;
    }
    proof {
        assert(keys@.take(keys@.len() as int) =~= keys@);
    }
    best
}

/// The pieces tried on a cell, for each orientation (North, East, South, West) the seven
/// tetrominoes I, O, T, L, J, S, Z.
pub open spec fn normal_piece(cell: Cell, i: int) -> Piece {
    let o = if i / 7 == 0 {
        Orientation::North
    } else if i / 7 == 1 {
        Orientation::East
    } else if i / 7 == 2 {
        Orientation::South
    } else {
        Orientation::West
    };
    let k = i % 7;
    if k == 0 {
        Piece::I(cell, o)
    } else if k == 1 {
        Piece::O(cell, o)
    } else if k == 2 {
        Piece::T(cell, o)
    } else if k == 3 {
        Piece::L(cell, o)
    } else if k == 4 {
        Piece::J(cell, o)
    } else if k == 5 {
        Piece::S(cell, o)
    } else {
        Piece::Z(cell, o)
    }
}

/// None of the tetrominoes anchored at `cell` overflows when its cells are computed.
pub open spec fn normal_pieces_fit(cell: Cell) -> bool {
    forall|i: int| 0 <= i < 28 ==> !occupancy_overflows(#[trigger] normal_piece(cell, i))
}

pub open spec fn fits_on(v: BoardView<Piece>) -> spec_fn(Candidate) -> bool {
    |c: Candidate| v.can_place(c.piece)
}

/// The candidates with one skin: its garbage when garbage is in use, then every tetromino
/// that fits.
pub open spec fn skin_candidates(v: BoardView<Piece>, cell: Cell, use_garbage: bool, skin_index: int, skin_id: usize) -> Seq<
    Candidate,
> {
    let garbage = if use_garbage {
        seq![
            Candidate { piece: Piece::Gray(cell), skin_index: skin_index as usize, skin_id },
            Candidate { piece: Piece::Black(cell), skin_index: skin_index as usize, skin_id },
        ]
    } else {
        Seq::empty()
    };
    garbage + Seq::new(
        28,
        |i: int| Candidate { piece: normal_piece(cell, i), skin_index: skin_index as usize, skin_id },
    ).filter(fits_on(v))
}

/// The candidates with the first `n` skins, skin by skin.
pub open spec fn all_candidates(v: BoardView<Piece>, skins: Seq<draw::BlockSkin>, cell: Cell, use_garbage: bool, n: int) -> Seq<
    Candidate,
>
    decreases n,
{
    if n <= 0 {
        Seq::empty()
    } else {
        all_candidates(v, skins, cell, use_garbage, n - 1) + skin_candidates(
            v,
            cell,
            use_garbage,
            n - 1,
            skins[n - 1].id,
        )
    }
}

/// `a` comes before `b`: a smaller column, or the same column and a smaller row.
pub open spec fn cell_before(a: Cell, b: Cell) -> bool {
    a.x < b.x || (a.x == b.x && a.y < b.y)
}

pub open spec fn sorted_cells(q: Seq<Cell>) -> bool {
    forall|i: int, j: int| 0 <= i < j < q.len() ==> cell_before(#[trigger] q[i], #[trigger] q[j])
}

/// Every cell of a `width x height` board, column by column.
pub open spec fn all_cells(width: int, height: int) -> Seq<Cell> {
    Seq::new((width * height) as nat, |i: int| Cell { x: (i / height) as usize, y: (i % height) as usize })
}

pub open spec fn free_on(v: BoardView<Piece>) -> spec_fn(Cell) -> bool {
    |c: Cell| v.is_free(c)
}

/// The empty cells of the board, column by column.
pub open spec fn free_cells(v: BoardView<Piece>) -> Seq<Cell> {
    all_cells(v.width as int, v.height as int).filter(free_on(v))
}

/// The position of the last empty cell among the first `n` of `q`, or -1.
pub open spec fn last_free(v: BoardView<Piece>, q: Seq<Cell>, n: int) -> int
    decreases n,
{
    if n <= 0 {
        -1
    } else if v.is_free(q[n - 1]) {
        n - 1
    } else {
        last_free(v, q, n - 1)
    }
}


/// What `next_cell` does to the queue and returns: the last empty cell of the queue, with
/// the cells from it on dropped; when the queue holds no empty cell and garbage was held
/// back, garbage is allowed and the empty cells of the board are queued, the last one
/// returned.
pub open spec fn next_cell_outcome<'a>(before: Approximation<'a>, after: Approximation<'a>, r: Option<Cell>) -> bool {
    let q = before.queue@;
    let v = before.board.board@;
    let k = last_free(v, q, q.len() as int);
    let f = free_cells(v);
    &&& k >= 0 ==> r == Some(q[k]) && after.queue@ == q.take(k) && after.use_garbage == before.use_garbage
    &&& k < 0 && before.use_garbage ==> r is None && after.queue@.len() == 0 && after.use_garbage
    &&& k < 0 && !before.use_garbage ==> after.use_garbage && (if f.len() > 0 {
        r == Some(f.last()) && after.queue@ == f.drop_last()
    } else {
        r is None && after.queue@.len() == 0
    })
}

/// No cell of the board is empty.
pub open spec fn board_full(v: BoardView<Piece>) -> bool {
    forall|c: Cell| !#[trigger] v.is_free(c)
}

/// One visit of `fill_board`: from `a`, `next_cell` returns `c` and leaves `m`; `keys` are
/// keys `score` can return for the candidates of `c`, in order; `b` is `m` with the candidate
/// of the smallest key below `bound` (the first on a tie) placed, or `m` itself when no key
/// is below `bound`.
pub open spec fn fill_step<'a, E, F: Fn(&SkinnedBoard<'a>, &Candidate) -> Result<u64, E>>(
    a: Approximation<'a>,
    m: Approximation<'a>,
    c: Cell,
    keys: Seq<u64>,
    b: Approximation<'a>,
    score: F,
    bound: u64,
) -> bool {
    let cands = all_candidates(m.board.board@, m.board.skins@, c, m.use_garbage, m.board.skins@.len() as int);
    &&& next_cell_outcome(a, m, Some(c))
    &&& m.board == a.board
    &&& keys.len() == cands.len()
    &&& forall|j: int| 0 <= j < keys.len() ==> score.ensures((&m.board, &cands[j]), Ok::<u64, E>(#[trigger] keys[j]))
    &&& b.queue == m.queue
    &&& b.use_garbage == m.use_garbage
    &&& (forall|j: int| 0 <= j < keys.len() ==> bound <= #[trigger] keys[j]) ==> b.board == m.board
    &&& (exists|j: int| 0 <= j < keys.len() && #[trigger] keys[j] < bound) ==> exists|i: int|
        #[trigger] first_min_below(keys, bound, i) && place_outcome(
            m.board,
            b.board,
            cands[i].piece,
            cands[i].skin_id,
            Ok(()),
        )
}

/// A whole run of `fill_board` from `start` to `end`: `states[k]` goes to `states[k + 1]` by
/// the visit `visits[k]` (the state after `next_cell`, the cell, the keys), and from the last
/// state `next_cell` finds no cell and leaves `end`.
pub open spec fn fill_run<'a, E, F: Fn(&SkinnedBoard<'a>, &Candidate) -> Result<u64, E>>(
    start: Approximation<'a>,
    end: Approximation<'a>,
    score: F,
    bound: u64,
    states: Seq<Approximation<'a>>,
    visits: Seq<(Approximation<'a>, Cell, Seq<u64>)>,
) -> bool {
    &&& states.len() == visits.len() + 1
    &&& states[0] == start
    &&& forall|k: int| 0 <= k < visits.len() ==> fill_step(
        states[k],
        (#[trigger] visits[k]).0,
        visits[k].1,
        visits[k].2,
        states[k + 1],
        score,
        bound,
    )
    &&& next_cell_outcome(states.last(), end, None)
    &&& end.board == states.last().board
}

/// The largest board side the approximation fills: the pieces tried on any of its cells
/// have coordinates that fit in an `i32`.
pub const MAX_BOARD_SIDE: usize = 0x7fff_fff0;

/// The decisions of the approximation: which cell to fill next and which candidate to place.
/// Cells are visited from the last column to the first, and within a column from the last
/// row to the first. With `use_garbage` false only tetrominoes are tried; the cells left empty
/// are then visited again with garbage allowed.
pub struct Approximation<'a> {
    pub board: SkinnedBoard<'a>,
    /// The cells still to visit, in increasing order; the last one is visited first.
    pub queue: Vec<Cell>,
    pub use_garbage: bool,
}

impl<'a> Approximation<'a> {
    /// The board is well formed and holds exactly its listed pieces, and the queue is sorted.
    pub open spec fn wf(&self) -> bool {
        self.board.wf() && self.board.board@.consistent() && sorted_cells(self.queue@)
    }

    /// Once garbage is allowed, every empty cell of the board is still queued.
    pub open spec fn pending_complete(&self) -> bool {
        self.use_garbage ==> forall|c: Cell| #[trigger] self.board.board@.is_free(c) ==> self.queue@.contains(c)
    }

    /// An empty `width x height` board drawn with `skins`, with every cell still to visit.
    /// Garbage is held back for a second pass when tetrominoes are prioritized.
    pub fn new(width: usize, height: usize, skins: &'a Skins, prioritize: PrioritizeColor) -> (a: Approximation<'a>)
        requires
            width * height <= usize::MAX,
        ensures
            a.wf(),
            a.board.skins == skins,
            a.board.board@.width == width,
            a.board.board@.height == height,
            a.board.board@.pieces == Seq::<Piece>::empty(),
            forall|i: int| 0 <= i < a.board.board@.cells.len() ==> #[trigger] a.board.board@.cells[i] == EMPTY_CELL,
            forall|i: int| 0 <= i < a.board.cells_skin@.len() ==> #[trigger] a.board.cells_skin@[i] == draw::INVALID_SKIN_ID,
            a.queue@ == all_cells(width as int, height as int),
            a.use_garbage == (prioritize == PrioritizeColor::No),
            a.pending_complete(),
            a.board.board@.consistent(),
    {
        let board = SkinnedBoard::new(width, height, skins);
        let mut queue: Vec<Cell> = Vec::new();
        let mut x: usize = 0;
        proof {
            assert(all_cells(width as int, height as int).take(0) =~= Seq::<Cell>::empty());
        }
        while x < width
            invariant
                width * height <= usize::MAX,
                x <= width,
                queue@ == all_cells(width as int, height as int).take(x * height),
                forall|j: int| 0 <= j < queue@.len() ==> (#[trigger] queue@[j]).x < x,
                sorted_cells(queue@),
            decreases width - x,
        {
            let mut y: usize = 0;
            while y < height
                invariant
                    width * height <= usize::MAX,
                    x < width,
                    y <= height,
                    queue@ == all_cells(width as int, height as int).take(x * height + y),
                    forall|j: int| 0 <= j < queue@.len() ==> cell_before(#[trigger] queue@[j], Cell { x, y }),
                    sorted_cells(queue@),
                decreases height - y,
            {
                let ghost i = x * height + y;
                proof {
                    assert(i < width * height) by (nonlinear_arith)
                        requires
                            i == x * height + y,
                            x < width,
                            y < height,
                    ;
                    vstd::arithmetic::div_mod::lemma_fundamental_div_mod_converse(i, height as int, x as int, y as int);
                    assert(all_cells(width as int, height as int)[i] == Cell { x, y });
                    assert(all_cells(width as int, height as int).take(i + 1) =~= all_cells(
                        width as int,
                        height as int,
                    ).take(i).push(Cell { x, y }));
                }
                queue.push(Cell { x, y });
                y = y + 1;
            }
            proof {
                assert(x * height + height == (x + 1) * height) by (nonlinear_arith);
            }
            x = x + 1;
        }
        proof {
            assert(width * height == x * height);
            assert(all_cells(width as int, height as int).take(x * height) =~= all_cells(width as int, height as int));
            assert forall|c: Cell| #[trigger] board.board@.is_free(c) implies queue@.contains(c) by {
                lemma_all_cells_contains(width as int, height as int, c);
            }
            assert forall|c: Cell| board.board@.in_bounds(c) && #[trigger] board.board@.at(c) != EMPTY_CELL implies exists|
                q: Piece,
            | board.board@.pieces.contains(q) && #[trigger] spec_occupancy(q).contains(c) by {
                crate::grid::lemma_index_in_bounds(c.x as int, c.y as int, width as int, height as int);
            }
        }
        Approximation { board, queue, use_garbage: prioritize == PrioritizeColor::No }
    }

    /// Drops cells from the end of the queue until an empty one, which it returns.
    fn pop_free(&mut self) -> (r: Option<Cell>)
        requires
            old(self).wf(),
        ensures
            final(self).wf(),
            final(self).board == old(self).board,
            final(self).use_garbage == old(self).use_garbage,
            ({
                let q = old(self).queue@;
                let k = last_free(old(self).board.board@, q, q.len() as int);
                &&& k >= 0 ==> r == Some(q[k]) && final(self).queue@ == q.take(k)
                &&& k < 0 ==> r is None && final(self).queue@.len() == 0
            }),
    {
        let ghost q = self.queue@;
        let ghost v = self.board.board@;
        while self.queue.len() > 0
            invariant
                self.wf(),
                self.board == old(self).board,
                self.use_garbage == old(self).use_garbage,
                v == self.board.board@,
                q == old(self).queue@,
                self.queue@ == q.take(self.queue@.len() as int),
                self.queue@.len() <= q.len(),
                last_free(v, q, q.len() as int) == last_free(v, q, self.queue@.len() as int),
            decreases self.queue@.len(),
        {
            let ghost n = self.queue@.len();
            let cell = match self.queue.pop() {
                Some(c) => c,
                None => {
                    return None;
                },
            };
            assert(cell == q[n - 1]);
            assert(self.queue@ =~= q.take(n - 1));
            if self.board.empty_at(&cell) {
                return Some(cell);
            }
        }
        None
    }

    /// Fills the queue with the empty cells of the board, in increasing order.
    fn refill(&mut self)
        requires
            old(self).wf(),
        ensures
            final(self).wf(),
            final(self).board == old(self).board,
            final(self).use_garbage == old(self).use_garbage,
            final(self).queue@ == free_cells(old(self).board.board@),
    {
        let ghost v = self.board.board@;
        let width = self.board.board_width();
        let height = self.board.board_height();
        let n = self.board.board.cells.len();
        let mut queue: Vec<Cell> = Vec::new();
        let mut x: usize = 0;
        proof {
            assert(all_cells(width as int, height as int).take(0) =~= Seq::<Cell>::empty());
            reveal_with_fuel(Seq::filter, 1);
        }
        while x < width
            invariant
                self.wf(),
                v == self.board.board@,
                width == v.width,
                height == v.height,
                width * height <= usize::MAX,
                x <= width,
                queue@ == all_cells(width as int, height as int).take(x * height).filter(free_on(v)),
                forall|j: int| 0 <= j < queue@.len() ==> (#[trigger] queue@[j]).x < x,
                sorted_cells(queue@),
            decreases width - x,
        {
            let mut y: usize = 0;
            while y < height
                invariant
                    self.wf(),
                    v == self.board.board@,
                    width == v.width,
                    height == v.height,
                    width * height <= usize::MAX,
                    x < width,
                    y <= height,
                    queue@ == all_cells(width as int, height as int).take(x * height + y).filter(free_on(v)),
                    forall|j: int| 0 <= j < queue@.len() ==> cell_before(#[trigger] queue@[j], Cell { x, y }),
                    sorted_cells(queue@),
                decreases height - y,
            {
                let ghost i = x * height + y;
                let cell = Cell { x, y };
                proof {
                    assert(i < width * height) by (nonlinear_arith)
                        requires
                            i == x * height + y,
                            x < width,
                            y < height,
                    ;
                    vstd::arithmetic::div_mod::lemma_fundamental_div_mod_converse(i, height as int, x as int, y as int);
                    assert(all_cells(width as int, height as int)[i] == cell);
                    assert(all_cells(width as int, height as int).take(i + 1) =~= all_cells(
                        width as int,
                        height as int,
                    ).take(i).push(cell));
                    all_cells(width as int, height as int).take(i).lemma_filter_push(cell, free_on(v));
                }
                if self.board.empty_at(&cell) {
                    queue.push(cell);
                }
                y = y + 1;
            }
            proof {
                assert(x * height + height == (x + 1) * height) by (nonlinear_arith);
            }
            x = x + 1;
        }
        proof {
            assert(width * height == x * height);
            assert(all_cells(width as int, height as int).take(x * height) =~= all_cells(width as int, height as int));
        }
        self.queue = queue;
    }

    /// The next cell to fill: the last empty cell of the queue. When the queue has no empty
    /// cell left and garbage was held back, garbage is allowed and every empty cell of the
    /// board is queued again. `None` when the approximation is done.
    pub fn next_cell(&mut self) -> (r: Option<Cell>)
        requires
            old(self).wf(),
        ensures
            final(self).wf(),
            final(self).board == old(self).board,
            r matches Some(c) ==> old(self).board.board@.is_free(c) && forall|j: int|
                0 <= j < final(self).queue@.len() ==> cell_before(#[trigger] final(self).queue@[j], c),
            next_cell_outcome(*old(self), *final(self), r),
    {
        let ghost q = self.queue@;
        let ghost v = self.board.board@;
        proof {
            lemma_last_free(v, q, q.len() as int);
        }
        match self.pop_free() {
            Some(c) => {
                return Some(c);
            },
            None => {},
        }
        if self.use_garbage {
            return None;
        }
        self.refill();
        self.use_garbage = true;
        let ghost f = self.queue@;
        proof {
            lemma_free_cells_free(v);
            if f.len() > 0 {
                assert(v.is_free(f[f.len() - 1]));
            }
            lemma_last_free(v, f, f.len() as int);
        }
        let r = self.pop_free();
        proof {
            if f.len() > 0 {
                assert(f.take(f.len() - 1) =~= f.drop_last());
            }
        }
        r
    }

    /// The candidates for `cell`: skin by skin, the skin's garbage when garbage is allowed,
    /// then every tetromino that fits, orientation by orientation.
    pub fn candidates(&self, cell: Cell) -> (r: Vec<Candidate>)
        requires
            self.wf(),
            normal_pieces_fit(cell),
        ensures
            r@ == all_candidates(self.board.board@, self.board.skins@, cell, self.use_garbage, self.board.skins@.len() as int),
    {
        let ghost v = self.board.board@;
        let skins = self.board.skins;
        let mut r: Vec<Candidate> = Vec::new();
        let mut s: usize = 0;
        while s < skins.len()
            invariant
                self.wf(),
                v == self.board.board@,
                skins == self.board.skins,
                normal_pieces_fit(cell),
                s <= skins@.len(),
                r@ == all_candidates(v, skins@, cell, self.use_garbage, s as int),
            decreases skins@.len() - s,
        {
            let skin_id = skins[s].id;
            let ghost start = r@;
            let ghost normals = Seq::new(
                28,
                |i: int| Candidate { piece: normal_piece(cell, i), skin_index: s, skin_id },
            );
            if self.use_garbage {
                r.push(Candidate { piece: Piece::Gray(cell), skin_index: s, skin_id });
                r.push(Candidate { piece: Piece::Black(cell), skin_index: s, skin_id });
            }
            let ghost garbage = r@.skip(start.len() as int);
            proof {
                reveal_with_fuel(Seq::filter, 1);
                assert(normals.take(0).filter(fits_on(v)) =~= Seq::<Candidate>::empty());
                assert(r@ =~= start + garbage + normals.take(0).filter(fits_on(v)));
            }
            let orientations = Orientation::all();
            let mut o: usize = 0;
            while o < 4
                invariant
                    self.wf(),
                    v == self.board.board@,
                    normal_pieces_fit(cell),
                    o <= 4,
                    orientations@ == seq![Orientation::North, Orientation::East, Orientation::South, Orientation::West],
                    normals == Seq::new(
                        28,
                        |i: int| Candidate { piece: normal_piece(cell, i), skin_index: s, skin_id },
                    ),
                    r@ == start + garbage + normals.take(o * 7).filter(fits_on(v)),
                decreases 4 - o,
            {
                let pieces = Piece::all_normal(cell, orientations[o]);
                let mut k: usize = 0;
                while k < 7
                    invariant
                        self.wf(),
                        v == self.board.board@,
                        normal_pieces_fit(cell),
                        o < 4,
                        k <= 7,
                        orientations@ == seq![Orientation::North, Orientation::East, Orientation::South, Orientation::West],
                        pieces@ == seq![
                            Piece::I(cell, orientations@[o as int]),
                            Piece::O(cell, orientations@[o as int]),
                            Piece::T(cell, orientations@[o as int]),
                            Piece::L(cell, orientations@[o as int]),
                            Piece::J(cell, orientations@[o as int]),
                            Piece::S(cell, orientations@[o as int]),
                            Piece::Z(cell, orientations@[o as int]),
                        ],
                        normals == Seq::new(
                            28,
                            |i: int| Candidate { piece: normal_piece(cell, i), skin_index: s, skin_id },
                        ),
                        r@ == start + garbage + normals.take(o * 7 + k).filter(fits_on(v)),
                    decreases 7 - k,
                {
                    let piece = pieces[k];
                    let ghost i = o * 7 + k;
                    proof {
                        assert(i / 7 == o && i % 7 == k) by (nonlinear_arith)
                            requires
                                i == o * 7 + k,
                                k < 7,
                        ;
                        assert(normal_piece(cell, i) == piece);
                        assert(normals[i] == Candidate { piece, skin_index: s, skin_id });
                        assert(normals.take(i + 1) =~= normals.take(i).push(normals[i]));
                        normals.take(i).lemma_filter_push(normals[i], fits_on(v));
                        assert(!occupancy_overflows(normal_piece(cell, i)));
                    }
                    if self.board.board().can_place(&piece) {
                        r.push(Candidate { piece, skin_index: s, skin_id });
                    }
                    proof {
                        assert(r@ =~= start + garbage + normals.take(i + 1).filter(fits_on(v)));
                    }
                    k = k + 1;
                }
                o = o + 1;
            }
            proof {
                assert(normals.take(28) =~= normals);
                assert(r@ =~= all_candidates(v, skins@, cell, self.use_garbage, s + 1));
            }
            s = s + 1;
        }
        r
    }

    /// Fills the board cell by cell: for each cell `next_cell` gives, `score` keys every
    /// candidate and `place_best` places the one with the smallest key below `bound` (the
    /// first on a tie); a cell is left as it is when no key is below `bound`. Stops at the first error
    /// of `score`. Pieces are only added, and the board keeps holding exactly its listed
    /// pieces. When there is a skin and `score` always gives a key below `bound`, every
    /// cell of the board ends up filled; when it never does, the board is left as it was.
    /// On success, `fill_run` states the whole run, visit by visit.
    pub fn fill_board<E, F>(&mut self, score: &F, bound: u64) -> (r: Result<(), E>)
        where
            F: Fn(&SkinnedBoard<'a>, &Candidate) -> Result<u64, E>,
        requires
            old(self).wf(),
            old(self).pending_complete(),
            old(self).board.board@.width <= MAX_BOARD_SIDE,
            old(self).board.board@.height <= MAX_BOARD_SIDE,
            forall|b: &SkinnedBoard<'a>, c: &Candidate| #[trigger] score.requires((b, c)),
        ensures
            final(self).wf(),
            final(self).board.skins == old(self).board.skins,
            final(self).board.board@.width == old(self).board.board@.width,
            final(self).board.board@.height == old(self).board.board@.height,
            r is Ok ==> final(self).use_garbage && final(self).queue@.len() == 0,
            r is Ok ==> exists|states: Seq<Approximation<'a>>, visits: Seq<(Approximation<'a>, Cell, Seq<u64>)>|
                #[trigger] fill_run(*old(self), *final(self), *score, bound, states, visits),
            old(self).board.board@.pieces.is_prefix_of(final(self).board.board@.pieces),
            final(self).board.board@.consistent(),
            (forall|b: &SkinnedBoard<'a>, c: &Candidate, s: Result<u64, E>|
                #[trigger] score.ensures((b, c), s) ==> (s matches Ok(k) ==> k >= bound)) ==> final(self).board
                == old(self).board,
            old(self).board.skins@.len() > 0 && (forall|b: &SkinnedBoard<'a>, c: &Candidate, s: Result<u64, E>|
                #[trigger] score.ensures((b, c), s) ==> (s matches Ok(k) && k < bound)) ==> r is Ok && board_full(
                final(self).board.board@,
            ),
    {
        let ghost n = self.board.board@.cells.len();
        let ghost keeps = self.board.skins@.len() > 0 && (forall|b: &SkinnedBoard<'a>, c: &Candidate, s: Result<u64, E>|
            #[trigger] score.ensures((b, c), s) ==> (s matches Ok(k) && k < bound));
        let ghost skins = self.board.skins;
        let ghost width = self.board.board@.width;
        let ghost height = self.board.board@.height;
        let ghost mut states: Seq<Approximation<'a>> = seq![*self];
        let ghost mut visits: Seq<(Approximation<'a>, Cell, Seq<u64>)> = Seq::empty();
        loop
            invariant
                states.len() == visits.len() + 1,
                states[0] == *old(self),
                states.last() == *self,
                forall|k: int| 0 <= k < visits.len() ==> fill_step(
                    states[k],
                    (#[trigger] visits[k]).0,
                    visits[k].1,
                    visits[k].2,
                    states[k + 1],
                    *score,
                    bound,
                ),
                self.wf(),
                skins == old(self).board.skins,
                width == old(self).board.board@.width,
                height == old(self).board.board@.height,
                self.board.skins == skins,
                self.board.board@.width == width,
                self.board.board@.height == height,
                n == self.board.board@.cells.len(),
                width <= MAX_BOARD_SIDE,
                height <= MAX_BOARD_SIDE,
                forall|b: &SkinnedBoard<'a>, c: &Candidate| #[trigger] score.requires((b, c)),
                keeps == (skins@.len() > 0 && (forall|b: &SkinnedBoard<'a>, c: &Candidate, s: Result<u64, E>|
                    #[trigger] score.ensures((b, c), s) ==> (s matches Ok(k) && k < bound))),
                keeps ==> self.pending_complete(),
                old(self).board.board@.pieces.is_prefix_of(self.board.board@.pieces),
                (forall|b: &SkinnedBoard<'a>, c: &Candidate, s: Result<u64, E>|
                    #[trigger] score.ensures((b, c), s) ==> (s matches Ok(k) ==> k >= bound)) ==> self.board
                    == old(self).board,
            decreases self.queue@.len() + if self.use_garbage { 0 } else { n + 1 },
        {
            let ghost before = *self;
            let ghost v = self.board.board@;
            let next = self.next_cell();
            proof {
                lemma_next_cell_pending(before, *self, next);
            }
            let cell = match next {
                Some(c) => c,
                None => {
                    proof {
                        assert(fill_run(*old(self), *self, *score, bound, states, visits));
                    }
                    return Ok(());
                },
            };
            let ghost mid = *self;
            proof {
                lemma_small_cell_fits(cell);
                lemma_candidates_fit(v, skins@, cell, self.use_garbage, skins@.len() as int);
            }
            let candidates = self.candidates(cell);
            let mut keys: Vec<u64> = Vec::new();
            let mut i: usize = 0;
            while i < candidates.len()
                invariant
                    self.wf(),
                    skins == old(self).board.skins,
                    width == old(self).board.board@.width,
                    height == old(self).board.board@.height,
                    self.board.skins == skins,
                    self.board.board@.width == width,
                    self.board.board@.height == height,
                    self.board.board@ == v,
                    v.is_free(cell),
                    candidates@ == all_candidates(v, skins@, cell, self.use_garbage, skins@.len() as int),
                    forall|j: int| 0 <= j < candidates@.len() ==> #[trigger] anchored_fit(v, cell)(candidates@[j]),
                    i <= candidates@.len(),
                    keys@.len() == i,
                    forall|b: &SkinnedBoard<'a>, c: &Candidate| #[trigger] score.requires((b, c)),
                    keeps == (skins@.len() > 0 && (forall|b: &SkinnedBoard<'a>, c: &Candidate, s: Result<u64, E>|
                        #[trigger] score.ensures((b, c), s) ==> (s matches Ok(k) && k < bound))),
                    keeps ==> forall|j: int| 0 <= j < i ==> #[trigger] keys@[j] < bound,
                    self.board == mid.board,
                    forall|j: int| 0 <= j < i ==> score.ensures((&mid.board, &candidates@[j]), Ok::<u64, E>(#[trigger] keys@[j])),
                    old(self).board.board@.pieces.is_prefix_of(self.board.board@.pieces),
                    (forall|b: &SkinnedBoard<'a>, c: &Candidate, s: Result<u64, E>|
                        #[trigger] score.ensures((b, c), s) ==> (s matches Ok(k) ==> k >= bound)) ==> (self.board
                        == old(self).board && forall|j: int| 0 <= j < i ==> #[trigger] keys@[j] >= bound),
                decreases candidates@.len() - i,
            {
                let key = match score(&self.board, &candidates[i]) {
                    Ok(k) => k,
                    Err(e) => {
                        return Err(e);
                    },
                };
                keys.push(key);
                i = i + 1;
            }
            let ghost w = self.board.board@;
            let chosen = self.place_best(cell, &candidates, &keys, bound);
            proof {
                if exists|j: int| 0 <= j < keys@.len() && #[trigger] keys@[j] < bound {
                    let i = chosen->0 as int;
                    assert(first_min_below(keys@, bound, i));
                }
                assert(fill_step(before, mid, cell, keys@, *self, *score, bound));
                visits = visits.push((mid, cell, keys@));
                states = states.push(*self);
                if keeps && self.use_garbage {
                    if chosen is None {
                        lemma_candidates_nonempty(v, skins@, cell, skins@.len() as int);
                        assert(bound <= keys@[0]);
                    }
                    assert forall|d: Cell| #[trigger] self.board.board@.is_free(d) implies self.queue@.contains(d) by {
                        assert(w.is_free(d));
                    }
                }
            }
        }
    }

    /// Places the candidate for `cell` with the smallest key below `bound`, the first one on a
    /// tie, and returns its position; the board is left as it is, and `None` returned, when no
    /// key is below `bound`. `keys[i]` is the key of `candidates[i]`, the candidates of
    /// `cell`, which is empty.
    pub fn place_best(&mut self, cell: Cell, candidates: &Vec<Candidate>, keys: &Vec<u64>, bound: u64) -> (r: Option<
        usize,
    >)
        requires
            old(self).wf(),
            old(self).board.board@.is_free(cell),
            candidates@ == all_candidates(
                old(self).board.board@,
                old(self).board.skins@,
                cell,
                old(self).use_garbage,
                old(self).board.skins@.len() as int,
            ),
            keys@.len() == candidates@.len(),
        ensures
            final(self).wf(),
            final(self).queue == old(self).queue,
            final(self).use_garbage == old(self).use_garbage,
            final(self).board.skins == old(self).board.skins,
            r is None <==> forall|j: int| 0 <= j < keys@.len() ==> bound <= #[trigger] keys@[j],
            r is None ==> final(self).board == old(self).board,
            r matches Some(i) ==> first_min_below(keys@, bound, i as int) && place_outcome(
                old(self).board,
                final(self).board,
                candidates@[i as int].piece,
                candidates@[i as int].skin_id,
                Ok(()),
            ),
            r is Some ==> !final(self).board.board@.is_free(cell),
            forall|d: Cell| #[trigger] final(self).board.board@.is_free(d) ==> old(self).board.board@.is_free(d),
            old(self).board.board@.pieces.is_prefix_of(final(self).board.board@.pieces),
    {
        let ghost w = self.board.board@;
        proof {
            lemma_candidates_fit(w, self.board.skins@, cell, self.use_garbage, self.board.skins@.len() as int);
        }
        match best_candidate(keys, bound) {
            None => None,
            Some(b) => {
                let c = candidates[b];
                proof {
                    assert(candidates@[b as int] == c);
                    assert(anchored_fit(w, cell)(candidates@[b as int]));
                    lemma_anchor_covered(c.piece);
                    board::lemma_place_fills_cells(w, c.piece, cell);
                    lemma_place_keeps_filled(w, c.piece);
                    board::lemma_place_keeps_consistent(w, c.piece);
                }
                let placed = self.board.place(&c.piece, c.skin_id);
                proof {
                    assert(placed is Ok);
                }
                Some(b)
            },
        }
    }

    pub fn board(&self) -> (b: &SkinnedBoard<'a>)
        ensures
            *b == self.board,
    {
        &self.board
    }

    pub fn into_board(self) -> (b: SkinnedBoard<'a>)
        ensures
            b == self.board,
    {
        self.board
    }
}

/// Every in-bounds cell is among the cells of the board.
proof fn lemma_all_cells_contains(width: int, height: int, c: Cell)
    requires
        0 <= c.x < width,
        0 <= c.y < height,
    ensures
        all_cells(width, height).contains(c),
{
    let i = c.x * height + c.y;
    assert(i < width * height) by (nonlinear_arith)
        requires
            i == c.x * height + c.y,
            c.x < width,
            0 <= c.y < height,
    ;
    assert(0 <= i) by (nonlinear_arith)
        requires
            i == c.x * height + c.y,
            0 <= c.x,
            0 <= c.y,
            0 < height,
    ;
    vstd::arithmetic::div_mod::lemma_fundamental_div_mod_converse(i, height, c.x as int, c.y as int);
    assert(all_cells(width, height)[i] == c);
}

proof fn lemma_last_free_bound(v: BoardView<Piece>, q: Seq<Cell>, n: int)
    requires
        0 <= n <= q.len(),
    ensures
        forall|j: int| last_free(v, q, n) < j < n ==> !v.is_free(#[trigger] q[j]),
    decreases n,
{
    if n > 0 {
        lemma_last_free_bound(v, q, n - 1);
    }
}

/// What `next_cell` leaves: the empty cells other than the returned one stay queued once
/// garbage is allowed, `None` comes only when the board is full, and the work left shrinks.
proof fn lemma_next_cell_pending<'a>(before: Approximation<'a>, after: Approximation<'a>, r: Option<Cell>)
    requires
        before.wf(),
        after.board == before.board,
        next_cell_outcome(before, after, r),
    ensures
        r matches Some(c) ==> (before.pending_complete() && after.use_garbage ==> forall|d: Cell|
            #[trigger] after.board.board@.is_free(d) && d != c ==> after.queue@.contains(d)),
        r is None && before.pending_complete() ==> board_full(after.board.board@),
        r is Some ==> after.queue@.len() + (if after.use_garbage { 0 } else { before.board.board@.cells.len() + 1 })
            < before.queue@.len() + (if before.use_garbage { 0 } else { before.board.board@.cells.len() + 1 }),
{
    let q = before.queue@;
    let v = before.board.board@;
    let k = last_free(v, q, q.len() as int);
    let f = free_cells(v);
    lemma_last_free(v, q, q.len() as int);
    lemma_last_free_bound(v, q, q.len() as int);
    all_cells(v.width as int, v.height as int).lemma_filter_len(free_on(v));
    assert forall|d: Cell| #[trigger] v.is_free(d) implies f.contains(d) by {
        let s = all_cells(v.width as int, v.height as int);
        lemma_all_cells_contains(v.width as int, v.height as int, d);
        let i = choose|i: int| 0 <= i < s.len() && s[i] == d;
        s.lemma_filter_contains(free_on(v), i);
    }
    if k >= 0 {
        if before.pending_complete() && after.use_garbage {
            assert forall|d: Cell| #[trigger] after.board.board@.is_free(d) && d != q[k] implies after.queue@.contains(d) by {
                let j = choose|j: int| 0 <= j < q.len() && q[j] == d;
                assert(j < k);
                assert(after.queue@[j] == d);
            }
        }
    } else if !before.use_garbage {
        if f.len() > 0 {
            assert forall|d: Cell| #[trigger] after.board.board@.is_free(d) && d != f.last() implies after.queue@.contains(d) by {
                let j = choose|j: int| 0 <= j < f.len() && f[j] == d;
                assert(j < f.len() - 1);
                assert(after.queue@[j] == d);
            }
        }
    } else {
        if before.pending_complete() {
            assert forall|d: Cell| !#[trigger] v.is_free(d) by {
                if v.is_free(d) {
                    let j = choose|j: int| 0 <= j < q.len() && q[j] == d;
                }
            }
        }
    }
}

/// A tetromino covers the cell it is anchored at, and so does a garbage mino.
proof fn lemma_anchor_covered(p: Piece)
    ensures
        spec_occupancy(p).contains(piece::spec_cell(p)),
{
    let c = piece::spec_cell(p);
    if !piece::is_garbage(p) {
        let ds = piece::piece_dirs(p);
        let origin = piece::Dir { x: 0, y: 0 };
        let k: int = if ds[0] == origin {
            0
        } else if ds[1] == origin {
            1
        } else if ds[2] == origin {
            2
        } else {
            3
        };
        assert(ds[k] == origin);
        assert(spec_occupancy(p)[k] == c);
    } else {
        assert(spec_occupancy(p)[0] == c);
    }
}

/// Placing a piece empties no cell.
proof fn lemma_place_keeps_filled(v: BoardView<Piece>, p: Piece)
    requires
        v.wf(),
        v.can_place(p),
    ensures
        forall|d: Cell| #[trigger] v.placed(p).is_free(d) ==> v.is_free(d),
{
    assert forall|d: Cell| #[trigger] v.placed(p).is_free(d) implies v.is_free(d) by {
        board::lemma_place_fills_cells(v, p, d);
    }
}

proof fn lemma_walk_no_overflow(c: Cell, ds: Seq<piece::Dir>, i: int)
    requires
        c.x + 3 <= i32::MAX,
        c.y + 3 <= i32::MAX,
        forall|k: int| 0 <= k < ds.len() ==> (#[trigger] ds[k]).x <= 3 && ds[k].y <= 3,
    ensures
        piece::walk_outcome(c, ds, i) != 2,
    decreases ds.len() - i,
{
    if 0 <= i < ds.len() {
        lemma_walk_no_overflow(c, ds, i + 1);
    }
}

/// No offset of a tetromino is more than three cells to the right or up.
proof fn lemma_dirs_small(p: Piece)
    ensures
        forall|k: int| 0 <= k < piece::piece_dirs(p).len() ==> (#[trigger] piece::piece_dirs(p)[k]).x <= 3
            && piece::piece_dirs(p)[k].y <= 3,
{
    let ds = piece::piece_dirs(p);
    assert forall|k: int| 0 <= k < ds.len() implies (#[trigger] ds[k]).x <= 3 && ds[k].y <= 3 by {
        if k == 0 {
        } else if k == 1 {
        } else if k == 2 {
        } else {
        }
    }
}

/// The tetrominoes tried on a cell of a board no larger than `MAX_BOARD_SIDE` never overflow.
proof fn lemma_small_cell_fits(cell: Cell)
    requires
        cell.x < MAX_BOARD_SIDE,
        cell.y < MAX_BOARD_SIDE,
    ensures
        normal_pieces_fit(cell),
{
    assert forall|i: int| 0 <= i < 28 implies !occupancy_overflows(#[trigger] normal_piece(cell, i)) by {
        let p = normal_piece(cell, i);
        lemma_dirs_small(p);
        assert(piece::spec_cell(p) == cell);
        lemma_walk_no_overflow(cell, piece::piece_dirs(p), 0);
    }
}

proof fn lemma_filter_keeps_property<A>(s: Seq<A>, p: spec_fn(A) -> bool, q: spec_fn(A) -> bool)
    requires
        forall|j: int| 0 <= j < s.len() ==> q(#[trigger] s[j]),
    ensures
        forall|i: int| 0 <= i < s.filter(p).len() ==> q(#[trigger] s.filter(p)[i]),
    decreases s.len(),
{
    reveal_with_fuel(Seq::filter, 1);
    if s.len() > 0 {
        let t = s.drop_last();
        lemma_filter_keeps_property(t, p, q);
        t.lemma_filter_push(s.last(), p);
        assert(t.push(s.last()) =~= s);
        assert forall|i: int| 0 <= i < s.filter(p).len() implies q(#[trigger] s.filter(p)[i]) by {
            if i < t.filter(p).len() {
                assert(s.filter(p)[i] == t.filter(p)[i]);
            } else {
                assert(s.filter(p)[i] == s.last());
                assert(q(s[s.len() - 1]));
            }
        }
    }
}

/// A candidate fits on the board and is anchored at `cell`.
pub open spec fn anchored_fit(v: BoardView<Piece>, cell: Cell) -> spec_fn(Candidate) -> bool {
    |c: Candidate| v.can_place(c.piece) && piece::spec_cell(c.piece) == cell
}

/// Every candidate for an empty cell is anchored at it and fits.
proof fn lemma_candidates_fit(v: BoardView<Piece>, skins: Seq<draw::BlockSkin>, cell: Cell, use_garbage: bool, n: int)
    requires
        v.is_free(cell),
    ensures
        forall|i: int| 0 <= i < all_candidates(v, skins, cell, use_garbage, n).len() ==> #[trigger] anchored_fit(v, cell)(
            all_candidates(v, skins, cell, use_garbage, n)[i],
        ),
    decreases n,
{
    if n > 0 {
        lemma_candidates_fit(v, skins, cell, use_garbage, n - 1);
        let prev = all_candidates(v, skins, cell, use_garbage, n - 1);
        let sc = skin_candidates(v, cell, use_garbage, n - 1, skins[n - 1].id);
        let normals = Seq::new(
            28,
            |i: int| Candidate { piece: normal_piece(cell, i), skin_index: (n - 1) as usize, skin_id: skins[n - 1].id },
        );
        let garbage = if use_garbage {
            seq![
                Candidate { piece: Piece::Gray(cell), skin_index: (n - 1) as usize, skin_id: skins[n - 1].id },
                Candidate { piece: Piece::Black(cell), skin_index: (n - 1) as usize, skin_id: skins[n - 1].id },
            ]
        } else {
            Seq::empty()
        };
        assert(sc == garbage + normals.filter(fits_on(v)));
        let at_cell = |c: Candidate| piece::spec_cell(c.piece) == cell;
        lemma_filter_keeps_property(normals, fits_on(v), at_cell);
        let all = all_candidates(v, skins, cell, use_garbage, n);
        assert(all == prev + sc);
        assert forall|i: int| 0 <= i < all.len() implies #[trigger] anchored_fit(v, cell)(all[i]) by {
            if i < prev.len() {
                assert(all[i] == prev[i]);
            } else if i < prev.len() + garbage.len() {
                assert(all[i] == garbage[i - prev.len()]);
                assert(spec_occupancy(all[i].piece) == seq![cell]);
            } else {
                let j = i - prev.len() - garbage.len();
                assert(all[i] == normals.filter(fits_on(v))[j]);
                normals.lemma_filter_pred(fits_on(v), j);
                assert(at_cell(normals.filter(fits_on(v))[j]));
            }
        }
    }
}

/// With garbage allowed and at least one skin, a cell has candidates.
proof fn lemma_candidates_nonempty(v: BoardView<Piece>, skins: Seq<draw::BlockSkin>, cell: Cell, n: int)
    requires
        n >= 1,
    ensures
        all_candidates(v, skins, cell, true, n).len() >= 2,
{
    assert(skin_candidates(v, cell, true, n - 1, skins[n - 1].id).len() >= 2);
}

proof fn lemma_last_free(v: BoardView<Piece>, q: Seq<Cell>, n: int)
    requires
        0 <= n <= q.len(),
    ensures
        -1 <= last_free(v, q, n) < n,
        last_free(v, q, n) >= 0 ==> v.is_free(q[last_free(v, q, n)]),
        n > 0 && v.is_free(q[n - 1]) ==> last_free(v, q, n) == n - 1,
    decreases n,
{
    if n > 0 {
        lemma_last_free(v, q, n - 1);
    }
}

proof fn lemma_free_cells_free(v: BoardView<Piece>)
    ensures
        forall|j: int| 0 <= j < free_cells(v).len() ==> v.is_free(#[trigger] free_cells(v)[j]),
{
    let s = all_cells(v.width as int, v.height as int);
    assert forall|j: int| 0 <= j < free_cells(v).len() implies v.is_free(#[trigger] free_cells(v)[j]) by {
        s.lemma_filter_pred(free_on(v), j);
    }
}

/// The settings an integration run uses for a `image_width x image_height` image: those of
/// `config` with the board height `image_width * board_width / image_height`; `None` when the
/// board width does not fit in a `u32`.
pub fn scaled_config(config: &Config, image_width: u32, image_height: u32) -> (r: Option<Config>)
    requires
        image_height > 0,
        config.board_width <= u32::MAX ==> image_width * config.board_width <= u32::MAX,
    ensures
        r is None <==> config.board_width > u32::MAX,
        r matches Some(c) ==> c == (Config {
            board_height: ((image_width * config.board_width) / (image_height as int)) as usize,
            ..*config
        }),
{
    if config.board_width > 0xffff_ffff {
        return None;
    }
    let board_height = image_width * (config.board_width as u32) / image_height;
    Some(Config { board_height: board_height as usize, ..*config })
}

/// The place of the tetromino `p`, anchored at `cell`, in the order the candidates try them.
proof fn lemma_normal_piece_index(cell: Cell, p: Piece) -> (i: int)
    requires
        !piece::is_garbage(p),
        piece::spec_cell(p) == cell,
    ensures
        0 <= i < 28,
        normal_piece(cell, i) == p,
{
    match p {
        Piece::I(_, o) => match o {
            Orientation::North => {
                assert(normal_piece(cell, 0) == p);
                0
            },
            Orientation::East => {
                assert(normal_piece(cell, 7) == p);
                7
            },
            Orientation::South => {
                assert(normal_piece(cell, 14) == p);
                14
            },
            Orientation::West => {
                assert(normal_piece(cell, 21) == p);
                21
            },
        },
        Piece::O(_, o) => match o {
            Orientation::North => {
                assert(normal_piece(cell, 1) == p);
                1
            },
            Orientation::East => {
                assert(normal_piece(cell, 8) == p);
                8
            },
            Orientation::South => {
                assert(normal_piece(cell, 15) == p);
                15
            },
            Orientation::West => {
                assert(normal_piece(cell, 22) == p);
                22
            },
        },
        Piece::T(_, o) => match o {
            Orientation::North => {
                assert(normal_piece(cell, 2) == p);
                2
            },
            Orientation::East => {
                assert(normal_piece(cell, 9) == p);
                9
            },
            Orientation::South => {
                assert(normal_piece(cell, 16) == p);
                16
            },
            Orientation::West => {
                assert(normal_piece(cell, 23) == p);
                23
            },
        },
        Piece::L(_, o) => match o {
            Orientation::North => {
                assert(normal_piece(cell, 3) == p);
                3
            },
            Orientation::East => {
                assert(normal_piece(cell, 10) == p);
                10
            },
            Orientation::South => {
                assert(normal_piece(cell, 17) == p);
                17
            },
            Orientation::West => {
                assert(normal_piece(cell, 24) == p);
                24
            },
        },
        Piece::J(_, o) => match o {
            Orientation::North => {
                assert(normal_piece(cell, 4) == p);
                4
            },
            Orientation::East => {
                assert(normal_piece(cell, 11) == p);
                11
            },
            Orientation::South => {
                assert(normal_piece(cell, 18) == p);
                18
            },
            Orientation::West => {
                assert(normal_piece(cell, 25) == p);
                25
            },
        },
        Piece::S(_, o) => match o {
            Orientation::North => {
                assert(normal_piece(cell, 5) == p);
                5
            },
            Orientation::East => {
                assert(normal_piece(cell, 12) == p);
                12
            },
            Orientation::South => {
                assert(normal_piece(cell, 19) == p);
                19
            },
            Orientation::West => {
                assert(normal_piece(cell, 26) == p);
                26
            },
        },
        Piece::Z(_, o) => match o {
            Orientation::North => {
                assert(normal_piece(cell, 6) == p);
                6
            },
            Orientation::East => {
                assert(normal_piece(cell, 13) == p);
                13
            },
            Orientation::South => {
                assert(normal_piece(cell, 20) == p);
                20
            },
            Orientation::West => {
                assert(normal_piece(cell, 27) == p);
                27
            },
        },
        _ => 0,
    }
}

proof fn lemma_skin_candidates_complete(
    v: BoardView<Piece>,
    cell: Cell,
    use_garbage: bool,
    s: int,
    id: usize,
    p: Piece,
)
    requires
        0 <= s,
        piece::spec_cell(p) == cell,
        piece::is_garbage(p) ==> use_garbage,
        !piece::is_garbage(p) ==> v.can_place(p),
    ensures
        skin_candidates(v, cell, use_garbage, s, id).contains(Candidate { piece: p, skin_index: s as usize, skin_id: id }),
{
    let x = Candidate { piece: p, skin_index: s as usize, skin_id: id };
    let all = skin_candidates(v, cell, use_garbage, s, id);
    let normals = Seq::new(
        28,
        |i: int| Candidate { piece: normal_piece(cell, i), skin_index: s as usize, skin_id: id },
    );
    let garbage = if use_garbage {
        seq![
            Candidate { piece: Piece::Gray(cell), skin_index: s as usize, skin_id: id },
            Candidate { piece: Piece::Black(cell), skin_index: s as usize, skin_id: id },
        ]
    } else {
        Seq::empty()
    };
    assert(all == garbage + normals.filter(fits_on(v)));
    if piece::is_garbage(p) {
        if p is Gray {
            assert(all[0] == x);
        } else {
            assert(all[1] == x);
        }
    } else {
        let i = lemma_normal_piece_index(cell, p);
        assert(normals[i] == x);
        normals.lemma_filter_contains(fits_on(v), i);
        let j = choose|j: int| 0 <= j < normals.filter(fits_on(v)).len() && normals.filter(fits_on(v))[j] == x;
        assert(all[garbage.len() + j] == x);
    }
}

/// Every tetromino anchored at `cell` that can be placed, of each of the seven kinds and in
/// each of the four orientations, is a candidate with each skin, and so is each kind of
/// garbage when garbage is in use.
pub proof fn lemma_candidates_hold_every_fitting_piece(
    v: BoardView<Piece>,
    skins: Seq<draw::BlockSkin>,
    cell: Cell,
    use_garbage: bool,
    n: int,
    p: Piece,
    s: int,
)
    requires
        0 <= s < n,
        piece::spec_cell(p) == cell,
        piece::is_garbage(p) ==> use_garbage,
        !piece::is_garbage(p) ==> v.can_place(p),
    ensures
        all_candidates(v, skins, cell, use_garbage, n).contains(
            Candidate { piece: p, skin_index: s as usize, skin_id: skins[s].id },
        ),
    decreases n,
{
    let x = Candidate { piece: p, skin_index: s as usize, skin_id: skins[s].id };
    let before = all_candidates(v, skins, cell, use_garbage, n - 1);
    let last = skin_candidates(v, cell, use_garbage, n - 1, skins[n - 1].id);
    assert(all_candidates(v, skins, cell, use_garbage, n) == before + last);
    if s == n - 1 {
        lemma_skin_candidates_complete(v, cell, use_garbage, s, skins[s].id, p);
        let j = choose|j: int| 0 <= j < last.len() && last[j] == x;
        assert((before + last)[before.len() + j] == x);
    } else {
        lemma_candidates_hold_every_fitting_piece(v, skins, cell, use_garbage, n - 1, p, s);
        let j = choose|j: int| 0 <= j < before.len() && before[j] == x;
        assert((before + last)[j] == x);
    }
}

} // verus!
