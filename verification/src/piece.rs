use vstd::prelude::*;
pub use crate::approx_image::piece::{Cell, Dir};
use crate::approx_image::piece::shifted;

verus! {

#[derive(Clone, Copy, Debug, PartialEq, Eq, Structural)]
pub enum Orientation {
    NORTH,
    EAST,
    SOUTH,
    WEST,
}

/// A tetromino anchored at a cell.
#[derive(Clone, Copy, Debug, PartialEq, Eq, Structural)]
pub enum Piece {
    I(Cell, Orientation),
    O(Cell, Orientation),
    T(Cell, Orientation),
    L(Cell, Orientation),
    J(Cell, Orientation),
    S(Cell, Orientation),
    Z(Cell, Orientation),
}

/// A mino of a piece would lie at these negative coordinates.
#[derive(Clone, Copy, Debug, PartialEq, Eq, Structural)]
pub struct NegativeCell {
    pub x: i32,
    pub y: i32,
}

pub open spec fn spec_orientation(p: Piece) -> Orientation {
    match p {
        Piece::I(_, o) => o,
        Piece::O(_, o) => o,
        Piece::T(_, o) => o,
        Piece::L(_, o) => o,
        Piece::J(_, o) => o,
        Piece::S(_, o) => o,
        Piece::Z(_, o) => o,
    }
}

pub open spec fn spec_cell(p: Piece) -> Cell {
    match p {
        Piece::I(c, _) => c,
        Piece::O(c, _) => c,
        Piece::T(c, _) => c,
        Piece::L(c, _) => c,
        Piece::J(c, _) => c,
        Piece::S(c, _) => c,
        Piece::Z(c, _) => c,
    }
}

pub open spec fn spec_char(p: Piece) -> char {
    match p {
        Piece::I(_, _) => 'I',
        Piece::O(_, _) => 'O',
        Piece::T(_, _) => 'T',
        Piece::L(_, _) => 'L',
        Piece::J(_, _) => 'J',
        Piece::S(_, _) => 'S',
        Piece::Z(_, _) => 'Z',
    }
}

/// The offsets of the four minos of a piece, in the order they are visited.
pub open spec fn piece_dirs(p: Piece) -> Seq<Dir> {
    match p {
        Piece::I(_, Orientation::NORTH) => seq![Dir { x: -1i32, y: 0i32 }, Dir { x: 0i32, y: 0i32 }, Dir { x: 1i32, y: 0i32 }, Dir { x: 2i32, y: 0i32 }],
        Piece::I(_, Orientation::EAST) => seq![Dir { x: 0i32, y: 1i32 }, Dir { x: 0i32, y: 0i32 }, Dir { x: 0i32, y: -1i32 }, Dir { x: 0i32, y: -2i32 }],
        Piece::I(_, Orientation::SOUTH) => seq![Dir { x: 1i32, y: 0i32 }, Dir { x: 0i32, y: 0i32 }, Dir { x: -1i32, y: 0i32 }, Dir { x: -2i32, y: 0i32 }],
        Piece::I(_, Orientation::WEST) => seq![Dir { x: 0i32, y: -1i32 }, Dir { x: 0i32, y: 0i32 }, Dir { x: 0i32, y: 1i32 }, Dir { x: 0i32, y: 2i32 }],
        Piece::O(_, Orientation::NORTH) => seq![Dir { x: 0i32, y: 0i32 }, Dir { x: 1i32, y: 0i32 }, Dir { x: 0i32, y: 1i32 }, Dir { x: 1i32, y: 1i32 }],
        Piece::O(_, Orientation::EAST) => seq![Dir { x: 0i32, y: 0i32 }, Dir { x: 0i32, y: 1i32 }, Dir { x: 1i32, y: 0i32 }, Dir { x: 1i32, y: 1i32 }],
        Piece::O(_, Orientation::SOUTH) => seq![Dir { x: 0i32, y: 0i32 }, Dir { x: 1i32, y: 0i32 }, Dir { x: 0i32, y: 1i32 }, Dir { x: 1i32, y: 1i32 }],
        Piece::O(_, Orientation::WEST) => seq![Dir { x: 0i32, y: 0i32 }, Dir { x: 0i32, y: 1i32 }, Dir { x: 1i32, y: 0i32 }, Dir { x: 1i32, y: 1i32 }],
        Piece::T(_, Orientation::NORTH) => seq![Dir { x: 0i32, y: 1i32 }, Dir { x: -1i32, y: 0i32 }, Dir { x: 0i32, y: 0i32 }, Dir { x: 1i32, y: 0i32 }],
        Piece::T(_, Orientation::EAST) => seq![Dir { x: 1i32, y: 0i32 }, Dir { x: 0i32, y: 1i32 }, Dir { x: 0i32, y: 0i32 }, Dir { x: 0i32, y: -1i32 }],
        Piece::T(_, Orientation::SOUTH) => seq![Dir { x: 0i32, y: -1i32 }, Dir { x: 1i32, y: 0i32 }, Dir { x: 0i32, y: 0i32 }, Dir { x: -1i32, y: 0i32 }],
        Piece::T(_, Orientation::WEST) => seq![Dir { x: -1i32, y: 0i32 }, Dir { x: 0i32, y: -1i32 }, Dir { x: 0i32, y: 0i32 }, Dir { x: 0i32, y: 1i32 }],
        Piece::L(_, Orientation::NORTH) => seq![Dir { x: -1i32, y: 0i32 }, Dir { x: 0i32, y: 0i32 }, Dir { x: 1i32, y: 0i32 }, Dir { x: -1i32, y: 1i32 }],
        Piece::L(_, Orientation::EAST) => seq![Dir { x: -1i32, y: -1i32 }, Dir { x: 0i32, y: 1i32 }, Dir { x: 0i32, y: 0i32 }, Dir { x: 0i32, y: -1i32 }],
        Piece::L(_, Orientation::SOUTH) => seq![Dir { x: 1i32, y: 0i32 }, Dir { x: 0i32, y: 0i32 }, Dir { x: -1i32, y: 0i32 }, Dir { x: 1i32, y: -1i32 }],
        Piece::L(_, Orientation::WEST) => seq![Dir { x: 1i32, y: 1i32 }, Dir { x: 0i32, y: -1i32 }, Dir { x: 0i32, y: 0i32 }, Dir { x: 0i32, y: 1i32 }],
        Piece::J(_, Orientation::NORTH) => seq![Dir { x: -1i32, y: 0i32 }, Dir { x: 0i32, y: 0i32 }, Dir { x: 1i32, y: 0i32 }, Dir { x: 1i32, y: 1i32 }],
        Piece::J(_, Orientation::EAST) => seq![Dir { x: 1i32, y: -1i32 }, Dir { x: 0i32, y: 1i32 }, Dir { x: 0i32, y: 0i32 }, Dir { x: 0i32, y: -1i32 }],
        Piece::J(_, Orientation::SOUTH) => seq![Dir { x: 1i32, y: 0i32 }, Dir { x: 0i32, y: 0i32 }, Dir { x: -1i32, y: 0i32 }, Dir { x: -1i32, y: -1i32 }],
        Piece::J(_, Orientation::WEST) => seq![Dir { x: -1i32, y: 1i32 }, Dir { x: 0i32, y: -1i32 }, Dir { x: 0i32, y: 0i32 }, Dir { x: 0i32, y: 1i32 }],
        Piece::S(_, Orientation::NORTH) => seq![Dir { x: -1i32, y: 0i32 }, Dir { x: 0i32, y: 0i32 }, Dir { x: 0i32, y: 1i32 }, Dir { x: 1i32, y: 1i32 }],
        Piece::S(_, Orientation::EAST) => seq![Dir { x: 0i32, y: 1i32 }, Dir { x: 0i32, y: 0i32 }, Dir { x: 1i32, y: 0i32 }, Dir { x: 1i32, y: -1i32 }],
        Piece::S(_, Orientation::SOUTH) => seq![Dir { x: 1i32, y: 0i32 }, Dir { x: 0i32, y: 0i32 }, Dir { x: 0i32, y: -1i32 }, Dir { x: -1i32, y: -1i32 }],
        Piece::S(_, Orientation::WEST) => seq![Dir { x: 0i32, y: -1i32 }, Dir { x: 0i32, y: 0i32 }, Dir { x: -1i32, y: 0i32 }, Dir { x: -1i32, y: 1i32 }],
        Piece::Z(_, Orientation::NORTH) => seq![Dir { x: 1i32, y: 0i32 }, Dir { x: 0i32, y: 0i32 }, Dir { x: 0i32, y: 1i32 }, Dir { x: -1i32, y: 1i32 }],
        Piece::Z(_, Orientation::EAST) => seq![Dir { x: 0i32, y: -1i32 }, Dir { x: 0i32, y: 0i32 }, Dir { x: 1i32, y: 0i32 }, Dir { x: 1i32, y: 1i32 }],
        Piece::Z(_, Orientation::SOUTH) => seq![Dir { x: -1i32, y: 0i32 }, Dir { x: 0i32, y: 0i32 }, Dir { x: 0i32, y: -1i32 }, Dir { x: 1i32, y: -1i32 }],
        Piece::Z(_, Orientation::WEST) => seq![Dir { x: 0i32, y: 1i32 }, Dir { x: 0i32, y: 0i32 }, Dir { x: -1i32, y: 0i32 }, Dir { x: -1i32, y: -1i32 }],
    }
}

/// A coordinate as the piece computes it: the low 32 bits of the `usize`, read as an `i32`.
pub open spec fn wrapped(v: usize) -> int {
    (v as i32) as int
}

pub open spec fn in_i32(v: int) -> bool {
    -0x8000_0000 <= v <= 0x7fff_ffff
}

/// What visiting one offset yields: 0 a cell, 2 an arithmetic overflow (a panic),
/// 3 a negative coordinate.
pub open spec fn step_outcome(c: Cell, d: Dir) -> int {
    if !in_i32(wrapped(c.x) + d.x) || !in_i32(wrapped(c.y) + d.y) {
        2
    } else if wrapped(c.x) + d.x < 0 || wrapped(c.y) + d.y < 0 {
        3
    } else {
        0
    }
}

/// The first offset of `ds[i..]` whose outcome is not a cell, or `ds.len()`.
pub open spec fn first_failure(c: Cell, ds: Seq<Dir>, i: int) -> int
    decreases ds.len() - i,
{
    if i < 0 || i >= ds.len() {
        ds.len() as int
    } else if step_outcome(c, ds[i]) != 0 {
        i
    } else {
        first_failure(c, ds, i + 1)
    }
}

pub open spec fn offset_cell(c: Cell, d: Dir) -> Cell {
    Cell { x: (wrapped(c.x) + d.x) as usize, y: (wrapped(c.y) + d.y) as usize }
}

/// Computing the occupancy of `p` overflows `i32` arithmetic.
pub open spec fn occupancy_overflows(p: Piece) -> bool {
    let ds = piece_dirs(p);
    let k = first_failure(spec_cell(p), ds, 0);
    k < ds.len() && step_outcome(spec_cell(p), ds[k]) == 2
}

pub open spec fn occupancy_ok(p: Piece) -> bool {
    first_failure(spec_cell(p), piece_dirs(p), 0) == piece_dirs(p).len()
}

pub open spec fn spec_occupancy(p: Piece) -> Seq<Cell> {
    piece_dirs(p).map_values(|d: Dir| offset_cell(spec_cell(p), d))
}

/// `r` is what `get_occupancy` returns for `p`: the cells, or the first negative coordinates.
pub open spec fn occupancy_result(p: Piece, r: Result<[Cell; 4], NegativeCell>) -> bool {
    let ds = piece_dirs(p);
    let k = first_failure(spec_cell(p), ds, 0);
    &&& occupancy_ok(p) ==> (r matches Ok(a) && a@ == spec_occupancy(p))
    &&& !occupancy_ok(p) ==> (r matches Err(e) && e.x == wrapped(spec_cell(p).x) + ds[k].x && e.y
        == wrapped(spec_cell(p).y) + ds[k].y)
}

proof fn lemma_first_failure(c: Cell, ds: Seq<Dir>, i: int)
    requires
        0 <= i <= ds.len(),
        forall|j: int| 0 <= j < i ==> step_outcome(c, #[trigger] ds[j]) == 0,
    ensures
        first_failure(c, ds, 0) == first_failure(c, ds, i),
    decreases i,
{
    if i > 0 {
        lemma_first_failure(c, ds, i - 1);
    }
}

pub proof fn lemma_first_failure_range(c: Cell, ds: Seq<Dir>, i: int)
    requires
        0 <= i <= ds.len(),
    ensures
        i <= first_failure(c, ds, i) <= ds.len(),
        first_failure(c, ds, i) < ds.len() ==> step_outcome(c, ds[first_failure(c, ds, i)]) != 0,
    decreases ds.len() - i,
{
    if i < ds.len() && step_outcome(c, ds[i]) == 0 {
        lemma_first_failure_range(c, ds, i + 1);
    }
}

impl Piece {
    pub fn get_orientation(&self) -> (o: Orientation)
        ensures
            o == spec_orientation(*self),
    {
        match self {
            Piece::I(_, o) => *o,
            Piece::O(_, o) => *o,
            Piece::T(_, o) => *o,
            Piece::L(_, o) => *o,
            Piece::J(_, o) => *o,
            Piece::S(_, o) => *o,
            Piece::Z(_, o) => *o,
        }
    }

    pub fn get_cell(&self) -> (c: Cell)
        ensures
            c == spec_cell(*self),
    {
        match self {
            Piece::I(c, _) => *c,
            Piece::O(c, _) => *c,
            Piece::T(c, _) => *c,
            Piece::L(c, _) => *c,
            Piece::J(c, _) => *c,
            Piece::S(c, _) => *c,
            Piece::Z(c, _) => *c,
        }
    }

    pub fn get_char(&self) -> (c: char)
        ensures
            c == spec_char(*self),
    {
        match self {
            Piece::I(_, _) => 'I',
            Piece::O(_, _) => 'O',
            Piece::T(_, _) => 'T',
            Piece::L(_, _) => 'L',
            Piece::J(_, _) => 'J',
            Piece::S(_, _) => 'S',
            Piece::Z(_, _) => 'Z',
        }
    }

    /// The offsets of the piece's shape in its orientation.
    pub fn shape(&self) -> (ds: [Dir; 4])
        ensures
            ds@ == piece_dirs(*self),
    {
        match self {
            Piece::I(_, Orientation::NORTH) => [Dir { x: -1, y: 0 }, Dir { x: 0, y: 0 }, Dir { x: 1, y: 0 }, Dir { x: 2, y: 0 }],
            Piece::I(_, Orientation::EAST) => [Dir { x: 0, y: 1 }, Dir { x: 0, y: 0 }, Dir { x: 0, y: -1 }, Dir { x: 0, y: -2 }],
            Piece::I(_, Orientation::SOUTH) => [Dir { x: 1, y: 0 }, Dir { x: 0, y: 0 }, Dir { x: -1, y: 0 }, Dir { x: -2, y: 0 }],
            Piece::I(_, Orientation::WEST) => [Dir { x: 0, y: -1 }, Dir { x: 0, y: 0 }, Dir { x: 0, y: 1 }, Dir { x: 0, y: 2 }],
            Piece::O(_, Orientation::NORTH) => [Dir { x: 0, y: 0 }, Dir { x: 1, y: 0 }, Dir { x: 0, y: 1 }, Dir { x: 1, y: 1 }],
            Piece::O(_, Orientation::EAST) => [Dir { x: 0, y: 0 }, Dir { x: 0, y: 1 }, Dir { x: 1, y: 0 }, Dir { x: 1, y: 1 }],
            Piece::O(_, Orientation::SOUTH) => [Dir { x: 0, y: 0 }, Dir { x: 1, y: 0 }, Dir { x: 0, y: 1 }, Dir { x: 1, y: 1 }],
            Piece::O(_, Orientation::WEST) => [Dir { x: 0, y: 0 }, Dir { x: 0, y: 1 }, Dir { x: 1, y: 0 }, Dir { x: 1, y: 1 }],
            Piece::T(_, Orientation::NORTH) => [Dir { x: 0, y: 1 }, Dir { x: -1, y: 0 }, Dir { x: 0, y: 0 }, Dir { x: 1, y: 0 }],
            Piece::T(_, Orientation::EAST) => [Dir { x: 1, y: 0 }, Dir { x: 0, y: 1 }, Dir { x: 0, y: 0 }, Dir { x: 0, y: -1 }],
            Piece::T(_, Orientation::SOUTH) => [Dir { x: 0, y: -1 }, Dir { x: 1, y: 0 }, Dir { x: 0, y: 0 }, Dir { x: -1, y: 0 }],
            Piece::T(_, Orientation::WEST) => [Dir { x: -1, y: 0 }, Dir { x: 0, y: -1 }, Dir { x: 0, y: 0 }, Dir { x: 0, y: 1 }],
            Piece::L(_, Orientation::NORTH) => [Dir { x: -1, y: 0 }, Dir { x: 0, y: 0 }, Dir { x: 1, y: 0 }, Dir { x: -1, y: 1 }],
            Piece::L(_, Orientation::EAST) => [Dir { x: -1, y: -1 }, Dir { x: 0, y: 1 }, Dir { x: 0, y: 0 }, Dir { x: 0, y: -1 }],
            Piece::L(_, Orientation::SOUTH) => [Dir { x: 1, y: 0 }, Dir { x: 0, y: 0 }, Dir { x: -1, y: 0 }, Dir { x: 1, y: -1 }],
            Piece::L(_, Orientation::WEST) => [Dir { x: 1, y: 1 }, Dir { x: 0, y: -1 }, Dir { x: 0, y: 0 }, Dir { x: 0, y: 1 }],
            Piece::J(_, Orientation::NORTH) => [Dir { x: -1, y: 0 }, Dir { x: 0, y: 0 }, Dir { x: 1, y: 0 }, Dir { x: 1, y: 1 }],
            Piece::J(_, Orientation::EAST) => [Dir { x: 1, y: -1 }, Dir { x: 0, y: 1 }, Dir { x: 0, y: 0 }, Dir { x: 0, y: -1 }],
            Piece::J(_, Orientation::SOUTH) => [Dir { x: 1, y: 0 }, Dir { x: 0, y: 0 }, Dir { x: -1, y: 0 }, Dir { x: -1, y: -1 }],
            Piece::J(_, Orientation::WEST) => [Dir { x: -1, y: 1 }, Dir { x: 0, y: -1 }, Dir { x: 0, y: 0 }, Dir { x: 0, y: 1 }],
            Piece::S(_, Orientation::NORTH) => [Dir { x: -1, y: 0 }, Dir { x: 0, y: 0 }, Dir { x: 0, y: 1 }, Dir { x: 1, y: 1 }],
            Piece::S(_, Orientation::EAST) => [Dir { x: 0, y: 1 }, Dir { x: 0, y: 0 }, Dir { x: 1, y: 0 }, Dir { x: 1, y: -1 }],
            Piece::S(_, Orientation::SOUTH) => [Dir { x: 1, y: 0 }, Dir { x: 0, y: 0 }, Dir { x: 0, y: -1 }, Dir { x: -1, y: -1 }],
            Piece::S(_, Orientation::WEST) => [Dir { x: 0, y: -1 }, Dir { x: 0, y: 0 }, Dir { x: -1, y: 0 }, Dir { x: -1, y: 1 }],
            Piece::Z(_, Orientation::NORTH) => [Dir { x: 1, y: 0 }, Dir { x: 0, y: 0 }, Dir { x: 0, y: 1 }, Dir { x: -1, y: 1 }],
            Piece::Z(_, Orientation::EAST) => [Dir { x: 0, y: -1 }, Dir { x: 0, y: 0 }, Dir { x: 1, y: 0 }, Dir { x: 1, y: 1 }],
            Piece::Z(_, Orientation::SOUTH) => [Dir { x: -1, y: 0 }, Dir { x: 0, y: 0 }, Dir { x: 0, y: -1 }, Dir { x: 1, y: -1 }],
            Piece::Z(_, Orientation::WEST) => [Dir { x: 0, y: 1 }, Dir { x: 0, y: 0 }, Dir { x: -1, y: 0 }, Dir { x: -1, y: -1 }],
        }
    }

    /// The four cells the piece covers; fails at the first mino with a negative coordinate.
    pub fn get_occupancy(&self) -> (r: Result<[Cell; 4], NegativeCell>)
        requires
            !occupancy_overflows(*self),
        ensures
            occupancy_result(*self, r),
    {
        let dirs = self.shape();
        let cell = self.get_cell();
        let ghost ds = piece_dirs(*self);
        let mut occupancy: [Cell; 4] = [Cell { x: 0, y: 0 }; 4];
        let mut i: usize = 0;
        proof {
            lemma_first_failure_range(cell, ds, 0);
        }
        while i < 4
            invariant
                0 <= i <= 4,
                ds.len() == 4,
                dirs@ == ds,
                cell == spec_cell(*self),
                ds == piece_dirs(*self),
                !occupancy_overflows(*self),
                0 <= first_failure(cell, ds, 0) <= 4,
                first_failure(cell, ds, 0) < 4 ==> step_outcome(cell, ds[first_failure(cell, ds, 0)]) != 0,
                forall|j: int| 0 <= j < i ==> step_outcome(cell, #[trigger] ds[j]) == 0,
                forall|j: int| 0 <= j < i ==> occupancy@[j] == offset_cell(cell, #[trigger] ds[j]),
            decreases 4 - i,
        {
            let d = dirs[i];
            proof {
                lemma_first_failure(cell, ds, i as int);
                lemma_first_failure_range(cell, ds, i as int);
            }
            let x: i32 = cell.x as i32 + d.x;
            let y: i32 = cell.y as i32 + d.y;
            if x < 0 || y < 0 {
                return Err(NegativeCell { x, y });
            }
            occupancy[i] = Cell { x: x as usize, y: y as usize };
            i = i + 1;
        }
        proof {
            lemma_first_failure(cell, ds, 4);
            assert(occupancy@ =~= spec_occupancy(*self));
        }
        Ok(occupancy)
    }
}


/// Position (`row`, `col`) of the 5x5 drawing holds a mino of `piece`.
pub open spec fn marked(piece: Seq<Dir>, row: int, col: int) -> bool {
    exists|k: int| 0 <= k < piece.len() && #[trigger] piece[k].y + 2 == row && piece[k].x + 2 == col
}

/// Draws a shape on a 5x5 grid centred on its anchor: 'X' where a mino lies, ' ' elsewhere.
pub fn piece_canvas(piece: &[Dir; 4]) -> (canvas: Vec<Vec<char>>)
    requires
        forall|k: int| 0 <= k < 4 ==> -2 <= #[trigger] piece@[k].x <= 2 && -2 <= piece@[k].y <= 2,
    ensures
        canvas@.len() == 5,
        forall|r: int| 0 <= r < 5 ==> (#[trigger] canvas@[r])@.len() == 5,
        forall|r: int, c: int| 0 <= r < 5 && 0 <= c < 5 ==> (#[trigger] canvas@[r]@[c]) == if marked(piece@, r, c) { 'X' } else { ' ' },
{
    let mut canvas: Vec<Vec<char>> = Vec::new();
    let mut r: usize = 0;
    while r < 5
        invariant
            r <= 5,
            forall|m: int| 0 <= m < 4 ==> -2 <= #[trigger] piece@[m].x <= 2 && -2 <= piece@[m].y <= 2,
            canvas@.len() == r,
            forall|i: int| 0 <= i < r ==> (#[trigger] canvas@[i])@.len() == 5,
            forall|i: int, c: int| 0 <= i < r && 0 <= c < 5 ==> (#[trigger] canvas@[i]@[c]) == if marked(piece@, i, c) { 'X' } else { ' ' },
        decreases 5 - r,
    {
        let mut row: Vec<char> = Vec::new();
        let mut c: usize = 0;
        while c < 5
            invariant
                r < 5,
                c <= 5,
                forall|m: int| 0 <= m < 4 ==> -2 <= #[trigger] piece@[m].x <= 2 && -2 <= piece@[m].y <= 2,
                row@.len() == c,
                forall|j: int| 0 <= j < c ==> (#[trigger] row@[j]) == if marked(piece@, r as int, j) { 'X' } else { ' ' },
            decreases 5 - c,
        {
            let mut hit = false;
            let mut k: usize = 0;
            while k < 4
                invariant
                    k <= 4,
                    r < 5,
                    c < 5,
                    forall|m: int| 0 <= m < 4 ==> -2 <= #[trigger] piece@[m].x <= 2 && -2 <= piece@[m].y <= 2,
                    hit == exists|m: int| 0 <= m < k && #[trigger] piece@[m].y + 2 == r && piece@[m].x + 2 == c,
                decreases 4 - k,
            {
                let p = &piece[k];
                assert(piece@[k as int] == *p);
                if p.y as i64 + 2 == r as i64 && p.x as i64 + 2 == c as i64 {
                    hit = true;
                }
                k = k + 1;
            }
            row.push(if hit { 'X' } else { ' ' });
            c = c + 1;
        }
        canvas.push(row);
        r = r + 1;
    }
    canvas
}

/// The shapes of every piece in every orientation, piece by piece (I, O, T, L, J, S, Z) and
/// within a piece NORTH, EAST, SOUTH, WEST.
pub fn all_shapes() -> (r: Vec<[Dir; 4]>)
    ensures
        r@.len() == 28,
        forall|i: int| 0 <= i < 28 ==> (#[trigger] r@[i])@ == piece_dirs(shape_piece(i)),
{
    let origin = Cell { x: 0, y: 0 };
    let orientations = [Orientation::NORTH, Orientation::EAST, Orientation::SOUTH, Orientation::WEST];
    let mut r: Vec<[Dir; 4]> = Vec::new();
    let mut kind: usize = 0;
    while kind < 7
        invariant
            kind <= 7,
            orientations@ == seq![Orientation::NORTH, Orientation::EAST, Orientation::SOUTH, Orientation::WEST],
            origin == (Cell { x: 0, y: 0 }),
            r@.len() == kind * 4,
            forall|i: int| 0 <= i < kind * 4 ==> (#[trigger] r@[i])@ == piece_dirs(shape_piece(i)),
        decreases 7 - kind,
    {
        let mut o: usize = 0;
        while o < 4
            invariant
                kind < 7,
                o <= 4,
                orientations@ == seq![Orientation::NORTH, Orientation::EAST, Orientation::SOUTH, Orientation::WEST],
                origin == (Cell { x: 0, y: 0 }),
                r@.len() == kind * 4 + o,
                forall|i: int| 0 <= i < kind * 4 + o ==> (#[trigger] r@[i])@ == piece_dirs(shape_piece(i)),
            decreases 4 - o,
        {
            let orientation = orientations[o];
            let piece = if kind == 0 {
                Piece::I(origin, orientation)
            } else if kind == 1 {
                Piece::O(origin, orientation)
            } else if kind == 2 {
                Piece::T(origin, orientation)
            } else if kind == 3 {
                Piece::L(origin, orientation)
            } else if kind == 4 {
                Piece::J(origin, orientation)
            } else if kind == 5 {
                Piece::S(origin, orientation)
            } else {
                Piece::Z(origin, orientation)
            };
            assert((kind * 4 + o) / 4 == kind && (kind * 4 + o) % 4 == o) by (nonlinear_arith)
                requires
                    o < 4,
            ;
            assert(orientation == if (kind * 4 + o) % 4 == 0 {
                Orientation::NORTH
            } else if (kind * 4 + o) % 4 == 1 {
                Orientation::EAST
            } else if (kind * 4 + o) % 4 == 2 {
                Orientation::SOUTH
            } else {
                Orientation::WEST
            });
            assert(piece == shape_piece(kind * 4 + o));
            r.push(piece.shape());
            o = o + 1;
        }
        kind = kind + 1;
    }
    r
}

/// The piece drawn at position `i` of `all_shapes`.
pub open spec fn shape_piece(i: int) -> Piece {
    let origin = Cell { x: 0, y: 0 };
    let o = if i % 4 == 0 {
        Orientation::NORTH
    } else if i % 4 == 1 {
        Orientation::EAST
    } else if i % 4 == 2 {
        Orientation::SOUTH
    } else {
        Orientation::WEST
    };
    let kind = i / 4;
    if kind == 0 {
        Piece::I(origin, o)
    } else if kind == 1 {
        Piece::O(origin, o)
    } else if kind == 2 {
        Piece::T(origin, o)
    } else if kind == 3 {
        Piece::L(origin, o)
    } else if kind == 4 {
        Piece::J(origin, o)
    } else if kind == 5 {
        Piece::S(origin, o)
    } else {
        Piece::Z(origin, o)
    }
}

/// The tetromino table: the cells each piece covers, by kind and orientation, in order,
/// given by their place relative to the anchor `c`.
pub open spec fn tetromino_table(p: Piece) -> Seq<Cell> {
    match p {
        Piece::I(c, Orientation::NORTH) => seq![shifted(c, -1, 0), shifted(c, 0, 0), shifted(c, 1, 0), shifted(c, 2, 0)],
        Piece::I(c, Orientation::EAST) => seq![shifted(c, 0, 1), shifted(c, 0, 0), shifted(c, 0, -1), shifted(c, 0, -2)],
        Piece::I(c, Orientation::SOUTH) => seq![shifted(c, 1, 0), shifted(c, 0, 0), shifted(c, -1, 0), shifted(c, -2, 0)],
        Piece::I(c, Orientation::WEST) => seq![shifted(c, 0, -1), shifted(c, 0, 0), shifted(c, 0, 1), shifted(c, 0, 2)],
        Piece::O(c, Orientation::NORTH) => seq![shifted(c, 0, 0), shifted(c, 1, 0), shifted(c, 0, 1), shifted(c, 1, 1)],
        Piece::O(c, Orientation::EAST) => seq![shifted(c, 0, 0), shifted(c, 0, 1), shifted(c, 1, 0), shifted(c, 1, 1)],
        Piece::O(c, Orientation::SOUTH) => seq![shifted(c, 0, 0), shifted(c, 1, 0), shifted(c, 0, 1), shifted(c, 1, 1)],
        Piece::O(c, Orientation::WEST) => seq![shifted(c, 0, 0), shifted(c, 0, 1), shifted(c, 1, 0), shifted(c, 1, 1)],
        Piece::T(c, Orientation::NORTH) => seq![shifted(c, 0, 1), shifted(c, -1, 0), shifted(c, 0, 0), shifted(c, 1, 0)],
        Piece::T(c, Orientation::EAST) => seq![shifted(c, 1, 0), shifted(c, 0, 1), shifted(c, 0, 0), shifted(c, 0, -1)],
        Piece::T(c, Orientation::SOUTH) => seq![shifted(c, 0, -1), shifted(c, 1, 0), shifted(c, 0, 0), shifted(c, -1, 0)],
        Piece::T(c, Orientation::WEST) => seq![shifted(c, -1, 0), shifted(c, 0, -1), shifted(c, 0, 0), shifted(c, 0, 1)],
        Piece::L(c, Orientation::NORTH) => seq![shifted(c, -1, 0), shifted(c, 0, 0), shifted(c, 1, 0), shifted(c, -1, 1)],
        Piece::L(c, Orientation::EAST) => seq![shifted(c, -1, -1), shifted(c, 0, 1), shifted(c, 0, 0), shifted(c, 0, -1)],
        Piece::L(c, Orientation::SOUTH) => seq![shifted(c, 1, 0), shifted(c, 0, 0), shifted(c, -1, 0), shifted(c, 1, -1)],
        Piece::L(c, Orientation::WEST) => seq![shifted(c, 1, 1), shifted(c, 0, -1), shifted(c, 0, 0), shifted(c, 0, 1)],
        Piece::J(c, Orientation::NORTH) => seq![shifted(c, -1, 0), shifted(c, 0, 0), shifted(c, 1, 0), shifted(c, 1, 1)],
        Piece::J(c, Orientation::EAST) => seq![shifted(c, 1, -1), shifted(c, 0, 1), shifted(c, 0, 0), shifted(c, 0, -1)],
        Piece::J(c, Orientation::SOUTH) => seq![shifted(c, 1, 0), shifted(c, 0, 0), shifted(c, -1, 0), shifted(c, -1, -1)],
        Piece::J(c, Orientation::WEST) => seq![shifted(c, -1, 1), shifted(c, 0, -1), shifted(c, 0, 0), shifted(c, 0, 1)],
        Piece::S(c, Orientation::NORTH) => seq![shifted(c, -1, 0), shifted(c, 0, 0), shifted(c, 0, 1), shifted(c, 1, 1)],
        Piece::S(c, Orientation::EAST) => seq![shifted(c, 0, 1), shifted(c, 0, 0), shifted(c, 1, 0), shifted(c, 1, -1)],
        Piece::S(c, Orientation::SOUTH) => seq![shifted(c, 1, 0), shifted(c, 0, 0), shifted(c, 0, -1), shifted(c, -1, -1)],
        Piece::S(c, Orientation::WEST) => seq![shifted(c, 0, -1), shifted(c, 0, 0), shifted(c, -1, 0), shifted(c, -1, 1)],
        Piece::Z(c, Orientation::NORTH) => seq![shifted(c, 1, 0), shifted(c, 0, 0), shifted(c, 0, 1), shifted(c, -1, 1)],
        Piece::Z(c, Orientation::EAST) => seq![shifted(c, 0, -1), shifted(c, 0, 0), shifted(c, 1, 0), shifted(c, 1, 1)],
        Piece::Z(c, Orientation::SOUTH) => seq![shifted(c, -1, 0), shifted(c, 0, 0), shifted(c, 0, -1), shifted(c, 1, -1)],
        Piece::Z(c, Orientation::WEST) => seq![shifted(c, 0, 1), shifted(c, 0, 0), shifted(c, -1, 0), shifted(c, -1, -1)],
    }
}

proof fn lemma_table_matches_shape(p: Piece)
    requires
        2 <= spec_cell(p).x <= 0x7fff_fffd,
        2 <= spec_cell(p).y <= 0x7fff_fffd,
    ensures
        spec_occupancy(p) == tetromino_table(p),
        piece_dirs(p).len() == 4,
        forall|k: int| 0 <= k < 4 ==> -2 <= (#[trigger] piece_dirs(p)[k]).x <= 2 && -2 <= piece_dirs(p)[k].y <= 2,
{
    let c = spec_cell(p);
    assert(wrapped(c.x) == c.x && wrapped(c.y) == c.y);
    match p {
        Piece::I(_, o) => match o {
            Orientation::NORTH => {
                assert(spec_occupancy(p) =~= tetromino_table(p));
            },
            Orientation::EAST => {
                assert(spec_occupancy(p) =~= tetromino_table(p));
            },
            Orientation::SOUTH => {
                assert(spec_occupancy(p) =~= tetromino_table(p));
            },
            Orientation::WEST => {
                assert(spec_occupancy(p) =~= tetromino_table(p));
            },
        },
        Piece::O(_, o) => match o {
            Orientation::NORTH => {
                assert(spec_occupancy(p) =~= tetromino_table(p));
            },
            Orientation::EAST => {
                assert(spec_occupancy(p) =~= tetromino_table(p));
            },
            Orientation::SOUTH => {
                assert(spec_occupancy(p) =~= tetromino_table(p));
            },
            Orientation::WEST => {
                assert(spec_occupancy(p) =~= tetromino_table(p));
            },
        },
        Piece::T(_, o) => match o {
            Orientation::NORTH => {
                assert(spec_occupancy(p) =~= tetromino_table(p));
            },
            Orientation::EAST => {
                assert(spec_occupancy(p) =~= tetromino_table(p));
            },
            Orientation::SOUTH => {
                assert(spec_occupancy(p) =~= tetromino_table(p));
            },
            Orientation::WEST => {
                assert(spec_occupancy(p) =~= tetromino_table(p));
            },
        },
        Piece::L(_, o) => match o {
            Orientation::NORTH => {
                assert(spec_occupancy(p) =~= tetromino_table(p));
            },
            Orientation::EAST => {
                assert(spec_occupancy(p) =~= tetromino_table(p));
            },
            Orientation::SOUTH => {
                assert(spec_occupancy(p) =~= tetromino_table(p));
            },
            Orientation::WEST => {
                assert(spec_occupancy(p) =~= tetromino_table(p));
            },
        },
        Piece::J(_, o) => match o {
            Orientation::NORTH => {
                assert(spec_occupancy(p) =~= tetromino_table(p));
            },
            Orientation::EAST => {
                assert(spec_occupancy(p) =~= tetromino_table(p));
            },
            Orientation::SOUTH => {
                assert(spec_occupancy(p) =~= tetromino_table(p));
            },
            Orientation::WEST => {
                assert(spec_occupancy(p) =~= tetromino_table(p));
            },
        },
        Piece::S(_, o) => match o {
            Orientation::NORTH => {
                assert(spec_occupancy(p) =~= tetromino_table(p));
            },
            Orientation::EAST => {
                assert(spec_occupancy(p) =~= tetromino_table(p));
            },
            Orientation::SOUTH => {
                assert(spec_occupancy(p) =~= tetromino_table(p));
            },
            Orientation::WEST => {
                assert(spec_occupancy(p) =~= tetromino_table(p));
            },
        },
        Piece::Z(_, o) => match o {
            Orientation::NORTH => {
                assert(spec_occupancy(p) =~= tetromino_table(p));
            },
            Orientation::EAST => {
                assert(spec_occupancy(p) =~= tetromino_table(p));
            },
            Orientation::SOUTH => {
                assert(spec_occupancy(p) =~= tetromino_table(p));
            },
            Orientation::WEST => {
                assert(spec_occupancy(p) =~= tetromino_table(p));
            },
        },
    }
}

/// What `get_occupancy` returns follows the tetromino table: a piece anchored at least two
/// cells from the edges (and inside the `i32` range) covers exactly the table's cells.
pub proof fn lemma_occupancy_follows_table(p: Piece, r: Result<[Cell; 4], NegativeCell>)
    requires
        2 <= spec_cell(p).x <= 0x7fff_fffd,
        2 <= spec_cell(p).y <= 0x7fff_fffd,
        occupancy_result(p, r),
    ensures
        r matches Ok(a) && a@ == tetromino_table(p),
{
    let c = spec_cell(p);
    let ds = piece_dirs(p);
    lemma_table_matches_shape(p);
    assert(wrapped(c.x) == c.x && wrapped(c.y) == c.y);
    assert(first_failure(c, ds, 4) == 4);
    assert(first_failure(c, ds, 3) == 4);
    assert(first_failure(c, ds, 2) == 4);
    assert(first_failure(c, ds, 1) == 4);
    assert(first_failure(c, ds, 0) == 4);
}

/// Each kind of piece has its own letter: I, O, T, L, J, S and Z.
pub proof fn lemma_piece_letters(p: Piece, ch: char)
    requires
        ch == spec_char(p),
    ensures
        p is I <==> ch == 'I',
        p is O <==> ch == 'O',
        p is T <==> ch == 'T',
        p is L <==> ch == 'L',
        p is J <==> ch == 'J',
        p is S <==> ch == 'S',
        p is Z <==> ch == 'Z',
{
}

} // verus!
