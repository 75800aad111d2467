use vstd::prelude::*;

verus! {

/// An offset of one mino from the anchor cell of a piece.
#[derive(Clone, Copy, Debug, PartialEq, Eq, Structural)]
pub struct Dir {
    pub x: i32,
    pub y: i32,
}

/// A cell of the board; `x` is the column and `y` the row.
#[derive(Clone, Copy, Debug, PartialEq, Eq, Structural, PartialOrd, Ord, Hash)]
pub struct Cell {
    pub x: usize,
    pub y: usize,
}

#[derive(Copy, Clone, Debug, PartialEq, Eq, Structural)]
pub enum Orientation {
    North,
    East,
    South,
    West,
}

/// A tetromino anchored at a cell, or a single garbage mino.
#[derive(Copy, Clone, Debug, PartialEq, Eq, Structural)]
pub enum Piece {
    I(Cell, Orientation),
    O(Cell, Orientation),
    T(Cell, Orientation),
    L(Cell, Orientation),
    J(Cell, Orientation),
    S(Cell, Orientation),
    Z(Cell, Orientation),
    Gray(Cell),
    Black(Cell),
}

/// Why the cells of a piece cannot be computed.
#[derive(Debug)]
pub enum PieceError {
    /// A mino of the piece would lie at a negative coordinate; holds the piece's offsets.
    NegativeOccupancy(Vec<Dir>),
    /// The anchor cell has a coordinate that does not fit in an `i32`.
    CoordinateTooLarge(Cell),
}

pub open spec fn is_garbage(p: Piece) -> bool {
    p is Gray || p is Black
}

pub open spec fn spec_orientation(p: Piece) -> Orientation
    recommends !is_garbage(p),
{
    match p {
        Piece::I(_, o) => o,
        Piece::O(_, o) => o,
        Piece::T(_, o) => o,
        Piece::L(_, o) => o,
        Piece::J(_, o) => o,
        Piece::S(_, o) => o,
        Piece::Z(_, o) => o,
        Piece::Gray(_) => Orientation::North,
        Piece::Black(_) => Orientation::North,
    }
}

pub open spec fn spec_cell(p: Piece) -> Cell {
    match p {
        Piece::I(c, _) => c,
        Piece::O(c, _) => c,
        Piece::T(c, _) => c,
        Piece::L(c, _) => c,
        Piece::J(c, _) => c,
        Piece::S(c, _) => c,
        Piece::Z(c, _) => c,
        Piece::Gray(c) => c,
        Piece::Black(c) => c,
    }
}

pub open spec fn spec_char(p: Piece) -> char {
    match p {
        Piece::I(_, _) => 'I',
        Piece::O(_, _) => 'O',
        Piece::T(_, _) => 'T',
        Piece::L(_, _) => 'L',
        Piece::J(_, _) => 'J',
        Piece::S(_, _) => 'S',
        Piece::Z(_, _) => 'Z',
        Piece::Gray(_) => 'G',
        Piece::Black(_) => 'B',
    }
}

/// The offsets of the four minos of a tetromino, in the order they are visited.
pub open spec fn piece_dirs(p: Piece) -> Seq<Dir>
    recommends !is_garbage(p),
{
    match p {
            (Piece::I(_, Orientation::North)) => seq![Dir { x: 0i32, y: 0i32 }, Dir { x: 1i32, y: 0i32 }, Dir { x: 2i32, y: 0i32 }, Dir { x: 3i32, y: 0i32 }],
            (Piece::I(_, Orientation::East)) => seq![Dir { x: 0i32, y: 0i32 }, Dir { x: 0i32, y: -1i32 }, Dir { x: 0i32, y: -2i32 }, Dir { x: 0i32, y: -3i32 }],
            (Piece::I(_, Orientation::South)) => seq![Dir { x: 0i32, y: 0i32 }, Dir { x: -1i32, y: 0i32 }, Dir { x: -2i32, y: 0i32 }, Dir { x: -3i32, y: 0i32 }],
            (Piece::I(_, Orientation::West)) => seq![Dir { x: 0i32, y: 0i32 }, Dir { x: 0i32, y: 1i32 }, Dir { x: 0i32, y: 2i32 }, Dir { x: 0i32, y: 3i32 }],
            (Piece::O(_, Orientation::North)) => seq![Dir { x: 0i32, y: 0i32 }, Dir { x: -1i32, y: 0i32 }, Dir { x: 0i32, y: -1i32 }, Dir { x: -1i32, y: -1i32 }],
            (Piece::O(_, Orientation::East)) => seq![Dir { x: 0i32, y: 0i32 }, Dir { x: 0i32, y: -1i32 }, Dir { x: -1i32, y: 0i32 }, Dir { x: -1i32, y: -1i32 }],
            (Piece::O(_, Orientation::South)) => seq![Dir { x: 0i32, y: 0i32 }, Dir { x: -1i32, y: 0i32 }, Dir { x: 0i32, y: -1i32 }, Dir { x: -1i32, y: -1i32 }],
            (Piece::O(_, Orientation::West)) => seq![Dir { x: 0i32, y: 0i32 }, Dir { x: 0i32, y: -1i32 }, Dir { x: -1i32, y: 0i32 }, Dir { x: -1i32, y: -1i32 }],
            (Piece::T(_, Orientation::North)) => seq![Dir { x: 0i32, y: 1i32 }, Dir { x: -1i32, y: 0i32 }, Dir { x: 0i32, y: 0i32 }, Dir { x: 1i32, y: 0i32 }],
            (Piece::T(_, Orientation::East)) => seq![Dir { x: 0i32, y: 0i32 }, Dir { x: -1i32, y: 1i32 }, Dir { x: -1i32, y: 0i32 }, Dir { x: -1i32, y: -1i32 }],
            (Piece::T(_, Orientation::South)) => seq![Dir { x: -1i32, y: -1i32 }, Dir { x: 0i32, y: 0i32 }, Dir { x: -1i32, y: 0i32 }, Dir { x: -2i32, y: 0i32 }],
            (Piece::T(_, Orientation::West)) => seq![Dir { x: -1i32, y: -1i32 }, Dir { x: 0i32, y: -2i32 }, Dir { x: 0i32, y: -1i32 }, Dir { x: 0i32, y: 0i32 }],
            (Piece::L(_, Orientation::North)) => seq![Dir { x: -2i32, y: -1i32 }, Dir { x: -1i32, y: -1i32 }, Dir { x: 0i32, y: -1i32 }, Dir { x: 0i32, y: 0i32 }],
            (Piece::L(_, Orientation::East)) => seq![Dir { x: 1i32, y: -1i32 }, Dir { x: 0i32, y: 1i32 }, Dir { x: 0i32, y: 0i32 }, Dir { x: 0i32, y: -1i32 }],
            (Piece::L(_, Orientation::South)) => seq![Dir { x: 0i32, y: 0i32 }, Dir { x: -1i32, y: 0i32 }, Dir { x: -2i32, y: 0i32 }, Dir { x: -2i32, y: -1i32 }],
            (Piece::L(_, Orientation::West)) => seq![Dir { x: -1i32, y: 0i32 }, Dir { x: 0i32, y: 0i32 }, Dir { x: 0i32, y: -1i32 }, Dir { x: 0i32, y: -2i32 }],
            (Piece::J(_, Orientation::North)) => seq![Dir { x: -1i32, y: 0i32 }, Dir { x: 0i32, y: 0i32 }, Dir { x: 1i32, y: 0i32 }, Dir { x: -1i32, y: -1i32 }],
            (Piece::J(_, Orientation::East)) => seq![Dir { x: -1i32, y: -2i32 }, Dir { x: 0i32, y: 0i32 }, Dir { x: 0i32, y: -1i32 }, Dir { x: 0i32, y: -2i32 }],
            (Piece::J(_, Orientation::South)) => seq![Dir { x: 0i32, y: 0i32 }, Dir { x: -1i32, y: 0i32 }, Dir { x: -2i32, y: 0i32 }, Dir { x: 0i32, y: -1i32 }],
            (Piece::J(_, Orientation::West)) => seq![Dir { x: 0i32, y: 0i32 }, Dir { x: -1i32, y: -2i32 }, Dir { x: -1i32, y: -1i32 }, Dir { x: -1i32, y: 0i32 }],
            (Piece::S(_, Orientation::North)) => seq![Dir { x: -2i32, y: -1i32 }, Dir { x: -1i32, y: -1i32 }, Dir { x: -1i32, y: 0i32 }, Dir { x: 0i32, y: 0i32 }],
            (Piece::S(_, Orientation::East)) => seq![Dir { x: 0i32, y: 1i32 }, Dir { x: 0i32, y: 0i32 }, Dir { x: 1i32, y: 0i32 }, Dir { x: 1i32, y: -1i32 }],
            (Piece::S(_, Orientation::South)) => seq![Dir { x: 0i32, y: 0i32 }, Dir { x: -1i32, y: 0i32 }, Dir { x: -1i32, y: -1i32 }, Dir { x: -2i32, y: -1i32 }],
            (Piece::S(_, Orientation::West)) => seq![Dir { x: 1i32, y: -1i32 }, Dir { x: 1i32, y: 0i32 }, Dir { x: 0i32, y: 0i32 }, Dir { x: 0i32, y: 1i32 }],
            (Piece::Z(_, Orientation::North)) => seq![Dir { x: 1i32, y: 0i32 }, Dir { x: 0i32, y: 0i32 }, Dir { x: 0i32, y: 1i32 }, Dir { x: -1i32, y: 1i32 }],
            (Piece::Z(_, Orientation::East)) => seq![Dir { x: -1i32, y: -2i32 }, Dir { x: -1i32, y: -1i32 }, Dir { x: 0i32, y: -1i32 }, Dir { x: 0i32, y: 0i32 }],
            (Piece::Z(_, Orientation::South)) => seq![Dir { x: -1i32, y: 1i32 }, Dir { x: 0i32, y: 1i32 }, Dir { x: 0i32, y: 0i32 }, Dir { x: 1i32, y: 0i32 }],
            (Piece::Z(_, Orientation::West)) => seq![Dir { x: 0i32, y: 0i32 }, Dir { x: 0i32, y: -1i32 }, Dir { x: -1i32, y: -1i32 }, Dir { x: -1i32, y: -2i32 }],
            _ => seq![],
    }
}

pub open spec fn i32_max() -> int {
    0x7fff_ffff
}

/// What visiting one offset yields: 0 a cell, 1 a coordinate too large for `i32`,
/// 2 an arithmetic overflow (a panic), 3 a negative coordinate.
pub open spec fn step_outcome(c: Cell, d: Dir) -> int {
    if c.x > i32_max() {
        1
    } else if c.x + d.x > i32_max() {
        2
    } else if c.y > i32_max() {
        1
    } else if c.y + d.y > i32_max() {
        2
    } else if c.x + d.x < 0 || c.y + d.y < 0 {
        3
    } else {
        0
    }
}

/// The outcome of visiting the offsets `ds[i..]` in order: the first non-zero step outcome, or 0.
pub open spec fn walk_outcome(c: Cell, ds: Seq<Dir>, i: int) -> int
    decreases ds.len() - i,
{
    if i < 0 || i >= ds.len() {
        0
    } else if step_outcome(c, ds[i]) != 0 {
        step_outcome(c, ds[i])
    } else {
        walk_outcome(c, ds, i + 1)
    }
}

pub open spec fn offset_cell(c: Cell, d: Dir) -> Cell {
    Cell { x: (c.x + d.x) as usize, y: (c.y + d.y) as usize }
}

/// Computing the occupancy of `p` overflows `i32` arithmetic.
pub open spec fn occupancy_overflows(p: Piece) -> bool {
    !is_garbage(p) && walk_outcome(spec_cell(p), piece_dirs(p), 0) == 2
}

/// The cells a piece covers, when they can all be computed.
pub open spec fn spec_occupancy(p: Piece) -> Seq<Cell> {
    if is_garbage(p) {
        seq![spec_cell(p)]
    } else {
        piece_dirs(p).map_values(|d: Dir| offset_cell(spec_cell(p), d))
    }
}

/// `r` is what `get_occupancy` returns for `p`.
pub open spec fn occupancy_result(p: Piece, r: Result<Vec<Cell>, PieceError>) -> bool {
    if is_garbage(p) {
        r matches Ok(v) && v@ == seq![spec_cell(p)]
    } else {
        let o = walk_outcome(spec_cell(p), piece_dirs(p), 0);
        &&& o == 0 ==> (r matches Ok(v) && v@ == spec_occupancy(p))
        &&& o == 1 ==> (r matches Err(PieceError::CoordinateTooLarge(c)) && c == spec_cell(p))
        &&& o == 3 ==> (r matches Err(PieceError::NegativeOccupancy(ds)) && ds@ == piece_dirs(p))
    }
}

/// The occupancy of `p` is computed without error.
pub open spec fn occupancy_ok(p: Piece) -> bool {
    is_garbage(p) || walk_outcome(spec_cell(p), piece_dirs(p), 0) == 0
}

/// What `get_occupancy` returns succeeds exactly when the occupancy is computable, and then
/// holds the spec occupancy.
pub proof fn lemma_occupancy_result(p: Piece, r: Result<Vec<Cell>, PieceError>)
    requires
        occupancy_result(p, r),
        !occupancy_overflows(p),
    ensures
        r is Ok <==> occupancy_ok(p),
        r matches Ok(v) ==> v@ == spec_occupancy(p),
{
    if !is_garbage(p) {
        let o = walk_outcome(spec_cell(p), piece_dirs(p), 0);
        lemma_walk_outcome_range(spec_cell(p), piece_dirs(p), 0);
    }
}

proof fn lemma_walk_outcome_range(c: Cell, ds: Seq<Dir>, i: int)
    ensures
        0 <= walk_outcome(c, ds, i) <= 3,
    decreases ds.len() - i,
{
    if 0 <= i < ds.len() && step_outcome(c, ds[i]) == 0 {
        lemma_walk_outcome_range(c, ds, i + 1);
    }
}

proof fn lemma_walk_prefix(c: Cell, ds: Seq<Dir>, i: int)
    requires
        0 <= i <= ds.len(),
        forall|j: int| 0 <= j < i ==> step_outcome(c, #[trigger] ds[j]) == 0,
    ensures
        walk_outcome(c, ds, 0) == walk_outcome(c, ds, i),
    decreases i,
{
    if i > 0 {
        lemma_walk_prefix(c, ds, i - 1);
    }
}

impl Orientation {
    pub fn all() -> (r: [Orientation; 4])
        ensures
            r@ == seq![Orientation::North, Orientation::East, Orientation::South, Orientation::West],
    {
        [Orientation::North, Orientation::East, Orientation::South, Orientation::West]
    }
}

impl Piece {
    pub fn all_normal(cell: Cell, orientation: Orientation) -> (r: Vec<Piece>)
        ensures
            r@ == seq![
                Piece::I(cell, orientation),
                Piece::O(cell, orientation),
                Piece::T(cell, orientation),
                Piece::L(cell, orientation),
                Piece::J(cell, orientation),
                Piece::S(cell, orientation),
                Piece::Z(cell, orientation),
            ],
    {
        vec![
            Piece::I(cell, orientation),
            Piece::O(cell, orientation),
            Piece::T(cell, orientation),
            Piece::L(cell, orientation),
            Piece::J(cell, orientation),
            Piece::S(cell, orientation),
            Piece::Z(cell, orientation),
        ]
    }

    pub fn all_garbage(cell: Cell) -> (r: Vec<Piece>)
        ensures
            r@ == seq![Piece::Gray(cell), Piece::Black(cell)],
    {
        vec![Piece::Gray(cell), Piece::Black(cell)]
    }

    pub fn get_char(&self) -> (c: char)
        ensures
            c == spec_char(*self),
    {
        match self {
            Piece::I(_, _) => 'I',
            Piece::O(_, _) => 'O',
            Piece::T(_, _) => 'T',
            Piece::L(_, _) => 'L',
            Piece::J(_, _) => 'J',
            Piece::S(_, _) => 'S',
            Piece::Z(_, _) => 'Z',
            Piece::Gray(_) => 'G',
            Piece::Black(_) => 'B',
        }
    }

    /// Garbage has no orientation; asking for one is refused.
    pub fn get_orientation(&self) -> (o: Orientation)
        requires
            !is_garbage(*self),
        ensures
            o == spec_orientation(*self),
    {
        match self {
            Piece::I(_, o) => *o,
            Piece::O(_, o) => *o,
            Piece::T(_, o) => *o,
            Piece::L(_, o) => *o,
            Piece::J(_, o) => *o,
            Piece::S(_, o) => *o,
            Piece::Z(_, o) => *o,
            Piece::Gray(_) => Orientation::North,
            Piece::Black(_) => Orientation::North,
        }
    }

    pub fn get_cell(&self) -> (c: Cell)
        ensures
            c == spec_cell(*self),
    {
        match self {
            Piece::I(c, _) => *c,
            Piece::O(c, _) => *c,
            Piece::T(c, _) => *c,
            Piece::L(c, _) => *c,
            Piece::J(c, _) => *c,
            Piece::S(c, _) => *c,
            Piece::Z(c, _) => *c,
            Piece::Gray(c) => *c,
            Piece::Black(c) => *c,
        }
    }

    fn shape(&self) -> (ds: [Dir; 4])
        requires
            !is_garbage(*self),
        ensures
            ds@ == piece_dirs(*self),
    {
        match self {
            Piece::I(_, Orientation::North) => [Dir { x: 0, y: 0 }, Dir { x: 1, y: 0 }, Dir { x: 2, y: 0 }, Dir { x: 3, y: 0 }],
            Piece::I(_, Orientation::East) => [Dir { x: 0, y: 0 }, Dir { x: 0, y: -1 }, Dir { x: 0, y: -2 }, Dir { x: 0, y: -3 }],
            Piece::I(_, Orientation::South) => [Dir { x: 0, y: 0 }, Dir { x: -1, y: 0 }, Dir { x: -2, y: 0 }, Dir { x: -3, y: 0 }],
            Piece::I(_, Orientation::West) => [Dir { x: 0, y: 0 }, Dir { x: 0, y: 1 }, Dir { x: 0, y: 2 }, Dir { x: 0, y: 3 }],
            Piece::O(_, Orientation::North) => [Dir { x: 0, y: 0 }, Dir { x: -1, y: 0 }, Dir { x: 0, y: -1 }, Dir { x: -1, y: -1 }],
            Piece::O(_, Orientation::East) => [Dir { x: 0, y: 0 }, Dir { x: 0, y: -1 }, Dir { x: -1, y: 0 }, Dir { x: -1, y: -1 }],
            Piece::O(_, Orientation::South) => [Dir { x: 0, y: 0 }, Dir { x: -1, y: 0 }, Dir { x: 0, y: -1 }, Dir { x: -1, y: -1 }],
            Piece::O(_, Orientation::West) => [Dir { x: 0, y: 0 }, Dir { x: 0, y: -1 }, Dir { x: -1, y: 0 }, Dir { x: -1, y: -1 }],
            Piece::T(_, Orientation::North) => [Dir { x: 0, y: 1 }, Dir { x: -1, y: 0 }, Dir { x: 0, y: 0 }, Dir { x: 1, y: 0 }],
            Piece::T(_, Orientation::East) => [Dir { x: 0, y: 0 }, Dir { x: -1, y: 1 }, Dir { x: -1, y: 0 }, Dir { x: -1, y: -1 }],
            Piece::T(_, Orientation::South) => [Dir { x: -1, y: -1 }, Dir { x: 0, y: 0 }, Dir { x: -1, y: 0 }, Dir { x: -2, y: 0 }],
            Piece::T(_, Orientation::West) => [Dir { x: -1, y: -1 }, Dir { x: 0, y: -2 }, Dir { x: 0, y: -1 }, Dir { x: 0, y: 0 }],
            Piece::L(_, Orientation::North) => [Dir { x: -2, y: -1 }, Dir { x: -1, y: -1 }, Dir { x: 0, y: -1 }, Dir { x: 0, y: 0 }],
            Piece::L(_, Orientation::East) => [Dir { x: 1, y: -1 }, Dir { x: 0, y: 1 }, Dir { x: 0, y: 0 }, Dir { x: 0, y: -1 }],
            Piece::L(_, Orientation::South) => [Dir { x: 0, y: 0 }, Dir { x: -1, y: 0 }, Dir { x: -2, y: 0 }, Dir { x: -2, y: -1 }],
            Piece::L(_, Orientation::West) => [Dir { x: -1, y: 0 }, Dir { x: 0, y: 0 }, Dir { x: 0, y: -1 }, Dir { x: 0, y: -2 }],
            Piece::J(_, Orientation::North) => [Dir { x: -1, y: 0 }, Dir { x: 0, y: 0 }, Dir { x: 1, y: 0 }, Dir { x: -1, y: -1 }],
            Piece::J(_, Orientation::East) => [Dir { x: -1, y: -2 }, Dir { x: 0, y: 0 }, Dir { x: 0, y: -1 }, Dir { x: 0, y: -2 }],
            Piece::J(_, Orientation::South) => [Dir { x: 0, y: 0 }, Dir { x: -1, y: 0 }, Dir { x: -2, y: 0 }, Dir { x: 0, y: -1 }],
            Piece::J(_, Orientation::West) => [Dir { x: 0, y: 0 }, Dir { x: -1, y: -2 }, Dir { x: -1, y: -1 }, Dir { x: -1, y: 0 }],
            Piece::S(_, Orientation::North) => [Dir { x: -2, y: -1 }, Dir { x: -1, y: -1 }, Dir { x: -1, y: 0 }, Dir { x: 0, y: 0 }],
            Piece::S(_, Orientation::East) => [Dir { x: 0, y: 1 }, Dir { x: 0, y: 0 }, Dir { x: 1, y: 0 }, Dir { x: 1, y: -1 }],
            Piece::S(_, Orientation::South) => [Dir { x: 0, y: 0 }, Dir { x: -1, y: 0 }, Dir { x: -1, y: -1 }, Dir { x: -2, y: -1 }],
            Piece::S(_, Orientation::West) => [Dir { x: 1, y: -1 }, Dir { x: 1, y: 0 }, Dir { x: 0, y: 0 }, Dir { x: 0, y: 1 }],
            Piece::Z(_, Orientation::North) => [Dir { x: 1, y: 0 }, Dir { x: 0, y: 0 }, Dir { x: 0, y: 1 }, Dir { x: -1, y: 1 }],
            Piece::Z(_, Orientation::East) => [Dir { x: -1, y: -2 }, Dir { x: -1, y: -1 }, Dir { x: 0, y: -1 }, Dir { x: 0, y: 0 }],
            Piece::Z(_, Orientation::South) => [Dir { x: -1, y: 1 }, Dir { x: 0, y: 1 }, Dir { x: 0, y: 0 }, Dir { x: 1, y: 0 }],
            Piece::Z(_, Orientation::West) => [Dir { x: 0, y: 0 }, Dir { x: 0, y: -1 }, Dir { x: -1, y: -1 }, Dir { x: -1, y: -2 }],
            _ => [Dir { x: 0, y: 0 }, Dir { x: 0, y: 0 }, Dir { x: 0, y: 0 }, Dir { x: 0, y: 0 }],
        }
    }

    /// The cells the piece covers: its anchor for garbage, the anchor moved by each offset
    /// of its shape otherwise. Fails when a coordinate would be negative or too large.
    pub fn get_occupancy(&self) -> (r: Result<Vec<Cell>, PieceError>)
        requires
            !occupancy_overflows(*self),
        ensures
            occupancy_result(*self, r),
    {
        match self {
            Piece::Gray(c) => {
                let v = vec![*c];
                assert(v@ =~= seq![*c]);
                return Ok(v);
            },
            Piece::Black(c) => {
                let v = vec![*c];
                assert(v@ =~= seq![*c]);
                return Ok(v);
            },
            _ => {},
        }
        let dirs = self.shape();
        let cell = self.get_cell();
        let ghost ds = piece_dirs(*self);
        let mut occupancy: Vec<Cell> = Vec::new();
        let mut i: usize = 0;
        while i < 4
            invariant
                0 <= i <= 4,
                ds.len() == 4,
                dirs@ == ds,
                cell == spec_cell(*self),
                ds == piece_dirs(*self),
                !is_garbage(*self),
                walk_outcome(cell, ds, 0) != 2,
                forall|j: int| 0 <= j < i ==> step_outcome(cell, #[trigger] ds[j]) == 0,
                occupancy@ == ds.take(i as int).map_values(|d: Dir| offset_cell(cell, d)),
            decreases 4 - i,
        {
            let d = dirs[i];
            proof {
                lemma_walk_prefix(cell, ds, i as int);
            }
            if cell.x > 0x7fff_ffff {
                return Err(PieceError::CoordinateTooLarge(cell));
            }
            let x: i32 = cell.x as i32 + d.x;
            if cell.y > 0x7fff_ffff {
                return Err(PieceError::CoordinateTooLarge(cell));
            }
            let y: i32 = cell.y as i32 + d.y;
            if x < 0 || y < 0 {
                return Err(PieceError::NegativeOccupancy(vec![dirs[0], dirs[1], dirs[2], dirs[3]]));
            }
            occupancy.push(Cell { x: x as usize, y: y as usize });
            proof {
                assert(ds.take(i + 1) =~= ds.take(i as int).push(d));
            }
            i = i + 1;
        }
        proof {
            lemma_walk_prefix(cell, ds, 4);
            assert(ds.take(4) =~= ds);
        }
        Ok(occupancy)
    }
}

/// The cell `dx` columns and `dy` rows away from `c`.
pub open spec fn shifted(c: Cell, dx: int, dy: int) -> Cell {
    Cell { x: (c.x + dx) as usize, y: (c.y + dy) as usize }
}

/// The tetromino table: the cells each tetromino covers, by kind and orientation, in order,
/// given by their place relative to the anchor `c`. Garbage covers its anchor alone.
pub open spec fn tetromino_table(p: Piece) -> Seq<Cell> {
    match p {
        Piece::I(c, Orientation::North) => seq![shifted(c, 0, 0), shifted(c, 1, 0), shifted(c, 2, 0), shifted(c, 3, 0)],
        Piece::I(c, Orientation::East) => seq![shifted(c, 0, 0), shifted(c, 0, -1), shifted(c, 0, -2), shifted(c, 0, -3)],
        Piece::I(c, Orientation::South) => seq![shifted(c, 0, 0), shifted(c, -1, 0), shifted(c, -2, 0), shifted(c, -3, 0)],
        Piece::I(c, Orientation::West) => seq![shifted(c, 0, 0), shifted(c, 0, 1), shifted(c, 0, 2), shifted(c, 0, 3)],
        Piece::O(c, Orientation::North) => seq![shifted(c, 0, 0), shifted(c, -1, 0), shifted(c, 0, -1), shifted(c, -1, -1)],
        Piece::O(c, Orientation::East) => seq![shifted(c, 0, 0), shifted(c, 0, -1), shifted(c, -1, 0), shifted(c, -1, -1)],
        Piece::O(c, Orientation::South) => seq![shifted(c, 0, 0), shifted(c, -1, 0), shifted(c, 0, -1), shifted(c, -1, -1)],
        Piece::O(c, Orientation::West) => seq![shifted(c, 0, 0), shifted(c, 0, -1), shifted(c, -1, 0), shifted(c, -1, -1)],
        Piece::T(c, Orientation::North) => seq![shifted(c, 0, 1), shifted(c, -1, 0), shifted(c, 0, 0), shifted(c, 1, 0)],
        Piece::T(c, Orientation::East) => seq![shifted(c, 0, 0), shifted(c, -1, 1), shifted(c, -1, 0), shifted(c, -1, -1)],
        Piece::T(c, Orientation::South) => seq![shifted(c, -1, -1), shifted(c, 0, 0), shifted(c, -1, 0), shifted(c, -2, 0)],
        Piece::T(c, Orientation::West) => seq![shifted(c, -1, -1), shifted(c, 0, -2), shifted(c, 0, -1), shifted(c, 0, 0)],
        Piece::L(c, Orientation::North) => seq![shifted(c, -2, -1), shifted(c, -1, -1), shifted(c, 0, -1), shifted(c, 0, 0)],
        Piece::L(c, Orientation::East) => seq![shifted(c, 1, -1), shifted(c, 0, 1), shifted(c, 0, 0), shifted(c, 0, -1)],
        Piece::L(c, Orientation::South) => seq![shifted(c, 0, 0), shifted(c, -1, 0), shifted(c, -2, 0), shifted(c, -2, -1)],
        Piece::L(c, Orientation::West) => seq![shifted(c, -1, 0), shifted(c, 0, 0), shifted(c, 0, -1), shifted(c, 0, -2)],
        Piece::J(c, Orientation::North) => seq![shifted(c, -1, 0), shifted(c, 0, 0), shifted(c, 1, 0), shifted(c, -1, -1)],
        Piece::J(c, Orientation::East) => seq![shifted(c, -1, -2), shifted(c, 0, 0), shifted(c, 0, -1), shifted(c, 0, -2)],
        Piece::J(c, Orientation::South) => seq![shifted(c, 0, 0), shifted(c, -1, 0), shifted(c, -2, 0), shifted(c, 0, -1)],
        Piece::J(c, Orientation::West) => seq![shifted(c, 0, 0), shifted(c, -1, -2), shifted(c, -1, -1), shifted(c, -1, 0)],
        Piece::S(c, Orientation::North) => seq![shifted(c, -2, -1), shifted(c, -1, -1), shifted(c, -1, 0), shifted(c, 0, 0)],
        Piece::S(c, Orientation::East) => seq![shifted(c, 0, 1), shifted(c, 0, 0), shifted(c, 1, 0), shifted(c, 1, -1)],
        Piece::S(c, Orientation::South) => seq![shifted(c, 0, 0), shifted(c, -1, 0), shifted(c, -1, -1), shifted(c, -2, -1)],
        Piece::S(c, Orientation::West) => seq![shifted(c, 1, -1), shifted(c, 1, 0), shifted(c, 0, 0), shifted(c, 0, 1)],
        Piece::Z(c, Orientation::North) => seq![shifted(c, 1, 0), shifted(c, 0, 0), shifted(c, 0, 1), shifted(c, -1, 1)],
        Piece::Z(c, Orientation::East) => seq![shifted(c, -1, -2), shifted(c, -1, -1), shifted(c, 0, -1), shifted(c, 0, 0)],
        Piece::Z(c, Orientation::South) => seq![shifted(c, -1, 1), shifted(c, 0, 1), shifted(c, 0, 0), shifted(c, 1, 0)],
        Piece::Z(c, Orientation::West) => seq![shifted(c, 0, 0), shifted(c, 0, -1), shifted(c, -1, -1), shifted(c, -1, -2)],
        Piece::Gray(c) => seq![c],
        Piece::Black(c) => seq![c],
    }
}

/// What `get_occupancy` returns follows the tetromino table: every piece whose cells can be
/// computed covers exactly the table's cells, and a piece anchored at least three cells from
/// the edges (and inside the `i32` range) always can.
pub proof fn lemma_occupancy_follows_table(p: Piece, r: Result<Vec<Cell>, PieceError>)
    requires
        !occupancy_overflows(p),
        occupancy_result(p, r),
    ensures
        r matches Ok(v) ==> v@ == tetromino_table(p),
        3 <= spec_cell(p).x <= i32_max() - 3 && 3 <= spec_cell(p).y <= i32_max() - 3 ==> r is Ok,
{
    lemma_occupancy_result(p, r);
    if !is_garbage(p) {
        let c = spec_cell(p);
        let ds = piece_dirs(p);
        lemma_table_matches_shape(p);
        if 3 <= c.x <= i32_max() - 3 && 3 <= c.y <= i32_max() - 3 {
            assert(walk_outcome(c, ds, 4) == 0);
            assert(walk_outcome(c, ds, 3) == 0);
            assert(walk_outcome(c, ds, 2) == 0);
            assert(walk_outcome(c, ds, 1) == 0);
            assert(walk_outcome(c, ds, 0) == 0);
        }
    }
}

proof fn lemma_table_matches_shape(p: Piece)
    requires
        !is_garbage(p),
    ensures
        spec_occupancy(p) == tetromino_table(p),
        piece_dirs(p).len() == 4,
        forall|k: int| 0 <= k < 4 ==> -3 <= (#[trigger] piece_dirs(p)[k]).x <= 3 && -3 <= piece_dirs(p)[k].y <= 3,
{
    match p {
        Piece::I(_, o) => match o {
            Orientation::North => {
                assert(spec_occupancy(p) =~= tetromino_table(p));
            },
            Orientation::East => {
                assert(spec_occupancy(p) =~= tetromino_table(p));
            },
            Orientation::South => {
                assert(spec_occupancy(p) =~= tetromino_table(p));
            },
            Orientation::West => {
                assert(spec_occupancy(p) =~= tetromino_table(p));
            },
        },
        Piece::O(_, o) => match o {
            Orientation::North => {
                assert(spec_occupancy(p) =~= tetromino_table(p));
            },
            Orientation::East => {
                assert(spec_occupancy(p) =~= tetromino_table(p));
            },
            Orientation::South => {
                assert(spec_occupancy(p) =~= tetromino_table(p));
            },
            Orientation::West => {
                assert(spec_occupancy(p) =~= tetromino_table(p));
            },
        },
        Piece::T(_, o) => match o {
            Orientation::North => {
                assert(spec_occupancy(p) =~= tetromino_table(p));
            },
            Orientation::East => {
                assert(spec_occupancy(p) =~= tetromino_table(p));
            },
            Orientation::South => {
                assert(spec_occupancy(p) =~= tetromino_table(p));
            },
            Orientation::West => {
                assert(spec_occupancy(p) =~= tetromino_table(p));
            },
        },
        Piece::L(_, o) => match o {
            Orientation::North => {
                assert(spec_occupancy(p) =~= tetromino_table(p));
            },
            Orientation::East => {
                assert(spec_occupancy(p) =~= tetromino_table(p));
            },
            Orientation::South => {
                assert(spec_occupancy(p) =~= tetromino_table(p));
            },
            Orientation::West => {
                assert(spec_occupancy(p) =~= tetromino_table(p));
            },
        },
        Piece::J(_, o) => match o {
            Orientation::North => {
                assert(spec_occupancy(p) =~= tetromino_table(p));
            },
            Orientation::East => {
                assert(spec_occupancy(p) =~= tetromino_table(p));
            },
            Orientation::South => {
                assert(spec_occupancy(p) =~= tetromino_table(p));
            },
            Orientation::West => {
                assert(spec_occupancy(p) =~= tetromino_table(p));
            },
        },
        Piece::S(_, o) => match o {
            Orientation::North => {
                assert(spec_occupancy(p) =~= tetromino_table(p));
            },
            Orientation::East => {
                assert(spec_occupancy(p) =~= tetromino_table(p));
            },
            Orientation::South => {
                assert(spec_occupancy(p) =~= tetromino_table(p));
            },
            Orientation::West => {
                assert(spec_occupancy(p) =~= tetromino_table(p));
            },
        },
        Piece::Z(_, o) => match o {
            Orientation::North => {
                assert(spec_occupancy(p) =~= tetromino_table(p));
            },
            Orientation::East => {
                assert(spec_occupancy(p) =~= tetromino_table(p));
            },
            Orientation::South => {
                assert(spec_occupancy(p) =~= tetromino_table(p));
            },
            Orientation::West => {
                assert(spec_occupancy(p) =~= tetromino_table(p));
            },
        },
        _ => {},
    }
}

/// Each kind of piece has its own letter: I, O, T, L, J, S and Z for the tetrominoes, G for
/// gray and B for black garbage. So two pieces get the same letter exactly when they are of
/// the same kind.
pub proof fn lemma_piece_letters(p: Piece, ch: char)
    requires
        ch == spec_char(p),
    ensures
        p is I <==> ch == 'I',
        p is O <==> ch == 'O',
        p is T <==> ch == 'T',
        p is L <==> ch == 'L',
        p is J <==> ch == 'J',
        p is S <==> ch == 'S',
        p is Z <==> ch == 'Z',
        p is Gray <==> ch == 'G',
        p is Black <==> ch == 'B',
{
}

} // verus!
