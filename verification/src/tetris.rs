use vstd::prelude::*;
use crate::piece::{piece_dirs, shape_piece};

verus! {

pub struct Cell {
    x: i32,
    y: i32,
}

pub enum Orientation {
    NORTH,
    EAST,
    SOUTH,
    WEST,
}

pub enum Piece {
    I(Cell, Orientation),
    O(Cell, Orientation),
    T(Cell, Orientation),
    L(Cell, Orientation),
    J(Cell, Orientation),
    S(Cell, Orientation),
    Z(Cell, Orientation),
}

impl Cell {
    pub closed spec fn column(self) -> int {
        self.x as int
    }

    pub closed spec fn row(self) -> int {
        self.y as int
    }
}

/// The shapes of the seven tetrominoes, each in its four orientations, piece by piece
/// (I, O, T, L, J, S, Z) and within a piece North, East, South, West: the same offsets, in
/// the same order, as the shapes of `crate::piece`.
pub fn shapes() -> (r: Vec<[Cell; 4]>)
    ensures
        r@.len() == 28,
        forall|i: int, k: int| 0 <= i < 28 && 0 <= k < 4 ==> (#[trigger] r@[i]@[k]).column() == piece_dirs(shape_piece(i))[k].x
            && r@[i]@[k].row() == piece_dirs(shape_piece(i))[k].y,
        forall|i: int, k: int| 0 <= i < 28 && 0 <= k < 4 ==> -2 <= (#[trigger] r@[i]@[k]).column() <= 2 && -2 <= r@[i]@[k].row() <= 2,
{
    let r = vec![
            [Cell { x: -1, y: 0 }, Cell { x: 0, y: 0 }, Cell { x: 1, y: 0 }, Cell { x: 2, y: 0 }],
            [Cell { x: 0, y: 1 }, Cell { x: 0, y: 0 }, Cell { x: 0, y: -1 }, Cell { x: 0, y: -2 }],
            [Cell { x: 1, y: 0 }, Cell { x: 0, y: 0 }, Cell { x: -1, y: 0 }, Cell { x: -2, y: 0 }],
            [Cell { x: 0, y: -1 }, Cell { x: 0, y: 0 }, Cell { x: 0, y: 1 }, Cell { x: 0, y: 2 }],
            [Cell { x: 0, y: 0 }, Cell { x: 1, y: 0 }, Cell { x: 0, y: 1 }, Cell { x: 1, y: 1 }],
            [Cell { x: 0, y: 0 }, Cell { x: 0, y: 1 }, Cell { x: 1, y: 0 }, Cell { x: 1, y: 1 }],
            [Cell { x: 0, y: 0 }, Cell { x: 1, y: 0 }, Cell { x: 0, y: 1 }, Cell { x: 1, y: 1 }],
            [Cell { x: 0, y: 0 }, Cell { x: 0, y: 1 }, Cell { x: 1, y: 0 }, Cell { x: 1, y: 1 }],
            [Cell { x: 0, y: 1 }, Cell { x: -1, y: 0 }, Cell { x: 0, y: 0 }, Cell { x: 1, y: 0 }],
            [Cell { x: 1, y: 0 }, Cell { x: 0, y: 1 }, Cell { x: 0, y: 0 }, Cell { x: 0, y: -1 }],
            [Cell { x: 0, y: -1 }, Cell { x: 1, y: 0 }, Cell { x: 0, y: 0 }, Cell { x: -1, y: 0 }],
            [Cell { x: -1, y: 0 }, Cell { x: 0, y: -1 }, Cell { x: 0, y: 0 }, Cell { x: 0, y: 1 }],
            [Cell { x: -1, y: 0 }, Cell { x: 0, y: 0 }, Cell { x: 1, y: 0 }, Cell { x: -1, y: 1 }],
            [Cell { x: -1, y: -1 }, Cell { x: 0, y: 1 }, Cell { x: 0, y: 0 }, Cell { x: 0, y: -1 }],
            [Cell { x: 1, y: 0 }, Cell { x: 0, y: 0 }, Cell { x: -1, y: 0 }, Cell { x: 1, y: -1 }],
            [Cell { x: 1, y: 1 }, Cell { x: 0, y: -1 }, Cell { x: 0, y: 0 }, Cell { x: 0, y: 1 }],
            [Cell { x: -1, y: 0 }, Cell { x: 0, y: 0 }, Cell { x: 1, y: 0 }, Cell { x: 1, y: 1 }],
            [Cell { x: 1, y: -1 }, Cell { x: 0, y: 1 }, Cell { x: 0, y: 0 }, Cell { x: 0, y: -1 }],
            [Cell { x: 1, y: 0 }, Cell { x: 0, y: 0 }, Cell { x: -1, y: 0 }, Cell { x: -1, y: -1 }],
            [Cell { x: -1, y: 1 }, Cell { x: 0, y: -1 }, Cell { x: 0, y: 0 }, Cell { x: 0, y: 1 }],
            [Cell { x: -1, y: 0 }, Cell { x: 0, y: 0 }, Cell { x: 0, y: 1 }, Cell { x: 1, y: 1 }],
            [Cell { x: 0, y: 1 }, Cell { x: 0, y: 0 }, Cell { x: 1, y: 0 }, Cell { x: 1, y: -1 }],
            [Cell { x: 1, y: 0 }, Cell { x: 0, y: 0 }, Cell { x: 0, y: -1 }, Cell { x: -1, y: -1 }],
            [Cell { x: 0, y: -1 }, Cell { x: 0, y: 0 }, Cell { x: -1, y: 0 }, Cell { x: -1, y: 1 }],
            [Cell { x: 1, y: 0 }, Cell { x: 0, y: 0 }, Cell { x: 0, y: 1 }, Cell { x: -1, y: 1 }],
            [Cell { x: 0, y: -1 }, Cell { x: 0, y: 0 }, Cell { x: 1, y: 0 }, Cell { x: 1, y: 1 }],
            [Cell { x: -1, y: 0 }, Cell { x: 0, y: 0 }, Cell { x: 0, y: -1 }, Cell { x: 1, y: -1 }],
            [Cell { x: 0, y: 1 }, Cell { x: 0, y: 0 }, Cell { x: -1, y: 0 }, Cell { x: -1, y: -1 }],
        ];
    proof {
        assert forall|i: int, k: int| 0 <= i < 28 && 0 <= k < 4 implies (#[trigger] r@[i]@[k]).column() == piece_dirs(
            shape_piece(i),
        )[k].x && r@[i]@[k].row() == piece_dirs(shape_piece(i))[k].y by {
            if i == 0 {
            } else if i == 1 {
            } else if i == 2 {
            } else if i == 3 {
            } else if i == 4 {
            } else if i == 5 {
            } else if i == 6 {
            } else if i == 7 {
            } else if i == 8 {
            } else if i == 9 {
            } else if i == 10 {
            } else if i == 11 {
            } else if i == 12 {
            } else if i == 13 {
            } else if i == 14 {
            } else if i == 15 {
            } else if i == 16 {
            } else if i == 17 {
            } else if i == 18 {
            } else if i == 19 {
            } else if i == 20 {
            } else if i == 21 {
            } else if i == 22 {
            } else if i == 23 {
            } else if i == 24 {
            } else if i == 25 {
            } else if i == 26 {
            } else {
            }
        }
    }
    r
}

/// Position (`row`, `col`) of the 5x5 drawing holds a mino of `piece`.
pub open spec fn marked(piece: Seq<Cell>, row: int, col: int) -> bool {
    exists|k: int| 0 <= k < piece.len() && #[trigger] piece[k].row() + 2 == row && piece[k].column() + 2 == col
}

/// Draws a shape on a 5x5 grid centred on its anchor: 'X' where a mino lies, ' ' elsewhere.
pub fn piece_canvas(piece: &[Cell; 4]) -> (canvas: Vec<Vec<char>>)
    requires
        forall|k: int| 0 <= k < 4 ==> -2 <= #[trigger] piece@[k].column() <= 2 && -2 <= piece@[k].row() <= 2,
    ensures
        canvas@.len() == 5,
        forall|r: int| 0 <= r < 5 ==> (#[trigger] canvas@[r])@.len() == 5,
        forall|r: int, c: int| 0 <= r < 5 && 0 <= c < 5 ==> (#[trigger] canvas@[r]@[c]) == if marked(piece@, r, c) { 'X' } else { ' ' },
{
    let mut canvas: Vec<Vec<char>> = Vec::new();
    let mut r: usize = 0;
    while r < 5
        invariant
            r <= 5,
            forall|m: int| 0 <= m < 4 ==> -2 <= #[trigger] piece@[m].column() <= 2 && -2 <= piece@[m].row() <= 2,
            canvas@.len() == r,
            forall|i: int| 0 <= i < r ==> (#[trigger] canvas@[i])@.len() == 5,
            forall|i: int, c: int| 0 <= i < r && 0 <= c < 5 ==> (#[trigger] canvas@[i]@[c]) == if marked(piece@, i, c) { 'X' } else { ' ' },
        decreases 5 - r,
    {
        let mut row: Vec<char> = Vec::new();
        let mut c: usize = 0;
        while c < 5
            invariant
                r < 5,
                c <= 5,
                forall|m: int| 0 <= m < 4 ==> -2 <= #[trigger] piece@[m].column() <= 2 && -2 <= piece@[m].row() <= 2,
                row@.len() == c,
                forall|j: int| 0 <= j < c ==> (#[trigger] row@[j]) == if marked(piece@, r as int, j) { 'X' } else { ' ' },
            decreases 5 - c,
        {
            let mut hit = false;
            let mut k: usize = 0;
            while k < 4
                invariant
                    k <= 4,
                    r < 5,
                    c < 5,
                    forall|m: int| 0 <= m < 4 ==> -2 <= #[trigger] piece@[m].column() <= 2 && -2 <= piece@[m].row() <= 2,
                    hit == exists|m: int| 0 <= m < k && #[trigger] piece@[m].row() + 2 == r && piece@[m].column() + 2 == c,
                decreases 4 - k,
            {
                let p = &piece[k];
                assert(piece@[k as int] == *p);
                if p.y as i64 + 2 == r as i64 && p.x as i64 + 2 == c as i64 {
                    assert(piece@[k as int].row() + 2 == r && piece@[k as int].column() + 2 == c);
                    hit = true;
                } else {
                    assert(!(piece@[k as int].row() + 2 == r && piece@[k as int].column() + 2 == c));
                }
                k = k + 1;
            }
            row.push(if hit { 'X' } else { ' ' });
            c = c + 1;
        }
        canvas.push(row);
        r = r + 1;
    }
    canvas
}

} // verus!
