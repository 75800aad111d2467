use vstd::prelude::*;
use super::piece::{
    Cell, Piece, PieceError, lemma_occupancy_result, occupancy_ok, occupancy_overflows, occupancy_result, spec_char,
    spec_occupancy,
};
pub use crate::grid::EMPTY_CELL;
use crate::grid::{
    BoardView, lemma_covers_step, lemma_filter_keeps_all, lemma_filter_other_than, lemma_index_in_bounds,
    lemma_index_injective, lemma_written_at, other_than,
};

verus! {

/// A grid of `width * height` cells stored row by row, with the pieces placed on it.
#[derive(Clone)]
pub struct Board {
    pub cells: Vec<char>,
    pub pieces: Vec<Piece>,
    pub width: usize,
    pub height: usize,
}

#[derive(Debug)]
pub enum BoardError {
    InvalidCell(Cell),
    OccupiedCell(Cell),
    /// The cells of the piece could not be computed.
    InvalidPiece(PieceError),
}

pub const BLOCKED_CELL: char = 'B';

impl View for Board {
    type V = BoardView<Piece>;

    open spec fn view(&self) -> BoardView<Piece> {
        BoardView {
            cells: self.cells@,
            pieces: self.pieces@,
            width: self.width as nat,
            height: self.height as nat,
        }
    }
}

impl BoardView<Piece> {
    pub open spec fn can_place(self, p: Piece) -> bool {
        &&& occupancy_ok(p)
        &&& forall|k: int| 0 <= k < spec_occupancy(p).len() ==> self.is_free(#[trigger] spec_occupancy(p)[k])
    }

    /// The board after placing `p`.
    pub open spec fn placed(self, p: Piece) -> BoardView<Piece> {
        self.with_cells(self.written(spec_occupancy(p), spec_char(p))).with_pieces(self.pieces.push(p))
    }

    /// The board after its last piece is taken back: the piece's cells are emptied.
    pub open spec fn undone(self) -> BoardView<Piece> {
        let p = self.pieces.last();
        self.with_cells(self.written(spec_occupancy(p), EMPTY_CELL)).with_pieces(self.pieces.drop_last())
    }

    /// The board after `p` is removed.
    pub open spec fn removed(self, p: Piece) -> BoardView<Piece> {
        self.with_cells(self.written(spec_occupancy(p), EMPTY_CELL)).with_pieces(
            self.pieces.filter(other_than(p)),
        )
    }

    /// The board holds exactly its listed pieces: no piece is listed twice, the cells of each
    /// lie on the board and hold its character, no two share a cell, and every other cell is
    /// empty.
    pub open spec fn consistent(self) -> bool {
        &&& self.wf()
        &&& self.pieces.no_duplicates()
        &&& forall|q: Piece| #[trigger] self.pieces.contains(q) ==> occupancy_ok(q)
        &&& forall|q: Piece, c: Cell|
            self.pieces.contains(q) && #[trigger] spec_occupancy(q).contains(c) ==> self.in_bounds(c) && self.at(c)
                == spec_char(q)
        &&& forall|q1: Piece, q2: Piece, c: Cell|
            self.pieces.contains(q1) && self.pieces.contains(q2) && #[trigger] spec_occupancy(q1).contains(c)
                && #[trigger] spec_occupancy(q2).contains(c) ==> q1 == q2
        &&& forall|c: Cell|
            self.in_bounds(c) && #[trigger] self.at(c) != EMPTY_CELL ==> exists|q: Piece|
                self.pieces.contains(q) && #[trigger] spec_occupancy(q).contains(c)
    }
}


impl Board {
    pub fn new(width: usize, height: usize) -> (b: Board)
        requires
            width * height <= usize::MAX,
        ensures
            b@.wf(),
            b@.width == width,
            b@.height == height,
            b@.pieces == Seq::<Piece>::empty(),
            forall|i: int| 0 <= i < b@.cells.len() ==> b@.cells[i] == EMPTY_CELL,
            b@.consistent(),
    {
        let n = width * height;
        let mut cells: Vec<char> = Vec::new();
        let mut i: usize = 0;
        while i < n
            invariant
                i <= n,
                cells@.len() == i,
                forall|j: int| 0 <= j < i ==> cells@[j] == EMPTY_CELL,
            decreases n - i,
        {
            cells.push(EMPTY_CELL);
            i = i + 1;
        }
        let b = Board { cells, pieces: Vec::new(), width, height };
        proof {
            assert forall|c: Cell| b@.in_bounds(c) && #[trigger] b@.at(c) != EMPTY_CELL implies exists|q: Piece|
                b@.pieces.contains(q) && #[trigger] spec_occupancy(q).contains(c) by {
                lemma_index_in_bounds(c.x as int, c.y as int, width as int, height as int);
            }
        }
        b
    }

    /// The content of a cell; an error for a cell outside the board.
    pub fn get(&self, cell: &Cell) -> (r: Result<char, BoardError>)
        requires
            self@.wf(),
        ensures
            self@.in_bounds(*cell) ==> r == Ok::<char, BoardError>(self@.at(*cell)),
            !self@.in_bounds(*cell) ==> (r matches Err(BoardError::InvalidCell(c)) && c == *cell),
    {
        if !(cell.x < self.width && cell.y < self.height) {
            return Err(BoardError::InvalidCell(*cell));
        }
        let n = self.cells.len();
        proof {
            lemma_index_in_bounds(cell.x as int, cell.y as int, self.width as int, self.height as int);
        }
        Ok(self.cells[cell.y * self.width + cell.x])
    }

    /// A mutable reference to the content of a cell; an error for a cell outside the board.
    pub fn get_mut(&mut self, cell: &Cell) -> (r: Result<&mut char, BoardError>)
        requires
            old(self)@.wf(),
        ensures
            match r {
                Ok(e) => {
                    &&& old(self)@.in_bounds(*cell)
                    &&& *e == old(self)@.at(*cell)
                    &&& final(self)@ == old(self)@.with_cells(
                        old(self)@.cells.update(old(self)@.index_of(*cell), *final(e)),
                    )
                },
                Err(e) => {
                    &&& !old(self)@.in_bounds(*cell)
                    &&& e == BoardError::InvalidCell(*cell)
                    &&& final(self)@ == old(self)@
                },
            },
    {
        if !(cell.x < self.width && cell.y < self.height) {
            return Err(BoardError::InvalidCell(*cell));
        }
        let n = self.cells.len();
        proof {
            lemma_index_in_bounds(cell.x as int, cell.y as int, self.width as int, self.height as int);
        }
        Ok(&mut self.cells[cell.y * self.width + cell.x])
    }
}


impl Board {
    /// Writes `ch` into the cells of `occ`, in order, stopping with an error at the first cell
    /// outside the board; the cells written before it keep `ch`.
    fn write_cells(&mut self, occ: &Vec<Cell>, ch: char) -> (r: Result<(), BoardError>)
        requires
            old(self)@.wf(),
        ensures
            final(self)@.wf(),
            final(self)@ == old(self)@.with_cells(final(self)@.cells),
            old(self)@.all_in_bounds(occ@) ==> r is Ok && final(self)@.cells == old(self)@.written(occ@, ch),
            !old(self)@.all_in_bounds(occ@) ==> exists|k: int|
                old(self)@.first_outside(occ@, k) && r == Err::<(), BoardError>(BoardError::InvalidCell(occ@[k]))
                    && final(self)@.cells == old(self)@.written(occ@.take(k), ch),
    {
        let ghost v = self@;
        let mut i: usize = 0;
        proof {
            assert(v.written(occ@.take(0), ch) =~= v.cells);
        }
        while i < occ.len()
            invariant
                i <= occ@.len(),
                v == old(self)@,
                v.wf(),
                self@.wf(),
                self@ == v.with_cells(v.written(occ@.take(i as int), ch)),
                forall|j: int| 0 <= j < i ==> v.in_bounds(#[trigger] occ@[j]),
            decreases occ@.len() - i,
        {
            let cell = occ[i];
            if !(cell.x < self.width && cell.y < self.height) {
                assert(v.first_outside(occ@, i as int));
                return Err(BoardError::InvalidCell(cell));
            }
            let n = self.cells.len();
            proof {
                lemma_index_in_bounds(cell.x as int, cell.y as int, self.width as int, self.height as int);
            }
            self.cells.set(cell.y * self.width + cell.x, ch);
            proof {
                assert forall|j: int| 0 <= j < self@.cells.len() implies self@.cells[j] == v.written(
                    occ@.take(i + 1),
                    ch,
                )[j] by {
                    lemma_covers_step(v, occ@, i as int, j);
                }
                assert(self@.cells =~= v.written(occ@.take(i + 1), ch));
            }
            i = i + 1;
        }
        proof {
            assert(occ@.take(occ@.len() as int) =~= occ@);
        }
        Ok(())
    }

    /// Whether `piece` fits: its cells are computable, inside the board and empty.
    pub fn can_place(&self, piece: &Piece) -> (r: bool)
        requires
            self@.wf(),
            !occupancy_overflows(*piece),
        ensures
            r == self@.can_place(*piece),
    {
        let occ_r = piece.get_occupancy();
        proof {
            lemma_occupancy_result(*piece, occ_r);
        }
        let to_occupy = match occ_r {
            Ok(v) => v,
            Err(_) => {
                return false;
            },
        };
        let mut i: usize = 0;
        while i < to_occupy.len()
            invariant
                i <= to_occupy@.len(),
                self@.wf(),
                occupancy_ok(*piece),
                to_occupy@ == spec_occupancy(*piece),
                forall|j: int| 0 <= j < i ==> self@.is_free(#[trigger] to_occupy@[j]),
            decreases to_occupy@.len() - i,
        {
            let cell = to_occupy[i];
            let curr = match self.get(&cell) {
                Ok(c) => c,
                Err(_) => {
                    return false;
                },
            };
            if curr != EMPTY_CELL {
                return false;
            }
            i = i + 1;
        }
        true
    }

    /// Places `piece`: every cell it covers takes the piece's character and the piece is
    /// recorded. Nothing changes when it does not fit.
    pub fn place(&mut self, piece: &Piece) -> (r: Result<(), BoardError>)
        requires
            old(self)@.wf(),
            !occupancy_overflows(*piece),
        ensures
            final(self)@.wf(),
            r is Ok <==> old(self)@.can_place(*piece),
            r is Ok ==> final(self)@ == old(self)@.placed(*piece),
            r is Err ==> *final(self) == *old(self),
            r matches Err(BoardError::InvalidPiece(e)) ==> !occupancy_ok(*piece)
                && occupancy_result(*piece, Err(e)),
            r matches Err(BoardError::InvalidCell(c)) ==> occupancy_ok(*piece) && exists|k: int|
                old(self)@.first_blocked(spec_occupancy(*piece), k) && c == spec_occupancy(*piece)[k]
                    && !old(self)@.in_bounds(c),
            r matches Err(BoardError::OccupiedCell(c)) ==> occupancy_ok(*piece) && exists|k: int|
                old(self)@.first_blocked(spec_occupancy(*piece), k) && c == spec_occupancy(*piece)[k]
                    && old(self)@.in_bounds(c),
    {
        let occ_r = piece.get_occupancy();
        proof {
            lemma_occupancy_result(*piece, occ_r);
        }
        let to_occupy = match occ_r {
            Ok(v) => v,
            Err(e) => {
                return Err(BoardError::InvalidPiece(e));
            },
        };
        let mut i: usize = 0;
        while i < to_occupy.len()
            invariant
                i <= to_occupy@.len(),
                self@.wf(),
                occupancy_ok(*piece),
                to_occupy@ == spec_occupancy(*piece),
                forall|j: int| 0 <= j < i ==> self@.is_free(#[trigger] to_occupy@[j]),
            decreases to_occupy@.len() - i,
        {
            let cell = to_occupy[i];
            let curr = match self.get(&cell) {
                Ok(c) => c,
                Err(e) => {
                    assert(self@.first_blocked(to_occupy@, i as int));
                    return Err(e);
                },
            };
            if curr != EMPTY_CELL {
                assert(self@.first_blocked(to_occupy@, i as int));
                return Err(BoardError::OccupiedCell(cell));
            }
            i = i + 1;
        }
        let ch = piece.get_char();
        let res = self.write_cells(&to_occupy, ch);
        match res {
            Ok(()) => {},
            Err(e) => {
                return Err(e);
            },
        }
        self.pieces.push(*piece);
        Ok(())
    }

    /// Takes back the last piece placed: it leaves the list of pieces and its cells become
    /// empty. The board must hold a piece.
    pub fn undo_last_move(&mut self) -> (r: Result<(), BoardError>)
        requires
            old(self)@.wf(),
            old(self)@.pieces.len() > 0,
            !occupancy_overflows(old(self)@.pieces.last()),
        ensures
            final(self)@.wf(),
            ({
                let p = old(self)@.pieces.last();
                let occ = spec_occupancy(p);
                let popped = old(self)@.with_pieces(old(self)@.pieces.drop_last());
                &&& r is Ok <==> occupancy_ok(p) && old(self)@.all_in_bounds(occ)
                &&& r is Ok ==> final(self)@ == old(self)@.undone()
                &&& r matches Err(BoardError::InvalidPiece(e)) ==> !occupancy_ok(p) && occupancy_result(
                    p,
                    Err(e),
                ) && final(self)@ == popped
                &&& r matches Err(BoardError::InvalidCell(c)) ==> occupancy_ok(p) && exists|k: int|
                    old(self)@.first_outside(occ, k) && c == occ[k] && final(self)@ == popped.with_cells(
                        old(self)@.written(occ.take(k), EMPTY_CELL),
                    )
                &&& !(r matches Err(BoardError::OccupiedCell(_)))
            }),
    {
        let ghost v = self@;
        let piece = match self.pieces.pop() {
            Some(p) => p,
            None => {
                return Ok(());
            },
        };
        assert(self@.pieces =~= v.pieces.drop_last());
        let occ_r = piece.get_occupancy();
        proof {
            lemma_occupancy_result(piece, occ_r);
        }
        let to_occupy = match occ_r {
            Ok(o) => o,
            Err(e) => {
                return Err(BoardError::InvalidPiece(e));
            },
        };
        let ghost popped = self@;
        proof {
            assert forall|o: Seq<Cell>| #[trigger] popped.written(o, EMPTY_CELL) =~= v.written(o, EMPTY_CELL) by {
                assert forall|j: int| 0 <= j < v.cells.len() implies popped.covers(o, j) == v.covers(o, j) by {
                    if popped.covers(o, j) {
                        let k = choose|k: int| 0 <= k < o.len() && popped.in_bounds(o[k]) && #[trigger] popped.index_of(o[k]) == j;
                        assert(v.index_of(o[k]) == j);
                    }
                    if v.covers(o, j) {
                        let k = choose|k: int| 0 <= k < o.len() && v.in_bounds(o[k]) && #[trigger] v.index_of(o[k]) == j;
                        assert(popped.index_of(o[k]) == j);
                    }
                }
            }
        }
        self.write_cells(&to_occupy, EMPTY_CELL)
    }

    /// Removes `piece`: its cells become empty and every equal piece leaves the list.
    pub fn remove_piece(&mut self, piece: &Piece) -> (r: Result<(), BoardError>)
        requires
            old(self)@.wf(),
            !occupancy_overflows(*piece),
        ensures
            final(self)@.wf(),
            ({
                let occ = spec_occupancy(*piece);
                &&& r is Ok <==> occupancy_ok(*piece) && old(self)@.all_in_bounds(occ)
                &&& r is Ok ==> final(self)@ == old(self)@.removed(*piece)
                &&& r matches Err(BoardError::InvalidPiece(e)) ==> !occupancy_ok(*piece)
                    && occupancy_result(*piece, Err(e)) && *final(self) == *old(self)
                &&& r matches Err(BoardError::InvalidCell(c)) ==> occupancy_ok(*piece) && exists|k: int|
                    old(self)@.first_outside(occ, k) && c == occ[k] && final(self)@ == old(self)@.with_cells(
                        old(self)@.written(occ.take(k), EMPTY_CELL),
                    )
                &&& !(r matches Err(BoardError::OccupiedCell(_)))
            }),
    {
        let occ_r = piece.get_occupancy();
        proof {
            lemma_occupancy_result(*piece, occ_r);
        }
        let to_occupy = match occ_r {
            Ok(o) => o,
            Err(e) => {
                return Err(BoardError::InvalidPiece(e));
            },
        };
        let res = self.write_cells(&to_occupy, EMPTY_CELL);
        match res {
            Ok(()) => {},
            Err(e) => {
                return Err(e);
            },
        }
        let ghost before = self.pieces@;
        let mut kept: Vec<Piece> = Vec::new();
        let mut i: usize = 0;
        while i < self.pieces.len()
            invariant
                i <= before.len(),
                self.pieces@ == before,
                kept@ == before.take(i as int).filter(other_than(*piece)),
            decreases before.len() - i,
        {
            let q = self.pieces[i];
            proof {
                assert(before.take(i + 1) =~= before.take(i as int).push(q));
                before.take(i as int).lemma_filter_push(q, other_than(*piece));
            }
            if q != *piece {
                kept.push(q);
            }
            i = i + 1;
        }
        proof {
            assert(before.take(before.len() as int) =~= before);
        }
        self.pieces = kept;
        Ok(())
    }
}


/// A placed piece can be taken back: undoing the last move right after placing `p`
/// succeeds (the piece's cells are computable and on the board) and gives back the board as
/// it was.
pub proof fn lemma_undo_after_place(v: BoardView<Piece>, p: Piece)
    requires
        v.wf(),
        v.can_place(p),
    ensures
        v.placed(p).wf(),
        v.placed(p).pieces.last() == p,
        occupancy_ok(p),
        v.placed(p).all_in_bounds(spec_occupancy(p)),
        v.placed(p).undone() == v,
{
    let w = v.placed(p);
    let occ = spec_occupancy(p);
    assert(w.pieces.last() == p);
    assert forall|k: int| 0 <= k < occ.len() implies w.in_bounds(#[trigger] occ[k]) by {
        assert(v.is_free(occ[k]));
    }
    assert forall|j: int| 0 <= j < v.cells.len() implies #[trigger] w.undone().cells[j] == v.cells[j] by {
        if w.covers(occ, j) {
            let k = choose|k: int| 0 <= k < occ.len() && w.in_bounds(occ[k]) && #[trigger] w.index_of(occ[k]) == j;
            assert(v.is_free(occ[k]));
        } else {
            assert(!v.covers(occ, j)) by {
                if v.covers(occ, j) {
                    let k = choose|k: int| 0 <= k < occ.len() && v.in_bounds(occ[k]) && #[trigger] v.index_of(occ[k]) == j;
                    assert(w.index_of(occ[k]) == j);
                }
            }
        }
    }
    assert(w.undone().cells =~= v.cells);
    assert(w.undone().pieces =~= v.pieces);
}

/// Removing a piece right after placing it succeeds (its cells are computable and on the
/// board) and gives back the board as it was, when the piece was not already listed.
pub proof fn lemma_remove_after_place(v: BoardView<Piece>, p: Piece)
    requires
        v.wf(),
        v.can_place(p),
        !v.pieces.contains(p),
    ensures
        occupancy_ok(p),
        v.placed(p).all_in_bounds(spec_occupancy(p)),
        v.placed(p).removed(p) == v,
{
    let w = v.placed(p);
    let occ = spec_occupancy(p);
    assert forall|k: int| 0 <= k < occ.len() implies w.in_bounds(#[trigger] occ[k]) by {
        assert(v.is_free(occ[k]));
    }
    assert forall|j: int| 0 <= j < v.cells.len() implies #[trigger] w.removed(p).cells[j] == v.cells[j] by {
        if w.covers(occ, j) {
            let k = choose|k: int| 0 <= k < occ.len() && w.in_bounds(occ[k]) && #[trigger] w.index_of(occ[k]) == j;
            assert(v.is_free(occ[k]));
        } else {
            assert(!v.covers(occ, j)) by {
                if v.covers(occ, j) {
                    let k = choose|k: int| 0 <= k < occ.len() && v.in_bounds(occ[k]) && #[trigger] v.index_of(occ[k]) == j;
                    assert(w.index_of(occ[k]) == j);
                }
            }
        }
    }
    assert(w.removed(p).cells =~= v.cells);
    v.pieces.lemma_filter_push(p, other_than(p));
    assert(v.pieces.filter(other_than(p)) == v.pieces) by {
        lemma_filter_keeps_all(v.pieces, p);
    }
    assert(w.removed(p).pieces =~= v.pieces);
}

proof fn lemma_char_not_empty(p: Piece)
    ensures
        spec_char(p) != EMPTY_CELL,
        spec_occupancy(p).len() > 0,
{
}

/// Placing a piece that fits keeps the board holding exactly its listed pieces.
pub proof fn lemma_place_keeps_consistent(v: BoardView<Piece>, p: Piece)
    requires
        v.consistent(),
        v.can_place(p),
    ensures
        v.placed(p).consistent(),
{
    let w = v.placed(p);
    let occ = spec_occupancy(p);
    lemma_char_not_empty(p);
    assert(w.wf()) by {
        crate::grid::lemma_written_len(v, occ, spec_char(p));
    }
    assert forall|q: Piece| #[trigger] w.pieces.contains(q) <==> v.pieces.contains(q) || q == p by {
        if w.pieces.contains(q) {
            let i = choose|i: int| 0 <= i < w.pieces.len() && w.pieces[i] == q;
            if i < v.pieces.len() {
                assert(v.pieces[i] == q);
            }
        }
        if v.pieces.contains(q) {
            let i = choose|i: int| 0 <= i < v.pieces.len() && v.pieces[i] == q;
            assert(w.pieces[i] == q);
        }
        if q == p {
            assert(w.pieces[v.pieces.len() as int] == p);
        }
    }
    // the cells of a listed piece are taken, those of `p` are free
    assert forall|q: Piece, c: Cell| v.pieces.contains(q) && #[trigger] spec_occupancy(q).contains(c) implies !occ.contains(c) by {
        lemma_char_not_empty(q);
        if occ.contains(c) {
            let k = choose|k: int| 0 <= k < occ.len() && occ[k] == c;
            assert(v.is_free(occ[k]));
        }
    }
    assert(!v.pieces.contains(p)) by {
        if v.pieces.contains(p) {
            assert(occ.contains(occ[0]));
        }
    }
    assert forall|q: Piece, c: Cell| w.pieces.contains(q) && #[trigger] spec_occupancy(q).contains(c) implies w.in_bounds(c)
        && w.at(c) == spec_char(q) by {
        if q == p {
            let k = choose|k: int| 0 <= k < occ.len() && occ[k] == c;
            assert(v.is_free(occ[k]));
        }
        lemma_place_fills_cells(v, p, c);
    }
    assert forall|c: Cell| w.in_bounds(c) && #[trigger] w.at(c) != EMPTY_CELL implies exists|q: Piece|
        w.pieces.contains(q) && #[trigger] spec_occupancy(q).contains(c) by {
        lemma_place_fills_cells(v, p, c);
        if !occ.contains(c) {
            let q = choose|q: Piece| v.pieces.contains(q) && #[trigger] spec_occupancy(q).contains(c);
            assert(w.pieces.contains(q));
        }
    }
    assert(w.pieces.no_duplicates()) by {
        assert forall|i: int, j: int| 0 <= i < w.pieces.len() && 0 <= j < w.pieces.len() && i != j implies w.pieces[i]
            != w.pieces[j] by {
            if i == v.pieces.len() {
                assert(v.pieces.contains(w.pieces[j]));
            } else if j == v.pieces.len() {
                assert(v.pieces.contains(w.pieces[i]));
            }
        }
    }
}

/// Taking back the last piece keeps the board holding exactly its listed pieces.
pub proof fn lemma_undo_keeps_consistent(v: BoardView<Piece>)
    requires
        v.consistent(),
        v.pieces.len() > 0,
    ensures
        v.undone().consistent(),
{
    let u = v.undone();
    let last = v.pieces.last();
    let occ = spec_occupancy(last);
    let n = v.pieces.len() - 1;
    assert(v.pieces[n] == last);
    assert(u.wf()) by {
        crate::grid::lemma_written_len(v, occ, EMPTY_CELL);
    }
    assert forall|q: Piece| #[trigger] u.pieces.contains(q) <==> v.pieces.contains(q) && q != last by {
        if u.pieces.contains(q) {
            let i = choose|i: int| 0 <= i < u.pieces.len() && u.pieces[i] == q;
            assert(v.pieces[i] == q);
        }
        if v.pieces.contains(q) && q != last {
            let i = choose|i: int| 0 <= i < v.pieces.len() && v.pieces[i] == q;
            assert(i != n);
            assert(u.pieces[i] == q);
        }
    }
    assert forall|q: Piece, c: Cell| u.pieces.contains(q) && #[trigger] spec_occupancy(q).contains(c) implies u.in_bounds(c)
        && u.at(c) == spec_char(q) by {
        lemma_written_at(v, occ, EMPTY_CELL, c);
    }
    assert forall|c: Cell| u.in_bounds(c) && #[trigger] u.at(c) != EMPTY_CELL implies exists|q: Piece|
        u.pieces.contains(q) && #[trigger] spec_occupancy(q).contains(c) by {
        lemma_written_at(v, occ, EMPTY_CELL, c);
        let q = choose|q: Piece| v.pieces.contains(q) && #[trigger] spec_occupancy(q).contains(c);
        assert(u.pieces.contains(q));
    }
    assert(u.pieces.no_duplicates()) by {
        assert forall|i: int, j: int| 0 <= i < u.pieces.len() && 0 <= j < u.pieces.len() && i != j implies u.pieces[i]
            != u.pieces[j] by {
            assert(u.pieces[i] == v.pieces[i] && u.pieces[j] == v.pieces[j]);
        }
    }
}

/// Removing a listed piece keeps the board holding exactly its listed pieces.
pub proof fn lemma_remove_keeps_consistent(v: BoardView<Piece>, p: Piece)
    requires
        v.consistent(),
        v.pieces.contains(p),
    ensures
        v.removed(p).consistent(),
{
    let u = v.removed(p);
    let occ = spec_occupancy(p);
    lemma_filter_other_than(v.pieces, p);
    assert(u.wf()) by {
        crate::grid::lemma_written_len(v, occ, EMPTY_CELL);
    }
    assert forall|q: Piece, c: Cell| u.pieces.contains(q) && #[trigger] spec_occupancy(q).contains(c) implies u.in_bounds(c)
        && u.at(c) == spec_char(q) by {
        lemma_written_at(v, occ, EMPTY_CELL, c);
    }
    assert forall|c: Cell| u.in_bounds(c) && #[trigger] u.at(c) != EMPTY_CELL implies exists|q: Piece|
        u.pieces.contains(q) && #[trigger] spec_occupancy(q).contains(c) by {
        lemma_written_at(v, occ, EMPTY_CELL, c);
        let q = choose|q: Piece| v.pieces.contains(q) && #[trigger] spec_occupancy(q).contains(c);
        assert(u.pieces.contains(q));
    }
}

/// After `p` is placed, each of its cells holds the piece's character, every other cell is
/// unchanged, and `p` no longer fits.
pub proof fn lemma_place_fills_cells(v: BoardView<Piece>, p: Piece, c: Cell)
    requires
        v.wf(),
        v.can_place(p),
        v.in_bounds(c),
    ensures
        spec_occupancy(p).contains(c) ==> v.placed(p).at(c) == spec_char(p),
        !spec_occupancy(p).contains(c) ==> v.placed(p).at(c) == v.at(c),
        !v.placed(p).can_place(p),
{
    let w = v.placed(p);
    let occ = spec_occupancy(p);
    lemma_index_in_bounds(c.x as int, c.y as int, v.width as int, v.height as int);
    if occ.contains(c) {
        let k = choose|k: int| 0 <= k < occ.len() && occ[k] == c;
        assert(w.index_of(occ[k]) == v.index_of(c));
        assert(w.covers(occ, v.index_of(c)));
    } else {
        if v.covers(occ, v.index_of(c)) {
            let k = choose|k: int| 0 <= k < occ.len() && v.in_bounds(occ[k]) && #[trigger] v.index_of(occ[k]) == v.index_of(c);
            lemma_index_injective(v, occ[k], c);
            assert(occ[k] == c);
            assert(occ.contains(c));
        }
        assert(!v.covers(occ, v.index_of(c)));
        assert(w.at(c) == w.cells[v.index_of(c)]);
    }
    assert(occ.len() > 0);
    let c0 = occ[0];
    assert(v.is_free(c0));
    lemma_index_in_bounds(c0.x as int, c0.y as int, v.width as int, v.height as int);
    assert(w.index_of(occ[0]) == v.index_of(c0));
    assert(w.covers(occ, v.index_of(c0)));
    assert(w.at(c0) == spec_char(p));
    assert(spec_char(p) != EMPTY_CELL);
    assert(!w.is_free(c0));
}

} // verus!
