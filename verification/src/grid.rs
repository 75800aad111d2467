use vstd::prelude::*;
use crate::approx_image::piece::Cell;

verus! {

pub const EMPTY_CELL: char = ' ';

/// The mathematical model of a board.
pub struct BoardView<P> {
    pub cells: Seq<char>,
    pub pieces: Seq<P>,
    pub width: nat,
    pub height: nat,
}

impl<P> BoardView<P> {
    pub open spec fn wf(self) -> bool {
        self.cells.len() == self.width * self.height
    }

    pub open spec fn in_bounds(self, c: Cell) -> bool {
        c.x < self.width && c.y < self.height
    }

    pub open spec fn index_of(self, c: Cell) -> int {
        c.y * self.width + c.x
    }

    /// The content of an in-bounds cell.
    pub open spec fn at(self, c: Cell) -> char {
        self.cells[self.index_of(c)]
    }

    pub open spec fn is_free(self, c: Cell) -> bool {
        self.in_bounds(c) && self.at(c) == EMPTY_CELL
    }

    /// Position `i` of the cell sequence is one of the in-bounds cells of `occ`.
    pub open spec fn covers(self, occ: Seq<Cell>, i: int) -> bool {
        exists|k: int| 0 <= k < occ.len() && self.in_bounds(occ[k]) && #[trigger] self.index_of(occ[k]) == i
    }

    /// The cells after writing `ch` into every in-bounds cell of `occ`.
    pub open spec fn written(self, occ: Seq<Cell>, ch: char) -> Seq<char> {
        Seq::new(self.cells.len(), |i: int| if self.covers(occ, i) { ch } else { self.cells[i] })
    }

    /// `values` after storing `value` at the position of every in-bounds cell of `occ`.
    pub open spec fn fill<T>(self, values: Seq<T>, occ: Seq<Cell>, value: T) -> Seq<T> {
        Seq::new(values.len(), |i: int| if self.covers(occ, i) { value } else { values[i] })
    }

    pub open spec fn with_cells(self, cells: Seq<char>) -> BoardView<P> {
        BoardView { cells, pieces: self.pieces, width: self.width, height: self.height }
    }

    pub open spec fn with_pieces(self, pieces: Seq<P>) -> BoardView<P> {
        BoardView { cells: self.cells, pieces, width: self.width, height: self.height }
    }

    /// `occ[k]` is the first cell of `occ` that is not free.
    pub open spec fn first_blocked(self, occ: Seq<Cell>, k: int) -> bool {
        &&& 0 <= k < occ.len()
        &&& forall|j: int| 0 <= j < k ==> self.is_free(#[trigger] occ[j])
        &&& !self.is_free(occ[k])
    }

    /// `occ[k]` is the first cell of `occ` outside the board.
    pub open spec fn first_outside(self, occ: Seq<Cell>, k: int) -> bool {
        &&& 0 <= k < occ.len()
        &&& forall|j: int| 0 <= j < k ==> self.in_bounds(#[trigger] occ[j])
        &&& !self.in_bounds(occ[k])
    }

    pub open spec fn all_in_bounds(self, occ: Seq<Cell>) -> bool {
        forall|j: int| 0 <= j < occ.len() ==> self.in_bounds(#[trigger] occ[j])
    }
}

/// The predicate that holds of every value but `p`.
pub open spec fn other_than<P>(p: P) -> spec_fn(P) -> bool {
    |q: P| q != p
}

pub proof fn lemma_index_in_bounds(x: int, y: int, w: int, h: int)
    requires
        0 <= x < w,
        0 <= y < h,
    ensures
        0 <= y * w,
        0 <= y * w + x < w * h,
{
    assert(y * w + x < w * h) by (nonlinear_arith)
        requires
            0 <= x < w,
            0 <= y < h,
    ;
    assert(0 <= y * w) by (nonlinear_arith)
        requires
            0 <= y,
            0 <= w,
    ;
}

/// Two in-bounds cells share a position only if they are the same cell.
pub proof fn lemma_index_injective<P>(v: BoardView<P>, c1: Cell, c2: Cell)
    requires
        v.in_bounds(c1),
        v.in_bounds(c2),
        v.index_of(c1) == v.index_of(c2),
    ensures
        c1 == c2,
{
    let w = v.width as int;
    let (x1, y1, x2, y2) = (c1.x as int, c1.y as int, c2.x as int, c2.y as int);
    assert(y1 == y2) by (nonlinear_arith)
        requires
            0 <= x1 < w,
            0 <= x2 < w,
            y1 * w + x1 == y2 * w + x2,
            0 <= y1,
            0 <= y2,
    {
        if y1 < y2 {
            assert(y1 * w + w <= y2 * w);
        } else if y2 < y1 {
            assert(y2 * w + w <= y1 * w);
        }
    }
}

/// Writing more cells: position `i` is covered by `occ.take(k + 1)` iff it is covered by
/// `occ.take(k)` or is the position of `occ[k]`.
pub proof fn lemma_covers_step<P>(v: BoardView<P>, occ: Seq<Cell>, k: int, i: int)
    requires
        0 <= k < occ.len(),
        v.in_bounds(occ[k]),
    ensures
        v.covers(occ.take(k + 1), i) == (v.covers(occ.take(k), i) || v.index_of(occ[k]) == i),
{
    let a = occ.take(k + 1);
    let b = occ.take(k);
    if v.covers(a, i) {
        let j = choose|j: int| 0 <= j < a.len() && v.in_bounds(a[j]) && #[trigger] v.index_of(a[j]) == i;
        if j < k {
            assert(b[j] == a[j]);
            assert(v.index_of(b[j]) == i);
        }
    }
    if v.covers(b, i) {
        let j = choose|j: int| 0 <= j < b.len() && v.in_bounds(b[j]) && #[trigger] v.index_of(b[j]) == i;
        assert(a[j] == b[j]);
        assert(v.index_of(a[j]) == i);
    }
    if v.index_of(occ[k]) == i {
        assert(a[k] == occ[k]);
        assert(v.index_of(a[k]) == i);
    }
}


/// Writing `ch` into free cells and then clearing them again gives back the cells.
pub proof fn lemma_clear_after_write<P>(v: BoardView<P>, occ: Seq<Cell>, ch: char)
    requires
        v.wf(),
        forall|k: int| 0 <= k < occ.len() ==> v.is_free(#[trigger] occ[k]),
    ensures
        v.with_cells(v.written(occ, ch)).written(occ, EMPTY_CELL) == v.cells,
        v.with_cells(v.written(occ, ch)).wf(),
{
    let w = v.with_cells(v.written(occ, ch));
    assert forall|j: int| 0 <= j < v.cells.len() implies #[trigger] w.written(occ, EMPTY_CELL)[j] == v.cells[j] by {
        if w.covers(occ, j) {
            let k = choose|k: int| 0 <= k < occ.len() && w.in_bounds(occ[k]) && #[trigger] w.index_of(occ[k]) == j;
            assert(v.is_free(occ[k]));
        } else {
            assert(!v.covers(occ, j)) by {
                if v.covers(occ, j) {
                    let k = choose|k: int| 0 <= k < occ.len() && v.in_bounds(occ[k]) && #[trigger] v.index_of(occ[k]) == j;
                    assert(w.index_of(occ[k]) == j);
                }
            }
        }
    }
    assert(w.written(occ, EMPTY_CELL) =~= v.cells);
}

/// Two views that differ only in their pieces write cells alike.
pub proof fn lemma_written_same_grid<P, Q>(a: BoardView<P>, b: BoardView<Q>, o: Seq<Cell>, ch: char)
    requires
        a.cells == b.cells,
        a.width == b.width,
        a.height == b.height,
    ensures
        a.written(o, ch) == b.written(o, ch),
{
    assert forall|j: int| 0 <= j < a.cells.len() implies a.covers(o, j) == b.covers(o, j) by {
        if a.covers(o, j) {
            let k = choose|k: int| 0 <= k < o.len() && a.in_bounds(o[k]) && #[trigger] a.index_of(o[k]) == j;
            assert(b.index_of(o[k]) == j);
        }
        if b.covers(o, j) {
            let k = choose|k: int| 0 <= k < o.len() && b.in_bounds(o[k]) && #[trigger] b.index_of(o[k]) == j;
            assert(a.index_of(o[k]) == j);
        }
    }
    assert(a.written(o, ch) =~= b.written(o, ch));
}



/// What writing `ch` into the cells of `occ` leaves in an in-bounds cell: `ch` when the cell
/// is one of them, its old content otherwise.
pub proof fn lemma_written_at<P>(v: BoardView<P>, occ: Seq<Cell>, ch: char, c: Cell)
    requires
        v.wf(),
        v.in_bounds(c),
    ensures
        0 <= v.index_of(c) < v.cells.len(),
        occ.contains(c) ==> v.written(occ, ch)[v.index_of(c)] == ch,
        !occ.contains(c) ==> v.written(occ, ch)[v.index_of(c)] == v.at(c),
{
    lemma_index_in_bounds(c.x as int, c.y as int, v.width as int, v.height as int);
    if occ.contains(c) {
        let k = choose|k: int| 0 <= k < occ.len() && occ[k] == c;
        assert(v.covers(occ, v.index_of(c)));
    } else if v.covers(occ, v.index_of(c)) {
        let k = choose|k: int| 0 <= k < occ.len() && v.in_bounds(occ[k]) && #[trigger] v.index_of(occ[k]) == v.index_of(c);
        lemma_index_injective(v, occ[k], c);
        assert(occ.contains(c));
    }
}

/// The listed pieces of `s` without `p` are those of `s.filter(other_than(p))`, and the
/// filter lists none twice when `s` does not.
pub proof fn lemma_filter_other_than<P>(s: Seq<P>, p: P)
    ensures
        forall|q: P| #[trigger] s.filter(other_than(p)).contains(q) <==> s.contains(q) && q != p,
        s.no_duplicates() ==> s.filter(other_than(p)).no_duplicates(),
    decreases s.len(),
{
    reveal_with_fuel(Seq::filter, 1);
    if s.len() > 0 {
        let t = s.drop_last();
        let e = s.last();
        lemma_filter_other_than(t, p);
        t.lemma_filter_push(e, other_than(p));
        assert(t.push(e) =~= s);
        let f = s.filter(other_than(p));
        let g = t.filter(other_than(p));
        assert forall|q: P| #[trigger] f.contains(q) <==> s.contains(q) && q != p by {
            if f.contains(q) {
                let i = choose|i: int| 0 <= i < f.len() && f[i] == q;
                if e != p && i == f.len() - 1 {
                    assert(s[s.len() - 1] == q);
                } else {
                    assert(g[i] == q);
                    assert(g.contains(q));
                    let j = choose|j: int| 0 <= j < t.len() && t[j] == q;
                    assert(s[j] == q);
                }
            }
            if s.contains(q) && q != p {
                let j = choose|j: int| 0 <= j < s.len() && s[j] == q;
                if j == s.len() - 1 {
                    assert(f[f.len() - 1] == q);
                } else {
                    assert(t[j] == q);
                    assert(g.contains(q));
                    let i = choose|i: int| 0 <= i < g.len() && g[i] == q;
                    assert(f[i] == q);
                }
            }
        }
        if s.no_duplicates() {
            assert(t.no_duplicates()) by {
                assert forall|i: int, j: int| 0 <= i < t.len() && 0 <= j < t.len() && i != j implies t[i] != t[j] by {
                    assert(s[i] == t[i] && s[j] == t[j]);
                }
            }
            if e != p {
                assert(!g.contains(e)) by {
                    if g.contains(e) {
                        let j = choose|j: int| 0 <= j < t.len() && t[j] == e;
                        assert(s[j] == s[s.len() - 1]);
                    }
                }
                assert forall|i: int, j: int| 0 <= i < f.len() && 0 <= j < f.len() && i != j implies f[i] != f[j] by {
                    if i == f.len() - 1 {
                        assert(g.contains(f[j]));
                    } else if j == f.len() - 1 {
                        assert(g.contains(f[i]));
                    } else {
                        assert(f[i] == g[i] && f[j] == g[j]);
                    }
                }
            }
        }
    }
}

/// Keeping every value but `p` keeps a sequence that does not hold `p` whole.
pub proof fn lemma_filter_keeps_all<P>(s: Seq<P>, p: P)
    requires
        !s.contains(p),
    ensures
        s.filter(other_than(p)) == s,
    decreases s.len(),
{
    if s.len() > 0 {
        let t = s.drop_last();
        assert(!t.contains(p)) by {
            if t.contains(p) {
                let i = choose|i: int| 0 <= i < t.len() && t[i] == p;
                assert(s[i] == p);
            }
        }
        lemma_filter_keeps_all(t, p);
        assert(s.last() != p) by {
            assert(s[s.len() - 1] == s.last());
        }
        t.lemma_filter_push(s.last(), other_than(p));
        assert(t.push(s.last()) =~= s);
    }
}

pub proof fn lemma_written_len<P>(v: BoardView<P>, occ: Seq<Cell>, ch: char)
    ensures
        v.written(occ, ch).len() == v.cells.len(),
{
}

} // verus!
