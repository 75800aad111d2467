use vstd::prelude::*;
use rand::distributions::Distribution;
use crate::board::{Board, pieces_fit, lemma_pieces_fit_kept};
use crate::grid::{BoardView, EMPTY_CELL};
use crate::piece::{Cell, Orientation, Piece, occupancy_overflows};

verus! {

#[derive(Debug)]
pub enum GeneticError {
    /// The random piece chosen to mutate a board did not fit.
    FailedToGenerate,
}

/// A fair coin.
/// Calls `rand::random::<bool>()`; nothing is promised of the outcome.
#[verifier::external_body]
fn coin_flip() -> bool {
    rand::random::<bool>()
}

/// A number drawn uniformly from `0..n`.
/// Calls `rand::distributions::Uniform::from(0..n).sample` on the thread's generator; the
/// crate documents that the sample lies in the range, and `Uniform::new` panics on an empty one.
#[verifier::external_body]
fn random_below(n: usize) -> (r: usize)
    requires
        n > 0,
    ensures
        r < n,
{
    rand::distributions::Uniform::from(0..n).sample(&mut rand::thread_rng())
}

/// Trying to place `p`: the board with `p` placed when it fits, the board unchanged
/// otherwise.
pub open spec fn settle(v: BoardView<Piece>, p: Piece) -> BoardView<Piece> {
    if v.can_place(p) {
        v.placed(p)
    } else {
        v
    }
}

/// The board after trying to place the pieces of `ps` in order.
pub open spec fn settle_all(v: BoardView<Piece>, ps: Seq<Piece>) -> BoardView<Piece>
    decreases ps.len(),
{
    if ps.len() == 0 {
        v
    } else {
        settle(settle_all(v, ps.drop_last()), ps.last())
    }
}

/// The number of `true` entries of `picks`.
pub open spec fn count_true(picks: Seq<bool>) -> int
    decreases picks.len(),
{
    if picks.len() == 0 {
        0
    } else {
        count_true(picks.drop_last()) + if picks.last() {
            1int
        } else {
            0int
        }
    }
}

/// The pieces of `a` and `b` taken in the order `picks` gives: `true` takes the next piece
/// of `a`, `false` the next piece of `b`.
pub open spec fn merged(a: Seq<Piece>, b: Seq<Piece>, picks: Seq<bool>) -> Seq<Piece>
    decreases picks.len(),
{
    if picks.len() == 0 {
        Seq::empty()
    } else {
        let prev = picks.drop_last();
        let i = count_true(prev);
        let j = prev.len() - count_true(prev);
        merged(a, b, prev).push(if picks.last() {
            a[i]
        } else {
            b[j]
        })
    }
}

/// `picks` takes every piece of `a` and of `b` exactly once.
pub open spec fn complete_picks(a: Seq<Piece>, b: Seq<Piece>, picks: Seq<bool>) -> bool {
    count_true(picks) == a.len() && picks.len() - count_true(picks) == b.len()
}

/// An empty `width x height` board.
pub open spec fn empty_board(v: BoardView<Piece>, width: int, height: int) -> bool {
    &&& v.wf()
    &&& v.width == width
    &&& v.height == height
    &&& v.pieces.len() == 0
    &&& forall|i: int| 0 <= i < v.cells.len() ==> #[trigger] v.cells[i] == EMPTY_CELL
}

/// The piece a mutation draws: the kind by `piece_index` (0 to 6: I, J, L, O, S, T, Z), the
/// orientation by `orientation_index` (0 to 3: NORTH, EAST, SOUTH, WEST), anchored at
/// (`x`, `y`).
pub open spec fn drawn_piece(x: usize, y: usize, orientation_index: usize, piece_index: usize) -> Piece {
    let cell = Cell { x, y };
    let o = if orientation_index == 0 {
        Orientation::NORTH
    } else if orientation_index == 1 {
        Orientation::EAST
    } else if orientation_index == 2 {
        Orientation::SOUTH
    } else {
        Orientation::WEST
    };
    if piece_index == 0 {
        Piece::I(cell, o)
    } else if piece_index == 1 {
        Piece::J(cell, o)
    } else if piece_index == 2 {
        Piece::L(cell, o)
    } else if piece_index == 3 {
        Piece::O(cell, o)
    } else if piece_index == 4 {
        Piece::S(cell, o)
    } else if piece_index == 5 {
        Piece::T(cell, o)
    } else {
        Piece::Z(cell, o)
    }
}

/// The draws a mutation of `old` makes: a cell on the board, an orientation and a kind, and
/// when it deletes, the position of a listed piece.
pub open spec fn valid_draws(
    old: BoardView<Piece>,
    delete: bool,
    index: usize,
    x: usize,
    y: usize,
    orientation_index: usize,
    piece_index: usize,
) -> bool {
    &&& x < old.width
    &&& y < old.height
    &&& orientation_index < 4
    &&& piece_index < 7
    &&& delete ==> index < old.pieces.len()
}

/// `new` is `old` after the mutation with these draws, and `ok` tells whether it succeeded:
/// when deleting, the piece at `index` is removed; otherwise the drawn piece is placed when
/// it fits and the board stays as it is when it does not.
pub open spec fn mutation_outcome(
    old: BoardView<Piece>,
    new: BoardView<Piece>,
    ok: bool,
    delete: bool,
    index: usize,
    x: usize,
    y: usize,
    orientation_index: usize,
    piece_index: usize,
) -> bool {
    if delete {
        ok && new == old.removed(old.pieces[index as int])
    } else {
        let p = drawn_piece(x, y, orientation_index, piece_index);
        if old.can_place(p) {
            ok && new == old.placed(p)
        } else {
            !ok && new == old
        }
    }
}

/// `new` and `ok` are what a mutation of `old` can leave for some draws.
pub open spec fn mutated(old: BoardView<Piece>, new: BoardView<Piece>, ok: bool) -> bool {
    exists|delete: bool, index: usize, x: usize, y: usize, oi: usize, pi: usize|
        #[trigger] valid_draws(old, delete, index, x, y, oi, pi) && mutation_outcome(
            old,
            new,
            ok,
            delete,
            index,
            x,
            y,
            oi,
            pi,
        )
}

/// The boards a mutation can act on without overflowing coordinates.
pub open spec fn mutable_board(v: BoardView<Piece>) -> bool {
    &&& v.wf()
    &&& pieces_fit(v)
    &&& 0 < v.width < i32::MAX
    &&& 0 < v.height < i32::MAX
}

proof fn lemma_drawn_piece_fits(x: usize, y: usize, orientation_index: usize, piece_index: usize, width: int, height: int)
    requires
        x < width < i32::MAX,
        y < height < i32::MAX,
    ensures
        !occupancy_overflows(drawn_piece(x, y, orientation_index, piece_index)),
{
    let p = drawn_piece(x, y, orientation_index, piece_index);
    let c = crate::piece::spec_cell(p);
    assert(c == Cell { x, y });
    assert(crate::piece::wrapped(c.x) == c.x);
    assert(crate::piece::wrapped(c.y) == c.y);
    crate::piece::lemma_first_failure_range(c, crate::piece::piece_dirs(p), 0);
}

/// One mutation with its draws given: with `delete`, the piece at `index` is removed;
/// otherwise the drawn piece is placed, an error when it does not fit.
pub fn mutate_with(
    board: &mut Board,
    delete: bool,
    index: usize,
    x: usize,
    y: usize,
    orientation_index: usize,
    piece_index: usize,
) -> (r: Result<(), GeneticError>)
    requires
        mutable_board(old(board)@),
        valid_draws(old(board)@, delete, index, x, y, orientation_index, piece_index),
    ensures
        mutation_outcome(old(board)@, final(board)@, r is Ok, delete, index, x, y, orientation_index, piece_index),
        mutable_board(final(board)@),
{
    let ghost v = board@;
    if delete {
        let piece = board.pieces[index];
        proof {
            assert(v.pieces[index as int] == piece);
            lemma_pieces_fit_kept(v, piece);
        }
        let res = board.remove_piece(&piece);
        proof {
            assert(res is Ok);
        }
        return Ok(());
    }
    let cell = Cell { x, y };
    let orientation = if orientation_index == 0 {
        Orientation::NORTH
    } else if orientation_index == 1 {
        Orientation::EAST
    } else if orientation_index == 2 {
        Orientation::SOUTH
    } else {
        Orientation::WEST
    };
    let piece = if piece_index == 0 {
        Piece::I(cell, orientation)
    } else if piece_index == 1 {
        Piece::J(cell, orientation)
    } else if piece_index == 2 {
        Piece::L(cell, orientation)
    } else if piece_index == 3 {
        Piece::O(cell, orientation)
    } else if piece_index == 4 {
        Piece::S(cell, orientation)
    } else if piece_index == 5 {
        Piece::T(cell, orientation)
    } else {
        Piece::Z(cell, orientation)
    };
    proof {
        assert(piece == drawn_piece(x, y, orientation_index, piece_index));
        lemma_drawn_piece_fits(x, y, orientation_index, piece_index, v.width as int, v.height as int);
        lemma_pieces_fit_kept(v, piece);
    }
    if board.place(&piece).is_ok() {
        return Ok(());
    }
    Err(GeneticError::FailedToGenerate)
}

/// Mutates a board: with even odds (when it holds pieces) one of its pieces, drawn
/// uniformly, is removed; otherwise a tetromino of a drawn kind and orientation at a drawn
/// cell is placed, an error when it does not fit. The draws are made with `coin_flip` and
/// `random_below` (over the number of pieces, the width, the height, 4 and 7) and handed to
/// `mutate_with`.
pub fn mutate(board: &mut Board) -> (r: Result<(), GeneticError>)
    requires
        mutable_board(old(board)@),
    ensures
        mutated(old(board)@, final(board)@, r is Ok),
        mutable_board(final(board)@),
{
    let ghost v = board@;
    let delete: bool = coin_flip() && board.pieces.len() > 0;
    if delete {
        let index = random_below(board.pieces.len());
        let r = mutate_with(board, true, index, 0, 0, 0, 0);
        proof {
            assert(valid_draws(v, true, index, 0, 0, 0, 0));
        }
        return r;
    }
    let x = random_below(board.width);
    let y = random_below(board.height);
    let orientation_index = random_below(4);
    let piece_index = random_below(7);
    let r = mutate_with(board, false, 0, x, y, orientation_index, piece_index);
    proof {
        assert(valid_draws(v, false, 0, x, y, orientation_index, piece_index));
    }
    r
}

proof fn lemma_settle_all_push(v: BoardView<Piece>, ps: Seq<Piece>, p: Piece)
    ensures
        settle_all(v, ps.push(p)) == settle(settle_all(v, ps), p),
{
    assert(ps.push(p).drop_last() =~= ps);
}

proof fn lemma_merged_push(a: Seq<Piece>, b: Seq<Piece>, picks: Seq<bool>, pick: bool)
    ensures
        merged(a, b, picks.push(pick)) == merged(a, b, picks).push(
            if pick {
                a[count_true(picks)]
            } else {
                b[picks.len() - count_true(picks)]
            },
        ),
        count_true(picks.push(pick)) == count_true(picks) + if pick {
            1int
        } else {
            0int
        },
{
    assert(picks.push(pick).drop_last() =~= picks);
}

proof fn lemma_settle_keeps(v: BoardView<Piece>, p: Piece)
    requires
        v.wf(),
        pieces_fit(v),
        !occupancy_overflows(p),
    ensures
        settle(v, p).wf(),
        pieces_fit(settle(v, p)),
        settle(v, p).width == v.width,
        settle(v, p).height == v.height,
{
    lemma_pieces_fit_kept(v, p);
    if v.can_place(p) {
        crate::grid::lemma_written_len(v, crate::piece::spec_occupancy(p), crate::piece::spec_char(p));
    }
}

/// A child of two boards: the pieces of both parents are tried on an empty board of the
/// first parent's size, the two lists interleaved at random with each list's order kept;
/// the child is then mutated.
pub fn breed(board1: &Board, board2: &Board) -> (r: Result<Board, GeneticError>)
    requires
        board1.width * board1.height <= usize::MAX,
        0 < board1.width < i32::MAX,
        0 < board1.height < i32::MAX,
        forall|i: int| 0 <= i < board1@.pieces.len() ==> !occupancy_overflows(#[trigger] board1@.pieces[i]),
        forall|i: int| 0 <= i < board2@.pieces.len() ==> !occupancy_overflows(#[trigger] board2@.pieces[i]),
    ensures
        exists|start: BoardView<Piece>, picks: Seq<bool>|
            empty_board(start, board1.width as int, board1.height as int) && complete_picks(
                board1@.pieces,
                board2@.pieces,
                picks,
            ) && {
                let child = #[trigger] settle_all(start, merged(board1@.pieces, board2@.pieces, picks));
                &&& r matches Ok(b) ==> mutated(child, b@, true) && mutable_board(b@)
                &&& r is Err ==> mutated(child, child, false)
            },
{
    let mut board = Board::new(board1.width, board1.height);
    let ghost start = board@;
    let ghost a = board1@.pieces;
    let ghost b = board2@.pieces;
    let ghost mut picks: Seq<bool> = Seq::empty();
    let mut i: usize = 0;
    let mut j: usize = 0;
    proof {
        assert(start.pieces =~= Seq::<Piece>::empty());
        assert(settle_all(start, merged(a, b, picks)) == start);
    }
    while i < board1.pieces.len() && j < board2.pieces.len()
        invariant
            a == board1@.pieces,
            b == board2@.pieces,
            forall|k: int| 0 <= k < a.len() ==> !occupancy_overflows(#[trigger] a[k]),
            forall|k: int| 0 <= k < b.len() ==> !occupancy_overflows(#[trigger] b[k]),
            i <= a.len(),
            j <= b.len(),
            count_true(picks) == i,
            picks.len() - count_true(picks) == j,
            board@ == settle_all(start, merged(a, b, picks)),
            board@.wf(),
            pieces_fit(board@),
            board@.width == board1.width,
            board@.height == board1.height,
        decreases a.len() + b.len() - i - j,
    {
        if coin_flip() {
            let piece = board1.pieces[i];
            proof {
                lemma_merged_push(a, b, picks, true);
                lemma_settle_all_push(start, merged(a, b, picks), piece);
                lemma_settle_keeps(board@, piece);
                picks = picks.push(true);
            }
            let _ = board.place(&piece);
            i = i + 1;
        } else {
            let piece = board2.pieces[j];
            proof {
                lemma_merged_push(a, b, picks, false);
                lemma_settle_all_push(start, merged(a, b, picks), piece);
                lemma_settle_keeps(board@, piece);
                picks = picks.push(false);
            }
            let _ = board.place(&piece);
            j = j + 1;
        }
    }
    while i < board1.pieces.len()
        invariant
            a == board1@.pieces,
            b == board2@.pieces,
            forall|k: int| 0 <= k < a.len() ==> !occupancy_overflows(#[trigger] a[k]),
            i <= a.len(),
            j <= b.len(),
            count_true(picks) == i,
            picks.len() - count_true(picks) == j,
            board@ == settle_all(start, merged(a, b, picks)),
            board@.wf(),
            pieces_fit(board@),
            board@.width == board1.width,
            board@.height == board1.height,
        decreases a.len() - i,
    {
        let piece = board1.pieces[i];
        proof {
            lemma_merged_push(a, b, picks, true);
            lemma_settle_all_push(start, merged(a, b, picks), piece);
            lemma_settle_keeps(board@, piece);
            picks = picks.push(true);
        }
        let _ = board.place(&piece);
        i = i + 1;
    }
    while j < board2.pieces.len()
        invariant
            a == board1@.pieces,
            b == board2@.pieces,
            forall|k: int| 0 <= k < b.len() ==> !occupancy_overflows(#[trigger] b[k]),
            i == a.len(),
            j <= b.len(),
            count_true(picks) == i,
            picks.len() - count_true(picks) == j,
            board@ == settle_all(start, merged(a, b, picks)),
            board@.wf(),
            pieces_fit(board@),
            board@.width == board1.width,
            board@.height == board1.height,
        decreases b.len() - j,
    {
        let piece = board2.pieces[j];
        proof {
            lemma_merged_push(a, b, picks, false);
            lemma_settle_all_push(start, merged(a, b, picks), piece);
            lemma_settle_keeps(board@, piece);
            picks = picks.push(false);
        }
        let _ = board.place(&piece);
        j = j + 1;
    }
    let ghost child = board@;
    let res = mutate(&mut board);
    proof {
        assert(empty_board(start, board1.width as int, board1.height as int));
        assert(complete_picks(a, b, picks));
    }
    match res {
        Ok(_) => Ok(board),
        Err(e) => Err(e),
    }
}

} // verus!
