use vstd::prelude::*;
use vstd::multiset::Multiset;
use rust_lapper::{Interval, Lapper};

verus! {

/// Frequency intervals [start, stop), each tagged with the clip that plays in it, held in a
/// rust_lapper collection. Verus does not read the collection: what it holds is named
/// `note_contents`.
#[verifier::external_body]
#[derive(Debug)]
pub struct NoteIntervals {
    lapper: Lapper<usize, usize>,
}

/// The intervals a collection holds, each as (start, stop, clip).
pub uninterp spec fn note_contents(n: NoteIntervals) -> Multiset<(usize, usize, usize)>;

/// The half-open interval [`start`, `stop`) meets [`from`, `to`).
pub open spec fn overlaps(iv: (usize, usize, usize), from: usize, to: usize) -> bool {
    iv.0 < to && iv.1 > from
}

/// An empty collection.
/// Calls `Lapper::new` on an empty list, which holds exactly the intervals it is given.
#[verifier::external_body]
fn new_lapper() -> (n: NoteIntervals)
    ensures
        note_contents(n) == Multiset::<(usize, usize, usize)>::empty(),
{
    NoteIntervals { lapper: Lapper::new(Vec::new()) }
}

/// Adds one interval.
/// Calls `Lapper::insert`, which adds the interval to the ones held and drops none.
#[verifier::external_body]
fn lapper_insert(n: &mut NoteIntervals, start: usize, stop: usize, val: usize)
    ensures
        note_contents(*final(n)) == note_contents(*old(n)).insert((start, stop, val)),
{
    n.lapper.insert(Interval { start, stop, val });
}

/// The intervals that meet [`from`, `to`).
/// Calls `Lapper::find`, which yields every held interval with `start < to` and `stop > from`
/// once; the order they come in is not stated.
#[verifier::external_body]
fn lapper_find(n: &NoteIntervals, from: usize, to: usize) -> (r: Vec<(usize, usize, usize)>)
    ensures
        r@.to_multiset() == note_contents(*n).filter(|iv: (usize, usize, usize)| overlaps(iv, from, to)),
{
    n.lapper.find(from, to).map(|iv| (iv.start, iv.stop, iv.val)).collect()
}

/// Whether the collection holds no interval.
/// Calls `Lapper::is_empty`, which tells whether the list of held intervals is empty.
#[verifier::external_body]
fn lapper_is_empty(n: &NoteIntervals) -> (r: bool)
    ensures
        r == (note_contents(*n).len() == 0),
{
    n.lapper.is_empty()
}

impl View for NoteIntervals {
    type V = Multiset<(usize, usize, usize)>;

    open spec fn view(&self) -> Multiset<(usize, usize, usize)> {
        note_contents(*self)
    }
}

/// The interval meets the frequency `freq`: `start <= freq < stop`.
pub open spec fn holds_frequency(iv: (usize, usize, usize), freq: usize) -> bool {
    iv.0 <= freq < iv.1
}

impl NoteIntervals {
    pub fn new() -> (n: NoteIntervals)
        ensures
            n@ == Multiset::<(usize, usize, usize)>::empty(),
    {
        new_lapper()
    }

    /// Adds the interval [`start`, `stop`) for clip `clip`.
    pub fn insert(&mut self, start: usize, stop: usize, clip: usize)
        ensures
            final(self)@ == old(self)@.insert((start, stop, clip)),
    {
        lapper_insert(self, start, stop, clip);
    }

    pub fn is_empty(&self) -> (r: bool)
        ensures
            r == (self@.len() == 0),
    {
        lapper_is_empty(self)
    }

    /// The intervals that hold the frequency `freq`, each as (start, stop, clip), in no
    /// stated order.
    pub fn covering(&self, freq: usize) -> (r: Vec<(usize, usize, usize)>)
        requires
            freq < usize::MAX,
        ensures
            r@.to_multiset() == self@.filter(|iv: (usize, usize, usize)| holds_frequency(iv, freq)),
    {
        let r = lapper_find(self, freq, freq + 1);
        proof {
            let f1 = |iv: (usize, usize, usize)| overlaps(iv, freq, (freq + 1) as usize);
            let f2 = |iv: (usize, usize, usize)| holds_frequency(iv, freq);
            assert(f1 =~= f2);
        }
        r
    }

    /// Whether some interval holds the frequency `freq`.
    pub fn covers(&self, freq: usize) -> (r: bool)
        requires
            freq < usize::MAX,
        ensures
            r == exists|iv: (usize, usize, usize)| self@.count(iv) > 0 && holds_frequency(iv, freq),
    {
        let found = self.covering(freq);
        let ghost m = self@.filter(|iv: (usize, usize, usize)| holds_frequency(iv, freq));
        proof {
            broadcast use vstd::multiset::group_multiset_axioms;
            broadcast use vstd::seq_lib::group_to_multiset_ensures;

            if found@.len() > 0 {
                let iv = found@[0];
                assert(found@.to_multiset().count(iv) > 0);
                assert(m.count(iv) > 0);
            } else {
                assert forall|iv: (usize, usize, usize)| self@.count(iv) > 0 implies !holds_frequency(iv, freq) by {
                    if holds_frequency(iv, freq) {
                        assert(m.count(iv) == self@.count(iv));
                        assert(found@.to_multiset().len() == 0);
                    }
                }
            }
        }
        found.len() > 0
    }
}

} // verus!
