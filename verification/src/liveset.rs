//! The sparse set of currently-alive cells.

use vstd::prelude::*;
use crate::cell::{Cell, in_range};

verus! {

broadcast use vstd::seq_lib::group_seq_properties;

/// The coordinate views of a sequence of cells.
pub open spec fn coords_of(cells: Seq<Cell>) -> Seq<(int, int)> {
    cells.map_values(|c: Cell| c@)
}

/// No position occurs twice in the sequence.
pub open spec fn distinct(q: Seq<(int, int)>) -> bool {
    forall|i: int, j: int| 0 <= i < j < q.len() ==> q[i] != q[j]
}

/// The set of positions a sequence holds.
pub open spec fn coord_set(q: Seq<(int, int)>) -> Set<(int, int)> {
    Set::new(|p: (int, int)| q.contains(p))
}

/// The currently-alive cells: a sparse, unordered set of positions on the
/// unbounded plane. Absence means dead. Each position appears at most once.
pub struct LiveSet {
    cells: Vec<Cell>,
}

impl View for LiveSet {
    type V = Set<(int, int)>;

    closed spec fn view(&self) -> Set<(int, int)> {
        coord_set(coords_of(self.cells@))
    }
}

impl LiveSet {
    /// Internal invariant: no position occurs twice, and every position
    /// leaves room for its neighbours within the coordinate type.
    pub closed spec fn wf(&self) -> bool {
        &&& distinct(coords_of(self.cells@))
        &&& forall|i: int| 0 <= i < self.cells@.len() ==> in_range(
            #[trigger] coords_of(self.cells@)[i],
        )
    }

    /// The empty set: no cell is alive.
    pub fn new() -> (r: LiveSet)
        ensures
            r.wf(),
            r@ == Set::<(int, int)>::empty(),
    {
        let r = LiveSet { cells: Vec::new() };
        proof {
            assert(r@ =~= Set::<(int, int)>::empty());
        }
        r
    }

    /// Whether the cell at position `c` is alive.
    pub fn contains(&self, c: Cell) -> (r: bool)
        ensures
            r == self@.contains(c@),
    {
        let n = self.cells.len();
        let mut i: usize = 0;
        while i < n
            invariant
                0 <= i <= n,
                n == self.cells@.len(),
                forall|j: int| 0 <= j < i ==> coords_of(self.cells@)[j] != c@,
            decreases n - i,
        {
            if self.cells[i].x == c.x && self.cells[i].y == c.y {
                proof {
                    assert(coords_of(self.cells@)[i as int] == c@);
                    assert(coords_of(self.cells@).contains(c@));
                }
                return true;
            }
            i += 1;
        }
        proof {
            assert(!coords_of(self.cells@).contains(c@));
        }
        false
    }

    /// Makes the cell at `c` alive; a no-op if it already is.
    pub fn insert(&mut self, c: Cell)
        requires
            old(self).wf(),
            in_range(c@),
        ensures
            final(self).wf(),
            final(self)@ == old(self)@.insert(c@),
    {
        if !self.contains(c) {
            proof {
                assert(!coords_of(self.cells@).contains(c@));
            }
            self.cells.push(c);
            proof {
                assert(coords_of(self.cells@) =~= coords_of(old(self).cells@).push(c@));
                assert(self@ =~= old(self)@.insert(c@));
            }
        } else {
            proof {
                assert(self@ =~= old(self)@.insert(c@));
            }
        }
    }

    /// Makes the cell at `c` dead; a no-op if it already is.
    pub fn remove(&mut self, c: Cell)
        requires
            old(self).wf(),
        ensures
            final(self).wf(),
            final(self)@ == old(self)@.remove(c@),
    {
        let n = self.cells.len();
        let mut out: Vec<Cell> = Vec::new();
        let mut i: usize = 0;
        while i < n
            invariant
                0 <= i <= n,
                n == self.cells@.len(),
                *self == *old(self),
                old(self).wf(),
                distinct(coords_of(out@)),
                forall|k: int| 0 <= k < out@.len() ==> in_range(#[trigger] coords_of(out@)[k]),
                forall|p: (int, int)| coords_of(out@).contains(p) <==> (coords_of(
                    self.cells@,
                ).take(i as int).contains(p) && p != c@),
            decreases n - i,
        {
            let ghost q = coords_of(self.cells@);
            let ghost pre = q.take(i as int);
            let ghost post = q.take(i as int + 1);
            proof {
                assert(post =~= pre.push(q[i as int]));
            }
            if self.cells[i].x == c.x && self.cells[i].y == c.y {
                proof {
                    assert(q[i as int] == c@);
                }
            } else {
                let ghost old_out = coords_of(out@);
                out.push(self.cells[i]);
                proof {
                    assert(coords_of(out@) =~= old_out.push(q[i as int]));
                    // the pushed position is fresh: it does not occur in the prefix
                    assert forall|k: int| 0 <= k < old_out.len() implies old_out[k] != q[
                        i as int
                    ] by {
                        assert(old_out.contains(old_out[k]));
                        let m = choose|m: int| 0 <= m < pre.len() && pre[m] == old_out[k];
                        assert(q[m] == old_out[k]);
                    }
                }
            }
            i += 1;
        }
        proof {
            assert(coords_of(self.cells@).take(n as int) =~= coords_of(self.cells@));
        }
        self.cells = out;
        proof {
            assert(self@ =~= old(self)@.remove(c@));
        }
    }

    /// The alive cells as a vector, each position once, in no promised order.
    pub fn to_vec(&self) -> (r: Vec<Cell>)
        requires
            self.wf(),
        ensures
            distinct(coords_of(r@)),
            forall|k: int| 0 <= k < r@.len() ==> in_range(#[trigger] coords_of(r@)[k]),
            forall|p: (int, int)| self@.contains(p) <==> coords_of(r@).contains(p),
    {
        let n = self.cells.len();
        let mut out: Vec<Cell> = Vec::new();
        let mut i: usize = 0;
        while i < n
            invariant
                0 <= i <= n,
                n == self.cells@.len(),
                out@ == self.cells@.take(i as int),
            decreases n - i,
        {
            out.push(self.cells[i]);
            proof {
                assert(out@ =~= self.cells@.take(i as int + 1));
            }
            i += 1;
        }
        proof {
            assert(out@ =~= self.cells@);
        }
        out
    }

    /// Whether no cell at all is alive.
    pub fn is_empty(&self) -> (r: bool)
        ensures
            r == (self@ =~= Set::<(int, int)>::empty()),
    {
        let r = self.cells.len() == 0;
        proof {
            if self.cells@.len() == 0 {
                assert(self@ =~= Set::<(int, int)>::empty());
            } else {
                assert(coords_of(self.cells@)[0] == self.cells@[0]@);
                assert(coords_of(self.cells@).contains(self.cells@[0]@));
                assert(self@.contains(self.cells@[0]@));
            }
        }
        r
    }

    /// Whether the two sets hold exactly the same positions.
    pub fn set_eq(&self, other: &LiveSet) -> (r: bool)
        requires
            self.wf(),
            other.wf(),
        ensures
            r == (self@ == other@),
    {
        let a = self.to_vec();
        let n = a.len();
        let mut i: usize = 0;
        while i < n
            invariant
                0 <= i <= n,
                n == a@.len(),
                self.wf(),
                other.wf(),
                distinct(coords_of(a@)),
                forall|p: (int, int)| self@.contains(p) <==> coords_of(a@).contains(p),
                forall|k: int| 0 <= k < i ==> other@.contains(#[trigger] coords_of(a@)[k]),
            decreases n - i,
        {
            if !other.contains(a[i]) {
                proof {
                    assert(coords_of(a@)[i as int] == a@[i as int]@);
                    assert(coords_of(a@).contains(a@[i as int]@));
                    assert(self@.contains(a@[i as int]@));
                }
                return false;
            }
            i += 1;
        }
        let b = other.to_vec();
        let m = b.len();
        let mut j: usize = 0;
        while j < m
            invariant
                0 <= j <= m,
                m == b@.len(),
                self.wf(),
                other.wf(),
                distinct(coords_of(b@)),
                forall|p: (int, int)| other@.contains(p) <==> coords_of(b@).contains(p),
                forall|p: (int, int)| self@.contains(p) ==> other@.contains(p),
                forall|k: int| 0 <= k < j ==> self@.contains(#[trigger] coords_of(b@)[k]),
            decreases m - j,
        {
            if !self.contains(b[j]) {
                proof {
                    assert(coords_of(b@)[j as int] == b@[j as int]@);
                    assert(coords_of(b@).contains(b@[j as int]@));
                    assert(other@.contains(b@[j as int]@));
                }
                return false;
            }
            j += 1;
        }
        proof {
            assert forall|p: (int, int)| other@.contains(p) implies self@.contains(p) by {
                assert(coords_of(b@).contains(p));
                let k = choose|k: int| 0 <= k < coords_of(b@).len() && coords_of(b@)[k] == p;
                assert(self@.contains(coords_of(b@)[k]));
            }
            assert(self@ =~= other@);
        }
        true
    }

    /// The set holding exactly the positions of `v` (duplicates collapse).
    pub fn from_cells(v: &Vec<Cell>) -> (r: LiveSet)
        requires
            forall|k: int| 0 <= k < v@.len() ==> in_range(#[trigger] coords_of(v@)[k]),
        ensures
            r.wf(),
            r@ == coord_set(coords_of(v@)),
    {
        let n = v.len();
        let mut r = LiveSet::new();
        let mut i: usize = 0;
        while i < n
            invariant
                0 <= i <= n,
                n == v@.len(),
                forall|k: int| 0 <= k < v@.len() ==> in_range(#[trigger] coords_of(v@)[k]),
                r.wf(),
                r@ == coord_set(coords_of(v@).take(i as int)),
            decreases n - i,
        {
            let ghost pre = coords_of(v@).take(i as int);
            let ghost post = coords_of(v@).take(i as int + 1);
            proof {
                assert(post =~= pre.push(coords_of(v@)[i as int]));
                assert(in_range(coords_of(v@)[i as int]));
            }
            r.insert(v[i]);
            proof {
                assert(r@ =~= coord_set(post));
            }
            i += 1;
        }
        proof {
            assert(coords_of(v@).take(n as int) =~= coords_of(v@));
        }
        r
    }
}

} // verus!
