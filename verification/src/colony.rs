//! The simulation state and the generation step.

use vstd::prelude::*;
use crate::cell::{Cell, in_range};
use crate::liveset::{LiveSet, coords_of, coord_set};
use crate::counter::{
    count_neighbours, count_of, has_key, unique_keys, live_neighbours, lemma_count_at,
};

verus! {

broadcast use vstd::seq_lib::group_seq_properties;

/// The birth/survival rule at one position: alive in the next generation iff
/// it is alive with exactly 2 live neighbours, or has exactly 3 live
/// neighbours (whether or not it is alive now). No other count gives life;
/// in particular a position with no live neighbour at all is dead afterwards.
pub open spec fn rule_alive(s: Set<(int, int)>, p: (int, int)) -> bool {
    ||| s.contains(p) && live_neighbours(s, p) == 2
    ||| live_neighbours(s, p) == 3
}

/// The next generation of a live set. Positions at the extreme representable
/// coordinates are never brought alive: the plane is unbounded in the model,
/// but a cell there could not have its own neighbours computed, so the step
/// suppresses them rather than wrap around.
pub open spec fn step_spec(s: Set<(int, int)>) -> Set<(int, int)> {
    Set::new(|p: (int, int)| in_range(p) && rule_alive(s, p))
}

/// Some entry among the first `i` of the tally carries position `p`.
pub open spec fn keyed_before(s: Seq<(Cell, i32)>, i: int, p: (int, int)) -> bool {
    exists|m: int| 0 <= m < i && s[m].0@ == p
}

/// The persistent simulation state: the live cells and the paused flag.
pub struct Colony {
    pub grid: LiveSet,
    pub is_paused: bool,
}

impl Colony {
    /// The colony is well formed when its live set is.
    pub open spec fn wf(&self) -> bool {
        self.grid.wf()
    }

    /// A colony with no live cells, paused.
    pub fn new() -> (r: Colony)
        ensures
            r.wf(),
            r.grid@ == Set::<(int, int)>::empty(),
            r.is_paused,
    {
        Colony { grid: LiveSet::new(), is_paused: true }
    }

    /// The neighbour-count mapping: exactly the positions with at least one
    /// live neighbour appear, each with the number of live cells in its
    /// Moore neighbourhood.
    pub fn neighbour_count(&self) -> (r: Vec<(Cell, i32)>)
        requires
            self.wf(),
        ensures
            unique_keys(r@),
            forall|p: (int, int)| count_of(r@, p) == live_neighbours(self.grid@, p),
            forall|p: (int, int)| has_key(r@, p) <==> live_neighbours(self.grid@, p) > 0,
            forall|k: int| 0 <= k < r@.len() ==> (#[trigger] r@[k]).1 > 0,
            self.grid@ == Set::<(int, int)>::empty() ==> r@.len() == 0,
    {
        let v = self.grid.to_vec();
        let r = count_neighbours(&v);
        proof {
            assert(coord_set(coords_of(v@)) =~= self.grid@);
            assert forall|k: int| 0 <= k < r@.len() implies (#[trigger] r@[k]).1 > 0 by {
                lemma_count_at(r@, k);
            }
            if self.grid@ == Set::<(int, int)>::empty() && r@.len() > 0 {
                lemma_count_at(r@, 0);
                assert(live_neighbours(self.grid@, r@[0].0@) > 0);
            }
        }
        r
    }

    /// Applies the rule once: the pure generation step. The paused flag is
    /// unchanged; the live set becomes `step_spec` of the old one.
    pub fn next_gen(&self) -> (r: Colony)
        requires
            self.wf(),
        ensures
            r.wf(),
            r.is_paused == self.is_paused,
            r.grid@ == step_spec(self.grid@),
    {
        let counts = self.neighbour_count();
        let n = counts.len();
        let mut kept: Vec<Cell> = Vec::new();
        let mut i: usize = 0;
        while i < n
            invariant
                0 <= i <= n,
                n == counts@.len(),
                self.wf(),
                unique_keys(counts@),
                forall|p: (int, int)| count_of(counts@, p) == live_neighbours(self.grid@, p),
                forall|p: (int, int)| has_key(counts@, p) <==> live_neighbours(self.grid@, p) > 0,
                forall|k: int| 0 <= k < kept@.len() ==> in_range(#[trigger] coords_of(kept@)[k]),
                forall|p: (int, int)| coords_of(kept@).contains(p) <==> (keyed_before(
                    counts@,
                    i as int,
                    p,
                ) && in_range(p) && rule_alive(self.grid@, p)),
            decreases n - i,
        {
            let e = counts[i];
            let cell = e.0;
            let cnt = e.1;
            let alive = self.grid.contains(cell);
            let inr = cell.x > i64::MIN && cell.x < i64::MAX && cell.y > i64::MIN && cell.y
                < i64::MAX;
            proof {
                lemma_count_at(counts@, i as int);
                assert(cnt as int == live_neighbours(self.grid@, cell@));
                assert forall|p: (int, int)|
                    keyed_before(counts@, i as int + 1, p) <==> (keyed_before(counts@, i as int, p)
                        || p == cell@) by {
                    if keyed_before(counts@, i as int + 1, p) {
                        let m = choose|m: int| 0 <= m < i + 1 && counts@[m].0@ == p;
                        if m < i {
                            assert(keyed_before(counts@, i as int, p));
                        }
                    }
                    if keyed_before(counts@, i as int, p) {
                        let m = choose|m: int| 0 <= m < i && counts@[m].0@ == p;
                        assert(0 <= m < i + 1 && counts@[m].0@ == p);
                    }
                    if p == cell@ {
                        assert(0 <= i < i + 1 && counts@[i as int].0@ == p);
                    }
                }
            }
            if inr && ((alive && cnt == 2) || cnt == 3) {
                let ghost old_kept = coords_of(kept@);
                kept.push(cell);
                proof {
                    assert(coords_of(kept@) =~= old_kept.push(cell@));
                    assert(in_range(cell@));
                    assert(rule_alive(self.grid@, cell@));
                }
            } else {
                proof {
                    assert(!(in_range(cell@) && rule_alive(self.grid@, cell@)));
                }
            }
            i += 1;
        }
        proof {
            assert forall|p: (int, int)|
                coords_of(kept@).contains(p) <==> (in_range(p) && rule_alive(self.grid@, p)) by {
                if in_range(p) && rule_alive(self.grid@, p) {
                    assert(live_neighbours(self.grid@, p) > 0);
                    assert(has_key(counts@, p));
                    let m = choose|m: int| 0 <= m < counts@.len() && counts@[m].0@ == p;
                    assert(keyed_before(counts@, n as int, p));
                }
                if keyed_before(counts@, n as int, p) {
                    let m = choose|m: int| 0 <= m < n && counts@[m].0@ == p;
                    assert(has_key(counts@, p));
                }
            }
        }
        let grid2 = LiveSet::from_cells(&kept);
        proof {
            assert(grid2@ =~= step_spec(self.grid@));
        }
        Colony { grid: grid2, is_paused: self.is_paused }
    }
}

} // verus!
