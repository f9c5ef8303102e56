//! Counting live neighbours: for a set of live cells, a tally that maps each
//! position with at least one live neighbour to the number of live cells in
//! its Moore neighbourhood.

use vstd::prelude::*;
use crate::cell::{Cell, in_range, is_neighbour, lemma_neighbour_symmetric};
use crate::liveset::{coords_of, coord_set, distinct};

verus! {

broadcast use vstd::seq_lib::group_seq_properties;

/// 1 if the position is alive in `s`, else 0.
pub open spec fn alive_one(s: Set<(int, int)>, p: (int, int)) -> nat {
    if s.contains(p) {
        1nat
    } else {
        0nat
    }
}

/// The number of live cells of `s` in the Moore neighbourhood of `c`.
pub open spec fn live_neighbours(s: Set<(int, int)>, c: (int, int)) -> nat {
    alive_one(s, (c.0 - 1, c.1 - 1)) + alive_one(s, (c.0, c.1 - 1)) + alive_one(
        s,
        (c.0 + 1, c.1 - 1),
    ) + alive_one(s, (c.0 - 1, c.1)) + alive_one(s, (c.0 + 1, c.1)) + alive_one(
        s,
        (c.0 - 1, c.1 + 1),
    ) + alive_one(s, (c.0, c.1 + 1)) + alive_one(s, (c.0 + 1, c.1 + 1))
}

/// Adding a fresh position raises the neighbour count of `c` by one exactly
/// when the position lies in `c`'s neighbourhood.
proof fn lemma_insert_live_neighbours(s: Set<(int, int)>, p: (int, int), c: (int, int))
    requires
        !s.contains(p),
    ensures
        live_neighbours(s.insert(p), c) == live_neighbours(s, c) + (if is_neighbour(p, c) {
            1nat
        } else {
            0nat
        }),
{
}

/// How many positions of the sequence are neighbours of `c`.
spec fn prefix_neighbours(q: Seq<(int, int)>, c: (int, int)) -> nat
    decreases q.len(),
{
    if q.len() == 0 {
        0nat
    } else {
        prefix_neighbours(q.drop_last(), c) + (if is_neighbour(q.last(), c) {
            1nat
        } else {
            0nat
        })
    }
}

/// Over a duplicate-free sequence, counting neighbours along the sequence
/// agrees with the neighbour count of the set of its positions.
proof fn lemma_prefix_neighbours_full(q: Seq<(int, int)>, c: (int, int))
    requires
        distinct(q),
    ensures
        prefix_neighbours(q, c) == live_neighbours(coord_set(q), c),
    decreases q.len(),
{
    if q.len() == 0 {
        assert(coord_set(q) =~= Set::<(int, int)>::empty());
    } else {
        let q0 = q.drop_last();
        let last = q.last();
        assert(q =~= q0.push(last));
        assert(distinct(q0));
        lemma_prefix_neighbours_full(q0, c);
        assert(!coord_set(q0).contains(last)) by {
            if q0.contains(last) {
                let m = choose|m: int| 0 <= m < q0.len() && q0[m] == last;
                assert(q[m] == q[q.len() - 1]);
            }
        }
        assert(coord_set(q) =~= coord_set(q0).insert(last));
        lemma_insert_live_neighbours(coord_set(q0), last, c);
    }
}

/// No two tally entries carry the same position.
pub open spec fn unique_keys(s: Seq<(Cell, i32)>) -> bool {
    forall|i: int, j: int| 0 <= i < j < s.len() ==> s[i].0@ != s[j].0@
}

/// Some tally entry carries the position `p`.
pub open spec fn has_key(s: Seq<(Cell, i32)>, p: (int, int)) -> bool {
    exists|k: int| 0 <= k < s.len() && s[k].0@ == p
}

/// The index of the tally entry carrying `p`.
pub open spec fn key_index(s: Seq<(Cell, i32)>, p: (int, int)) -> int {
    choose|k: int| 0 <= k < s.len() && s[k].0@ == p
}

/// The tally of `p`: the stored count, or 0 where no entry carries `p`.
pub open spec fn count_of(s: Seq<(Cell, i32)>, p: (int, int)) -> int {
    if has_key(s, p) {
        s[key_index(s, p)].1 as int
    } else {
        0
    }
}

/// With unique keys, the tally of an entry's position is that entry's count.
pub proof fn lemma_count_at(s: Seq<(Cell, i32)>, k: int)
    requires
        unique_keys(s),
        0 <= k < s.len(),
    ensures
        has_key(s, s[k].0@),
        count_of(s, s[k].0@) == s[k].1 as int,
{
    assert(has_key(s, s[k].0@));
    let m = key_index(s, s[k].0@);
    assert(0 <= m < s.len() && s[m].0@ == s[k].0@);
    if m < k {
        assert(s[m].0@ != s[k].0@);
    } else if k < m {
        assert(s[k].0@ != s[m].0@);
    }
}

/// Overwriting one entry's count changes that position's tally and no other.
proof fn lemma_update_count(s: Seq<(Cell, i32)>, k: int, v: i32)
    requires
        unique_keys(s),
        0 <= k < s.len(),
    ensures
        unique_keys(s.update(k, (s[k].0, v))),
        count_of(s.update(k, (s[k].0, v)), s[k].0@) == v as int,
        forall|p: (int, int)| p != s[k].0@ ==> count_of(s.update(k, (s[k].0, v)), p) == count_of(
            s,
            p,
        ),
        forall|p: (int, int)| has_key(s.update(k, (s[k].0, v)), p) <==> has_key(s, p),
{
    let s2 = s.update(k, (s[k].0, v));
    assert(forall|j: int| 0 <= j < s.len() ==> s2[j].0 == s[j].0);
    assert(unique_keys(s2));
    assert forall|p: (int, int)| has_key(s2, p) <==> has_key(s, p) by {
        if has_key(s2, p) {
            let m = choose|m: int| 0 <= m < s2.len() && s2[m].0@ == p;
            assert(s[m].0@ == p);
        }
        if has_key(s, p) {
            let m = choose|m: int| 0 <= m < s.len() && s[m].0@ == p;
            assert(s2[m].0@ == p);
        }
    }
    lemma_count_at(s2, k);
    assert forall|p: (int, int)| p != s[k].0@ implies count_of(s2, p) == count_of(s, p) by {
        if has_key(s, p) {
            let m = choose|m: int| 0 <= m < s.len() && s[m].0@ == p;
            assert(m != k);
            assert(s2[m] == s[m]);
            lemma_count_at(s, m);
            lemma_count_at(s2, m);
        }
    }
}

/// Appending an entry with a fresh position sets that position's tally to the
/// entry's count and leaves every other tally unchanged.
proof fn lemma_push_count(s: Seq<(Cell, i32)>, c: Cell, v: i32)
    requires
        unique_keys(s),
        !has_key(s, c@),
    ensures
        unique_keys(s.push((c, v))),
        count_of(s.push((c, v)), c@) == v as int,
        forall|p: (int, int)| p != c@ ==> count_of(s.push((c, v)), p) == count_of(s, p),
        forall|p: (int, int)| has_key(s.push((c, v)), p) <==> (has_key(s, p) || p == c@),
{
    let s2 = s.push((c, v));
    assert(forall|j: int| 0 <= j < s.len() ==> s2[j] == s[j]);
    assert(s2[s.len() as int] == ((c, v)));
    assert forall|i: int, j: int| 0 <= i < j < s2.len() implies s2[i].0@ != s2[j].0@ by {
        if j == s.len() {
            assert(s[i].0@ != c@);
        }
    }
    lemma_count_at(s2, s.len() as int);
    assert forall|p: (int, int)| has_key(s2, p) implies (has_key(s, p) || p == c@) by {
        let m = choose|m: int| 0 <= m < s2.len() && s2[m].0@ == p;
        if m < s.len() {
            assert(s[m].0@ == p);
        }
    }
    assert forall|p: (int, int)| p != c@ implies count_of(s2, p) == count_of(s, p) by {
        if has_key(s, p) {
            let m = choose|m: int| 0 <= m < s.len() && s[m].0@ == p;
            assert(s2[m] == s[m]);
            lemma_count_at(s, m);
            lemma_count_at(s2, m);
        } else {
            if has_key(s2, p) {
                let m = choose|m: int| 0 <= m < s2.len() && s2[m].0@ == p;
                assert(m == s.len());
            }
        }
    }
}

/// Raises the tally of position `c` by one, starting a fresh entry at 1
/// where none carries `c` yet.
fn bump(t: &mut Vec<(Cell, i32)>, c: Cell)
    requires
        unique_keys(old(t)@),
        count_of(old(t)@, c@) < 8,
    ensures
        unique_keys(final(t)@),
        count_of(final(t)@, c@) == count_of(old(t)@, c@) + 1,
        forall|p: (int, int)| p != c@ ==> count_of(final(t)@, p) == count_of(old(t)@, p),
        forall|p: (int, int)| has_key(final(t)@, p) <==> (has_key(old(t)@, p) || p == c@),
{
    let n = t.len();
    let mut k: usize = 0;
    while k < n
        invariant
            0 <= k <= n,
            n == t@.len(),
            *t == *old(t),
            unique_keys(t@),
            count_of(t@, c@) < 8,
            forall|j: int| 0 <= j < k ==> t@[j].0@ != c@,
        decreases n - k,
    {
        let e = t[k];
        if e.0.x == c.x && e.0.y == c.y {
            proof {
                assert(t@[k as int].0@ == c@);
                lemma_count_at(t@, k as int);
                lemma_update_count(t@, k as int, (e.1 + 1) as i32);
            }
            t[k] = (e.0, e.1 + 1);
            return ;
        }
        k += 1;
    }
    proof {
        assert(!has_key(t@, c@));
        lemma_push_count(t@, c, 1);
    }
    t.push((c, 1));
}

/// Whether `p` is the position of one of the first `j` cells of `nbs`.
spec fn among_first(nbs: Seq<Cell>, j: int, p: (int, int)) -> bool {
    exists|m: int| 0 <= m < j && nbs[m]@ == p
}

/// For every live cell, raises the tally of each of its 8 neighbours by one.
/// The result maps exactly the positions with a live neighbour, each to the
/// number of live cells adjacent to it.
pub fn count_neighbours(cells: &Vec<Cell>) -> (r: Vec<(Cell, i32)>)
    requires
        distinct(coords_of(cells@)),
        forall|k: int| 0 <= k < cells@.len() ==> in_range(#[trigger] coords_of(cells@)[k]),
    ensures
        unique_keys(r@),
        forall|p: (int, int)| count_of(r@, p) == live_neighbours(coord_set(coords_of(cells@)), p),
        forall|p: (int, int)| has_key(r@, p) <==> live_neighbours(
            coord_set(coords_of(cells@)),
            p,
        ) > 0,
{
    let ghost q = coords_of(cells@);
    let n = cells.len();
    let mut t: Vec<(Cell, i32)> = Vec::new();
    let mut i: usize = 0;
    while i < n
        invariant
            0 <= i <= n,
            n == cells@.len(),
            q == coords_of(cells@),
            distinct(q),
            forall|k: int| 0 <= k < cells@.len() ==> in_range(#[trigger] coords_of(cells@)[k]),
            unique_keys(t@),
            forall|p: (int, int)| count_of(t@, p) == prefix_neighbours(q.take(i as int), p),
            forall|p: (int, int)| has_key(t@, p) <==> prefix_neighbours(q.take(i as int), p) > 0,
        decreases n - i,
    {
        let ci = cells[i];
        proof {
            assert(ci@ == q[i as int]);
            assert(in_range(q[i as int]));
        }
        let nbs = ci.neighbours();
        let ghost pre = q.take(i as int);
        let ghost post = q.take(i as int + 1);
        proof {
            assert(post.drop_last() =~= pre);
            assert(post.last() == q[i as int]);
            assert(distinct(post));
            assert forall|p: (int, int)| prefix_neighbours(post, p) == prefix_neighbours(pre, p)
                + (if is_neighbour(q[i as int], p) {
                1nat
            } else {
                0nat
            }) by {}
        }
        let mut j: usize = 0;
        while j < 8
            invariant
                0 <= j <= 8,
                nbs@.len() == 8,
                forall|m: int| 0 <= m < 8 ==> is_neighbour(#[trigger] nbs@[m]@, ci@),
                forall|m1: int, m2: int| 0 <= m1 < m2 < 8 ==> nbs@[m1]@ != nbs@[m2]@,
                forall|p: (int, int)| is_neighbour(p, ci@) ==> exists|m: int|
                    0 <= m < 8 && #[trigger] nbs@[m]@ == p,
                ci@ == q[i as int],
                0 <= i < q.len(),
                distinct(q),
                pre == q.take(i as int),
                post == q.take(i as int + 1),
                forall|p: (int, int)| prefix_neighbours(post, p) == prefix_neighbours(pre, p) + (
                if is_neighbour(q[i as int], p) {
                    1nat
                } else {
                    0nat
                }),
                unique_keys(t@),
                forall|p: (int, int)| count_of(t@, p) == prefix_neighbours(pre, p) + (
                if among_first(nbs@, j as int, p) {
                    1int
                } else {
                    0int
                }),
                forall|p: (int, int)| has_key(t@, p) <==> (prefix_neighbours(pre, p) > 0
                    || among_first(nbs@, j as int, p)),
            decreases 8 - j,
        {
            let nb = nbs[j];
            proof {
                // this neighbour was not bumped earlier in this round
                assert(!among_first(nbs@, j as int, nb@)) by {
                    if among_first(nbs@, j as int, nb@) {
                        let m = choose|m: int| 0 <= m < j && nbs@[m]@ == nb@;
                        assert(nbs@[m]@ != nbs@[j as int]@);
                    }
                }
                // the live cell is a neighbour of the bumped position
                lemma_neighbour_symmetric(nb@, ci@);
                // the tally of the bumped position stays below 8
                lemma_prefix_neighbours_full(post, nb@);
                assert(live_neighbours(coord_set(post), nb@) <= 8);
                assert(prefix_neighbours(pre, nb@) + 1 == prefix_neighbours(post, nb@));
                assert(count_of(t@, nb@) < 8);
            }
            bump(&mut t, nb);
            proof {
                assert forall|p: (int, int)|
                    among_first(nbs@, j as int + 1, p) <==> (among_first(nbs@, j as int, p) || p
                        == nb@) by {
                    if among_first(nbs@, j as int + 1, p) {
                        let m = choose|m: int| 0 <= m < j + 1 && nbs@[m]@ == p;
                        if m < j {
                            assert(among_first(nbs@, j as int, p));
                        }
                    }
                    if among_first(nbs@, j as int, p) {
                        let m = choose|m: int| 0 <= m < j && nbs@[m]@ == p;
                        assert(0 <= m < j + 1 && nbs@[m]@ == p);
                    }
                    if p == nb@ {
                        assert(0 <= j < j + 1 && nbs@[j as int]@ == p);
                    }
                }
            }
            j += 1;
        }
        proof {
            assert forall|p: (int, int)| among_first(nbs@, 8, p) <==> is_neighbour(
                q[i as int],
                p,
            ) by {
                if among_first(nbs@, 8, p) {
                    let m = choose|m: int| 0 <= m < 8 && nbs@[m]@ == p;
                    assert(is_neighbour(nbs@[m]@, ci@));
                    lemma_neighbour_symmetric(p, ci@);
                }
                if is_neighbour(q[i as int], p) {
                    lemma_neighbour_symmetric(q[i as int], p);
                    assert(is_neighbour(p, ci@));
                }
            }
            assert forall|p: (int, int)| count_of(t@, p) == prefix_neighbours(post, p) by {}
            assert forall|p: (int, int)| has_key(t@, p) <==> prefix_neighbours(post, p) > 0 by {}
        }
        i += 1;
    }
    proof {
        assert(q.take(n as int) =~= q);
        assert forall|p: (int, int)| count_of(t@, p) == live_neighbours(coord_set(q), p) by {
            lemma_prefix_neighbours_full(q, p);
        }
        assert forall|p: (int, int)| has_key(t@, p) <==> live_neighbours(coord_set(q), p) > 0 by {
            lemma_prefix_neighbours_full(q, p);
        }
    }
    t
}

} // verus!
