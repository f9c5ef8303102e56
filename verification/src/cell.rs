//! Cell positions on the unbounded plane and their Moore neighbourhood.

use vstd::prelude::*;

verus! {

/// A cell position: an ordered pair of signed integers. Equality is by value.
#[derive(Clone, Copy, PartialEq, Eq, Structural, Debug)]
pub struct Cell {
    pub x: i64,
    pub y: i64,
}

impl View for Cell {
    type V = (int, int);

    open spec fn view(&self) -> (int, int) {
        (self.x as int, self.y as int)
    }
}

/// A position whose neighbours on both axes are still representable in `i64`.
/// Machine limits force this margin of one at the extremes of the coordinate type.
pub open spec fn in_range(p: (int, int)) -> bool {
    i64::MIN < p.0 < i64::MAX && i64::MIN < p.1 < i64::MAX
}

/// `a` lies in the Moore neighbourhood of `c`: `a` is one of the 8 positions
/// obtained by adding an offset from {-1,0,1} x {-1,0,1} minus (0,0) to `c`.
pub open spec fn is_neighbour(a: (int, int), c: (int, int)) -> bool {
    ||| a == ((c.0 - 1, c.1 - 1) )
    ||| a == ((c.0, c.1 - 1) )
    ||| a == ((c.0 + 1, c.1 - 1) )
    ||| a == ((c.0 - 1, c.1) )
    ||| a == ((c.0 + 1, c.1) )
    ||| a == ((c.0 - 1, c.1 + 1) )
    ||| a == ((c.0, c.1 + 1) )
    ||| a == ((c.0 + 1, c.1 + 1) )
}

/// The neighbour relation is symmetric: `a` is a neighbour of `c`
/// exactly when `c` is a neighbour of `a`.
pub proof fn lemma_neighbour_symmetric(a: (int, int), c: (int, int))
    ensures
        is_neighbour(a, c) <==> is_neighbour(c, a),
{
}

impl Cell {
    /// Builds the position `(x, y)`.
    pub fn new(x: i64, y: i64) -> (r: Cell)
        ensures
            r@ == ((x as int, y as int)),
    {
        Cell { x, y }
    }

    /// The 8 positions of this cell's Moore neighbourhood, in reading order.
    pub fn neighbours(&self) -> (r: Vec<Cell>)
        requires
            in_range(self@),
        ensures
            r@.len() == 8,
            forall|j: int| 0 <= j < 8 ==> is_neighbour(#[trigger] r@[j]@, self@),
            forall|j: int, k: int| 0 <= j < k < 8 ==> r@[j]@ != r@[k]@,
            forall|p: (int, int)| is_neighbour(p, self@) ==> exists|j: int|
                0 <= j < 8 && #[trigger] r@[j]@ == p,
    {
        let x = self.x;
        let y = self.y;
        let mut r: Vec<Cell> = Vec::new();
        r.push(Cell { x: x - 1, y: y - 1 });
        r.push(Cell { x, y: y - 1 });
        r.push(Cell { x: x + 1, y: y - 1 });
        r.push(Cell { x: x - 1, y });
        r.push(Cell { x: x + 1, y });
        r.push(Cell { x: x - 1, y: y + 1 });
        r.push(Cell { x, y: y + 1 });
        r.push(Cell { x: x + 1, y: y + 1 });
        proof {
            assert forall|p: (int, int)| is_neighbour(p, self@) implies exists|j: int|
                0 <= j < 8 && #[trigger] r@[j]@ == p by {
                if p == ((self@.0 - 1, self@.1 - 1)) {
                    assert(r@[0]@ == p);
                } else if p == ((self@.0, self@.1 - 1)) {
                    assert(r@[1]@ == p);
                } else if p == ((self@.0 + 1, self@.1 - 1)) {
                    assert(r@[2]@ == p);
                } else if p == ((self@.0 - 1, self@.1)) {
                    assert(r@[3]@ == p);
                } else if p == ((self@.0 + 1, self@.1)) {
                    assert(r@[4]@ == p);
                } else if p == ((self@.0 - 1, self@.1 + 1)) {
                    assert(r@[5]@ == p);
                } else if p == ((self@.0, self@.1 + 1)) {
                    assert(r@[6]@ == p);
                } else {
                    assert(r@[7]@ == p);
                }
            }
        }
        r
    }
}

} // verus!
