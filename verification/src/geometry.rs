//! Coordinates, directions and the cells that a word covers.

use vstd::prelude::*;

verus! {

/// A cell of the grid: `x` is the column, `y` the row.
#[derive(Clone, Copy, Debug, PartialEq, Eq, Structural)]
pub struct Point {
    pub x: i64,
    pub y: i64,
}

/// A step from one letter of a word to the next.
#[derive(Clone, Copy, Debug, PartialEq, Eq, Structural)]
pub struct Direction {
    pub dx: i64,
    pub dy: i64,
}

/// A proposed place for a word: where its first letter goes and how it runs.
#[derive(Clone, Copy, Debug, PartialEq, Eq, Structural)]
pub struct Candidate {
    pub anchor: Point,
    pub direction: Direction,
}

/// The eight directions, in the order in which the searches try them.
pub open spec fn compass() -> Seq<Direction> {
    seq![
        Direction { dx: 1, dy: 0 },
        Direction { dx: 1, dy: -1i64 },
        Direction { dx: 0, dy: -1i64 },
        Direction { dx: -1i64, dy: -1i64 },
        Direction { dx: -1i64, dy: 0 },
        Direction { dx: -1i64, dy: 1 },
        Direction { dx: 0, dy: 1 },
        Direction { dx: 1, dy: 1 },
    ]
}

impl Direction {
    /// A unit step: each component is -1, 0 or 1, and not both are 0.
    pub open spec fn is_unit(self) -> bool {
        &&& -1 <= self.dx <= 1
        &&& -1 <= self.dy <= 1
        &&& !(self.dx == 0 && self.dy == 0)
    }

    /// Whether `self` leaves the axis of `other` in both components: neither
    /// component equals the matching component of `other` or of its opposite.
    pub open spec fn turns_from(self, other: Direction) -> bool {
        &&& self.dx != other.dx
        &&& self.dx != -other.dx
        &&& self.dy != other.dy
        &&& self.dy != -other.dy
    }

    /// Decides `turns_from`.
    pub fn is_turn_from(&self, other: &Direction) -> (turned: bool)
        requires
            other.is_unit(),
        ensures
            turned == self.turns_from(*other),
    {
        self.dx != other.dx && self.dx != -other.dx && self.dy != other.dy && self.dy != -other.dy
    }
}

/// The unit directions are exactly the eight of the compass.
pub proof fn lemma_compass_is_unit(d: Direction)
    ensures
        d.is_unit() <==> compass().contains(d),
{
    let c = compass();
    if d.is_unit() {
        let i: int = if d == c[0] {
            0
        } else if d == c[1] {
            1
        } else if d == c[2] {
            2
        } else if d == c[3] {
            3
        } else if d == c[4] {
            4
        } else if d == c[5] {
            5
        } else if d == c[6] {
            6
        } else {
            7
        };
        assert(c[i] == d);
    }
    if c.contains(d) {
        let i = choose|i: int| 0 <= i < c.len() && c[i] == d;
        assert(c[i].is_unit());
    }
}

/// The `i`-th direction of the compass.
pub fn compass_at(i: usize) -> (d: Direction)
    requires
        i < 8,
    ensures
        d == compass()[i as int],
        d.is_unit(),
{
    if i == 0 {
        Direction { dx: 1, dy: 0 }
    } else if i == 1 {
        Direction { dx: 1, dy: -1 }
    } else if i == 2 {
        Direction { dx: 0, dy: -1 }
    } else if i == 3 {
        Direction { dx: -1, dy: -1 }
    } else if i == 4 {
        Direction { dx: -1, dy: 0 }
    } else if i == 5 {
        Direction { dx: -1, dy: 1 }
    } else if i == 6 {
        Direction { dx: 0, dy: 1 }
    } else {
        Direction { dx: 1, dy: 1 }
    }
}

/// The cell `k` steps from `anchor` along `direction`, as a pair of column
/// and row.
pub open spec fn cell_at(anchor: Point, direction: Direction, k: int) -> (int, int) {
    (anchor.x + k * direction.dx, anchor.y + k * direction.dy)
}

/// Whether column `x` and row `y` lie on a grid of the given size.
pub open spec fn on_grid(size: int, x: int, y: int) -> bool {
    0 <= x < size && 0 <= y < size
}

/// Whether a word of `len` letters placed at `c` stays on the grid: its
/// first cell and the cell `len - 1` steps on both lie on it.
pub open spec fn spans_grid(size: int, len: int, c: Candidate) -> bool {
    &&& on_grid(size, c.anchor.x as int, c.anchor.y as int)
    &&& on_grid(size, cell_at(c.anchor, c.direction, len - 1).0, cell_at(c.anchor, c.direction, len - 1).1)
}

/// `k` steps of a unit component: `k`, `-k` or 0.
pub proof fn lemma_unit_product(k: int, d: int)
    requires
        -1 <= d <= 1,
    ensures
        k * d == (if d == 1 { k } else if d == -1 { -k } else { 0 }),
{
    assert(k * d == (if d == 1 { k } else if d == -1 { -k } else { 0 })) by (nonlinear_arith)
        requires -1 <= d <= 1;
}

/// Every cell between the two ends of a span lies on the grid.
pub proof fn lemma_span_is_convex(size: int, len: int, c: Candidate, k: int)
    requires
        c.direction.is_unit(),
        spans_grid(size, len, c),
        0 <= k < len,
    ensures
        on_grid(size, cell_at(c.anchor, c.direction, k).0, cell_at(c.anchor, c.direction, k).1),
{
    lemma_unit_product(k, c.direction.dx as int);
    lemma_unit_product(k, c.direction.dy as int);
    lemma_unit_product(len - 1, c.direction.dx as int);
    lemma_unit_product(len - 1, c.direction.dy as int);
}

/// Two different offsets along a unit direction reach two different cells.
pub proof fn lemma_cells_differ(anchor: Point, direction: Direction, j: int, k: int)
    requires
        direction.is_unit(),
        j != k,
    ensures
        cell_at(anchor, direction, j) != cell_at(anchor, direction, k),
{
    lemma_unit_product(j, direction.dx as int);
    lemma_unit_product(j, direction.dy as int);
    lemma_unit_product(k, direction.dx as int);
    lemma_unit_product(k, direction.dy as int);
}

/// `k` steps of one component of a unit direction.
pub fn steps(k: i128, d: i64) -> (r: i128)
    requires
        -1 <= d <= 1,
        k > i128::MIN,
    ensures
        r == k * d,
        r == k || r == -k || r == 0,
{
    proof {
        lemma_unit_product(k as int, d as int);
    }
    if d == 1 {
        k
    } else if d == -1 {
        -k
    } else {
        0
    }
}

} // verus!
