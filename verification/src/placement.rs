//! Words on the placement board: when a word may go at a place, and what
//! committing it there does to the board.

use crate::board::copy_row;
use crate::board::Grid;
use crate::catalog::string_of;
use crate::geometry::cell_at;
use crate::geometry::lemma_cells_differ;
use crate::geometry::lemma_span_is_convex;
use crate::geometry::lemma_unit_product;
use crate::geometry::on_grid;
use crate::geometry::spans_grid;
use crate::geometry::steps;
use crate::geometry::Candidate;
use crate::geometry::Direction;
use crate::geometry::Point;
use vstd::prelude::*;

verus! {

/// A committed word: its letters, the cell of its first letter and the
/// direction in which it reads.
#[derive(Debug, PartialEq, Eq)]
pub struct PlacedWord {
    pub text: Vec<char>,
    pub anchor: Point,
    pub direction: Direction,
}

impl Clone for PlacedWord {
    /// The same letters at the same place.
    fn clone(&self) -> (copy: PlacedWord)
        ensures
            copy.text@ == self.text@,
            copy.anchor == self.anchor,
            copy.direction == self.direction,
    {
        PlacedWord { text: copy_row(&self.text), anchor: self.anchor, direction: self.direction }
    }
}

impl PlacedWord {
    /// The place of the word as a candidate.
    pub open spec fn place(&self) -> Candidate {
        Candidate { anchor: self.anchor, direction: self.direction }
    }

    /// The word as a string.
    pub fn word(&self) -> (text: String)
        ensures
            text@ == self.text@,
    {
        string_of(&self.text)
    }

    /// The word runs along one of the eight directions and stays on a grid
    /// of the given size.
    pub open spec fn lies_on(&self, size: int) -> bool {
        &&& self.direction.is_unit()
        &&& spans_grid(size, self.text@.len() as int, self.place())
    }
}

/// Whether the cell `k` steps along `c` can take the `k`-th letter of
/// `word`: it is blank or holds that letter already.
pub open spec fn cell_accepts(grid: &Grid, word: Seq<char>, c: Candidate, k: int) -> bool {
    let cell = cell_at(c.anchor, c.direction, k);
    match grid.letter_at(cell.0, cell.1) {
        Some(letter) => letter == word[k],
        None => true,
    }
}

/// Whether `word` may be placed at `c`: it stays on the grid, and each of
/// its cells is blank or holds the letter that the word brings.
pub open spec fn fits(grid: &Grid, word: Seq<char>, c: Candidate) -> bool {
    &&& spans_grid(grid.side(), word.len() as int, c)
    &&& forall|k: int| 0 <= k < word.len() ==> #[trigger] cell_accepts(grid, word, c, k)
}

/// Whether the placement board holds the `k`-th letter of `word` on the
/// cell `k` steps along `c`.
pub open spec fn cell_holds(grid: &Grid, word: Seq<char>, c: Candidate, k: int) -> bool {
    let cell = cell_at(c.anchor, c.direction, k);
    grid.letter_at(cell.0, cell.1) == Some(word[k])
}

/// Whether the placement board spells `word` from the anchor of `c` along
/// its direction.
pub open spec fn holds_word(grid: &Grid, word: Seq<char>, c: Candidate) -> bool {
    forall|k: int| 0 <= k < word.len() ==> #[trigger] cell_holds(grid, word, c, k)
}

/// Whether one of the first `len` cells along `c` is column `x` of row `y`.
pub open spec fn covers(c: Candidate, len: int, x: int, y: int) -> bool {
    exists|k: int| 0 <= k < len && #[trigger] cell_at(c.anchor, c.direction, k) == (x, y)
}

/// A word longer than the grid is wide cannot stay on it.
pub proof fn lemma_long_word_leaves_grid(size: int, len: int, c: Candidate)
    requires
        c.direction.is_unit(),
        len > size,
    ensures
        !spans_grid(size, len, c),
{
    lemma_unit_product(len - 1, c.direction.dx as int);
    lemma_unit_product(len - 1, c.direction.dy as int);
}

/// Decides `fits`.
pub fn can_place(grid: &Grid, word: &Vec<char>, c: Candidate) -> (ok: bool)
    requires
        c.direction.is_unit(),
    ensures
        ok == fits(grid, word@, c),
{
    let size: i64 = grid.size();
    let len: usize = word.len();
    if c.anchor.x < 0 || c.anchor.x >= size || c.anchor.y < 0 || c.anchor.y >= size {
        return false;
    }
    if len as u64 > size as u64 {
        proof {
            lemma_long_word_leaves_grid(size as int, len as int, c);
        }
        return false;
    }
    let last: i128 = len as i128 - 1;
    let end_x: i128 = c.anchor.x as i128 + steps(last, c.direction.dx);
    let end_y: i128 = c.anchor.y as i128 + steps(last, c.direction.dy);
    if end_x < 0 || end_x >= size as i128 || end_y < 0 || end_y >= size as i128 {
        return false;
    }
    let mut k: usize = 0;
    while k < len
        invariant
            c.direction.is_unit(),
            size == grid.side(),
            len == word@.len(),
            len <= size,
            k <= len,
            spans_grid(size as int, len as int, c),
            forall|i: int| 0 <= i < k ==> #[trigger] cell_accepts(grid, word@, c, i),
        decreases len - k,
    {
        proof {
            lemma_span_is_convex(size as int, len as int, c, k as int);
        }
        let at = Point {
            x: (c.anchor.x as i128 + steps(k as i128, c.direction.dx)) as i64,
            y: (c.anchor.y as i128 + steps(k as i128, c.direction.dy)) as i64,
        };
        match grid.get_placement(at) {
            Some(letter) => {
                if letter != word[k] {
                    assert(!cell_accepts(grid, word@, c, k as int));
                    return false;
                }
            },
            None => {},
        }
        k = k + 1;
    }
    true
}

/// Writes the letters of `word` into the placement board along `c`. The
/// cells of the word then hold its letters; every letter that the board
/// held before is still there, and no other cell changes.
pub fn write_word(grid: &mut Grid, word: &Vec<char>, c: Candidate)
    requires
        c.direction.is_unit(),
        fits(old(grid), word@, c),
    ensures
        final(grid).side() == old(grid).side(),
        holds_word(final(grid), word@, c),
        forall|x: int, y: int|
            on_grid(old(grid).side(), x, y) && !covers(c, word@.len() as int, x, y) ==> (
            #[trigger] final(grid).letter_at(x, y)) == old(grid).letter_at(x, y),
        forall|x: int, y: int|
            on_grid(old(grid).side(), x, y) && old(grid).letter_at(x, y) is Some ==> (
            #[trigger] final(grid).letter_at(x, y)) == old(grid).letter_at(x, y),
        forall|x: int, y: int|
            on_grid(old(grid).side(), x, y) ==> (#[trigger] final(grid).shown_at(x, y)) == old(
                grid,
            ).shown_at(x, y),
{
    let size: i64 = grid.size();
    let len: usize = word.len();
    proof {
        if len > size {
            lemma_long_word_leaves_grid(size as int, len as int, c);
        }
    }
    let mut k: usize = 0;
    while k < len
        invariant
            c.direction.is_unit(),
            size == grid.side(),
            size == old(grid).side(),
            len == word@.len(),
            len <= size,
            k <= len,
            fits(old(grid), word@, c),
            forall|i: int| 0 <= i < k ==> #[trigger] cell_holds(grid, word@, c, i),
            forall|x: int, y: int|
                on_grid(size as int, x, y) && !covers(c, k as int, x, y) ==> (
                #[trigger] grid.letter_at(x, y)) == old(grid).letter_at(x, y),
            forall|x: int, y: int|
                on_grid(size as int, x, y) && old(grid).letter_at(x, y) is Some ==> (
                #[trigger] grid.letter_at(x, y)) == old(grid).letter_at(x, y),
            forall|x: int, y: int|
                on_grid(size as int, x, y) ==> (#[trigger] grid.shown_at(x, y)) == old(
                    grid,
                ).shown_at(x, y),
        decreases len - k,
    {
        proof {
            lemma_span_is_convex(size as int, len as int, c, k as int);
            assert(cell_accepts(old(grid), word@, c, k as int));
        }
        let at = Point {
            x: (c.anchor.x as i128 + steps(k as i128, c.direction.dx)) as i64,
            y: (c.anchor.y as i128 + steps(k as i128, c.direction.dy)) as i64,
        };
        let ghost before = *grid;
        grid.set_placement(at, word[k]);
        proof {
            assert(cell_at(c.anchor, c.direction, k as int) == (at.x as int, at.y as int));
            assert forall|i: int| 0 <= i < k + 1 implies #[trigger] cell_holds(
                grid,
                word@,
                c,
                i,
            ) by {
                if i < k {
                    lemma_cells_differ(c.anchor, c.direction, i, k as int);
                    lemma_span_is_convex(size as int, len as int, c, i);
                    assert(cell_holds(&before, word@, c, i));
                }
            }
            assert forall|x: int, y: int|
                on_grid(size as int, x, y) && !covers(c, k + 1, x, y) implies (
            #[trigger] grid.letter_at(x, y)) == old(grid).letter_at(x, y) by {
                assert(!covers(c, k as int, x, y)) by {
                    if covers(c, k as int, x, y) {
                        let i = choose|i: int|
                            0 <= i < k && #[trigger] cell_at(c.anchor, c.direction, i) == (x, y);
                        assert(0 <= i < k + 1 && cell_at(c.anchor, c.direction, i) == (x, y));
                    }
                }
                assert(cell_at(c.anchor, c.direction, k as int) != (x, y));
            }
        }
        k = k + 1;
    }
}

} // verus!
