//! The grid model: a placement board that holds only the letters of
//! committed words, and a display board that starts out filled with random
//! letters and becomes the finished puzzle.

use crate::alphabet::capital;
use crate::alphabet::is_capital;
use crate::geometry::on_grid;
use crate::geometry::Point;
use crate::random::draw_below;
use rand::rngs::SmallRng;
use vstd::prelude::*;

verus! {

/// The two boards of one generation run. Rows are stored top to bottom,
/// each row left to right.
#[derive(Debug)]
pub struct Grid {
    size: i64,
    placement: Vec<Vec<Option<char>>>,
    display: Vec<Vec<char>>,
}

/// Writes `value` at `column` of `row`. The rows keep their lengths, and no
/// other cell changes.
fn put<T>(rows: &mut Vec<Vec<T>>, row: usize, column: usize, value: T)
    requires
        row < old(rows)@.len(),
        column < old(rows)@[row as int]@.len(),
    ensures
        final(rows)@.len() == old(rows)@.len(),
        final(rows)@[row as int]@ == old(rows)@[row as int]@.update(column as int, value),
        forall|j: int|
            0 <= j < old(rows)@.len() && j != row ==> (#[trigger] final(rows)@[j]) == old(rows)@[j],
    no_unwind
{
    rows[row][column] = value;
}

/// A copy of a row.
pub(crate) fn copy_row<T: Copy>(row: &Vec<T>) -> (copy: Vec<T>)
    ensures
        copy@ == row@,
{
    let mut copy: Vec<T> = Vec::new();
    let mut x: usize = 0;
    while x < row.len()
        invariant
            x <= row@.len(),
            copy@ == row@.take(x as int),
        decreases row@.len() - x,
    {
        copy.push(row[x]);
        assert(copy@ =~= row@.take(x + 1));
        x = x + 1;
    }
    assert(row@.take(row@.len() as int) =~= row@);
    copy
}

/// A copy of the rows, row by row.
fn copy_rows<T: Copy>(rows: &Vec<Vec<T>>) -> (copy: Vec<Vec<T>>)
    ensures
        copy@.len() == rows@.len(),
        forall|y: int| 0 <= y < rows@.len() ==> (#[trigger] copy@[y])@ == rows@[y]@,
{
    let mut copy: Vec<Vec<T>> = Vec::new();
    let mut y: usize = 0;
    while y < rows.len()
        invariant
            y <= rows@.len(),
            copy@.len() == y,
            forall|j: int| 0 <= j < y ==> (#[trigger] copy@[j])@ == rows@[j]@,
        decreases rows@.len() - y,
    {
        copy.push(copy_row(&rows[y]));
        y = y + 1;
    }
    copy
}

impl Clone for Grid {
    /// A grid of the same size that holds the same letters on both boards.
    fn clone(&self) -> (copy: Grid)
        ensures
            copy.side() == self.side(),
            forall|x: int, y: int|
                on_grid(self.side(), x, y) ==> (#[trigger] copy.letter_at(x, y)) == self.letter_at(
                    x,
                    y,
                ),
            forall|x: int, y: int|
                on_grid(self.side(), x, y) ==> (#[trigger] copy.shown_at(x, y)) == self.shown_at(
                    x,
                    y,
                ),
    {
        proof {
            use_type_invariant(self);
        }
        Grid {
            size: self.size,
            placement: copy_rows(&self.placement),
            display: copy_rows(&self.display),
        }
    }
}

impl Grid {
    /// The number of rows, and of columns.
    pub closed spec fn side(&self) -> int {
        self.size as int
    }

    /// Both boards are squares of `side()` rows and columns. This holds of
    /// every grid.
    #[verifier::type_invariant]
    pub closed spec fn wf(&self) -> bool {
        &&& 0 <= self.size
        &&& self.placement@.len() == self.size
        &&& self.display@.len() == self.size
        &&& forall|y: int| 0 <= y < self.size ==> (#[trigger] self.placement@[y])@.len() == self.size
        &&& forall|y: int| 0 <= y < self.size ==> (#[trigger] self.display@[y])@.len() == self.size
    }

    /// The letter that the placement board holds at column `x` of row `y`,
    /// or `None` where it is blank.
    pub closed spec fn letter_at(&self, x: int, y: int) -> Option<char> {
        self.placement@[y]@[x]
    }

    /// The letter that the display board shows at column `x` of row `y`.
    pub closed spec fn shown_at(&self, x: int, y: int) -> char {
        self.display@[y]@[x]
    }

    /// A well-formed grid has no negative side.
    pub proof fn lemma_side_is_natural(&self)
        requires
            self.wf(),
        ensures
            0 <= self.side(),
    {
    }

    /// No cell of the placement board holds a letter.
    pub open spec fn is_blank(&self) -> bool {
        forall|x: int, y: int|
            on_grid(self.side(), x, y) ==> (#[trigger] self.letter_at(x, y)) is None
    }

    /// Every cell of the display board shows a capital letter.
    pub open spec fn is_filled(&self) -> bool {
        forall|x: int, y: int|
            on_grid(self.side(), x, y) ==> is_capital(#[trigger] self.shown_at(x, y))
    }

    /// The two boards of a fresh run: the placement board blank, each cell
    /// of the display board a letter drawn from `rng`, row by row.
    pub fn init(size: i64, rng: &mut SmallRng) -> (grid: Grid)
        requires
            0 <= size,
        ensures
            grid.side() == size,
            grid.is_blank(),
            grid.is_filled(),
    {
        let mut placement: Vec<Vec<Option<char>>> = Vec::new();
        let mut display: Vec<Vec<char>> = Vec::new();
        let mut y: i64 = 0;
        while y < size
            invariant
                0 <= y <= size,
                placement@.len() == y,
                display@.len() == y,
                forall|j: int| 0 <= j < y ==> (#[trigger] placement@[j])@.len() == size,
                forall|j: int| 0 <= j < y ==> (#[trigger] display@[j])@.len() == size,
                forall|i: int, j: int|
                    0 <= j < y && 0 <= i < size ==> (#[trigger] placement@[j]@[i]) is None,
                forall|i: int, j: int|
                    0 <= j < y && 0 <= i < size ==> is_capital(#[trigger] display@[j]@[i]),
            decreases size - y,
        {
            let mut blanks: Vec<Option<char>> = Vec::new();
            let mut fillers: Vec<char> = Vec::new();
            let mut x: i64 = 0;
            while x < size
                invariant
                    0 <= x <= size,
                    blanks@.len() == x,
                    fillers@.len() == x,
                    forall|i: int| 0 <= i < x ==> (#[trigger] blanks@[i]) is None,
                    forall|i: int| 0 <= i < x ==> is_capital(#[trigger] fillers@[i]),
                decreases size - x,
            {
                let index: usize = draw_below(rng, 26);
                fillers.push(capital(index));
                blanks.push(None);
                x = x + 1;
            }
            placement.push(blanks);
            display.push(fillers);
            y = y + 1;
        }
        Grid { size, placement, display }
    }

    /// A coordinate on the grid as an index into a board.
    fn index_of(&self, coordinate: i64) -> (index: usize)
        requires
            self.wf(),
            0 <= coordinate < self.side(),
        ensures
            index == coordinate,
    {
        assert(self.placement.len() == self.placement@.len());
        coordinate as usize
    }

    /// The number of rows, and of columns.
    pub fn size(&self) -> (size: i64)
        ensures
            size == self.side(),
            0 <= size,
    {
        proof {
            use_type_invariant(self);
        }
        self.size
    }

    /// The letter of the placement board at `at`, or `None` where the cell
    /// is blank.
    pub fn get_placement(&self, at: Point) -> (letter: Option<char>)
        requires
            on_grid(self.side(), at.x as int, at.y as int),
        ensures
            letter == self.letter_at(at.x as int, at.y as int),
    {
        proof {
            use_type_invariant(self);
        }
        let row: usize = self.index_of(at.y);
        let column: usize = self.index_of(at.x);
        self.placement[row][column]
    }

    /// Writes `letter` into the placement board at `at`. No other cell of
    /// either board changes.
    pub fn set_placement(&mut self, at: Point, letter: char)
        requires
            on_grid(old(self).side(), at.x as int, at.y as int),
        ensures
            final(self).side() == old(self).side(),
            final(self).letter_at(at.x as int, at.y as int) == Some(letter),
            forall|x: int, y: int|
                on_grid(old(self).side(), x, y) && !(x == at.x && y == at.y) ==> (
                #[trigger] final(self).letter_at(x, y)) == old(self).letter_at(x, y),
            forall|x: int, y: int|
                on_grid(old(self).side(), x, y) ==> (#[trigger] final(self).shown_at(x, y))
                    == old(self).shown_at(x, y),
    {
        proof {
            use_type_invariant(&*self);
        }
        let row: usize = self.index_of(at.y);
        let column: usize = self.index_of(at.x);
        put(&mut self.placement, row, column, Some(letter));
    }

    /// Copies every letter of the placement board onto the display board.
    /// Cells that the placement board leaves blank keep what they showed.
    pub fn overlay(&mut self)
        ensures
            final(self).side() == old(self).side(),
            forall|x: int, y: int|
                on_grid(old(self).side(), x, y) ==> (#[trigger] final(self).letter_at(x, y))
                    == old(self).letter_at(x, y),
            forall|x: int, y: int|
                on_grid(old(self).side(), x, y) ==> (#[trigger] final(self).shown_at(x, y)) == (
                match old(self).letter_at(x, y) {
                    Some(letter) => letter,
                    None => old(self).shown_at(x, y),
                }),
    {
        proof {
            use_type_invariant(&*self);
        }
        let size: usize = self.display.len();
        let mut y: usize = 0;
        while y < size
            invariant
                0 <= y <= size,
                size == self.size,
                self.wf(),
                self.placement == old(self).placement,
                forall|i: int, j: int|
                    0 <= j < y && 0 <= i < size ==> (#[trigger] self.display@[j]@[i]) == (
                    match old(self).placement@[j]@[i] {
                        Some(letter) => letter,
                        None => old(self).display@[j]@[i],
                    }),
                forall|j: int| y <= j < size ==> (#[trigger] self.display@[j]) == old(self).display@[j],
            decreases size - y,
        {
            let mut x: usize = 0;
            while x < size
                invariant
                    0 <= x <= size,
                    0 <= y < size,
                    size == self.size,
                    self.wf(),
                    self.placement == old(self).placement,
                    forall|i: int, j: int|
                        0 <= j < y && 0 <= i < size ==> (#[trigger] self.display@[j]@[i]) == (
                        match old(self).placement@[j]@[i] {
                            Some(letter) => letter,
                            None => old(self).display@[j]@[i],
                        }),
                    forall|i: int|
                        0 <= i < x ==> (#[trigger] self.display@[y as int]@[i]) == (
                        match old(self).placement@[y as int]@[i] {
                            Some(letter) => letter,
                            None => old(self).display@[y as int]@[i],
                        }),
                    forall|i: int|
                        x <= i < size ==> (#[trigger] self.display@[y as int]@[i]) == old(
                            self,
                        ).display@[y as int]@[i],
                    forall|j: int|
                        y < j < size ==> (#[trigger] self.display@[j]) == old(self).display@[j],
                decreases size - x,
            {
                match self.placement[y][x] {
                    Some(letter) => {
                        put(&mut self.display, y, x, letter);
                    },
                    None => {},
                }
                x = x + 1;
            }
            y = y + 1;
        }
    }

    /// The display board as rows from top to bottom, each row from left to
    /// right.
    pub fn render(&self) -> (rows: Vec<Vec<char>>)
        ensures
            rows@.len() == self.side(),
            forall|y: int| 0 <= y < self.side() ==> (#[trigger] rows@[y])@.len() == self.side(),
            forall|x: int, y: int|
                on_grid(self.side(), x, y) ==> (#[trigger] rows@[y]@[x]) == self.shown_at(x, y),
    {
        proof {
            use_type_invariant(self);
        }
        copy_rows(&self.display)
    }
}

} // verus!
