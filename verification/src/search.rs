//! The two candidate searches for the word at the head of the queue. Both
//! only read the placement board.

use crate::board::Grid;
use crate::geometry::cell_at;
use crate::geometry::compass;
use crate::geometry::compass_at;
use crate::geometry::lemma_compass_is_unit;
use crate::geometry::lemma_span_is_convex;
use crate::geometry::on_grid;
use crate::geometry::steps;
use crate::geometry::Candidate;
use crate::geometry::Point;
use crate::placement::can_place;
use crate::placement::fits;
use crate::placement::lemma_long_word_leaves_grid;
use crate::placement::PlacedWord;
use rayon::iter::IntoParallelRefIterator;
use rayon::iter::ParallelIterator;
use vstd::prelude::*;

verus! {

/// The candidate that starts at column `x` of row `y` and runs along the
/// `heading`-th direction of the compass.
pub open spec fn slot(heading: int, x: int, y: int) -> Candidate {
    Candidate { anchor: Point { x: x as i64, y: y as i64 }, direction: compass()[heading] }
}

/// Whether `c` is a free placement of `word`: it runs along one of the
/// eight directions and the word fits there.
pub open spec fn is_free_place(grid: &Grid, word: Seq<char>, c: Candidate) -> bool {
    c.direction.is_unit() && fits(grid, word, c)
}

/// Whether `word`, placed at `c`, puts its `j`-th letter on the cell of the
/// `m`-th letter of `placed`, the two letters being the same.
pub open spec fn meets(word: Seq<char>, c: Candidate, placed: &PlacedWord, j: int, m: int) -> bool {
    &&& 0 <= j < word.len()
    &&& 0 <= m < placed.text@.len()
    &&& word[j] == placed.text@[m]
    &&& cell_at(c.anchor, c.direction, j) == cell_at(placed.anchor, placed.direction, m)
}

/// Whether `c` is an intersection placement of `word` on `placed`: the word
/// fits at `c`, turns away from the axis of `placed`, and shares a cell and
/// the letter on it with `placed`.
pub open spec fn crosses(grid: &Grid, word: Seq<char>, placed: &PlacedWord, c: Candidate) -> bool {
    &&& c.direction.is_unit()
    &&& c.direction.turns_from(placed.direction)
    &&& fits(grid, word, c)
    &&& exists|j: int, m: int| meets(word, c, placed, j, m)
}

/// The free placements of `word` that start in row `y`, at a column below
/// `columns`, and run along the `heading`-th direction: from left to right.
pub open spec fn free_in_row(
    grid: &Grid,
    word: Seq<char>,
    heading: int,
    y: int,
    columns: int,
) -> Seq<Candidate>
    decreases columns,
{
    if columns <= 0 {
        Seq::empty()
    } else {
        let before = free_in_row(grid, word, heading, y, columns - 1);
        let c = slot(heading, columns - 1, y);
        if fits(grid, word, c) {
            before.push(c)
        } else {
            before
        }
    }
}

/// The free placements of `word` that start in a row above `rows` and run
/// along the `heading`-th direction: row by row from the top.
pub open spec fn free_in_rows(grid: &Grid, word: Seq<char>, heading: int, rows: int) -> Seq<
    Candidate,
>
    decreases rows,
{
    if rows <= 0 {
        Seq::empty()
    } else {
        free_in_rows(grid, word, heading, rows - 1) + free_in_row(
            grid,
            word,
            heading,
            rows - 1,
            grid.side(),
        )
    }
}

/// The free placements of `word` along the first `headings` directions of
/// the compass: direction by direction.
pub open spec fn free_in_headings(grid: &Grid, word: Seq<char>, headings: int) -> Seq<Candidate>
    decreases headings,
{
    if headings <= 0 {
        Seq::empty()
    } else {
        free_in_headings(grid, word, headings - 1) + free_in_rows(
            grid,
            word,
            headings - 1,
            grid.side(),
        )
    }
}

/// The free pool of `word`: for each direction of the compass, for each row
/// from the top, for each column from the left, the placement that starts
/// there, if the word fits.
pub open spec fn free_pool(grid: &Grid, word: Seq<char>) -> Seq<Candidate> {
    free_in_headings(grid, word, 8)
}

/// The placements that put the `j`-th letter of `word` on the cell of the
/// `m`-th letter of `placed`, along the first `headings` directions of the
/// compass: those that turn away from the axis of `placed`, start on the
/// grid and let the word fit.
pub open spec fn crossings_at(
    grid: &Grid,
    word: Seq<char>,
    placed: &PlacedWord,
    m: int,
    j: int,
    headings: int,
) -> Seq<Candidate>
    decreases headings,
{
    if headings <= 0 {
        Seq::empty()
    } else {
        let before = crossings_at(grid, word, placed, m, j, headings - 1);
        let direction = compass()[headings - 1];
        let cell = cell_at(placed.anchor, placed.direction, m);
        let x = cell.0 - j * direction.dx;
        let y = cell.1 - j * direction.dy;
        if direction.turns_from(placed.direction) && on_grid(grid.side(), x, y) && fits(
            grid,
            word,
            slot(headings - 1, x, y),
        ) {
            before.push(slot(headings - 1, x, y))
        } else {
            before
        }
    }
}

/// The intersection placements of `word` on the `m`-th letter of `placed`,
/// for the first `letters` letters of `word`: letter by letter, for each
/// letter that equals the placed one.
pub open spec fn crossings_on_cell(
    grid: &Grid,
    word: Seq<char>,
    placed: &PlacedWord,
    m: int,
    letters: int,
) -> Seq<Candidate>
    decreases letters,
{
    if letters <= 0 {
        Seq::empty()
    } else {
        let before = crossings_on_cell(grid, word, placed, m, letters - 1);
        if word[letters - 1] == placed.text@[m] {
            before + crossings_at(grid, word, placed, m, letters - 1, 8)
        } else {
            before
        }
    }
}

/// The intersection placements of `word` on the first `cells` letters of
/// `placed`: cell by cell from its anchor.
pub open spec fn crossings_upto(grid: &Grid, word: Seq<char>, placed: &PlacedWord, cells: int) -> Seq<
    Candidate,
>
    decreases cells,
{
    if cells <= 0 {
        Seq::empty()
    } else {
        crossings_upto(grid, word, placed, cells - 1) + crossings_on_cell(
            grid,
            word,
            placed,
            cells - 1,
            word.len() as int,
        )
    }
}

/// The intersection pool of `word` on one placed word: for each letter of
/// the placed word, for each equal letter of `word`, for each direction of
/// the compass, the placement that lays the one letter on the other, if it
/// turns away from the placed word and the word fits.
pub open spec fn crossing_pool(grid: &Grid, word: Seq<char>, placed: &PlacedWord) -> Seq<Candidate> {
    crossings_upto(grid, word, placed, placed.text@.len() as int)
}

/// The intersection pools of `word` on the first `count` placed words, one
/// after the other.
pub open spec fn merged_upto(grid: &Grid, word: Seq<char>, placed: Seq<PlacedWord>, count: int) -> Seq<
    Candidate,
>
    decreases count,
{
    if count <= 0 {
        Seq::empty()
    } else {
        merged_upto(grid, word, placed, count - 1) + crossing_pool(grid, word, &placed[count - 1])
    }
}

/// The intersection pool of `word`: its pools on the placed words, in the
/// order of their placing.
pub open spec fn intersection_pool(grid: &Grid, word: Seq<char>, placed: Seq<PlacedWord>) -> Seq<
    Candidate,
> {
    merged_upto(grid, word, placed, placed.len() as int)
}

/// Whether `c` is an intersection placement of `word` on one of the words
/// of `placed`.
pub open spec fn crosses_any(
    grid: &Grid,
    word: Seq<char>,
    placed: Seq<PlacedWord>,
    c: Candidate,
) -> bool {
    exists|i: int| 0 <= i < placed.len() && crosses(grid, word, &#[trigger] placed[i], c)
}

/// An intersection placement is a free placement too.
pub proof fn lemma_crossing_is_free(
    grid: &Grid,
    word: Seq<char>,
    placed: Seq<PlacedWord>,
    c: Candidate,
)
    requires
        crosses_any(grid, word, placed, c),
    ensures
        is_free_place(grid, word, c),
{
}

/// What a sequence holds after one more item.
proof fn lemma_push_contains(pool: Seq<Candidate>, last: Candidate, c: Candidate)
    ensures
        pool.push(last).contains(c) <==> pool.contains(c) || c == last,
{
    let longer = pool.push(last);
    if pool.contains(c) {
        let i = choose|i: int| 0 <= i < pool.len() && pool[i] == c;
        assert(longer[i] == c);
    }
    if c == last {
        assert(longer[pool.len() as int] == c);
    }
}

/// The free pool of `word`: every start on the grid and every direction in
/// which the word fits, direction by direction and row by row.
pub fn free_candidates(grid: &Grid, word: &Vec<char>) -> (pool: Vec<Candidate>)
    ensures
        pool@ == free_pool(grid, word@),
        forall|c: Candidate|
            #![trigger pool@.contains(c)]
            #![trigger is_free_place(grid, word@, c)]
            pool@.contains(c) <==> is_free_place(grid, word@, c),
{
    let size: i64 = grid.size();
    let mut pool: Vec<Candidate> = Vec::new();
    let mut d: usize = 0;
    while d < 8
        invariant
            size == grid.side(),
            0 <= size,
            d <= 8,
            pool@ == free_in_headings(grid, word@, d as int),
            forall|i: int| 0 <= i < pool@.len() ==> is_free_place(grid, word@, #[trigger] pool@[i]),
            forall|h: int, x: int, y: int|
                0 <= h < d && on_grid(size as int, x, y) && fits(grid, word@, #[trigger] slot(h, x, y))
                    ==> pool@.contains(slot(h, x, y)),
        decreases 8 - d,
    {
        let direction = compass_at(d);
        let ghost done = pool@;
        let mut y: i64 = 0;
        while y < size
            invariant
                size == grid.side(),
                d < 8,
                0 <= y <= size,
                direction == compass()[d as int],
                direction.is_unit(),
                done == free_in_headings(grid, word@, d as int),
                pool@ == done + free_in_rows(grid, word@, d as int, y as int),
                forall|i: int|
                    0 <= i < pool@.len() ==> is_free_place(grid, word@, #[trigger] pool@[i]),
                forall|h: int, x: int, row: int|
                    0 <= h <= d && on_grid(size as int, x, row) && (h < d || row < y) && fits(
                        grid,
                        word@,
                        #[trigger] slot(h, x, row),
                    ) ==> pool@.contains(slot(h, x, row)),
            decreases size - y,
        {
            let ghost above = pool@;
            let mut x: i64 = 0;
            while x < size
                invariant
                    size == grid.side(),
                    d < 8,
                    0 <= y < size,
                    0 <= x <= size,
                    direction == compass()[d as int],
                    direction.is_unit(),
                    above == done + free_in_rows(grid, word@, d as int, y as int),
                    pool@ == above + free_in_row(grid, word@, d as int, y as int, x as int),
                    forall|i: int|
                        0 <= i < pool@.len() ==> is_free_place(grid, word@, #[trigger] pool@[i]),
                    forall|h: int, column: int, row: int|
                        0 <= h <= d && on_grid(size as int, column, row) && (h < d || row < y || (row
                            == y && column < x)) && fits(
                            grid,
                            word@,
                            #[trigger] slot(h, column, row),
                        ) ==> pool@.contains(slot(h, column, row)),
                decreases size - x,
            {
                let c = Candidate { anchor: Point { x, y }, direction };
                assert(c == slot(d as int, x as int, y as int));
                let ghost before = pool@;
                if can_place(grid, word, c) {
                    pool.push(c);
                    proof {
                        assert forall|h: int, column: int, row: int|
                            0 <= h <= d && on_grid(size as int, column, row) && (h < d || row < y
                                || (row == y && column < x + 1)) && fits(
                                grid,
                                word@,
                                #[trigger] slot(h, column, row),
                            ) implies pool@.contains(slot(h, column, row)) by {
                            lemma_push_contains(before, c, slot(h, column, row));
                        }
                    }
                }
                assert(pool@ =~= above + free_in_row(grid, word@, d as int, y as int, x + 1));
                x = x + 1;
            }
            assert(pool@ =~= done + free_in_rows(grid, word@, d as int, y + 1));
            y = y + 1;
        }
        d = d + 1;
    }
    proof {
        assert forall|c: Candidate| is_free_place(grid, word@, c) implies #[trigger] pool@.contains(
            c,
        ) by {
            lemma_compass_is_unit(c.direction);
            let h = choose|h: int| 0 <= h < compass().len() && compass()[h] == c.direction;
            assert(c == slot(h, c.anchor.x as int, c.anchor.y as int));
        }
    }
    pool
}

/// The intersection pool of `word` on one placed word: for each letter that
/// the two share, the word is laid across the placed word so that the
/// shared letter falls on its cell.
pub fn crossings(grid: &Grid, word: &Vec<char>, placed: &PlacedWord) -> (pool: Vec<Candidate>)
    requires
        placed.lies_on(grid.side()),
    ensures
        pool@ == crossing_pool(grid, word@, placed),
        forall|c: Candidate|
            #![trigger pool@.contains(c)]
            #![trigger crosses(grid, word@, placed, c)]
            pool@.contains(c) <==> crosses(grid, word@, placed, c),
{
    let size: i64 = grid.size();
    let len: usize = word.len();
    let placed_len: usize = placed.text.len();
    let mut pool: Vec<Candidate> = Vec::new();
    proof {
        if placed_len > size {
            lemma_long_word_leaves_grid(size as int, placed_len as int, placed.place());
        }
    }
    let mut m: usize = 0;
    while m < placed_len
        invariant
            placed.lies_on(grid.side()),
            size == grid.side(),
            len == word@.len(),
            placed_len == placed.text@.len(),
            placed_len <= size,
            m <= placed_len,
            pool@ == crossings_upto(grid, word@, placed, m as int),
            forall|i: int| 0 <= i < pool@.len() ==> crosses(grid, word@, placed, #[trigger] pool@[i]),
            forall|c: Candidate, j: int, at: int|
                0 <= at < m && c.direction.is_unit() && c.direction.turns_from(placed.direction)
                    && fits(grid, word@, c) && #[trigger] meets(word@, c, placed, j, at)
                    ==> pool@.contains(c),
        decreases placed_len - m,
    {
        proof {
            lemma_span_is_convex(size as int, placed_len as int, placed.place(), m as int);
        }
        let cross_x: i128 = placed.anchor.x as i128 + steps(m as i128, placed.direction.dx);
        let cross_y: i128 = placed.anchor.y as i128 + steps(m as i128, placed.direction.dy);
        let ghost done = pool@;
        let mut j: usize = 0;
        while j < len
            invariant
                placed.lies_on(grid.side()),
                size == grid.side(),
                len == word@.len(),
                placed_len == placed.text@.len(),
                m < placed_len,
                j <= len,
                cell_at(placed.anchor, placed.direction, m as int) == (
                    cross_x as int,
                    cross_y as int,
                ),
                on_grid(size as int, cross_x as int, cross_y as int),
                done == crossings_upto(grid, word@, placed, m as int),
                pool@ == done + crossings_on_cell(grid, word@, placed, m as int, j as int),
                forall|i: int|
                    0 <= i < pool@.len() ==> crosses(grid, word@, placed, #[trigger] pool@[i]),
                forall|c: Candidate, i: int, at: int|
                    0 <= at <= m && (at < m || i < j) && c.direction.is_unit()
                        && c.direction.turns_from(placed.direction) && fits(grid, word@, c)
                        && #[trigger] meets(word@, c, placed, i, at) ==> pool@.contains(c),
            decreases len - j,
        {
            let ghost earlier = pool@;
            if word[j] == placed.text[m] {
                let mut d: usize = 0;
                while d < 8
                    invariant
                        placed.lies_on(grid.side()),
                        size == grid.side(),
                        len == word@.len(),
                        placed_len == placed.text@.len(),
                        m < placed_len,
                        j < len,
                        d <= 8,
                        word@[j as int] == placed.text@[m as int],
                        cell_at(placed.anchor, placed.direction, m as int) == (
                            cross_x as int,
                            cross_y as int,
                        ),
                        on_grid(size as int, cross_x as int, cross_y as int),
                        pool@ == earlier + crossings_at(
                            grid,
                            word@,
                            placed,
                            m as int,
                            j as int,
                            d as int,
                        ),
                        forall|i: int|
                            0 <= i < pool@.len() ==> crosses(
                                grid,
                                word@,
                                placed,
                                #[trigger] pool@[i],
                            ),
                        forall|c: Candidate, i: int, at: int|
                            0 <= at <= m && (at < m || i < j) && c.direction.is_unit()
                                && c.direction.turns_from(placed.direction) && fits(grid, word@, c)
                                && #[trigger] meets(word@, c, placed, i, at) ==> pool@.contains(c),
                        forall|c: Candidate, h: int|
                            0 <= h < d && c.direction == #[trigger] compass()[h]
                                && c.direction.turns_from(placed.direction) && fits(grid, word@, c)
                                && #[trigger] meets(word@, c, placed, j as int, m as int)
                                ==> pool@.contains(c),
                    decreases 8 - d,
                {
                    let direction = compass_at(d);
                    let ghost before = pool@;
                    let ghost mut added: Option<Candidate> = None;
                    let x: i128 = cross_x - steps(j as i128, direction.dx);
                    let y: i128 = cross_y - steps(j as i128, direction.dy);
                    if direction.is_turn_from(&placed.direction) {
                        if 0 <= x && x < size as i128 && 0 <= y && y < size as i128 {
                            let c = Candidate {
                                anchor: Point { x: x as i64, y: y as i64 },
                                direction,
                            };
                            assert(c == slot(d as int, x as int, y as int));
                            if can_place(grid, word, c) {
                                assert(meets(word@, c, placed, j as int, m as int));
                                pool.push(c);
                                proof {
                                    added = Some(c);
                                }
                            }
                        }
                    }
                    proof {
                        assert(pool@ =~= earlier + crossings_at(
                            grid,
                            word@,
                            placed,
                            m as int,
                            j as int,
                            d + 1,
                        ));
                        assert forall|i: int| 0 <= i < pool@.len() implies crosses(
                            grid,
                            word@,
                            placed,
                            #[trigger] pool@[i],
                        ) by {
                            if i < before.len() {
                                assert(pool@[i] == before[i]);
                            }
                        }
                        assert forall|c: Candidate| before.contains(c) implies pool@.contains(c) by {
                            if added is Some {
                                lemma_push_contains(before, added->0, c);
                            }
                        }
                        assert forall|c: Candidate, h: int|
                            0 <= h < d + 1 && c.direction == #[trigger] compass()[h]
                                && c.direction.turns_from(placed.direction) && fits(grid, word@, c)
                                && #[trigger] meets(
                                word@,
                                c,
                                placed,
                                j as int,
                                m as int,
                            ) implies pool@.contains(c) by {
                            if h == d {
                                assert(c.anchor.x + j * direction.dx == cross_x);
                                assert(c.anchor.y + j * direction.dy == cross_y);
                                assert(on_grid(size as int, c.anchor.x as int, c.anchor.y as int));
                                assert(added == Some(c));
                                lemma_push_contains(before, c, c);
                            }
                        }
                    }
                    d = d + 1;
                }
                proof {
                    assert forall|c: Candidate, i: int, at: int|
                        0 <= at <= m && (at < m || i < j + 1) && c.direction.is_unit()
                            && c.direction.turns_from(placed.direction) && fits(grid, word@, c)
                            && #[trigger] meets(word@, c, placed, i, at) implies pool@.contains(
                        c,
                    ) by {
                        if at == m && i == j {
                            lemma_compass_is_unit(c.direction);
                            let h = choose|h: int|
                                0 <= h < compass().len() && compass()[h] == c.direction;
                            assert(c.direction == compass()[h]);
                        }
                    }
                }
            }
            assert(pool@ =~= done + crossings_on_cell(grid, word@, placed, m as int, j + 1));
            j = j + 1;
        }
        assert(pool@ =~= crossings_upto(grid, word@, placed, m + 1));
        m = m + 1;
    }
    proof {
        assert forall|c: Candidate| crosses(grid, word@, placed, c) implies #[trigger] pool@.contains(
            c,
        ) by {
            let (j, at) = choose|j: int, at: int| meets(word@, c, placed, j, at);
            assert(meets(word@, c, placed, j, at));
        }
    }
    pool
}

/// Runs `crossings` for each placed word on rayon's worker threads:
/// `par_iter` on the placed words, `map` with the search, `collect` into a
/// vector. The contract claims what rayon documents of an indexed parallel
/// iterator collected into a vector: one result for each item, in the order
/// of the items, each being what the mapped function returns for its item.
#[verifier::external_body]
fn scan_placed(grid: &Grid, word: &Vec<char>, placed: &Vec<PlacedWord>) -> (pools: Vec<
    Vec<Candidate>,
>)
    requires
        forall|i: int| 0 <= i < placed@.len() ==> (#[trigger] placed@[i]).lies_on(grid.side()),
    ensures
        pools@.len() == placed@.len(),
        forall|i: int|
            0 <= i < placed@.len() ==> (#[trigger] pools@[i])@ == crossing_pool(
                grid,
                word@,
                &placed@[i],
            ),
        forall|i: int, c: Candidate|
            0 <= i < placed@.len() ==> (#[trigger] pools@[i]@.contains(c) <==> crosses(
                grid,
                word@,
                &placed@[i],
                c,
            )),
{
    placed.par_iter().map(|one| crossings(grid, word, one)).collect()
}

/// The intersection pool of `word`: the pools that `crossings` finds on
/// each placed word, merged in the order of the placed words. The placed
/// words are scanned independently of each other. `None` reports that the
/// scan did not hand back one pool for each placed word, which does not
/// happen.
pub fn intersection_candidates(grid: &Grid, word: &Vec<char>, placed: &Vec<PlacedWord>) -> (pool:
    Option<Vec<Candidate>>)
    requires
        forall|i: int| 0 <= i < placed@.len() ==> (#[trigger] placed@[i]).lies_on(grid.side()),
    ensures
        pool is Some,
        pool->0@ == intersection_pool(grid, word@, placed@),
        forall|c: Candidate|
            #![trigger pool->0@.contains(c)]
            #![trigger crosses_any(grid, word@, placed@, c)]
            pool->0@.contains(c) <==> crosses_any(grid, word@, placed@, c),
{
    let pools: Vec<Vec<Candidate>> = scan_placed(grid, word, placed);
    if pools.len() != placed.len() {
        return None;
    }
    let mut merged: Vec<Candidate> = Vec::new();
    let mut i: usize = 0;
    while i < pools.len()
        invariant
            i <= pools@.len(),
            pools@.len() == placed@.len(),
            forall|n: int|
                0 <= n < placed@.len() ==> (#[trigger] pools@[n])@ == crossing_pool(
                    grid,
                    word@,
                    &placed@[n],
                ),
            forall|n: int, c: Candidate|
                0 <= n < placed@.len() ==> (#[trigger] pools@[n]@.contains(c) <==> crosses(
                    grid,
                    word@,
                    &placed@[n],
                    c,
                )),
            merged@ == merged_upto(grid, word@, placed@, i as int),
            forall|k: int|
                0 <= k < merged@.len() ==> crosses_any(grid, word@, placed@, #[trigger] merged@[k]),
            forall|n: int, c: Candidate|
                0 <= n < i && #[trigger] pools@[n]@.contains(c) ==> merged@.contains(c),
        decreases pools@.len() - i,
    {
        let one: &Vec<Candidate> = &pools[i];
        let ghost done = merged@;
        let mut k: usize = 0;
        while k < one.len()
            invariant
                i < pools@.len(),
                pools@.len() == placed@.len(),
                one@ == pools@[i as int]@,
                k <= one@.len(),
                forall|n: int, c: Candidate|
                    0 <= n < placed@.len() ==> (#[trigger] pools@[n]@.contains(c) <==> crosses(
                        grid,
                        word@,
                        &placed@[n],
                        c,
                    )),
                merged@ == done + one@.take(k as int),
                forall|n: int|
                    0 <= n < merged@.len() ==> crosses_any(
                        grid,
                        word@,
                        placed@,
                        #[trigger] merged@[n],
                    ),
                forall|n: int, c: Candidate|
                    0 <= n < i && #[trigger] pools@[n]@.contains(c) ==> merged@.contains(c),
                forall|n: int| 0 <= n < k ==> merged@.contains(#[trigger] one@[n]),
            decreases one@.len() - k,
        {
            let c: Candidate = one[k];
            let ghost before = merged@;
            merged.push(c);
            proof {
                assert(merged@ =~= done + one@.take(k + 1));
                assert(pools@[i as int]@.contains(c));
                assert(crosses(grid, word@, &placed@[i as int], c));
                assert forall|e: Candidate| before.contains(e) implies merged@.contains(e) by {
                    lemma_push_contains(before, c, e);
                }
                lemma_push_contains(before, c, c);
            }
            k = k + 1;
        }
        proof {
            assert(one@.take(one@.len() as int) =~= one@);
        }
        i = i + 1;
    }
    proof {
        assert forall|c: Candidate| crosses_any(grid, word@, placed@, c) implies #[trigger] merged@.contains(
            c,
        ) by {
            let n = choose|n: int|
                0 <= n < placed@.len() && crosses(grid, word@, &#[trigger] placed@[n], c);
            assert(pools@[n]@.contains(c));
        }
    }
    Some(merged)
}

} // verus!
