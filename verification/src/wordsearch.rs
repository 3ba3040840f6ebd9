//! The finished puzzle and the entry point that generates it.

use crate::alphabet::is_capital;
use crate::board::Grid;
use crate::catalog::invalid_words;
use crate::catalog::is_queue_of;
use crate::catalog::normalize;
use crate::catalog::normalized;
use crate::catalog::order;
use crate::catalog::oversize_words;
use crate::catalog::slice_texts;
use crate::catalog::string_of;
use crate::catalog::texts;
use crate::catalog::validate;
use crate::error::GenerationError;
use crate::generator::covered;
use crate::generator::place_all;
use crate::generator::placed_texts;
use crate::generator::stuck_at;
use crate::geometry::cell_at;
use crate::geometry::lemma_span_is_convex;
use crate::geometry::on_grid;
use crate::placement::cell_holds;
use crate::placement::covers;
use crate::placement::PlacedWord;
use crate::random::start_generator;
use vstd::prelude::*;

verus! {

/// A finished puzzle: the grid of letters and the words hidden in it, each
/// with the place where it was committed.
#[derive(Debug)]
pub struct WordSearch {
    grid: Grid,
    words: Vec<PlacedWord>,
}

/// Whether the grid size or the number of words is refused outright: the
/// grid is smaller than 5 by 5, or there are more words than cells.
pub open spec fn is_misconfigured(count: int, size: int) -> bool {
    size < 5 || count > size * size
}

/// Whether some normalized word of the raw list has no capital letter or is
/// longer than the grid is wide.
pub open spec fn has_violations(raw: Seq<Seq<char>>, size: int) -> bool {
    invalid_words(normalized(raw)).len() > 0 || oversize_words(normalized(raw), size).len() > 0
}

/// The text of one row: each letter followed by a space.
pub open spec fn row_text(row: Seq<char>) -> Seq<char>
    decreases row.len(),
{
    if row.len() == 0 {
        Seq::empty()
    } else {
        row_text(row.drop_last()).push(row.last()).push(' ')
    }
}

/// The text of a grid: the text of each row, followed by a line feed.
pub open spec fn rows_text(rows: Seq<Seq<char>>) -> Seq<char>
    decreases rows.len(),
{
    if rows.len() == 0 {
        Seq::empty()
    } else {
        (rows_text(rows.drop_last()) + row_text(rows.last())).push('\n')
    }
}

impl Clone for WordSearch {
    /// A puzzle with the same grid and the same placed words.
    fn clone(&self) -> (copy: WordSearch)
        ensures
            copy.side() == self.side(),
            copy.rows() == self.rows(),
            copy.placements().len() == self.placements().len(),
            forall|i: int|
                0 <= i < self.placements().len() ==> (#[trigger] copy.placements()[i]).text@
                    == self.placements()[i].text@ && copy.placements()[i].place()
                    == self.placements()[i].place(),
    {
        proof {
            use_type_invariant(self);
        }
        let grid: Grid = self.grid.clone();
        let mut words: Vec<PlacedWord> = Vec::new();
        let mut i: usize = 0;
        while i < self.words.len()
            invariant
                i <= self.words@.len(),
                words@.len() == i,
                forall|k: int|
                    0 <= k < i ==> (#[trigger] words@[k]).text@ == self.words@[k].text@
                        && words@[k].place() == self.words@[k].place(),
            decreases self.words@.len() - i,
        {
            words.push(self.words[i].clone());
            i = i + 1;
        }
        let ghost copy = WordSearch { grid, words };
        proof {
            use_type_invariant(&grid);
            self.lemma_side_is_natural();
            assert forall|k: int| 0 <= k < copy.placements().len() implies (
            #[trigger] copy.placements()[k]).lies_on(copy.side()) && copy.shows_word(
                copy.placements()[k],
            ) by {
                let mine = self.placements()[k];
                let other = copy.placements()[k];
                assert(mine.lies_on(self.side()) && self.shows_word(mine));
                assert forall|n: int| 0 <= n < other.text@.len() implies #[trigger] copy.shows_letter(
                    other,
                    n,
                ) by {
                    lemma_span_is_convex(self.side(), mine.text@.len() as int, mine.place(), n);
                    assert(self.shows_letter(mine, n));
                }
            }
            assert forall|x: int, y: int| on_grid(copy.side(), x, y) implies is_capital(
                #[trigger] copy.letter(x, y),
            ) || covered(copy.placements(), x, y) by {
                if !is_capital(self.letter(x, y)) {
                    let k = choose|k: int|
                        0 <= k < self.placements().len() && covers(
                            (#[trigger] self.placements()[k]).place(),
                            self.placements()[k].text@.len() as int,
                            x,
                            y,
                        );
                    assert(covers(
                        copy.placements()[k].place(),
                        copy.placements()[k].text@.len() as int,
                        x,
                        y,
                    ));
                }
            }
            assert(copy.rows() =~~= self.rows());
        }
        WordSearch { grid, words }
    }
}

impl WordSearch {
    /// The number of rows, and of columns.
    pub closed spec fn side(&self) -> int {
        self.grid.side()
    }

    /// The letter at column `x` of row `y`.
    pub closed spec fn letter(&self, x: int, y: int) -> char {
        self.grid.shown_at(x, y)
    }

    /// The placed words, in the order of their placing.
    pub closed spec fn placements(&self) -> Seq<PlacedWord> {
        self.words@
    }

    /// The grid is a square of `side()` rows and columns.
    pub closed spec fn is_square(&self) -> bool {
        self.grid.wf()
    }

    /// A square grid has no negative side.
    pub proof fn lemma_side_is_natural(&self)
        requires
            self.is_square(),
        ensures
            0 <= self.side(),
    {
        self.grid.lemma_side_is_natural();
    }

    /// The rows of the grid from top to bottom, each from left to right.
    pub open spec fn rows(&self) -> Seq<Seq<char>> {
        Seq::new(self.side() as nat, |y: int| Seq::new(self.side() as nat, |x: int| self.letter(x, y)))
    }

    /// Whether the grid shows the `k`-th letter of `placed` on the cell `k`
    /// steps from its anchor along its direction.
    pub open spec fn shows_letter(&self, placed: PlacedWord, k: int) -> bool {
        let cell = cell_at(placed.anchor, placed.direction, k);
        self.letter(cell.0, cell.1) == placed.text@[k]
    }

    /// Whether the grid spells `placed`, reading forward from its anchor
    /// along its direction.
    pub open spec fn shows_word(&self, placed: PlacedWord) -> bool {
        forall|k: int| 0 <= k < placed.text@.len() ==> #[trigger] self.shows_letter(placed, k)
    }

    /// The puzzle is sound: the grid is a square; every placed word lies on
    /// it and can be read there; and every cell that no placed word covers
    /// shows a capital letter. Every puzzle that the library hands out is
    /// sound.
    #[verifier::type_invariant]
    pub open spec fn wf(&self) -> bool {
        &&& self.is_square()
        &&& forall|i: int|
            0 <= i < self.placements().len() ==> (#[trigger] self.placements()[i]).lies_on(
                self.side(),
            ) && self.shows_word(self.placements()[i])
        &&& forall|x: int, y: int|
            on_grid(self.side(), x, y) ==> is_capital(#[trigger] self.letter(x, y)) || covered(
                self.placements(),
                x,
                y,
            )
    }

    /// Generates a puzzle of `size` rows and columns that hides `words`.
    ///
    /// The size and the number of words are checked first, then the
    /// normalized words are validated in one batch. The words are placed in
    /// descending dictionary order. With `seeded` the random stream starts
    /// from a seed of the operating system, without it from a fixed seed.
    /// A run that cannot place every word fails as a whole: it names the
    /// first word of the queue for which the board, with the words before
    /// it placed, had no room.
    pub fn new(words: &[&str], seeded: bool, size: i64) -> (outcome: Result<
        WordSearch,
        GenerationError,
    >)
        ensures
            is_misconfigured(words@.len() as int, size as int) <==> outcome is Err
                && outcome->Err_0 is Config,
            !is_misconfigured(words@.len() as int, size as int) && has_violations(
                slice_texts(words@),
                size as int,
            ) <==> outcome is Err && outcome->Err_0 is Validation,
            outcome is Err && outcome->Err_0 is Validation ==> texts(outcome->Err_0->invalid@)
                == invalid_words(normalized(slice_texts(words@))) && texts(
                outcome->Err_0->oversize@,
            ) == oversize_words(normalized(slice_texts(words@)), size as int),
            outcome is Ok ==> outcome->Ok_0.wf() && outcome->Ok_0.side() == size && is_queue_of(
                placed_texts(outcome->Ok_0.placements()),
                slice_texts(words@),
            ),
            outcome is Err && outcome->Err_0 is PlacementExhausted ==> normalized(
                slice_texts(words@),
            ).contains(outcome->Err_0->word@) && normalized(slice_texts(words@)).len() >= 2,
            outcome is Err && outcome->Err_0 is PlacementExhausted ==> exists|
                board: Grid,
                queue: Seq<Seq<char>>,
            |
                board.side() == size && is_queue_of(queue, slice_texts(words@)) && #[trigger] stuck_at(
                    &board,
                    queue,
                    outcome->Err_0->word@,
                ),
            !(outcome is Err && outcome->Err_0 is InternalInconsistency),
            outcome is Err && outcome->Err_0 is EntropyUnavailable ==> seeded,
            !seeded && !is_misconfigured(words@.len() as int, size as int) && !has_violations(
                slice_texts(words@),
                size as int,
            ) && normalized(slice_texts(words@)).len() <= 1 ==> outcome is Ok,
    {
        if size < 5 {
            return Err(GenerationError::Config);
        }
        assert(size * size <= u128::MAX) by (nonlinear_arith)
            requires
                0 <= size <= i64::MAX,
        ;
        let cells: u128 = (size as u128) * (size as u128);
        if words.len() as u128 > cells {
            return Err(GenerationError::Config);
        }
        let list: Vec<String> = normalize(words);
        match validate(&list, size) {
            Ok(()) => {},
            Err(e) => {
                return Err(e);
            },
        }
        let ghost entered = texts(list@);
        let queue: Vec<String> = order(list);
        let mut rng = match start_generator(seeded) {
            Ok(rng) => rng,
            Err(_) => {
                return Err(GenerationError::EntropyUnavailable);
            },
        };
        let mut grid: Grid = Grid::init(size, &mut rng);
        let ghost fresh = grid;
        proof {
            entered.to_multiset_ensures();
            texts(queue@).to_multiset_ensures();
            if entered.len() == 1 {
                assert(texts(queue@)[0] == queue@[0]@);
                assert(texts(queue@).contains(queue@[0]@));
                assert(entered.to_multiset().count(queue@[0]@) > 0);
                assert(entered.contains(queue@[0]@));
                assert(entered[0] == queue@[0]@);
                if queue@[0]@.len() > size {
                    let exceeds = |w: Seq<char>| w.len() > size as int;
                    entered.drop_last().lemma_filter_push(entered[0], exceeds);
                    assert(entered.drop_last().push(entered[0]) =~= entered);
                }
            }
        }
        let placed: Vec<PlacedWord> = match place_all(&mut grid, &queue, &mut rng) {
            Ok(placed) => placed,
            Err(e) => {
                proof {
                    assert(texts(queue@).to_multiset().count(e->word@) > 0);
                    assert(entered.contains(e->word@));
                    assert(grid.side() == size && is_queue_of(texts(queue@), slice_texts(words@))
                        && stuck_at(&grid, texts(queue@), e->word@));
                }
                return Err(e);
            },
        };
        let ghost committed = grid;
        grid.overlay();
        let ghost puzzle = WordSearch { grid, words: placed };
        proof {
            use_type_invariant(&grid);
            assert forall|i: int| 0 <= i < puzzle.placements().len() implies (
            #[trigger] puzzle.placements()[i]).lies_on(puzzle.side()) && puzzle.shows_word(
                puzzle.placements()[i],
            ) by {
                let one = placed@[i];
                assert forall|k: int| 0 <= k < one.text@.len() implies #[trigger] puzzle.shows_letter(
                    one,
                    k,
                ) by {
                    lemma_span_is_convex(size as int, one.text@.len() as int, one.place(), k);
                    assert(cell_holds(&committed, one.text@, one.place(), k));
                }
            }
            assert forall|x: int, y: int| on_grid(puzzle.side(), x, y) implies is_capital(
                #[trigger] puzzle.letter(x, y),
            ) || covered(puzzle.placements(), x, y) by {
                if committed.letter_at(x, y) is None {
                    assert(is_capital(fresh.shown_at(x, y)));
                    assert(committed.shown_at(x, y) == fresh.shown_at(x, y));
                }
            }
        }
        Ok(WordSearch { grid, words: placed })
    }

    /// The number of rows, and of columns.
    pub fn size(&self) -> (size: i64)
        ensures
            size == self.side(),
    {
        self.grid.size()
    }

    /// The placed words, in the order of their placing.
    pub fn words(&self) -> (placed: &Vec<PlacedWord>)
        ensures
            placed@ == self.placements(),
    {
        &self.words
    }

    /// The grid as rows from top to bottom, each row from left to right.
    pub fn render(&self) -> (rows: Vec<Vec<char>>)
        ensures
            rows@.len() == self.side(),
            forall|y: int| 0 <= y < self.side() ==> (#[trigger] rows@[y])@ == self.rows()[y],
    {
        proof {
            use_type_invariant(self);
        }
        let rows = self.grid.render();
        proof {
            assert forall|y: int| 0 <= y < self.side() implies (#[trigger] rows@[y])@
                == self.rows()[y] by {
                assert(rows@[y]@ =~= self.rows()[y]);
            }
        }
        rows
    }

    /// The grid as text: one line for each row, each letter followed by a
    /// space.
    pub fn to_text(&self) -> (text: String)
        ensures
            text@ == rows_text(self.rows()),
    {
        let rows = self.render();
        let mut letters: Vec<char> = Vec::new();
        let mut y: usize = 0;
        while y < rows.len()
            invariant
                y <= rows@.len(),
                rows@.len() == self.side(),
                forall|j: int| 0 <= j < self.side() ==> (#[trigger] rows@[j])@ == self.rows()[j],
                letters@ == rows_text(self.rows().take(y as int)),
            decreases rows@.len() - y,
        {
            let row: &Vec<char> = &rows[y];
            let ghost done = letters@;
            let mut x: usize = 0;
            while x < row.len()
                invariant
                    x <= row@.len(),
                    letters@ == done + row_text(row@.take(x as int)),
                decreases row@.len() - x,
            {
                proof {
                    assert(row@.take(x + 1).drop_last() =~= row@.take(x as int));
                }
                letters.push(row[x]);
                letters.push(' ');
                x = x + 1;
            }
            letters.push('\n');
            proof {
                assert(row@.take(row@.len() as int) =~= row@);
                assert(self.rows().take(y + 1).drop_last() =~= self.rows().take(y as int));
            }
            y = y + 1;
        }
        proof {
            assert(self.rows().take(rows@.len() as int) =~= self.rows());
        }
        string_of(&letters)
    }
}

/// Every word of the list can be read in the grid: a puzzle whose placed
/// words are the processing queue of `raw` holds a placement for each
/// normalized word of `raw`, which lies on the grid and spells the word
/// forward from its anchor along its direction.
pub proof fn lemma_every_word_is_shown(puzzle: &WordSearch, raw: Seq<Seq<char>>, word: Seq<char>)
    requires
        puzzle.wf(),
        is_queue_of(placed_texts(puzzle.placements()), raw),
        normalized(raw).contains(word),
    ensures
        exists|i: int|
            0 <= i < puzzle.placements().len() && (#[trigger] puzzle.placements()[i]).text@ == word
                && puzzle.placements()[i].lies_on(puzzle.side()) && puzzle.shows_word(
                puzzle.placements()[i],
            ),
{
    let shown = placed_texts(puzzle.placements());
    normalized(raw).to_multiset_ensures();
    shown.to_multiset_ensures();
    assert(shown.to_multiset().count(word) > 0);
    let i = choose|i: int| 0 <= i < shown.len() && shown[i] == word;
    assert(puzzle.placements()[i].text@ == word);
}

/// Two placed words never contradict each other: where the cell of the
/// `a`-th letter of one is the cell of the `b`-th letter of the other, the
/// two letters are the same.
pub proof fn lemma_shared_cell_agrees(puzzle: &WordSearch, i: int, j: int, a: int, b: int)
    requires
        puzzle.wf(),
        0 <= i < puzzle.placements().len(),
        0 <= j < puzzle.placements().len(),
        0 <= a < puzzle.placements()[i].text@.len(),
        0 <= b < puzzle.placements()[j].text@.len(),
        cell_at(puzzle.placements()[i].anchor, puzzle.placements()[i].direction, a) == cell_at(
            puzzle.placements()[j].anchor,
            puzzle.placements()[j].direction,
            b,
        ),
    ensures
        puzzle.placements()[i].text@[a] == puzzle.placements()[j].text@[b],
{
    assert(puzzle.shows_letter(puzzle.placements()[i], a));
    assert(puzzle.shows_letter(puzzle.placements()[j], b));
}

/// Whether every letter of every placed word is a capital.
pub open spec fn all_capitals(placed: Seq<PlacedWord>) -> bool {
    forall|i: int, k: int|
        0 <= i < placed.len() && 0 <= k < placed[i].text@.len() ==> is_capital(
            #[trigger] placed[i].text@[k],
        )
}

/// The grid is a square of capital letters: it has `side()` rows of
/// `side()` letters, and if the placed words hold capitals only, so does
/// every cell.
pub proof fn lemma_grid_is_square_of_capitals(puzzle: &WordSearch)
    requires
        puzzle.wf(),
        all_capitals(puzzle.placements()),
    ensures
        puzzle.rows().len() == puzzle.side(),
        forall|y: int| 0 <= y < puzzle.side() ==> (#[trigger] puzzle.rows()[y]).len() == puzzle.side(),
        forall|x: int, y: int|
            on_grid(puzzle.side(), x, y) ==> is_capital(#[trigger] puzzle.rows()[y][x]),
{
    puzzle.lemma_side_is_natural();
    assert forall|x: int, y: int| on_grid(puzzle.side(), x, y) implies is_capital(
        #[trigger] puzzle.rows()[y][x],
    ) by {
        assert(puzzle.rows()[y][x] == puzzle.letter(x, y));
        if !is_capital(puzzle.letter(x, y)) {
            let placed = puzzle.placements();
            let i = choose|i: int|
                0 <= i < placed.len() && covers(
                    (#[trigger] placed[i]).place(),
                    placed[i].text@.len() as int,
                    x,
                    y,
                );
            let k = choose|k: int|
                0 <= k < placed[i].text@.len() && #[trigger] cell_at(
                    placed[i].anchor,
                    placed[i].direction,
                    k,
                ) == (x, y);
            assert(puzzle.shows_letter(placed[i], k));
            assert(is_capital(placed[i].text@[k]));
        }
    }
}

} // verus!
