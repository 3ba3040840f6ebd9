//! The placement loop: the queue is drained one word at a time, and each
//! word is searched for, selected and committed before the next one.

use crate::board::Grid;
use crate::catalog::letters_of;
use crate::catalog::texts;
use crate::error::GenerationError;
use crate::geometry::cell_at;
use crate::geometry::lemma_span_is_convex;
use crate::geometry::lemma_unit_product;
use crate::geometry::on_grid;
use crate::geometry::Candidate;
use crate::geometry::Direction;
use crate::geometry::Point;
use crate::placement::cell_accepts;
use crate::placement::cell_holds;
use crate::placement::covers;
use crate::placement::holds_word;
use crate::placement::write_word;
use crate::placement::PlacedWord;
use crate::search::free_candidates;
use crate::search::free_pool;
use crate::search::intersection_candidates;
use crate::search::intersection_pool;
use crate::search::is_free_place;
use crate::search::lemma_crossing_is_free;
use crate::select::choose_candidate;
use crate::select::selection;
use rand::rngs::SmallRng;
use vstd::prelude::*;

verus! {

/// Whether some placed word covers column `x` of row `y`.
pub open spec fn covered(placed: Seq<PlacedWord>, x: int, y: int) -> bool {
    exists|i: int|
        0 <= i < placed.len() && covers(
            (#[trigger] placed[i]).place(),
            placed[i].text@.len() as int,
            x,
            y,
        )
}

/// The placement board and the placed words agree: each word lies on the
/// grid and the board spells it, and the board holds a letter only where a
/// placed word covers the cell.
pub open spec fn consistent(grid: &Grid, placed: Seq<PlacedWord>) -> bool {
    &&& forall|i: int|
        0 <= i < placed.len() ==> (#[trigger] placed[i]).lies_on(grid.side()) && holds_word(
            grid,
            placed[i].text@,
            placed[i].place(),
        )
    &&& forall|x: int, y: int|
        on_grid(grid.side(), x, y) && (#[trigger] grid.letter_at(x, y)) is Some ==> covered(
            placed,
            x,
            y,
        )
}

/// The texts of the placed words, in the order of their placing.
pub open spec fn placed_texts(placed: Seq<PlacedWord>) -> Seq<Seq<char>> {
    Seq::new(placed.len(), |i: int| placed[i].text@)
}

/// Whether a blank board of `side` rows and columns has room for a word of
/// `len` letters: the word is not longer than the board is wide; a word
/// without letters needs two cells in a line.
pub open spec fn blank_has_room(len: int, side: int) -> bool {
    if len == 0 {
        2 <= side
    } else {
        len <= side
    }
}

/// A blank board has a free placement for a word exactly if it has room
/// for it.
pub proof fn lemma_blank_board_has_room(grid: &Grid, word: Seq<char>)
    requires
        grid.is_blank(),
    ensures
        (exists|c: Candidate| is_free_place(grid, word, c)) <==> blank_has_room(
            word.len() as int,
            grid.side(),
        ),
{
    let len = word.len() as int;
    if blank_has_room(len, grid.side()) {
        let right = Direction { dx: 1, dy: 0 };
        let start: i64 = if len == 0 {
            1
        } else {
            0
        };
        let c = Candidate { anchor: Point { x: start, y: 0 }, direction: right };
        lemma_unit_product(len - 1, 1);
        lemma_unit_product(len - 1, 0);
        assert forall|k: int| 0 <= k < len implies #[trigger] cell_accepts(grid, word, c, k) by {
            lemma_span_is_convex(grid.side(), len, c, k);
            let cell = cell_at(c.anchor, c.direction, k);
            assert(grid.letter_at(cell.0, cell.1) is None);
        }
        assert(is_free_place(grid, word, c));
    } else {
        assert forall|c: Candidate| !is_free_place(grid, word, c) by {
            if c.direction.is_unit() {
                lemma_unit_product(len - 1, c.direction.dx as int);
                lemma_unit_product(len - 1, c.direction.dy as int);
            }
        }
    }
}

/// The placement that a coin and a pick select for `word` on the board as
/// it stands, from its intersection pool and its free pool.
pub open spec fn drawn_place(
    grid: &Grid,
    placed: Seq<PlacedWord>,
    word: Seq<char>,
    coin: bool,
    pick: int,
) -> Option<Candidate> {
    selection(intersection_pool(grid, word, placed), free_pool(grid, word), coin, pick)
}

/// Places one word: searches both pools on the board as it stands, draws
/// one candidate and commits the word there. The word is exhausted exactly
/// if the board has no free placement for it; the board and the placed
/// words are then left as they were. Otherwise the word is written at the
/// place that the draws select, and the rest of the board stays as it was.
pub fn place_word(
    grid: &mut Grid,
    placed: &mut Vec<PlacedWord>,
    word: &str,
    rng: &mut SmallRng,
) -> (outcome: Result<(), GenerationError>)
    requires
        consistent(old(grid), old(placed)@),
    ensures
        final(grid).side() == old(grid).side(),
        forall|x: int, y: int|
            on_grid(old(grid).side(), x, y) ==> (#[trigger] final(grid).shown_at(x, y)) == old(
                grid,
            ).shown_at(x, y),
        consistent(final(grid), final(placed)@),
        outcome is Err <==> forall|c: Candidate| !is_free_place(old(grid), word@, c),
        outcome is Ok ==> final(placed)@.len() == old(placed)@.len() + 1 && final(placed)@.drop_last() == old(placed)@ && final(placed)@.last().text@ == word@ && is_free_place(
            old(grid),
            word@,
            final(placed)@.last().place(),
        ),
        outcome is Ok ==> exists|coin: bool, pick: int|
            0 <= pick && #[trigger] drawn_place(old(grid), old(placed)@, word@, coin, pick) == Some(
                final(placed)@.last().place(),
            ),
        outcome is Ok ==> forall|x: int, y: int|
            on_grid(old(grid).side(), x, y) && !covers(
                final(placed)@.last().place(),
                word@.len() as int,
                x,
                y,
            ) ==> (#[trigger] final(grid).letter_at(x, y)) == old(grid).letter_at(x, y),
        outcome is Err ==> outcome->Err_0 is PlacementExhausted && outcome->Err_0->word@ == word@
            && *final(grid) == *old(grid) && *final(placed) == *old(placed),
{
    let letters: Vec<char> = letters_of(word);
    let crossing: Vec<Candidate> = match intersection_candidates(grid, &letters, placed) {
        Some(pool) => pool,
        None => {
            return Err(GenerationError::InternalInconsistency);
        },
    };
    let free: Vec<Candidate> = free_candidates(grid, &letters);
    proof {
        if free@.len() == 0 && crossing@.len() > 0 {
            assert(crossing@.contains(crossing@[0]));
            lemma_crossing_is_free(grid, word@, placed@, crossing@[0]);
            assert(free@.contains(crossing@[0]));
        }
        if free@.len() > 0 {
            assert(free@.contains(free@[0]));
        }
    }
    let chosen = choose_candidate(&crossing, &free, rng);
    let ghost (coin, pick) = choose|coin: bool, pick: int|
        0 <= pick && chosen == #[trigger] selection(crossing@, free@, coin, pick);
    assert(chosen == drawn_place(grid, placed@, word@, coin, pick));
    match chosen {
        None => Err(GenerationError::PlacementExhausted { word: word.to_owned() }),
        Some(c) => {
            proof {
                if crossing@.contains(c) {
                    lemma_crossing_is_free(grid, word@, placed@, c);
                }
                assert(is_free_place(grid, word@, c));
            }
            let ghost before = *grid;
            let ghost earlier = placed@;
            write_word(grid, &letters, c);
            let latest = PlacedWord { text: letters, anchor: c.anchor, direction: c.direction };
            placed.push(latest);
            proof {
                let size = grid.side();
                assert(latest.place() == c);
                assert(placed@.drop_last() =~= earlier);
                assert forall|i: int| 0 <= i < placed@.len() implies (#[trigger] placed@[i]).lies_on(
                    size,
                ) && holds_word(grid, placed@[i].text@, placed@[i].place()) by {
                    if i < earlier.len() {
                        let one = earlier[i];
                        assert(placed@[i] == one);
                        assert forall|k: int| 0 <= k < one.text@.len() implies #[trigger] cell_holds(
                            grid,
                            one.text@,
                            one.place(),
                            k,
                        ) by {
                            lemma_span_is_convex(size, one.text@.len() as int, one.place(), k);
                            assert(cell_holds(&before, one.text@, one.place(), k));
                        }
                    }
                }
                assert forall|x: int, y: int|
                    on_grid(size, x, y) && (#[trigger] grid.letter_at(x, y)) is Some implies covered(
                    placed@,
                    x,
                    y,
                ) by {
                    if covers(c, word@.len() as int, x, y) {
                        assert(covers(
                            placed@[earlier.len() as int].place(),
                            placed@[earlier.len() as int].text@.len() as int,
                            x,
                            y,
                        ));
                    } else {
                        assert(before.letter_at(x, y) is Some);
                        let i = choose|i: int|
                            0 <= i < earlier.len() && covers(
                                (#[trigger] earlier[i]).place(),
                                earlier[i].text@.len() as int,
                                x,
                                y,
                            );
                        assert(placed@[i] == earlier[i]);
                    }
                }
            }
            Ok(())
        },
    }
}

/// Whether the board holds exactly the words of `placed`, which are the
/// first `i` words of the queue, and has no free placement for the next
/// word of the queue, which is `word`.
pub open spec fn stops_at(
    grid: &Grid,
    queue: Seq<Seq<char>>,
    word: Seq<char>,
    i: int,
    placed: Seq<PlacedWord>,
) -> bool {
    &&& 0 <= i < queue.len()
    &&& queue[i] == word
    &&& placed_texts(placed) == queue.take(i)
    &&& consistent(grid, placed)
    &&& forall|c: Candidate| !is_free_place(grid, word, c)
}

/// Whether a run on the queue got stuck at `word` and left the board as
/// `grid`: the words before `word` are on the board, and `word` has no
/// free placement there.
pub open spec fn stuck_at(grid: &Grid, queue: Seq<Seq<char>>, word: Seq<char>) -> bool {
    exists|i: int, placed: Seq<PlacedWord>| stops_at(grid, queue, word, i, placed)
}

/// Places every word of the queue, front to back, on a blank board. Either
/// all words are placed, in the order of the queue, or the run stops at the
/// first word for which the board has no place left, with the words before
/// it on the board.
pub fn place_all(grid: &mut Grid, queue: &Vec<String>, rng: &mut SmallRng) -> (outcome: Result<
    Vec<PlacedWord>,
    GenerationError,
>)
    requires
        old(grid).is_blank(),
    ensures
        final(grid).side() == old(grid).side(),
        forall|x: int, y: int|
            on_grid(old(grid).side(), x, y) ==> (#[trigger] final(grid).shown_at(x, y)) == old(
                grid,
            ).shown_at(x, y),
        outcome is Ok ==> consistent(final(grid), outcome->Ok_0@) && placed_texts(outcome->Ok_0@)
            == texts(queue@),
        outcome is Err ==> outcome->Err_0 is PlacementExhausted && stuck_at(
            final(grid),
            texts(queue@),
            outcome->Err_0->word@,
        ),
        queue@.len() == 0 ==> outcome is Ok,
        queue@.len() == 1 && blank_has_room(queue@[0]@.len() as int, old(grid).side())
            ==> outcome is Ok,
        queue@.len() >= 1 && !blank_has_room(queue@[0]@.len() as int, old(grid).side())
            ==> outcome is Err && outcome->Err_0->word@ == queue@[0]@,
{
    let mut placed: Vec<PlacedWord> = Vec::new();
    let mut i: usize = 0;
    while i < queue.len()
        invariant
            i <= queue@.len(),
            grid.side() == old(grid).side(),
            forall|x: int, y: int|
                on_grid(old(grid).side(), x, y) ==> (#[trigger] grid.shown_at(x, y)) == old(
                    grid,
                ).shown_at(x, y),
            consistent(grid, placed@),
            placed@.len() == i,
            forall|k: int| 0 <= k < i ==> (#[trigger] placed@[k]).text@ == queue@[k]@,
            i == 0 ==> *grid == *old(grid),
            i > 0 ==> blank_has_room(queue@[0]@.len() as int, old(grid).side()),
        decreases queue@.len() - i,
    {
        let ghost earlier = placed@;
        proof {
            if i == 0 {
                lemma_blank_board_has_room(grid, queue@[0]@);
            }
        }
        match place_word(grid, &mut placed, queue[i].as_str(), rng) {
            Ok(()) => {},
            Err(e) => {
                proof {
                    assert(texts(queue@)[i as int] == e->word@);
                    assert(placed_texts(earlier) =~= texts(queue@).take(i as int));
                    assert(stops_at(grid, texts(queue@), e->word@, i as int, earlier));
                }
                return Err(e);
            },
        }
        proof {
            assert forall|k: int| 0 <= k < i + 1 implies (#[trigger] placed@[k]).text@
                == queue@[k]@ by {
                if k < i {
                    assert(placed@[k] == placed@.drop_last()[k]);
                }
            }
        }
        i = i + 1;
    }
    assert(placed_texts(placed@) =~= texts(queue@));
    Ok(placed)
}

} // verus!
