//! Selection: one candidate is drawn from the two pools, with an even
//! chance of preferring an intersection.

use crate::geometry::Candidate;
use crate::random::draw_any;
use crate::random::draw_ratio;
use rand::rngs::SmallRng;
use vstd::prelude::*;

verus! {

/// The candidate that two draws select. If there are intersection
/// placements and the coin came up, `pick` chooses among them; otherwise it
/// chooses among the free placements; with none of those nothing is
/// selected. `pick` is reduced modulo the length of the pool.
pub open spec fn selection(
    crossing: Seq<Candidate>,
    free: Seq<Candidate>,
    coin: bool,
    pick: int,
) -> Option<Candidate> {
    if crossing.len() > 0 && coin {
        Some(crossing[pick % (crossing.len() as int)])
    } else if free.len() > 0 {
        Some(free[pick % (free.len() as int)])
    } else {
        None
    }
}

/// Computes `selection` for the given draws.
pub fn select(crossing: &Vec<Candidate>, free: &Vec<Candidate>, coin: bool, pick: usize) -> (chosen:
    Option<Candidate>)
    ensures
        chosen == selection(crossing@, free@, coin, pick as int),
{
    if crossing.len() != 0 && coin {
        Some(crossing[pick % crossing.len()])
    } else if free.len() != 0 {
        Some(free[pick % free.len()])
    } else {
        None
    }
}

/// Draws from `rng` and selects. The coin is flipped only if there is an
/// intersection placement, and the pick is drawn only if there is a pool to
/// pick from. Whatever is drawn, the outcome is the selection for some coin
/// and some pick.
pub fn choose_candidate(crossing: &Vec<Candidate>, free: &Vec<Candidate>, rng: &mut SmallRng) -> (chosen:
    Option<Candidate>)
    ensures
        exists|coin: bool, pick: int|
            0 <= pick && chosen == #[trigger] selection(crossing@, free@, coin, pick),
        chosen is Some ==> crossing@.contains(chosen->0) || free@.contains(chosen->0),
        free@.len() > 0 ==> chosen is Some,
        crossing@.len() == 0 && free@.len() == 0 ==> chosen is None,
{
    let coin: bool = if crossing.len() != 0 {
        draw_ratio(rng, 1, 2)
    } else {
        false
    };
    if !(crossing.len() != 0 && coin) && free.len() == 0 {
        assert(selection(crossing@, free@, coin, 0) is None);
        return None;
    }
    let pick: usize = draw_any(rng);
    let chosen = select(crossing, free, coin, pick);
    assert(chosen == selection(crossing@, free@, coin, pick as int));
    chosen
}

} // verus!
