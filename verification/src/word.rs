//! Placing one word: a direction is picked, a slot is searched, the word is
//! written.

use crate::direction::{pick_direction, Direction, DIRECTION_DRAWS};
use crate::grid::{Grid, GridView};
use crate::placement::{place, Placement};
use crate::random::{lemma_follows_trans, Draw, RandomSource};
use crate::slot::{find_slot, search_outcome, SearchError};
use vstd::prelude::*;

verus! {

/// What [`place_word`] returns, given the draws that it made and the
/// number of draws `left` in the source afterwards.
///
/// The first draw picks the direction; the draws after it are those of the
/// search for an origin, whose outcome is the outcome for the word. With no
/// draw made at all the source was dry from the start.
pub open spec fn word_outcome(
    grid: GridView,
    word: Seq<char>,
    draws: Seq<Draw>,
    left: nat,
    outcome: Result<Placement, SearchError>,
) -> bool {
    if draws.len() == 0 {
        left == 0 && outcome == Err::<Placement, SearchError>(SearchError::SourceExhausted)
    } else {
        let direction = Direction::for_draw(draws[0].value());
        &&& draws[0].is_number_below(DIRECTION_DRAWS as nat)
        &&& match outcome {
            Ok(at) => at.direction == direction && search_outcome(
                grid,
                word,
                direction,
                draws.skip(1),
                left,
                Ok(at.origin),
            ),
            Err(e) => search_outcome(grid, word, direction, draws.skip(1), left, Err(e)),
        }
    }
}

/// Places one word: picks a direction, searches an origin where the word
/// fits in that direction, and writes the word there.
///
/// On `Ok` the grid holds the word at the placement returned and is
/// otherwise as before. On `Err` the grid is unchanged.
pub fn place_word(grid: &mut Grid, word: &str, rng: &mut RandomSource) -> (outcome: Result<
    Placement,
    SearchError,
>)
    ensures
        final(rng).follows(old(rng)),
        word_outcome(
            old(grid)@,
            word@,
            final(rng).spent(old(rng)),
            final(rng).remaining(),
            outcome,
        ),
        final(grid)@.wf(),
        outcome matches Ok(at) ==> at.fits(old(grid)@, word@),
        outcome matches Ok(at) ==> final(grid)@ == at.write(old(grid)@, word@),
        outcome is Err ==> final(grid)@ == old(grid)@,
{
    proof {
        use_type_invariant(&*grid);
        grid.lemma_rectangular();
    }
    let ghost start = *rng;
    let direction = match pick_direction(rng) {
        Some(direction) => direction,
        None => {
            return Err(SearchError::SourceExhausted);
        },
    };
    let ghost picked = *rng;
    let found = find_slot(grid, word, direction, rng);
    proof {
        lemma_follows_trans(&start, &picked, rng);
    }
    match found {
        Ok(origin) => {
            place(grid, word, direction, origin.x, origin.y);
            Ok(Placement { direction, origin })
        },
        Err(e) => Err(e),
    }
}

} // verus!
