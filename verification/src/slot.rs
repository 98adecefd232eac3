//! The search for a place where a word fits.

use crate::direction::Direction;
use crate::grid::{Grid, GridView};
use crate::placement::{fits, in_bounds, slot_fits, Origin};
use crate::random::{lemma_follows_refl, lemma_follows_trans, Draw, RandomSource};
use vstd::prelude::*;

verus! {

/// How many origins the search samples for one word before it gives up.
pub const SLOT_ATTEMPTS: usize = 100;

/// Why a search ended without an origin.
#[derive(Clone, Copy, Debug, PartialEq, Eq, Structural)]
pub enum SearchError {
    /// None of the sampled origins took the word.
    NoSlotFound,
    /// The random source ran dry before the search was over.
    SourceExhausted,
}

/// Draws `2 * i` and `2 * i + 1` sample an origin: a column below the
/// grid's width, then a row below its height.
pub open spec fn samples_origin(grid: GridView, draws: Seq<Draw>, i: int) -> bool {
    &&& draws[2 * i].is_number_below(grid.width)
    &&& draws[2 * i + 1].is_number_below(grid.height)
}

/// The `i`-th sampling of `draws` names an origin at which the word does
/// not fit.
pub open spec fn sample_fails(
    grid: GridView,
    word: Seq<char>,
    direction: Direction,
    draws: Seq<Draw>,
    i: int,
) -> bool {
    &&& samples_origin(grid, draws, i)
    &&& !fits(
        grid,
        word,
        direction,
        draws[2 * i].value() as int,
        draws[2 * i + 1].value() as int,
    )
}

/// Each of the first `count` samplings of `draws` names an origin at which
/// the word does not fit.
pub open spec fn samples_fail(
    grid: GridView,
    word: Seq<char>,
    direction: Direction,
    draws: Seq<Draw>,
    count: int,
) -> bool {
    forall|i: int| 0 <= i < count ==> #[trigger] sample_fails(grid, word, direction, draws, i)
}

/// What a search returns, given the draws that it made and the number of
/// draws `left` in the source afterwards.
///
/// - An origin is returned when it was the last one sampled, the word fits
///   there, and it fits at none of the origins sampled before. No more than
///   [`SLOT_ATTEMPTS`] origins are sampled.
/// - `NoSlotFound` is returned after [`SLOT_ATTEMPTS`] origins at none of
///   which the word fits. A grid without cells has no origin to sample, so
///   there the search fails without a draw.
/// - `SourceExhausted` is returned when the source ran dry first; the word
///   fits at none of the origins sampled until then.
pub open spec fn search_outcome(
    grid: GridView,
    word: Seq<char>,
    direction: Direction,
    draws: Seq<Draw>,
    left: nat,
    outcome: Result<Origin, SearchError>,
) -> bool {
    let count = draws.len() as int / 2;
    match outcome {
        Ok(origin) => {
            &&& draws.len() % 2 == 0
            &&& 1 <= count <= SLOT_ATTEMPTS
            &&& samples_fail(grid, word, direction, draws, count - 1)
            &&& samples_origin(grid, draws, count - 1)
            &&& origin.x == draws[draws.len() - 2].value()
            &&& origin.y == draws[draws.len() - 1].value()
            &&& fits(grid, word, direction, origin.x as int, origin.y as int)
        },
        Err(SearchError::NoSlotFound) => {
            if grid.width == 0 || grid.height == 0 {
                draws.len() == 0
            } else {
                &&& draws.len() == 2 * SLOT_ATTEMPTS
                &&& samples_fail(grid, word, direction, draws, count)
            }
        },
        Err(SearchError::SourceExhausted) => {
            &&& left == 0
            &&& grid.width > 0
            &&& grid.height > 0
            &&& draws.len() < 2 * SLOT_ATTEMPTS
            &&& samples_fail(grid, word, direction, draws, count)
            &&& draws.len() % 2 == 1 ==> draws[draws.len() - 1].is_number_below(grid.width)
        },
    }
}

/// Looks for an origin at which `word` fits in the given direction.
///
/// Up to [`SLOT_ATTEMPTS`] times the search draws a column below the grid's
/// width and a row below its height and tests the word there with
/// [`slot_fits`]; the first origin that passes is returned. The grid is
/// only read.
pub fn find_slot(grid: &Grid, word: &str, direction: Direction, rng: &mut RandomSource) -> (outcome:
    Result<Origin, SearchError>)
    ensures
        final(rng).follows(old(rng)),
        search_outcome(
            grid@,
            word@,
            direction,
            final(rng).spent(old(rng)),
            final(rng).remaining(),
            outcome,
        ),
{
    let ghost start = *rng;
    let width = grid.width();
    let height = grid.height();
    proof {
        lemma_follows_refl(&start);
    }
    if width == 0 || height == 0 {
        return Err(SearchError::NoSlotFound);
    }
    let mut attempts: usize = 0;
    while attempts < SLOT_ATTEMPTS
        invariant
            grid@.wf(),
            width == grid@.width,
            height == grid@.height,
            width > 0,
            height > 0,
            attempts <= SLOT_ATTEMPTS,
            start == *old(rng),
            rng.follows(&start),
            rng.spent(&start).len() == 2 * attempts,
            samples_fail(grid@, word@, direction, rng.spent(&start), attempts as int),
        decreases SLOT_ATTEMPTS - attempts,
    {
        let ghost tried = *rng;
        let x = match rng.below(width) {
            Some(x) => x,
            None => {
                return Err(SearchError::SourceExhausted);
            },
        };
        let ghost half = *rng;
        proof {
            lemma_follows_trans(&start, &tried, &half);
        }
        let y = match rng.below(height) {
            Some(y) => y,
            None => {
                proof {
                    lemma_extend_failed(
                        grid@,
                        word@,
                        direction,
                        tried.spent(&start),
                        half.spent(&start),
                        attempts as int,
                    );
                }
                return Err(SearchError::SourceExhausted);
            },
        };
        proof {
            lemma_follows_trans(&start, &half, rng);
            lemma_extend_failed(
                grid@,
                word@,
                direction,
                tried.spent(&start),
                half.spent(&start),
                attempts as int,
            );
            lemma_extend_failed(
                grid@,
                word@,
                direction,
                half.spent(&start),
                rng.spent(&start),
                attempts as int,
            );
        }
        if slot_fits(grid, word, direction, x, y) {
            return Ok(Origin { x, y });
        }
        attempts = attempts + 1;
    }
    Err(SearchError::NoSlotFound)
}

/// Origins that failed stay failed when more values are drawn: the first
/// `count` origins of `longer` are those of `shorter`.
proof fn lemma_extend_failed(
    grid: GridView,
    word: Seq<char>,
    direction: Direction,
    shorter: Seq<Draw>,
    longer: Seq<Draw>,
    count: int,
)
    requires
        samples_fail(grid, word, direction, shorter, count),
        2 * count <= shorter.len() <= longer.len(),
        longer.take(shorter.len() as int) == shorter,
    ensures
        samples_fail(grid, word, direction, longer, count),
{
    assert forall|i: int| 0 <= i < count implies #[trigger] sample_fails(
        grid,
        word,
        direction,
        longer,
        i,
    ) by {
        assert(sample_fails(grid, word, direction, shorter, i));
    }
}

/// An origin that the search returns is a cell of the grid, and the whole
/// word lies inside the grid from there.
pub proof fn lemma_found_inside(
    grid: GridView,
    word: Seq<char>,
    direction: Direction,
    draws: Seq<Draw>,
    left: nat,
    origin: Origin,
)
    requires
        search_outcome(grid, word, direction, draws, left, Ok(origin)),
    ensures
        grid.contains(origin.x as int, origin.y as int),
        in_bounds(grid, direction, origin.x as int, origin.y as int, word.len()),
{
}

/// A word as long as the grid is wide, or as high, is found in one place
/// along that axis only: a search that returns an origin for it returns
/// column 0 if the word runs along the columns and fills the width, and row
/// 0 if it runs along the rows and fills the height.
pub proof fn lemma_full_length_slot(
    grid: GridView,
    word: Seq<char>,
    direction: Direction,
    draws: Seq<Draw>,
    left: nat,
    origin: Origin,
)
    requires
        search_outcome(grid, word, direction, draws, left, Ok(origin)),
    ensures
        direction.along_x() && word.len() == grid.width ==> origin.x == 0,
        direction.along_y() && word.len() == grid.height ==> origin.y == 0,
{
}

} // verus!
