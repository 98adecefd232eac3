//! Building a puzzle: attempts follow each other, each on an empty grid,
//! until one holds every word.

use crate::attempt::{attempt_outcome, covered, lemma_attempt_left, make_cells, placements_of};
use crate::filler::is_lowercase;
use crate::grid::{Grid, GridView};
use crate::placement::{
    cell_under, column_at, lemma_crossing_agrees, offset_of, row_at, Placement,
};
use crate::random::{
    lemma_follows_refl, lemma_follows_trans, Draw, RandomSource, SourceExhausted,
};
use crate::slot::SearchError;
use crate::words::is_letter;
use vstd::prelude::*;

verus! {

/// A finished puzzle: the grid and, for each word in the order given, the
/// place where it was put.
pub struct Puzzle {
    pub grid: Grid,
    pub placements: Vec<Placement>,
}

impl Puzzle {
    /// The puzzle is a `width` by `height` grid for `words`:
    ///
    /// - no cell is empty;
    /// - each word has its placement, and reading the grid from the
    ///   placement's origin in its direction yields the word's letters;
    /// - every cell that no word covers holds a lowercase letter.
    pub open spec fn solves(&self, words: Seq<Seq<char>>, width: nat, height: nat) -> bool {
        &&& self.grid@.wf()
        &&& self.grid@.width == width
        &&& self.grid@.height == height
        &&& self.grid@.complete()
        &&& self.placements@.len() == words.len()
        &&& forall|k: int|
            0 <= k < words.len() ==> (#[trigger] self.placements@[k]).reads(self.grid@, words[k])
        &&& forall|x: int, y: int|
            self.grid@.contains(x, y) && !covered(
                words,
                self.placements@,
                words.len() as int,
                x,
                y,
            ) ==> is_lowercase((#[trigger] self.grid@.cell(x, y))->0)
    }
}

/// Words of a puzzle that cross agree on the cell they share: if letter
/// `i` of word `a` and letter `j` of word `b` lie on the same cell, they are
/// the same letter.
pub proof fn lemma_puzzle_crossings_agree(
    puzzle: &Puzzle,
    words: Seq<Seq<char>>,
    width: nat,
    height: nat,
    a: int,
    i: int,
    b: int,
    j: int,
)
    requires
        puzzle.solves(words, width, height),
        0 <= a < words.len(),
        0 <= b < words.len(),
        0 <= i < words[a].len(),
        0 <= j < words[b].len(),
        column_at(
            puzzle.placements@[a].direction,
            puzzle.placements@[a].origin.x as int,
            i,
        ) == column_at(
            puzzle.placements@[b].direction,
            puzzle.placements@[b].origin.x as int,
            j,
        ),
        row_at(puzzle.placements@[a].direction, puzzle.placements@[a].origin.y as int, i)
            == row_at(puzzle.placements@[b].direction, puzzle.placements@[b].origin.y as int, j),
    ensures
        words[a][i] == words[b][j],
{
    lemma_crossing_agrees(
        puzzle.grid@,
        words[a],
        puzzle.placements@[a],
        i,
        words[b],
        puzzle.placements@[b],
        j,
    );
}

/// A puzzle for words that consist of letters holds a letter in every
/// cell.
pub proof fn lemma_puzzle_of_letters(
    puzzle: &Puzzle,
    words: Seq<Seq<char>>,
    width: nat,
    height: nat,
)
    requires
        puzzle.solves(words, width, height),
        forall|k: int, i: int|
            0 <= k < words.len() && 0 <= i < words[k].len() ==> is_letter(#[trigger] words[k][i]),
    ensures
        forall|x: int, y: int|
            puzzle.grid@.contains(x, y) ==> (#[trigger] puzzle.grid@.cell(x, y)) is Some
                && is_letter(puzzle.grid@.cell(x, y)->0),
{
    let grid = puzzle.grid@;
    let placements = puzzle.placements@;
    assert forall|x: int, y: int| grid.contains(x, y) implies (#[trigger] grid.cell(x, y)) is Some
        && is_letter(grid.cell(x, y)->0) by {
        if covered(words, placements, words.len() as int, x, y) {
            let k = choose|k: int|
                0 <= k < words.len() && #[trigger] placements[k].covers(words[k].len(), x, y);
            let at = placements[k];
            let i = offset_of(at.direction, at.origin.x as int, at.origin.y as int, x, y);
            assert(cell_under(grid, at.direction, at.origin.x as int, at.origin.y as int, i)
                == Some(words[k][i]));
        }
    }
}

/// `count` attempts in a row, each begun on an empty grid, ended on a word
/// without a slot, and together they made exactly `draws`.
pub open spec fn attempts_failed(
    words: Seq<Seq<char>>,
    width: nat,
    height: nat,
    count: nat,
    draws: Seq<Draw>,
) -> bool
    decreases count,
{
    if count == 0 {
        draws.len() == 0
    } else {
        exists|cut: int, discarded: GridView|
            0 <= cut <= draws.len() && attempts_failed(
                words,
                width,
                height,
                (count - 1) as nat,
                draws.take(cut),
            ) && #[trigger] attempt_outcome(
                GridView::blank(width, height),
                discarded,
                words,
                draws.skip(cut),
                0,
                Err(SearchError::NoSlotFound),
            )
    }
}

/// After `failed` attempts without result, which made the first `cut`
/// draws, the attempt on the draws after `cut` ended with `last` and the
/// grid `grid`.
pub open spec fn last_attempt(
    words: Seq<Seq<char>>,
    width: nat,
    height: nat,
    draws: Seq<Draw>,
    left: nat,
    failed: int,
    cut: int,
    grid: GridView,
    last: Result<Seq<Placement>, SearchError>,
) -> bool {
    &&& 0 <= failed
    &&& 0 <= cut <= draws.len()
    &&& attempts_failed(words, width, height, failed as nat, draws.take(cut))
    &&& attempt_outcome(GridView::blank(width, height), grid, words, draws.skip(cut), left, last)
}

/// What [`construct`] returns, given the draws that it made and the number
/// of draws `left` in the source afterwards.
///
/// - The puzzle is returned whose grid and placements are those of the
///   first attempt that succeeded; every attempt before it ended on a word
///   without a slot.
/// - `Err` is returned when the source ran dry during an attempt; every
///   attempt before that one ended on a word without a slot.
pub open spec fn construct_outcome(
    words: Seq<Seq<char>>,
    width: nat,
    height: nat,
    draws: Seq<Draw>,
    left: nat,
    outcome: Result<Puzzle, SourceExhausted>,
) -> bool {
    match outcome {
        Ok(puzzle) => exists|failed: int, cut: int| #[trigger]
            last_attempt(
                words,
                width,
                height,
                draws,
                left,
                failed,
                cut,
                puzzle.grid@,
                Ok(puzzle.placements@),
            ),
        Err(_) => exists|failed: int, cut: int, discarded: GridView| #[trigger]
            last_attempt(
                words,
                width,
                height,
                draws,
                left,
                failed,
                cut,
                discarded,
                Err(SearchError::SourceExhausted),
            ),
    }
}

/// Builds a puzzle of the given dimensions that holds every word.
///
/// Each attempt starts from an empty grid and runs [`make_cells`]. An
/// attempt on which a word found no place is discarded whole, and the next
/// begins; nothing of a discarded grid reaches the result. This goes on
/// until an attempt succeeds or the source has no draw left, so `Err` is
/// returned only with a dry source.
pub fn construct(words: &[&str], width: usize, height: usize, rng: &mut RandomSource) -> (outcome:
    Result<Puzzle, SourceExhausted>)
    ensures
        final(rng).follows(old(rng)),
        construct_outcome(
            words.deep_view(),
            width as nat,
            height as nat,
            final(rng).spent(old(rng)),
            final(rng).remaining(),
            outcome,
        ),
        outcome matches Ok(puzzle) ==> puzzle.solves(
            words.deep_view(),
            width as nat,
            height as nat,
        ),
        outcome is Err ==> final(rng).remaining() == 0,
{
    let ghost start = *rng;
    let ghost texts = words.deep_view();
    let ghost mut failed: nat = 0;
    proof {
        lemma_follows_refl(&start);
    }
    loop
        invariant
            start == *old(rng),
            texts == words.deep_view(),
            rng.follows(&start),
            attempts_failed(texts, width as nat, height as nat, failed, rng.spent(&start)),
        decreases rng.remaining(),
    {
        let ghost begun = *rng;
        let mut grid = Grid::new(width, height);
        let attempt = make_cells(words, &mut grid, rng);
        proof {
            lemma_follows_trans(&start, &begun, rng);
            lemma_attempt_ends(
                texts,
                width as nat,
                height as nat,
                failed,
                begun.spent(&start),
                rng.spent(&begun),
                rng.remaining(),
                grid@,
                placements_of(attempt),
            );
        }
        match attempt {
            Ok(placements) => {
                let puzzle = Puzzle { grid, placements };
                proof {
                    lemma_run_ends_well(
                        texts,
                        width as nat,
                        height as nat,
                        rng.spent(&start),
                        rng.remaining(),
                        failed as int,
                        begun.spent(&start).len() as int,
                        puzzle,
                    );
                }
                return Ok(puzzle);
            },
            Err(SearchError::SourceExhausted) => {
                return Err(SourceExhausted);
            },
            Err(SearchError::NoSlotFound) => {
                proof {
                    lemma_one_more_failed(
                        texts,
                        width as nat,
                        height as nat,
                        failed,
                        begun.spent(&start),
                        rng.spent(&begun),
                        rng.remaining(),
                        grid@,
                    );
                    failed = failed + 1;
                }
            },
        }
    }
}

/// The run ends with the puzzle of its last attempt.
proof fn lemma_run_ends_well(
    words: Seq<Seq<char>>,
    width: nat,
    height: nat,
    draws: Seq<Draw>,
    left: nat,
    failed: int,
    cut: int,
    puzzle: Puzzle,
)
    requires
        last_attempt(
            words,
            width,
            height,
            draws,
            left,
            failed,
            cut,
            puzzle.grid@,
            Ok(puzzle.placements@),
        ),
    ensures
        construct_outcome(words, width, height, draws, left, Ok(puzzle)),
{
    let outcome: Result<Puzzle, SourceExhausted> = Ok(puzzle);
    assert(outcome->Ok_0 == puzzle);
}

/// The attempt that follows `failed` attempts without result is the last
/// one of the run so far.
proof fn lemma_attempt_ends(
    words: Seq<Seq<char>>,
    width: nat,
    height: nat,
    failed: nat,
    draws: Seq<Draw>,
    more: Seq<Draw>,
    left: nat,
    grid: GridView,
    last: Result<Seq<Placement>, SearchError>,
)
    requires
        attempts_failed(words, width, height, failed, draws),
        attempt_outcome(GridView::blank(width, height), grid, words, more, left, last),
    ensures
        last_attempt(
            words,
            width,
            height,
            draws + more,
            left,
            failed as int,
            draws.len() as int,
            grid,
            last,
        ),
{
    assert((draws + more).take(draws.len() as int) =~= draws);
    assert((draws + more).skip(draws.len() as int) =~= more);
}

/// One more attempt ended on a word without a slot: the record of failed
/// attempts grows by it and by the draws it took.
proof fn lemma_one_more_failed(
    words: Seq<Seq<char>>,
    width: nat,
    height: nat,
    failed: nat,
    draws: Seq<Draw>,
    more: Seq<Draw>,
    left: nat,
    discarded: GridView,
)
    requires
        attempts_failed(words, width, height, failed, draws),
        attempt_outcome(
            GridView::blank(width, height),
            discarded,
            words,
            more,
            left,
            Err(SearchError::NoSlotFound),
        ),
    ensures
        attempts_failed(words, width, height, failed + 1, draws + more),
{
    lemma_attempt_left(GridView::blank(width, height), discarded, words, more, left, 0);
    assert((draws + more).take(draws.len() as int) =~= draws);
    assert((draws + more).skip(draws.len() as int) =~= more);
}

} // verus!
