//! One attempt at a grid: the words are placed one after the other, then
//! the gaps are filled.

use crate::filler::{fill_gaps, fill_outcome, fills, is_lowercase};
use crate::grid::{Grid, GridView};
use crate::placement::{
    cell_under, lemma_placed_keeps_letters, lemma_placed_keeps_reading, Placement,
};
use crate::random::{
    lemma_follows_refl, lemma_follows_trans, Draw, RandomSource, SourceExhausted,
};
use crate::slot::SearchError;
use crate::word::{place_word, word_outcome};
use vstd::prelude::*;

verus! {

/// The cell `(x, y)` lies under one of the first `count` words.
pub open spec fn covered(
    words: Seq<Seq<char>>,
    placements: Seq<Placement>,
    count: int,
    x: int,
    y: int,
) -> bool {
    exists|k: int| 0 <= k < count && #[trigger] placements[k].covers(words[k].len(), x, y)
}

/// Every letter of `before` is still in its cell in `after`.
pub open spec fn keeps_letters(before: GridView, after: GridView) -> bool {
    &&& after.width == before.width
    &&& after.height == before.height
    &&& forall|x: int, y: int|
        before.contains(x, y) && before.cell(x, y) is Some ==> #[trigger] after.cell(x, y)
            == before.cell(x, y)
}

/// `after` is `before` with the `words` written at `placements`:
///
/// - each word has its placement, and reading the grid there yields it;
/// - letters that were in the grid are still in their cells;
/// - a cell that no word covers is as it was.
pub open spec fn holds_words(
    before: GridView,
    after: GridView,
    words: Seq<Seq<char>>,
    placements: Seq<Placement>,
) -> bool {
    &&& placements.len() == words.len()
    &&& keeps_letters(before, after)
    &&& forall|k: int| 0 <= k < words.len() ==> (#[trigger] placements[k]).reads(after, words[k])
    &&& forall|x: int, y: int|
        after.contains(x, y) && !covered(words, placements, words.len() as int, x, y)
            ==> #[trigger] after.cell(x, y) == before.cell(x, y)
}

/// `after` is `before` with all `words` placed and all gaps filled:
///
/// - no cell is empty;
/// - each word has its placement, and reading the grid there yields it;
/// - a cell that no word covers holds what it held before or, if it was
///   empty, a lowercase letter.
pub open spec fn built(
    before: GridView,
    after: GridView,
    words: Seq<Seq<char>>,
    placements: Seq<Placement>,
) -> bool {
    &&& after.complete()
    &&& placements.len() == words.len()
    &&& forall|k: int| 0 <= k < words.len() ==> (#[trigger] placements[k]).reads(after, words[k])
    &&& forall|x: int, y: int|
        after.contains(x, y) && !covered(words, placements, words.len() as int, x, y) ==> {
            ||| #[trigger] after.cell(x, y) == before.cell(x, y)
            ||| before.cell(x, y) is None && is_lowercase(after.cell(x, y)->0)
        }
}

/// The grid after the first `count` words are written at their placements,
/// one after the other.
pub open spec fn written(
    before: GridView,
    words: Seq<Seq<char>>,
    placements: Seq<Placement>,
    count: nat,
) -> GridView
    decreases count,
{
    if count == 0 {
        before
    } else {
        placements[count - 1].write(
            written(before, words, placements, (count - 1) as nat),
            words[count - 1],
        )
    }
}

/// The first `count` words were placed in order with exactly `draws`: each
/// word got its placement as [`word_outcome`] says, on the grid that the
/// words before it had left, with the draws that came next.
pub open spec fn words_placed(
    before: GridView,
    words: Seq<Seq<char>>,
    placements: Seq<Placement>,
    count: nat,
    draws: Seq<Draw>,
) -> bool
    decreases count,
{
    if count == 0 {
        draws.len() == 0
    } else {
        exists|cut: int|
            0 <= cut <= draws.len() && words_placed(
                before,
                words,
                placements,
                (count - 1) as nat,
                #[trigger] draws.take(cut),
            ) && word_outcome(
                written(before, words, placements, (count - 1) as nat),
                words[count - 1],
                draws.skip(cut),
                0,
                Ok(placements[count - 1]),
            )
    }
}

/// The attempt ended at a word: the words before it were placed at
/// `placements` with the first `cut` draws, and on the draws after `cut`
/// placing the next word failed with `error`. The grid holds the words
/// placed until there.
pub open spec fn stopped_at_word(
    before: GridView,
    after: GridView,
    words: Seq<Seq<char>>,
    draws: Seq<Draw>,
    left: nat,
    placements: Seq<Placement>,
    cut: int,
    error: SearchError,
) -> bool {
    &&& placements.len() < words.len()
    &&& 0 <= cut <= draws.len()
    &&& words_placed(before, words, placements, placements.len(), draws.take(cut))
    &&& word_outcome(
        written(before, words, placements, placements.len()),
        words[placements.len() as int],
        draws.skip(cut),
        left,
        Err(error),
    )
    &&& after == written(before, words, placements, placements.len())
}

/// What [`place_words`] returns and does, given the draws that it made and
/// the number of draws `left` in the source afterwards: either all words
/// were placed, one after the other, or the words up to one whose placing
/// failed.
pub open spec fn placing_outcome(
    before: GridView,
    after: GridView,
    words: Seq<Seq<char>>,
    draws: Seq<Draw>,
    left: nat,
    outcome: Result<Seq<Placement>, SearchError>,
) -> bool {
    match outcome {
        Ok(placements) => {
            &&& placements.len() == words.len()
            &&& words_placed(before, words, placements, words.len(), draws)
            &&& after == written(before, words, placements, words.len())
        },
        Err(error) => exists|placements: Seq<Placement>, cut: int| #[trigger]
            stopped_at_word(before, after, words, draws, left, placements, cut, error),
    }
}

/// The placements as a result of the attempt, for [`attempt_outcome`].
pub open spec fn placements_of(outcome: Result<Vec<Placement>, SearchError>) -> Result<
    Seq<Placement>,
    SearchError,
> {
    match outcome {
        Ok(placements) => Ok(placements@),
        Err(e) => Err(e),
    }
}

/// [`written`] looks at the first `count` placements only.
pub proof fn lemma_written_frame(
    before: GridView,
    words: Seq<Seq<char>>,
    placements: Seq<Placement>,
    others: Seq<Placement>,
    count: nat,
)
    requires
        forall|i: int| 0 <= i < count ==> placements[i] == others[i],
    ensures
        written(before, words, placements, count) == written(before, words, others, count),
    decreases count,
{
    if count > 0 {
        lemma_written_frame(before, words, placements, others, (count - 1) as nat);
    }
}

/// [`words_placed`] looks at the first `count` placements only.
pub proof fn lemma_words_placed_frame(
    before: GridView,
    words: Seq<Seq<char>>,
    placements: Seq<Placement>,
    others: Seq<Placement>,
    count: nat,
    draws: Seq<Draw>,
)
    requires
        words_placed(before, words, placements, count, draws),
        forall|i: int| 0 <= i < count ==> placements[i] == others[i],
    ensures
        words_placed(before, words, others, count, draws),
    decreases count,
{
    if count > 0 {
        let cut = choose|cut: int|
            0 <= cut <= draws.len() && words_placed(
                before,
                words,
                placements,
                (count - 1) as nat,
                #[trigger] draws.take(cut),
            ) && word_outcome(
                written(before, words, placements, (count - 1) as nat),
                words[count - 1],
                draws.skip(cut),
                0,
                Ok(placements[count - 1]),
            );
        lemma_words_placed_frame(
            before,
            words,
            placements,
            others,
            (count - 1) as nat,
            draws.take(cut),
        );
        lemma_written_frame(before, words, placements, others, (count - 1) as nat);
    }
}

/// One more word was written: what held of the grid before holds with the
/// word and its placement added.
proof fn lemma_one_more_word(
    before: GridView,
    prior: GridView,
    words: Seq<Seq<char>>,
    placements: Seq<Placement>,
    at: Placement,
)
    requires
        before.wf(),
        prior.wf(),
        placements.len() < words.len(),
        holds_words(before, prior, words.take(placements.len() as int), placements),
        at.fits(prior, words[placements.len() as int]),
    ensures
        holds_words(
            before,
            at.write(prior, words[placements.len() as int]),
            words.take(placements.len() as int + 1),
            placements.push(at),
        ),
{
    let k = placements.len() as int;
    let word = words[k];
    let after = at.write(prior, word);
    let more = placements.push(at);
    let d = at.direction;
    let ox = at.origin.x as int;
    let oy = at.origin.y as int;
    let short = words.take(k);
    let long = words.take(k + 1);
    assert forall|i: int| 0 <= i < long.len() implies (#[trigger] more[i]).reads(
        after,
        long[i],
    ) by {
        if i < k {
            lemma_placed_keeps_reading(prior, short[i], placements[i], word, d, ox, oy);
        }
    }
    assert forall|x: int, y: int|
        before.contains(x, y) && before.cell(x, y) is Some implies #[trigger] after.cell(x, y)
        == before.cell(x, y) by {
        lemma_placed_keeps_letters(prior, word, d, ox, oy, x, y);
    }
    assert forall|x: int, y: int|
        after.contains(x, y) && !covered(long, more, long.len() as int, x, y) implies #[trigger]
        after.cell(x, y) == before.cell(x, y) by {
        assert(!more[k].covers(long[k].len(), x, y));
        if covered(short, placements, k, x, y) {
            let w = choose|w: int|
                0 <= w < k && #[trigger] placements[w].covers(short[w].len(), x, y);
            assert(more[w].covers(long[w].len(), x, y));
        }
    }
}

/// One more word was placed: the record of the words placed so far grows
/// by the word, its placement and the draws it took.
proof fn lemma_one_more_placed(
    before: GridView,
    words: Seq<Seq<char>>,
    placements: Seq<Placement>,
    at: Placement,
    draws: Seq<Draw>,
    more: Seq<Draw>,
    left: nat,
)
    requires
        placements.len() < words.len(),
        words_placed(before, words, placements, placements.len(), draws),
        word_outcome(
            written(before, words, placements, placements.len()),
            words[placements.len() as int],
            more,
            left,
            Ok(at),
        ),
    ensures
        words_placed(before, words, placements.push(at), placements.len() + 1, draws + more),
        written(before, words, placements.push(at), placements.len() + 1) == at.write(
            written(before, words, placements, placements.len()),
            words[placements.len() as int],
        ),
{
    let k = placements.len();
    let longer = placements.push(at);
    lemma_written_frame(before, words, placements, longer, k);
    lemma_words_placed_frame(before, words, placements, longer, k, draws);
    assert((draws + more).take(draws.len() as int) =~= draws);
    assert((draws + more).skip(draws.len() as int) =~= more);
}

/// Places the words in the order given, each with [`place_word`] on the
/// grid that the words before it have left.
///
/// Placing stops at the first word that fails; the grid then holds the
/// words placed until there. Whatever happens, letters that were in the
/// grid before stay where they were. A failure other than a dry source has
/// spent at least one draw.
pub fn place_words(words: &[&str], grid: &mut Grid, rng: &mut RandomSource) -> (outcome: Result<
    Vec<Placement>,
    SearchError,
>)
    ensures
        final(grid)@.wf(),
        keeps_letters(old(grid)@, final(grid)@),
        final(rng).follows(old(rng)),
        placing_outcome(
            old(grid)@,
            final(grid)@,
            words.deep_view(),
            final(rng).spent(old(rng)),
            final(rng).remaining(),
            placements_of(outcome),
        ),
        outcome matches Ok(placements) ==> holds_words(
            old(grid)@,
            final(grid)@,
            words.deep_view(),
            placements@,
        ),
        outcome matches Err(SearchError::NoSlotFound) ==> final(rng).spent(old(rng)).len() > 0,
        outcome matches Err(SearchError::SourceExhausted) ==> final(rng).remaining() == 0,
{
    proof {
        use_type_invariant(&*grid);
        grid.lemma_rectangular();
    }
    let ghost start = *rng;
    let ghost before = grid@;
    let ghost texts = words.deep_view();
    proof {
        lemma_follows_refl(&start);
    }
    let mut placements: Vec<Placement> = Vec::new();
    let mut k: usize = 0;
    while k < words.len()
        invariant
            start == *old(rng),
            before == old(grid)@,
            texts == words.deep_view(),
            before.wf(),
            grid@.wf(),
            rng.follows(&start),
            k <= words.len(),
            placements@.len() == k,
            holds_words(before, grid@, texts.take(k as int), placements@),
            words_placed(before, texts, placements@, k as nat, rng.spent(&start)),
            grid@ == written(before, texts, placements@, k as nat),
        decreases words.len() - k,
    {
        let ghost prior = grid@;
        let ghost prior_rng = *rng;
        let ghost prior_placements = placements@;
        let ghost spent = rng.spent(&start);
        let word = words[k];
        let placed = place_word(grid, word, rng);
        proof {
            lemma_follows_trans(&start, &prior_rng, rng);
        }
        let at = match placed {
            Ok(at) => at,
            Err(e) => {
                proof {
                    assert(stopped_at_word(
                        before,
                        grid@,
                        texts,
                        rng.spent(&start),
                        rng.remaining(),
                        placements@,
                        spent.len() as int,
                        e,
                    ));
                }
                return Err(e);
            },
        };
        placements.push(at);
        proof {
            lemma_one_more_word(before, prior, texts, prior_placements, at);
            lemma_one_more_placed(
                before,
                texts,
                prior_placements,
                at,
                spent,
                rng.spent(&prior_rng),
                rng.remaining(),
            );
        }
        k = k + 1;
    }
    Ok(placements)
}

/// All words were placed at `placements` with the first `cut` draws, and
/// on the draws after `cut` the gaps were filled: all of them if `full`,
/// and else up to the cell at which the source ran dry.
pub open spec fn filled_after_words(
    before: GridView,
    after: GridView,
    words: Seq<Seq<char>>,
    draws: Seq<Draw>,
    left: nat,
    placements: Seq<Placement>,
    cut: int,
    full: bool,
) -> bool {
    &&& placements.len() == words.len()
    &&& 0 <= cut <= draws.len()
    &&& words_placed(before, words, placements, words.len(), draws.take(cut))
    &&& fill_outcome(
        written(before, words, placements, words.len()),
        after,
        draws.skip(cut),
        left,
        full,
    )
}

/// What [`make_cells`] returns and does, given the draws that it made and
/// the number of draws `left` in the source afterwards.
///
/// - The placements are returned when every word was placed, one after the
///   other, and the gaps were filled after that.
/// - `NoSlotFound` is returned when the words were placed up to one that
///   found no slot.
/// - `SourceExhausted` is returned when the source ran dry, be it while a
///   word was placed or while the gaps were filled.
pub open spec fn attempt_outcome(
    before: GridView,
    after: GridView,
    words: Seq<Seq<char>>,
    draws: Seq<Draw>,
    left: nat,
    outcome: Result<Seq<Placement>, SearchError>,
) -> bool {
    match outcome {
        Ok(placements) => exists|cut: int| #[trigger]
            filled_after_words(before, after, words, draws, left, placements, cut, true),
        Err(SearchError::NoSlotFound) => exists|placements: Seq<Placement>, cut: int| #[trigger]
            stopped_at_word(
                before,
                after,
                words,
                draws,
                left,
                placements,
                cut,
                SearchError::NoSlotFound,
            ),
        Err(SearchError::SourceExhausted) => {
            ||| exists|placements: Seq<Placement>, cut: int| #[trigger]
                stopped_at_word(
                    before,
                    after,
                    words,
                    draws,
                    left,
                    placements,
                    cut,
                    SearchError::SourceExhausted,
                )
            ||| exists|placements: Seq<Placement>, cut: int| #[trigger]
                filled_after_words(
                    before,
                    after,
                    words,
                    draws,
                    left,
                    placements,
                    cut,
                    false,
                )
        },
    }
}

/// An attempt that ended on a word without a slot did so whatever was left
/// in the source.
pub proof fn lemma_attempt_left(
    before: GridView,
    after: GridView,
    words: Seq<Seq<char>>,
    draws: Seq<Draw>,
    left: nat,
    other: nat,
)
    requires
        attempt_outcome(before, after, words, draws, left, Err(SearchError::NoSlotFound)),
    ensures
        attempt_outcome(before, after, words, draws, other, Err(SearchError::NoSlotFound)),
{
    let (placements, cut) = choose|placements: Seq<Placement>, cut: int| #[trigger]
        stopped_at_word(
            before,
            after,
            words,
            draws,
            left,
            placements,
            cut,
            SearchError::NoSlotFound,
        );
    assert(stopped_at_word(
        before,
        after,
        words,
        draws,
        other,
        placements,
        cut,
        SearchError::NoSlotFound,
    ));
}

/// A word that reads in a grid still reads after gaps are filled.
pub proof fn lemma_filled_keeps_reading(
    before: GridView,
    after: GridView,
    word: Seq<char>,
    at: Placement,
)
    requires
        fills(before, after),
        at.reads(before, word),
    ensures
        at.reads(after, word),
{
    let d = at.direction;
    let x = at.origin.x as int;
    let y = at.origin.y as int;
    assert forall|i: int| 0 <= i < word.len() implies #[trigger] cell_under(after, d, x, y, i)
        == Some(word[i]) by {
        assert(cell_under(before, d, x, y, i) == Some(word[i]));
    }
}

/// Filling the gaps after the words are written gives a grid that is
/// [`built`].
proof fn lemma_filled_is_built(
    before: GridView,
    placed: GridView,
    after: GridView,
    words: Seq<Seq<char>>,
    placements: Seq<Placement>,
)
    requires
        holds_words(before, placed, words, placements),
        fills(placed, after),
        after.complete(),
    ensures
        built(before, after, words, placements),
        keeps_letters(before, after),
{
    assert forall|i: int| 0 <= i < words.len() implies (#[trigger] placements[i]).reads(
        after,
        words[i],
    ) by {
        lemma_filled_keeps_reading(placed, after, words[i], placements[i]);
    }
}

/// One attempt at a grid: places the words in order with [`place_words`],
/// then fills the gaps with [`fill_gaps`].
///
/// The attempt stops at the first word that finds no place; the grid then
/// holds the words placed until there and is of no further use. Whatever
/// happens, letters that were in the grid before stay where they were.
///
/// A failed attempt has spent at least one draw, unless the source was dry
/// to begin with.
pub fn make_cells(words: &[&str], grid: &mut Grid, rng: &mut RandomSource) -> (outcome: Result<
    Vec<Placement>,
    SearchError,
>)
    ensures
        final(grid)@.wf(),
        keeps_letters(old(grid)@, final(grid)@),
        final(rng).follows(old(rng)),
        attempt_outcome(
            old(grid)@,
            final(grid)@,
            words.deep_view(),
            final(rng).spent(old(rng)),
            final(rng).remaining(),
            placements_of(outcome),
        ),
        outcome matches Ok(placements) ==> built(
            old(grid)@,
            final(grid)@,
            words.deep_view(),
            placements@,
        ),
        outcome matches Err(SearchError::NoSlotFound) ==> final(rng).spent(old(rng)).len() > 0,
        outcome matches Err(SearchError::SourceExhausted) ==> final(rng).remaining() == 0,
{
    let ghost start = *rng;
    let ghost before = grid@;
    let placements = match place_words(words, grid, rng) {
        Ok(placements) => placements,
        Err(e) => {
            return Err(e);
        },
    };
    let ghost placed_grid = grid@;
    let ghost placed_rng = *rng;
    let filled = fill_gaps(grid, rng);
    proof {
        lemma_follows_trans(&start, &placed_rng, rng);
        assert(filled_after_words(
            before,
            grid@,
            words.deep_view(),
            rng.spent(&start),
            rng.remaining(),
            placements@,
            placed_rng.spent(&start).len() as int,
            filled is Ok,
        ));
    }
    match filled {
        Ok(()) => {
            proof {
                lemma_filled_is_built(
                    before,
                    placed_grid,
                    grid@,
                    words.deep_view(),
                    placements@,
                );
            }
            Ok(placements)
        },
        Err(SourceExhausted) => Err(SearchError::SourceExhausted),
    }
}

} // verus!
