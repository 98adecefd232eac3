//! The letters that fill the cells no word covers.
//!
//! A filler letter is found by rejection: draw one of the 26 lowercase
//! letters; take a consonant at once; take a vowel only if a coin that shows
//! `true` four times out of five says so, and draw again otherwise.

use crate::grid::{Grid, GridView};
use crate::random::{
    lemma_follows_refl, lemma_follows_trans, Draw, RandomSource, SourceExhausted,
};
use vstd::prelude::*;

verus! {

/// The number of letters a filler is drawn from.
pub const FILLER_LETTERS: usize = 26;

/// A drawn vowel is kept `VOWEL_KEPT` times out of `VOWEL_OUT_OF`.
pub const VOWEL_KEPT: u32 = 4;

/// See [`VOWEL_KEPT`].
pub const VOWEL_OUT_OF: u32 = 5;

/// The lowercase letter with the given index: 0 is `a`, 25 is `z`.
pub open spec fn filler_letter(index: nat) -> char {
    ((97 + index) as u8) as char
}

/// One of the 26 lowercase letters `a` to `z`.
pub open spec fn is_lowercase(letter: char) -> bool {
    'a' <= letter <= 'z'
}

/// One of `a`, `e`, `i`, `o`, `u`.
pub open spec fn is_vowel(letter: char) -> bool {
    letter == 'a' || letter == 'e' || letter == 'i' || letter == 'o' || letter == 'u'
}

/// The lowercase letter that a draw below [`FILLER_LETTERS`] stands for.
pub fn letter_from_draw(index: usize) -> (letter: char)
    requires
        index < FILLER_LETTERS,
    ensures
        letter == filler_letter(index as nat),
        is_lowercase(letter),
{
    let code: u8 = 97 + index as u8;
    code as char
}

/// Whether `letter` is one of `a`, `e`, `i`, `o`, `u`.
pub fn vowel(letter: char) -> (yes: bool)
    ensures
        yes == is_vowel(letter),
{
    letter == 'a' || letter == 'e' || letter == 'i' || letter == 'o' || letter == 'u'
}

/// The draw picked the letter `letter`: a number below [`FILLER_LETTERS`]
/// was asked for, and `letter` is the lowercase letter with that index.
pub open spec fn draws_letter(draw: Draw, letter: char) -> bool {
    draw.is_number_below(FILLER_LETTERS as nat) && letter == filler_letter(draw.value())
}

/// The draw is the toss that decides on a vowel, and it showed `kept`.
pub open spec fn tosses_for_vowel(draw: Draw, kept: bool) -> bool {
    draw == Draw::Coin {
        numerator: VOWEL_KEPT as nat,
        denominator: VOWEL_OUT_OF as nat,
        hit: kept,
    }
}

/// Round `j` of `draws` drew a vowel and the coin turned it down. A round
/// that rejects spends two draws: the letter and the coin.
pub open spec fn round_rejects(draws: Seq<Draw>, j: int) -> bool {
    &&& draws_letter(draws[2 * j], filler_letter(draws[2 * j].value()))
    &&& is_vowel(filler_letter(draws[2 * j].value()))
    &&& tosses_for_vowel(draws[2 * j + 1], false)
}

/// Each of the first `count` rounds of `draws` rejected its letter.
pub open spec fn rounds_reject(draws: Seq<Draw>, count: int) -> bool {
    forall|j: int| 0 <= j < count ==> #[trigger] round_rejects(draws, j)
}

/// What [`sample_filler`] returns, given the draws that it made and the
/// number of draws `left` in the source afterwards.
///
/// - A consonant is returned when it was the last draw and every round
///   before rejected.
/// - A vowel is returned when it and a coin showing `true` were the last
///   two draws and every round before rejected.
/// - Nothing is returned when the source ran dry: every finished round
///   rejected, and a round cut short had drawn a vowel.
pub open spec fn filler_outcome(draws: Seq<Draw>, left: nat, letter: Option<char>) -> bool {
    let len = draws.len() as int;
    match letter {
        Some(c) => {
            if is_vowel(c) {
                &&& len >= 2
                &&& len % 2 == 0
                &&& rounds_reject(draws, len / 2 - 1)
                &&& draws_letter(draws[len - 2], c)
                &&& tosses_for_vowel(draws[len - 1], true)
            } else {
                &&& len % 2 == 1
                &&& rounds_reject(draws, len / 2)
                &&& draws_letter(draws[len - 1], c)
            }
        },
        None => {
            &&& left == 0
            &&& rounds_reject(draws, len / 2)
            &&& len % 2 == 1 ==> {
                &&& draws[len - 1].is_number_below(FILLER_LETTERS as nat)
                &&& is_vowel(filler_letter(draws[len - 1].value()))
            }
        },
    }
}

/// Rounds that rejected still do when more values are drawn.
proof fn lemma_extend_rejected(shorter: Seq<Draw>, longer: Seq<Draw>, count: int)
    requires
        rounds_reject(shorter, count),
        2 * count <= shorter.len() <= longer.len(),
        longer.take(shorter.len() as int) == shorter,
    ensures
        rounds_reject(longer, count),
{
    assert forall|j: int| 0 <= j < count implies #[trigger] round_rejects(longer, j) by {
        assert(round_rejects(shorter, j));
    }
}

/// Draws one filler letter.
///
/// Each round draws an index below [`FILLER_LETTERS`]. A consonant is
/// returned at once. For a vowel a coin is tossed that shows `true`
/// [`VOWEL_KEPT`] times out of [`VOWEL_OUT_OF`]: on `true` the vowel is
/// returned, on `false` the next round begins. `None` means that the source
/// ran dry first.
pub fn sample_filler(rng: &mut RandomSource) -> (letter: Option<char>)
    ensures
        final(rng).follows(old(rng)),
        filler_outcome(final(rng).spent(old(rng)), final(rng).remaining(), letter),
        letter matches Some(c) ==> is_lowercase(c),
        letter is None ==> final(rng).remaining() == 0,
{
    let ghost start = *rng;
    let ghost mut rounds: int = 0;
    proof {
        lemma_follows_refl(&start);
    }
    loop
        invariant
            start == *old(rng),
            rng.follows(&start),
            0 <= rounds,
            rng.spent(&start).len() == 2 * rounds,
            rounds_reject(rng.spent(&start), rounds),
        decreases rng.remaining(),
    {
        let ghost begun = *rng;
        let index = match rng.below(FILLER_LETTERS) {
            Some(index) => index,
            None => {
                return None;
            },
        };
        let ghost half = *rng;
        proof {
            lemma_follows_trans(&start, &begun, &half);
            lemma_extend_rejected(begun.spent(&start), half.spent(&start), rounds);
        }
        let letter = letter_from_draw(index);
        if !vowel(letter) {
            return Some(letter);
        }
        let kept = match rng.chance(VOWEL_KEPT, VOWEL_OUT_OF) {
            Some(kept) => kept,
            None => {
                return None;
            },
        };
        proof {
            lemma_follows_trans(&start, &half, rng);
            lemma_extend_rejected(half.spent(&start), rng.spent(&start), rounds);
        }
        if kept {
            return Some(letter);
        }
        proof {
            rounds = rounds + 1;
        }
    }
}

/// `after` is `before` with some of its empty cells filled: the dimensions
/// are the same, a cell that held a letter holds it still, and a cell that
/// was empty is empty still or holds a lowercase letter.
pub open spec fn fills(before: GridView, after: GridView) -> bool {
    &&& after.width == before.width
    &&& after.height == before.height
    &&& forall|x: int, y: int|
        before.contains(x, y) ==> {
            ||| #[trigger] after.cell(x, y) == before.cell(x, y)
            ||| before.cell(x, y) is None && after.cell(x, y) is Some && is_lowercase(
                after.cell(x, y)->0,
            )
        }
}

/// The first `count` cells of row `y` were gone through from left to right
/// with exactly `draws`: a cell that held a letter was left alone and cost
/// no draw; an empty cell got the letter that [`sample_filler`] returned on
/// the draws that came next.
pub open spec fn row_filled(
    before: GridView,
    after: GridView,
    y: int,
    count: nat,
    draws: Seq<Draw>,
) -> bool
    decreases count,
{
    if count == 0 {
        draws.len() == 0
    } else {
        let x = count - 1;
        if before.cell(x, y) is Some {
            &&& after.cell(x, y) == before.cell(x, y)
            &&& row_filled(before, after, y, (count - 1) as nat, draws)
        } else {
            &&& after.cell(x, y) is Some
            &&& exists|cut: int|
                0 <= cut <= draws.len() && row_filled(
                    before,
                    after,
                    y,
                    (count - 1) as nat,
                    #[trigger] draws.take(cut),
                ) && filler_outcome(draws.skip(cut), 0, after.cell(x, y))
        }
    }
}

/// The first `count` rows were gone through from the top with exactly
/// `draws`, each row as [`row_filled`] says.
pub open spec fn rows_filled(before: GridView, after: GridView, count: nat, draws: Seq<Draw>) -> bool
    decreases count,
{
    if count == 0 {
        draws.len() == 0
    } else {
        exists|cut: int|
            0 <= cut <= draws.len() && rows_filled(
                before,
                after,
                (count - 1) as nat,
                #[trigger] draws.take(cut),
            ) && row_filled(before, after, count - 1, before.width, draws.skip(cut))
    }
}

/// The cell `(x, y)` and every cell after it in reading order are as they
/// were.
pub open spec fn untouched_from(before: GridView, after: GridView, x: int, y: int) -> bool {
    forall|i: int, j: int|
        before.contains(i, j) && (j > y || (j == y && i >= x)) ==> #[trigger] after.cell(i, j)
            == before.cell(i, j)
}

/// Filling stopped at the empty cell `(x, y)`: the cells before it were
/// gone through with the first `cut` draws, the draws after `cut` are those
/// of a [`sample_filler`] that ran dry, and the cell and all after it are
/// as they were.
pub open spec fn ran_dry_at(
    before: GridView,
    after: GridView,
    draws: Seq<Draw>,
    x: int,
    y: int,
    cut: int,
) -> bool {
    &&& before.contains(x, y)
    &&& before.cell(x, y) is None
    &&& untouched_from(before, after, x, y)
    &&& 0 <= cut <= draws.len()
    &&& filler_outcome(draws.skip(cut), 0, None)
    &&& exists|row_cut: int|
        0 <= row_cut <= cut && rows_filled(before, after, y as nat, #[trigger] draws.take(row_cut))
            && row_filled(before, after, y, x as nat, draws.subrange(row_cut, cut))
}

/// What [`fill_gaps`] does, given the draws that it made, the number of
/// draws `left` in the source afterwards, and whether it came to an end
/// (`full`).
///
/// - If it did, all rows were gone through, as [`rows_filled`] says.
/// - If not, the source is dry, and filling stopped at an empty cell as
///   [`ran_dry_at`] says.
pub open spec fn fill_outcome(
    before: GridView,
    after: GridView,
    draws: Seq<Draw>,
    left: nat,
    full: bool,
) -> bool {
    if full {
        rows_filled(before, after, before.height, draws)
    } else {
        left == 0 && exists|x: int, y: int, cut: int| #[trigger]
            ran_dry_at(before, after, draws, x, y, cut)
    }
}

/// [`row_filled`] looks at the first `count` cells of the row only.
pub proof fn lemma_row_filled_frame(
    before: GridView,
    after: GridView,
    other: GridView,
    y: int,
    count: nat,
    draws: Seq<Draw>,
)
    requires
        row_filled(before, after, y, count, draws),
        forall|i: int| 0 <= i < count ==> #[trigger] other.cell(i, y) == after.cell(i, y),
    ensures
        row_filled(before, other, y, count, draws),
    decreases count,
{
    if count > 0 {
        let x = count - 1;
        if before.cell(x, y) is Some {
            lemma_row_filled_frame(before, after, other, y, (count - 1) as nat, draws);
        } else {
            let cut = choose|cut: int|
                0 <= cut <= draws.len() && row_filled(
                    before,
                    after,
                    y,
                    (count - 1) as nat,
                    #[trigger] draws.take(cut),
                ) && filler_outcome(draws.skip(cut), 0, after.cell(x, y));
            lemma_row_filled_frame(before, after, other, y, (count - 1) as nat, draws.take(cut));
        }
    }
}

/// [`rows_filled`] looks at the first `count` rows only.
pub proof fn lemma_rows_filled_frame(
    before: GridView,
    after: GridView,
    other: GridView,
    count: nat,
    draws: Seq<Draw>,
)
    requires
        rows_filled(before, after, count, draws),
        forall|i: int, j: int|
            0 <= i < before.width && 0 <= j < count ==> #[trigger] other.cell(i, j) == after.cell(
                i,
                j,
            ),
    ensures
        rows_filled(before, other, count, draws),
    decreases count,
{
    if count > 0 {
        let cut = choose|cut: int|
            0 <= cut <= draws.len() && rows_filled(
                before,
                after,
                (count - 1) as nat,
                #[trigger] draws.take(cut),
            ) && row_filled(before, after, count - 1, before.width, draws.skip(cut));
        lemma_rows_filled_frame(before, after, other, (count - 1) as nat, draws.take(cut));
        lemma_row_filled_frame(before, after, other, count - 1, before.width, draws.skip(cut));
    }
}

/// Gives every empty cell a filler letter from [`sample_filler`], row by
/// row and within a row from left to right. Cells that hold a letter are not
/// touched.
///
/// On `Ok` no cell is empty. `Err` means that the source ran dry; the cells
/// reached until then have their letters.
pub fn fill_gaps(grid: &mut Grid, rng: &mut RandomSource) -> (done: Result<(), SourceExhausted>)
    ensures
        final(grid)@.wf(),
        fills(old(grid)@, final(grid)@),
        final(rng).follows(old(rng)),
        fill_outcome(
            old(grid)@,
            final(grid)@,
            final(rng).spent(old(rng)),
            final(rng).remaining(),
            done is Ok,
        ),
        done is Ok ==> final(grid)@.complete(),
        done is Err ==> final(rng).remaining() == 0,
{
    let ghost start = *rng;
    let ghost before = grid@;
    let width = grid.width();
    let height = grid.height();
    proof {
        lemma_follows_refl(&start);
    }
    let mut y: usize = 0;
    while y < height
        invariant
            start == *old(rng),
            before == old(grid)@,
            before.wf(),
            rng.follows(&start),
            grid@.wf(),
            fills(before, grid@),
            width == before.width,
            height == before.height,
            y <= height,
            forall|i: int, j: int|
                0 <= i < width && 0 <= j < y ==> (#[trigger] grid@.cell(i, j)) is Some,
            rows_filled(before, grid@, y as nat, rng.spent(&start)),
            untouched_from(before, grid@, 0, y as int),
        decreases height - y,
    {
        let ghost row_cut = rng.spent(&start).len() as int;
        let mut x: usize = 0;
        proof {
            assert(rng.spent(&start).take(row_cut) =~= rng.spent(&start));
        }
        while x < width
            invariant
                start == *old(rng),
                before == old(grid)@,
                before.wf(),
                rng.follows(&start),
                grid@.wf(),
                fills(before, grid@),
                width == before.width,
                height == before.height,
                y < height,
                x <= width,
                forall|i: int, j: int|
                    0 <= i < width && 0 <= j < y ==> (#[trigger] grid@.cell(i, j)) is Some,
                forall|i: int| 0 <= i < x ==> (#[trigger] grid@.cell(i, y as int)) is Some,
                0 <= row_cut <= rng.spent(&start).len(),
                rows_filled(before, grid@, y as nat, rng.spent(&start).take(row_cut)),
                row_filled(before, grid@, y as int, x as nat, rng.spent(&start).skip(row_cut)),
                untouched_from(before, grid@, x as int, y as int),
            decreases width - x,
        {
            if grid.get(x, y).is_none() {
                let ghost drawing = *rng;
                let ghost spent = rng.spent(&start);
                let sampled = sample_filler(rng);
                proof {
                    lemma_follows_trans(&start, &drawing, rng);
                    assert(rng.spent(&start).take(row_cut) =~= spent.take(row_cut));
                    assert(rng.spent(&start).subrange(row_cut, spent.len() as int) =~= spent.skip(
                        row_cut,
                    ));
                }
                let letter = match sampled {
                    Some(letter) => letter,
                    None => {
                        proof {
                            assert(ran_dry_at(
                                before,
                                grid@,
                                rng.spent(&start),
                                x as int,
                                y as int,
                                spent.len() as int,
                            ));
                        }
                        return Err(SourceExhausted);
                    },
                };
                let ghost prior = grid@;
                grid.set(x, y, letter);
                proof {
                    lemma_filled_cell(before, prior, x as int, y as int, letter);
                    lemma_rows_filled_frame(
                        before,
                        prior,
                        grid@,
                        y as nat,
                        rng.spent(&start).take(row_cut),
                    );
                    lemma_row_filled_frame(
                        before,
                        prior,
                        grid@,
                        y as int,
                        x as nat,
                        spent.skip(row_cut),
                    );
                    let row_draws = rng.spent(&start).skip(row_cut);
                    let cut = spent.len() - row_cut;
                    assert(row_draws.take(cut) =~= spent.skip(row_cut));
                    assert(row_draws.skip(cut) =~= rng.spent(&drawing));
                }
            }
            x = x + 1;
        }
        y = y + 1;
    }
    Ok(())
}

/// Filling one more empty cell with a lowercase letter keeps [`fills`], and
/// changes no other cell.
proof fn lemma_filled_cell(before: GridView, prior: GridView, x: int, y: int, letter: char)
    requires
        before.wf(),
        prior.wf(),
        fills(before, prior),
        prior.contains(x, y),
        prior.cell(x, y) is None,
        is_lowercase(letter),
    ensures
        fills(before, prior.with_cell(x, y, Some(letter))),
        forall|i: int, j: int|
            prior.contains(i, j) && !(i == x && j == y) ==> #[trigger] prior.with_cell(
                x,
                y,
                Some(letter),
            ).cell(i, j) == prior.cell(i, j),
        prior.with_cell(x, y, Some(letter)).cell(x, y) == Some(letter),
{
    let after = prior.with_cell(x, y, Some(letter));
    assert forall|i: int, j: int| prior.contains(i, j) && !(i == x && j == y) implies #[trigger]
        after.cell(i, j) == prior.cell(i, j) by {}
}

} // verus!
