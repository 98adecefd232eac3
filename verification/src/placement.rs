//! Where a word lies in the grid: the cells of its path, whether it fits
//! there, and the step that writes it.

use crate::direction::Direction;
use crate::grid::{Grid, GridView};
use vstd::prelude::*;

verus! {

/// The cell that holds a word's first letter.
#[derive(Clone, Copy, Debug, PartialEq, Eq, Structural)]
pub struct Origin {
    pub x: usize,
    pub y: usize,
}

/// A word's place in the grid: where it starts and which way it runs.
#[derive(Clone, Copy, Debug, PartialEq, Eq, Structural)]
pub struct Placement {
    pub direction: Direction,
    pub origin: Origin,
}

/// The column of letter `i` of a word that starts in column `x`.
pub open spec fn column_at(direction: Direction, x: int, i: int) -> int {
    if direction.along_x() {
        x + i
    } else {
        x
    }
}

/// The row of letter `i` of a word that starts in row `y`.
pub open spec fn row_at(direction: Direction, y: int, i: int) -> int {
    if direction.along_y() {
        y + i
    } else {
        y
    }
}

/// A word of `len` letters that starts at `(x, y)` lies inside the grid: the
/// origin is a cell, and the path ends no further than the last column and
/// the last row.
pub open spec fn in_bounds(grid: GridView, direction: Direction, x: int, y: int, len: nat) -> bool {
    &&& grid.contains(x, y)
    &&& column_at(direction, x, len as int) <= grid.width
    &&& row_at(direction, y, len as int) <= grid.height
}

/// The cell under letter `i` of a word that starts at `(x, y)`.
pub open spec fn cell_under(grid: GridView, direction: Direction, x: int, y: int, i: int) -> Option<
    char,
> {
    grid.cell(column_at(direction, x, i), row_at(direction, y, i))
}

/// A cell takes a letter if it is empty or already holds that letter.
pub open spec fn compatible(cell: Option<char>, letter: char) -> bool {
    cell is None || cell == Some(letter)
}

/// `word` can be written at `(x, y)`: it lies inside the grid and every cell
/// of its path is compatible with the letter it would get.
pub open spec fn fits(grid: GridView, word: Seq<char>, direction: Direction, x: int, y: int) -> bool {
    &&& in_bounds(grid, direction, x, y, word.len())
    &&& forall|i: int|
        0 <= i < word.len() ==> compatible(#[trigger] cell_under(grid, direction, x, y, i), word[i])
}

/// Reading the grid from `(x, y)` in the given direction yields `word`.
pub open spec fn reads(grid: GridView, word: Seq<char>, direction: Direction, x: int, y: int) -> bool {
    &&& in_bounds(grid, direction, x, y, word.len())
    &&& forall|i: int|
        0 <= i < word.len() ==> #[trigger] cell_under(grid, direction, x, y, i) == Some(word[i])
}

/// How far along a path from `(x, y)` the cell `(cx, cy)` would lie.
pub open spec fn offset_of(direction: Direction, x: int, y: int, cx: int, cy: int) -> int {
    if direction.along_x() {
        cx - x
    } else {
        cy - y
    }
}

/// The cell `(cx, cy)` is one of the `len` cells of the path from `(x, y)`.
pub open spec fn on_path(direction: Direction, x: int, y: int, len: nat, cx: int, cy: int) -> bool {
    let i = offset_of(direction, x, y, cx, cy);
    &&& 0 <= i < len
    &&& column_at(direction, x, i) == cx
    &&& row_at(direction, y, i) == cy
}

/// The grid after `word` is written at `(x, y)`: the cells of the path hold
/// the word's letters, every other cell is as before.
pub open spec fn placed(grid: GridView, word: Seq<char>, direction: Direction, x: int, y: int) -> GridView {
    GridView {
        width: grid.width,
        height: grid.height,
        rows: Seq::new(
            grid.height,
            |cy: int|
                Seq::new(
                    grid.width,
                    |cx: int|
                        if on_path(direction, x, y, word.len(), cx, cy) {
                            Some(word[offset_of(direction, x, y, cx, cy)])
                        } else {
                            grid.cell(cx, cy)
                        },
                ),
        ),
    }
}

impl Placement {
    /// `word` can be written at this placement.
    pub open spec fn fits(self, grid: GridView, word: Seq<char>) -> bool {
        fits(grid, word, self.direction, self.origin.x as int, self.origin.y as int)
    }

    /// Reading the grid at this placement yields `word`.
    pub open spec fn reads(self, grid: GridView, word: Seq<char>) -> bool {
        reads(grid, word, self.direction, self.origin.x as int, self.origin.y as int)
    }

    /// The cell `(cx, cy)` lies under a word of `len` letters at this
    /// placement.
    pub open spec fn covers(self, len: nat, cx: int, cy: int) -> bool {
        on_path(self.direction, self.origin.x as int, self.origin.y as int, len, cx, cy)
    }

    /// The grid after `word` is written at this placement.
    pub open spec fn write(self, grid: GridView, word: Seq<char>) -> GridView {
        placed(grid, word, self.direction, self.origin.x as int, self.origin.y as int)
    }
}

/// Every cell of a path that lies inside the grid is a cell of the grid, and
/// it is on the path at its own index.
pub proof fn lemma_path_inside(grid: GridView, direction: Direction, x: int, y: int, len: nat, i: int)
    requires
        in_bounds(grid, direction, x, y, len),
        0 <= i < len,
    ensures
        grid.contains(column_at(direction, x, i), row_at(direction, y, i)),
        on_path(direction, x, y, len, column_at(direction, x, i), row_at(direction, y, i)),
        offset_of(direction, x, y, column_at(direction, x, i), row_at(direction, y, i)) == i,
{
}

/// What [`placed`] holds cell by cell: a cell on the path holds the word's
/// letter for that cell and is a cell of the grid; any other cell is as
/// before. Nothing outside the grid is written.
pub proof fn lemma_placed_cells(
    grid: GridView,
    word: Seq<char>,
    direction: Direction,
    x: int,
    y: int,
    cx: int,
    cy: int,
)
    requires
        grid.wf(),
        in_bounds(grid, direction, x, y, word.len()),
    ensures
        placed(grid, word, direction, x, y).wf(),
        placed(grid, word, direction, x, y).width == grid.width,
        placed(grid, word, direction, x, y).height == grid.height,
        on_path(direction, x, y, word.len(), cx, cy) ==> grid.contains(cx, cy),
        on_path(direction, x, y, word.len(), cx, cy) ==> placed(grid, word, direction, x, y).cell(
            cx,
            cy,
        ) == Some(word[offset_of(direction, x, y, cx, cy)]),
        grid.contains(cx, cy) && !on_path(direction, x, y, word.len(), cx, cy) ==> placed(
            grid,
            word,
            direction,
            x,
            y,
        ).cell(cx, cy) == grid.cell(cx, cy),
{
}

/// After a word is written, reading at its placement yields the word.
pub proof fn lemma_placed_reads(grid: GridView, word: Seq<char>, direction: Direction, x: int, y: int)
    requires
        grid.wf(),
        in_bounds(grid, direction, x, y, word.len()),
    ensures
        reads(placed(grid, word, direction, x, y), word, direction, x, y),
{
}

/// Writing a word where it fits changes no letter that is already there.
pub proof fn lemma_placed_keeps_letters(
    grid: GridView,
    word: Seq<char>,
    direction: Direction,
    x: int,
    y: int,
    cx: int,
    cy: int,
)
    requires
        grid.wf(),
        fits(grid, word, direction, x, y),
        grid.contains(cx, cy),
        grid.cell(cx, cy) is Some,
    ensures
        placed(grid, word, direction, x, y).cell(cx, cy) == grid.cell(cx, cy),
{
    if on_path(direction, x, y, word.len(), cx, cy) {
        let i = offset_of(direction, x, y, cx, cy);
        assert(compatible(cell_under(grid, direction, x, y, i), word[i]));
    }
}

/// A word that reads in the grid still reads after another word is written
/// where it fits.
pub proof fn lemma_placed_keeps_reading(
    grid: GridView,
    earlier: Seq<char>,
    at: Placement,
    word: Seq<char>,
    direction: Direction,
    x: int,
    y: int,
)
    requires
        grid.wf(),
        at.reads(grid, earlier),
        fits(grid, word, direction, x, y),
    ensures
        at.reads(placed(grid, word, direction, x, y), earlier),
{
    let after = placed(grid, word, direction, x, y);
    let ax = at.origin.x as int;
    let ay = at.origin.y as int;
    assert forall|i: int| 0 <= i < earlier.len() implies #[trigger] cell_under(
        after,
        at.direction,
        ax,
        ay,
        i,
    ) == Some(earlier[i]) by {
        assert(cell_under(grid, at.direction, ax, ay, i) == Some(earlier[i]));
        lemma_placed_keeps_letters(
            grid,
            word,
            direction,
            x,
            y,
            column_at(at.direction, ax, i),
            row_at(at.direction, ay, i),
        );
    }
}

/// Two words that read in the same grid agree wherever their paths cross:
/// if letter `i` of one and letter `j` of the other lie on the same cell,
/// they are the same letter.
pub proof fn lemma_crossing_agrees(
    grid: GridView,
    first: Seq<char>,
    first_at: Placement,
    i: int,
    second: Seq<char>,
    second_at: Placement,
    j: int,
)
    requires
        first_at.reads(grid, first),
        second_at.reads(grid, second),
        0 <= i < first.len(),
        0 <= j < second.len(),
        column_at(first_at.direction, first_at.origin.x as int, i) == column_at(
            second_at.direction,
            second_at.origin.x as int,
            j,
        ),
        row_at(first_at.direction, first_at.origin.y as int, i) == row_at(
            second_at.direction,
            second_at.origin.y as int,
            j,
        ),
    ensures
        first[i] == second[j],
{
    assert(cell_under(
        grid,
        first_at.direction,
        first_at.origin.x as int,
        first_at.origin.y as int,
        i,
    ) == Some(first[i]));
    assert(cell_under(
        grid,
        second_at.direction,
        second_at.origin.x as int,
        second_at.origin.y as int,
        j,
    ) == Some(second[j]));
}

/// A word fits only where it agrees with the words already in the grid: if
/// letter `j` of a word that fits would lie on the cell of letter `i` of a
/// word that reads there, the two letters are the same.
pub proof fn lemma_fit_agrees(
    grid: GridView,
    placed_word: Seq<char>,
    placed_at: Placement,
    i: int,
    word: Seq<char>,
    at: Placement,
    j: int,
)
    requires
        placed_at.reads(grid, placed_word),
        at.fits(grid, word),
        0 <= i < placed_word.len(),
        0 <= j < word.len(),
        column_at(placed_at.direction, placed_at.origin.x as int, i) == column_at(
            at.direction,
            at.origin.x as int,
            j,
        ),
        row_at(placed_at.direction, placed_at.origin.y as int, i) == row_at(
            at.direction,
            at.origin.y as int,
            j,
        ),
    ensures
        placed_word[i] == word[j],
{
    assert(cell_under(
        grid,
        placed_at.direction,
        placed_at.origin.x as int,
        placed_at.origin.y as int,
        i,
    ) == Some(placed_word[i]));
    assert(compatible(
        cell_under(grid, at.direction, at.origin.x as int, at.origin.y as int, j),
        word[j],
    ));
}

/// A word as long as the grid is wide, or as high, has no choice along that
/// axis: if it runs along the columns and is `width` letters long, it starts
/// in column 0; if it runs along the rows and is `height` letters long, it
/// starts in row 0.
pub proof fn lemma_full_length_origin(grid: GridView, direction: Direction, x: int, y: int, len: nat)
    requires
        in_bounds(grid, direction, x, y, len),
    ensures
        direction.along_x() && len == grid.width ==> x == 0,
        direction.along_y() && len == grid.height ==> y == 0,
{
}

/// Whether `word` can be written at `(x, y)` in the given direction.
///
/// The answer is `false` when the origin is no cell of the grid, when the
/// word would run past the last column or row, or when a cell of the path
/// holds another letter than the word needs there.
pub fn slot_fits(grid: &Grid, word: &str, direction: Direction, x: usize, y: usize) -> (ok: bool)
    ensures
        ok == fits(grid@, word@, direction, x as int, y as int),
{
    let len = word.unicode_len();
    let right = direction.moves_right();
    let down = direction.moves_down();
    let width = grid.width();
    let height = grid.height();
    if x >= width || y >= height {
        return false;
    }
    if right && len > width - x {
        return false;
    }
    if down && len > height - y {
        return false;
    }
    let mut i: usize = 0;
    while i < len
        invariant
            grid@.wf(),
            width == grid@.width,
            height == grid@.height,
            len == word@.len(),
            right == direction.along_x(),
            down == direction.along_y(),
            in_bounds(grid@, direction, x as int, y as int, len as nat),
            i <= len,
            forall|j: int|
                0 <= j < i ==> compatible(
                    #[trigger] cell_under(grid@, direction, x as int, y as int, j),
                    word@[j],
                ),
        decreases len - i,
    {
        let cx = if right {
            x + i
        } else {
            x
        };
        let cy = if down {
            y + i
        } else {
            y
        };
        match grid.get(cx, cy) {
            Some(letter) => {
                if letter != word.get_char(i) {
                    assert(!compatible(
                        cell_under(grid@, direction, x as int, y as int, i as int),
                        word@[i as int],
                    ));
                    return false;
                }
            },
            None => {},
        }
        i = i + 1;
    }
    true
}

/// Writes `word` into the grid, one letter per cell, from `(x, y)` in the
/// given direction. A cell that already holds the letter it gets is left as
/// it is in effect; cells off the path are not touched.
pub fn place(grid: &mut Grid, word: &str, direction: Direction, x: usize, y: usize)
    requires
        in_bounds(old(grid)@, direction, x as int, y as int, word@.len()),
    ensures
        final(grid)@ == placed(old(grid)@, word@, direction, x as int, y as int),
        final(grid)@.wf(),
{
    let len = word.unicode_len();
    let right = direction.moves_right();
    let down = direction.moves_down();
    let width = grid.width();
    let height = grid.height();
    let ghost before = grid@;
    let mut i: usize = 0;
    assert(grid@ =~~= placed(before, word@.take(0), direction, x as int, y as int));
    while i < len
        invariant
            before.wf(),
            grid@.wf(),
            width == before.width,
            height == before.height,
            len == word@.len(),
            right == direction.along_x(),
            down == direction.along_y(),
            in_bounds(before, direction, x as int, y as int, len as nat),
            i <= len,
            grid@ == placed(before, word@.take(i as int), direction, x as int, y as int),
        decreases len - i,
    {
        let cx = if right {
            x + i
        } else {
            x
        };
        let cy = if down {
            y + i
        } else {
            y
        };
        let letter = word.get_char(i);
        grid.set(cx, cy, letter);
        assert(grid@ =~~= placed(before, word@.take(i + 1), direction, x as int, y as int));
        i = i + 1;
    }
    assert(word@.take(len as int) == word@);
}

} // verus!
