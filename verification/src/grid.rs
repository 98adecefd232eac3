//! The letter grid.

use vstd::prelude::*;

verus! {

/// What a grid is in contracts: its dimensions and its rows of cells,
/// top row first. A cell is `None` while it is empty.
#[verifier::ext_equal]
pub struct GridView {
    pub width: nat,
    pub height: nat,
    pub rows: Seq<Seq<Option<char>>>,
}

impl GridView {
    /// There are `height` rows of `width` cells each.
    pub open spec fn wf(self) -> bool {
        &&& self.rows.len() == self.height
        &&& forall|y: int| 0 <= y < self.height ==> (#[trigger] self.rows[y]).len() == self.width
    }

    /// Whether column `x` of row `y` is a cell of the grid.
    pub open spec fn contains(self, x: int, y: int) -> bool {
        0 <= x < self.width && 0 <= y < self.height
    }

    /// The cell in column `x` of row `y`.
    pub open spec fn cell(self, x: int, y: int) -> Option<char> {
        self.rows[y][x]
    }

    /// No cell is empty.
    pub open spec fn complete(self) -> bool {
        forall|x: int, y: int| self.contains(x, y) ==> (#[trigger] self.cell(x, y)) is Some
    }

    /// The grid of the given dimensions with every cell empty.
    pub open spec fn blank(width: nat, height: nat) -> GridView {
        GridView {
            width,
            height,
            rows: Seq::new(height, |y: int| Seq::new(width, |x: int| None::<char>)),
        }
    }

    /// This grid with the cell in column `x` of row `y` replaced.
    pub open spec fn with_cell(self, x: int, y: int, value: Option<char>) -> GridView {
        GridView { rows: self.rows.update(y, self.rows[y].update(x, value)), ..self }
    }

    /// The letters of a complete grid, row by row.
    pub open spec fn letters(self) -> Seq<Seq<char>> {
        Seq::new(self.height, |y: int| Seq::new(self.width, |x: int| self.cell(x, y)->0))
    }
}

/// Writes `letter` into place `x` of row `y`; the rows keep their lengths.
fn write_cell(cells: &mut Vec<Vec<Option<char>>>, x: usize, y: usize, letter: char)
    requires
        y < old(cells)@.len(),
        x < old(cells)@[y as int]@.len(),
    ensures
        final(cells)@.len() == old(cells)@.len(),
        final(cells)@[y as int]@ == old(cells)@[y as int]@.update(x as int, Some(letter)),
        forall|j: int|
            0 <= j < old(cells)@.len() && j != y ==> (#[trigger] final(cells)@[j]) == old(
                cells,
            )@[j],
        forall|j: int|
            0 <= j < old(cells)@.len() ==> (#[trigger] final(cells)@[j])@.len() == old(
                cells,
            )@[j]@.len(),
    no_unwind
{
    cells[y][x] = Some(letter);
}

/// A grid of fixed dimensions whose cells are empty or hold one character.
pub struct Grid {
    width: usize,
    height: usize,
    cells: Vec<Vec<Option<char>>>,
}

impl View for Grid {
    type V = GridView;

    closed spec fn view(&self) -> GridView {
        GridView {
            width: self.width as nat,
            height: self.height as nat,
            rows: Seq::new(self.cells@.len(), |y: int| self.cells@[y]@),
        }
    }
}

impl Grid {
    /// The rows are as many as the height says, and each is as long as the
    /// width says. Every grid is rectangular.
    #[verifier::type_invariant]
    pub closed spec fn rectangular(&self) -> bool {
        &&& self.cells@.len() == self.height
        &&& forall|y: int|
            0 <= y < self.cells@.len() ==> (#[trigger] self.cells@[y])@.len() == self.width
    }

    /// The view of a rectangular grid is well formed.
    pub proof fn lemma_rectangular(&self)
        requires
            self.rectangular(),
        ensures
            self@.wf(),
    {
    }

    /// A grid of the given dimensions with every cell empty.
    pub fn new(width: usize, height: usize) -> (grid: Grid)
        ensures
            grid@ == GridView::blank(width as nat, height as nat),
            grid@.wf(),
    {
        let mut cells: Vec<Vec<Option<char>>> = Vec::new();
        let mut y: usize = 0;
        while y < height
            invariant
                y <= height,
                cells@.len() == y,
                forall|j: int|
                    0 <= j < y ==> (#[trigger] cells@[j])@ == Seq::new(
                        width as nat,
                        |x: int| None::<char>,
                    ),
            decreases height - y,
        {
            let mut row: Vec<Option<char>> = Vec::new();
            let mut x: usize = 0;
            while x < width
                invariant
                    x <= width,
                    row@.len() == x,
                    forall|i: int| 0 <= i < x ==> (#[trigger] row@[i]) is None,
                decreases width - x,
            {
                row.push(None);
                x = x + 1;
            }
            cells.push(row);
            y = y + 1;
        }
        let grid = Grid { width, height, cells };
        grid
    }

    /// The number of columns.
    pub fn width(&self) -> (width: usize)
        ensures
            width == self@.width,
            self@.wf(),
    {
        proof {
            use_type_invariant(self);
        }
        self.width
    }

    /// The number of rows.
    pub fn height(&self) -> (height: usize)
        ensures
            height == self@.height,
            self@.wf(),
    {
        proof {
            use_type_invariant(self);
        }
        self.height
    }

    /// The cell in column `x` of row `y`.
    pub fn get(&self, x: usize, y: usize) -> (cell: Option<char>)
        requires
            self@.contains(x as int, y as int),
        ensures
            cell == self@.cell(x as int, y as int),
    {
        proof {
            use_type_invariant(self);
        }
        self.cells[y][x]
    }

    /// Writes `letter` into column `x` of row `y`. No other cell changes.
    pub fn set(&mut self, x: usize, y: usize, letter: char)
        requires
            old(self)@.contains(x as int, y as int),
        ensures
            final(self)@ == old(self)@.with_cell(x as int, y as int, Some(letter)),
            final(self)@.wf(),
    {
        proof {
            use_type_invariant(&*self);
        }
        write_cell(&mut self.cells, x, y, letter);
    }

    /// Whether no cell is empty.
    pub fn is_complete(&self) -> (complete: bool)
        ensures
            complete == self@.complete(),
    {
        proof {
            use_type_invariant(self);
        }
        let mut y: usize = 0;
        while y < self.height
            invariant
                self@.wf(),
                y <= self.height,
                forall|i: int, j: int|
                    0 <= i < self@.width && 0 <= j < y ==> (#[trigger] self@.cell(i, j)) is Some,
            decreases self.height - y,
        {
            let mut x: usize = 0;
            while x < self.width
                invariant
                    self@.wf(),
                    y < self.height,
                    x <= self.width,
                    forall|i: int, j: int|
                        0 <= i < self@.width && 0 <= j < y ==> (#[trigger] self@.cell(i, j))
                            is Some,
                    forall|i: int| 0 <= i < x ==> (#[trigger] self@.cell(i, y as int)) is Some,
                decreases self.width - x,
            {
                if self.get(x, y).is_none() {
                    return false;
                }
                x = x + 1;
            }
            y = y + 1;
        }
        true
    }

    /// The letters of the grid, row by row, if no cell is empty.
    pub fn letters(&self) -> (letters: Option<Vec<Vec<char>>>)
        ensures
            letters is Some <==> self@.complete(),
            letters matches Some(rows) ==> rows.deep_view() == self@.letters(),
    {
        proof {
            use_type_invariant(self);
        }
        let mut rows: Vec<Vec<char>> = Vec::new();
        let mut y: usize = 0;
        while y < self.height
            invariant
                self@.wf(),
                y <= self.height,
                rows@.len() == y,
                forall|i: int, j: int|
                    0 <= i < self@.width && 0 <= j < y ==> (#[trigger] self@.cell(i, j)) is Some,
                forall|j: int| 0 <= j < y ==> (#[trigger] rows@[j])@ == self@.letters()[j],
            decreases self.height - y,
        {
            let mut row: Vec<char> = Vec::new();
            let mut x: usize = 0;
            while x < self.width
                invariant
                    self@.wf(),
                    y < self.height,
                    x <= self.width,
                    row@.len() == x,
                    forall|i: int| 0 <= i < x ==> (#[trigger] self@.cell(i, y as int)) is Some,
                    forall|i: int| 0 <= i < x ==> (#[trigger] row@[i]) == self@.cell(i, y as int)->0,
                decreases self.width - x,
            {
                match self.get(x, y) {
                    Some(letter) => {
                        row.push(letter);
                    },
                    None => {
                        return None;
                    },
                }
                x = x + 1;
            }
            rows.push(row);
            y = y + 1;
        }
        assert(rows.deep_view() =~= self@.letters()) by {
            assert forall|j: int| 0 <= j < rows@.len() implies rows.deep_view()[j]
                == self@.letters()[j] by {}
        }
        Some(rows)
    }
}

} // verus!
