//! The three directions a word can run in, and how one is picked.

use crate::random::{lemma_follows_refl, Draw, RandomSource};
use vstd::prelude::*;

verus! {

/// The direction in which a word's letters follow each other.
///
/// From one letter to the next a horizontal word moves one column to the
/// right, a vertical word one row down, and a diagonal word both.
#[derive(Clone, Copy, Debug, PartialEq, Eq, Structural)]
pub enum Direction {
    Horizontal,
    Vertical,
    Diagonal,
}

/// The number of equally likely outcomes of the draw that picks a direction.
pub const DIRECTION_DRAWS: usize = 9;

impl Direction {
    /// Whether the column grows along a word of this direction.
    pub open spec fn along_x(self) -> bool {
        self == Direction::Horizontal || self == Direction::Diagonal
    }

    /// Whether the row grows along a word of this direction.
    pub open spec fn along_y(self) -> bool {
        self == Direction::Vertical || self == Direction::Diagonal
    }

    /// The direction that belongs to a draw: 0 and 1 are horizontal, 2 to 4
    /// vertical, everything above diagonal. Of nine draws that makes two,
    /// three and four.
    pub open spec fn for_draw(draw: nat) -> Direction {
        if draw <= 1 {
            Direction::Horizontal
        } else if draw <= 4 {
            Direction::Vertical
        } else {
            Direction::Diagonal
        }
    }

    /// Maps a draw to its direction.
    pub fn from_draw(draw: usize) -> (direction: Direction)
        ensures
            direction == Direction::for_draw(draw as nat),
    {
        if draw <= 1 {
            Direction::Horizontal
        } else if draw <= 4 {
            Direction::Vertical
        } else {
            Direction::Diagonal
        }
    }

    /// Whether the column grows along a word of this direction.
    pub fn moves_right(self) -> (moves: bool)
        ensures
            moves == self.along_x(),
    {
        match self {
            Direction::Horizontal => true,
            Direction::Vertical => false,
            Direction::Diagonal => true,
        }
    }

    /// Whether the row grows along a word of this direction.
    pub fn moves_down(self) -> (moves: bool)
        ensures
            moves == self.along_y(),
    {
        match self {
            Direction::Horizontal => false,
            Direction::Vertical => true,
            Direction::Diagonal => true,
        }
    }
}

/// What [`pick_direction`] returns, given the draws that it made: the
/// direction that belongs to its one draw, a number below
/// [`DIRECTION_DRAWS`]; or nothing, without a draw.
pub open spec fn direction_outcome(draws: Seq<Draw>, pick: Option<Direction>) -> bool {
    match pick {
        Some(direction) => {
            &&& draws.len() == 1
            &&& draws[0].is_number_below(DIRECTION_DRAWS as nat)
            &&& direction == Direction::for_draw(draws[0].value())
        },
        None => draws.len() == 0,
    }
}

/// Picks a direction for the next word: one draw below
/// [`DIRECTION_DRAWS`], mapped by [`Direction::for_draw`].
///
/// `None` means that the source is exhausted; it is then unchanged.
pub fn pick_direction(rng: &mut RandomSource) -> (pick: Option<Direction>)
    ensures
        pick is None <==> old(rng).remaining() == 0,
        pick is None ==> *final(rng) == *old(rng),
        final(rng).follows(old(rng)),
        direction_outcome(final(rng).spent(old(rng)), pick),
{
    proof {
        lemma_follows_refl(rng);
    }
    match rng.below(DIRECTION_DRAWS) {
        Some(draw) => Some(Direction::from_draw(draw)),
        None => None,
    }
}

} // verus!
