//! A generator of word search puzzles.
//!
//! Given a list of words and the dimensions of a grid, [`builder::construct`]
//! places every word in the grid, horizontally, vertically or diagonally,
//! lets words cross where they share a letter, and fills the cells that are
//! left with random lowercase letters. [`render::html`] turns the finished
//! grid and the sorted words into a web page, and [`words::check_line`]
//! tells which lines of a word list a grid can take.
//!
//! All randomness comes from a [`random::RandomSource`], which either asks
//! the `rand` crate or replays a fixed sequence of numbers. A source hands
//! out a bounded number of draws; what each function returns is stated
//! in terms of the draws it made.

pub mod attempt;
pub mod builder;
pub mod direction;
pub mod filler;
pub mod grid;
pub mod listing;
pub mod placement;
pub mod random;
pub mod render;
pub mod slot;
pub mod word;
pub mod words;
