//! Which lines of a word list are words that a grid can take.

use vstd::prelude::*;
use vstd::string::StringSliceAdditionalSpecFns;

verus! {

/// Why a line is no word for the grid. A line with several faults is
/// reported with the first of them in this order.
#[derive(Clone, Copy, Debug, PartialEq, Eq, Structural)]
pub enum LineFault {
    /// The line has no character.
    Empty,
    /// The line takes more bytes than the grid has columns, or than it has
    /// rows.
    TooLong,
    /// A character of the line is no ASCII letter.
    NotAlphabetic,
}

/// One of the 52 ASCII letters.
pub open spec fn is_letter(c: char) -> bool {
    ('a' <= c <= 'z') || ('A' <= c <= 'Z')
}

/// A word for a `width` by `height` grid: at least one letter, no more
/// letters than the grid has columns or rows, and ASCII letters only.
pub open spec fn is_word(line: Seq<char>, width: nat, height: nat) -> bool {
    &&& 0 < line.len()
    &&& line.len() <= width
    &&& line.len() <= height
    &&& forall|i: int| 0 <= i < line.len() ==> is_letter(#[trigger] line[i])
}

/// The fault of a line of `bytes` bytes with the characters `line`, if it
/// has one.
pub open spec fn line_fault(line: Seq<char>, bytes: nat, width: nat, height: nat) -> Option<
    LineFault,
> {
    if line.len() == 0 {
        Some(LineFault::Empty)
    } else if bytes > width || bytes > height {
        Some(LineFault::TooLong)
    } else if exists|i: int| 0 <= i < line.len() && !is_letter(#[trigger] line[i]) {
        Some(LineFault::NotAlphabetic)
    } else {
        None
    }
}

/// The verdict on a line with the given fault, or with none.
pub open spec fn verdict_on(fault: Option<LineFault>) -> Result<(), LineFault> {
    match fault {
        Some(fault) => Err(fault),
        None => Ok(()),
    }
}

/// A line without a fault is a word, and a word has no fault. (A line of
/// letters takes one byte for each, so counting bytes and counting letters
/// come to the same.)
pub proof fn lemma_faultless_is_word(line: &str, width: nat, height: nat)
    ensures
        line_fault(line@, line.spec_bytes().len(), width, height) is None <==> is_word(
            line@,
            width,
            height,
        ),
{
    broadcast use vstd::utf8::is_ascii_chars_encode_utf8;

    if forall|i: int| 0 <= i < line@.len() ==> is_letter(#[trigger] line@[i]) {
        assert(vstd::utf8::is_ascii_chars(line@));
    }
}

/// Whether `c` is one of the 52 ASCII letters.
pub fn ascii_letter(c: char) -> (yes: bool)
    ensures
        yes == is_letter(c),
{
    ('a' <= c && c <= 'z') || ('A' <= c && c <= 'Z')
}

/// Checks a line of a word list against the grid's dimensions.
///
/// `Ok` means that the line is a word the grid can take. Otherwise the
/// fault found first is returned: an empty line, then a line too long, then
/// a character that is no letter.
pub fn check_line(line: &str, width: usize, height: usize) -> (verdict: Result<(), LineFault>)
    ensures
        verdict is Ok <==> is_word(line@, width as nat, height as nat),
        verdict == verdict_on(
            line_fault(line@, line.spec_bytes().len(), width as nat, height as nat),
        ),
{
    proof {
        lemma_faultless_is_word(line, width as nat, height as nat);
    }
    if line.is_empty() {
        return Err(LineFault::Empty);
    }
    let bytes = line.as_bytes().len();
    if bytes > width || bytes > height {
        return Err(LineFault::TooLong);
    }
    let count = line.unicode_len();
    let mut i: usize = 0;
    while i < count
        invariant
            count == line@.len(),
            count > 0,
            line.spec_bytes().len() <= width,
            line.spec_bytes().len() <= height,
            line_fault(line@, line.spec_bytes().len(), width as nat, height as nat) is None
                <==> is_word(line@, width as nat, height as nat),
            i <= count,
            forall|j: int| 0 <= j < i ==> is_letter(#[trigger] line@[j]),
        decreases count - i,
    {
        if !ascii_letter(line.get_char(i)) {
            return Err(LineFault::NotAlphabetic);
        }
        i = i + 1;
    }
    Ok(())
}

/// Whether a line of a word list has to be skipped: `true` unless the line
/// is a word for a `width` by `height` grid.
pub fn is_bad_line(line: &str, width: usize, height: usize) -> (bad: bool)
    ensures
        bad == !is_word(line@, width as nat, height as nat),
{
    check_line(line, width, height).is_err()
}

} // verus!
