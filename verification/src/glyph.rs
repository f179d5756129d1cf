//! The bytes that a cell can hold, and what a new sample makes of each.
//!
//! A cell holds one byte. Under the counting policy that byte says how many
//! samples fell into the cell: a blank or a piece of an axis stands for none,
//! the mark of a series for one sample of that series, the digits `2` to `9`
//! and the letters `a` to `z` for two to thirty-five, and `#` for more.

use crate::canvas::{Mode, BLANK};
use vstd::prelude::*;

verus! {

/// `+`: a tick of an axis, and the crossing of the two axes.
pub const PLUS: u8 = 43;

/// `-`: the horizontal axis between its ticks.
pub const MINUS: u8 = 45;

/// `.`: a tick of a boundary line that is no axis.
pub const DOT: u8 = 46;

/// `|`: the vertical axis between its ticks.
pub const BAR: u8 = 124;

/// `#`: more samples than a digit can count.
pub const HASH: u8 = 35;

/// `0`
pub const DIGIT_0: u8 = 48;

/// `2`: what a second sample makes of a mark.
pub const DIGIT_2: u8 = 50;

/// `8`
pub const DIGIT_8: u8 = 56;

/// `9`
pub const DIGIT_9: u8 = 57;

/// `a`: ten samples.
pub const LETTER_A: u8 = 97;

/// `y`
pub const LETTER_Y: u8 = 121;

/// `z`: thirty-five samples.
pub const LETTER_Z: u8 = 122;

/// `@`: the mark of the first series.
pub const MARK_0: u8 = 64;

/// `*`
pub const MARK_1: u8 = 42;

/// `^`
pub const MARK_2: u8 = 94;

/// `!`
pub const MARK_3: u8 = 33;

/// `~`
pub const MARK_4: u8 = 126;

/// `%`
pub const MARK_5: u8 = 37;

/// `A`: the mark of the seventh series; the capital letters follow in order.
pub const MARK_6: u8 = 65;

/// How many series can be told apart: one mark each.
pub const MAX_SERIES: usize = 32;

/// How many samples the bytes of a cell can count before `#` stands for all more.
pub const SATURATION: u8 = 36;

/// The mark of a series: `@*^!~%`, then the capital letters.
pub open spec fn mark_of(series: int) -> u8 {
    if series == 0 {
        MARK_0
    } else if series == 1 {
        MARK_1
    } else if series == 2 {
        MARK_2
    } else if series == 3 {
        MARK_3
    } else if series == 4 {
        MARK_4
    } else if series == 5 {
        MARK_5
    } else {
        (MARK_6 + (series - 6)) as u8
    }
}

/// The byte is the mark of some series.
pub open spec fn is_mark(byte: u8) -> bool {
    exists|series: int| 0 <= series < MAX_SERIES && mark_of(series) == byte
}

/// The byte is a blank or a piece of an axis.
pub open spec fn is_ground(byte: u8) -> bool {
    byte == BLANK || byte == PLUS || byte == MINUS || byte == DOT || byte == BAR
}

/// The byte is one of the digits `0` to `9` or the letters `a` to `z`.
pub open spec fn is_count(byte: u8) -> bool {
    DIGIT_0 <= byte <= DIGIT_9 || LETTER_A <= byte <= LETTER_Z
}

/// The byte is one that the counting policy can meet in a cell.
pub open spec fn is_countable(byte: u8) -> bool {
    is_ground(byte) || is_mark(byte) || is_count(byte) || byte == HASH
}

/// How many samples the byte of a cell stands for; `SATURATION` for that many or more.
pub open spec fn tally(byte: u8) -> nat
    recommends
        is_countable(byte),
{
    if is_ground(byte) {
        0
    } else if is_mark(byte) {
        1
    } else if DIGIT_0 <= byte <= DIGIT_9 {
        (byte - DIGIT_0) as nat
    } else if LETTER_A <= byte <= LETTER_Z {
        (byte - LETTER_A + 10) as nat
    } else {
        SATURATION as nat
    }
}

/// What one more sample of the series with mark `mark` makes of a cell under
/// the counting policy; `None` for a byte that no drawing leaves in a cell.
pub open spec fn counted(byte: u8, mark: u8) -> Option<u8> {
    if DIGIT_0 <= byte <= DIGIT_8 || LETTER_A <= byte <= LETTER_Y {
        Some((byte + 1) as u8)
    } else if byte == DIGIT_9 {
        Some(LETTER_A)
    } else if byte == LETTER_Z || byte == HASH {
        Some(HASH)
    } else if is_ground(byte) {
        Some(mark)
    } else if is_mark(byte) {
        Some(DIGIT_2)
    } else {
        None
    }
}

/// What one more sample makes of a cell under either policy.
pub open spec fn stamped(mode: Mode, byte: u8, mark: u8) -> Option<u8> {
    match mode {
        Mode::Dot => Some(mark),
        Mode::Count => counted(byte, mark),
    }
}

/// The byte of a cell that `n` samples fell into, the first of them of the
/// series with mark `first`.
pub open spec fn count_glyph(n: nat, first: u8) -> u8 {
    if n == 0 {
        BLANK
    } else if n == 1 {
        first
    } else if n <= 9 {
        (DIGIT_0 + n) as u8
    } else if n < SATURATION {
        (LETTER_A + (n - 10)) as u8
    } else {
        HASH
    }
}

/// The mark that stands for a series on the canvas and in the legend.
pub fn mark(series: usize) -> (glyph: u8)
    requires
        series < MAX_SERIES,
    ensures
        glyph == mark_of(series as int),
        is_mark(glyph),
{
    assert(is_mark(mark_of(series as int)));
    if series == 0 {
        MARK_0
    } else if series == 1 {
        MARK_1
    } else if series == 2 {
        MARK_2
    } else if series == 3 {
        MARK_3
    } else if series == 4 {
        MARK_4
    } else if series == 5 {
        MARK_5
    } else {
        MARK_6 + (series - 6) as u8
    }
}

/// Whether a byte is the mark of some series.
pub fn holds_mark(byte: u8) -> (yes: bool)
    ensures
        yes == is_mark(byte),
{
    proof {
        lemma_marks(byte);
    }
    byte == MARK_1 || byte == MARK_2 || byte == MARK_3 || byte == MARK_4 || byte == MARK_5 || (
    MARK_0 <= byte && byte <= 90)
}

/// Whether a byte is a blank or a piece of an axis.
pub fn holds_ground(byte: u8) -> (yes: bool)
    ensures
        yes == is_ground(byte),
{
    byte == BLANK || byte == PLUS || byte == MINUS || byte == DOT || byte == BAR
}

/// Whether a byte is one that the counting policy can meet in a cell.
pub fn holds_countable(byte: u8) -> (yes: bool)
    ensures
        yes == is_countable(byte),
{
    holds_ground(byte) || holds_mark(byte) || (DIGIT_0 <= byte && byte <= DIGIT_9) || (LETTER_A
        <= byte && byte <= LETTER_Z) || byte == HASH
}

/// One more sample in a cell under the counting policy.
pub fn count_step(byte: u8, mark: u8) -> (next: Option<u8>)
    ensures
        next == counted(byte, mark),
{
    if (DIGIT_0 <= byte && byte <= DIGIT_8) || (LETTER_A <= byte && byte <= LETTER_Y) {
        Some(byte + 1)
    } else if byte == DIGIT_9 {
        Some(LETTER_A)
    } else if byte == LETTER_Z || byte == HASH {
        Some(HASH)
    } else if holds_ground(byte) {
        Some(mark)
    } else if holds_mark(byte) {
        Some(DIGIT_2)
    } else {
        None
    }
}

/// One more sample in a cell under the given policy.
pub fn stamp(mode: Mode, byte: u8, mark: u8) -> (next: Option<u8>)
    ensures
        next == stamped(mode, byte, mark),
{
    match mode {
        Mode::Dot => Some(mark),
        Mode::Count => count_step(byte, mark),
    }
}

/// The marks are `!`, `%`, `*`, `^`, `~` and the bytes from `@` to `Z`.
pub proof fn lemma_marks(byte: u8)
    ensures
        is_mark(byte) <==> (byte == MARK_1 || byte == MARK_2 || byte == MARK_3 || byte == MARK_4
            || byte == MARK_5 || MARK_0 <= byte <= 90),
{
    if byte == MARK_0 {
        assert(mark_of(0) == byte);
    } else if byte == MARK_1 {
        assert(mark_of(1) == byte);
    } else if byte == MARK_2 {
        assert(mark_of(2) == byte);
    } else if byte == MARK_3 {
        assert(mark_of(3) == byte);
    } else if byte == MARK_4 {
        assert(mark_of(4) == byte);
    } else if byte == MARK_5 {
        assert(mark_of(5) == byte);
    } else if MARK_6 <= byte <= 90 {
        assert(mark_of(byte - MARK_6 + 6) == byte);
    }
}

/// No two series share a mark.
pub proof fn lemma_marks_distinct(a: int, b: int)
    requires
        0 <= a < MAX_SERIES,
        0 <= b < MAX_SERIES,
        a != b,
    ensures
        mark_of(a) != mark_of(b),
{
}

/// A byte belongs to at most one of the classes that the counting policy
/// tells apart: ground, marks, counting digits and letters, and `#`.
pub proof fn lemma_classes_disjoint(byte: u8)
    ensures
        !(is_ground(byte) && is_mark(byte)),
        !(is_ground(byte) && is_count(byte)),
        !(is_ground(byte) && byte == HASH),
        !(is_mark(byte) && is_count(byte)),
        !(is_mark(byte) && byte == HASH),
        !(is_count(byte) && byte == HASH),
{
    lemma_marks(byte);
}

/// The counting policy takes every byte that it can meet, and no other.
pub proof fn lemma_counted_defined(byte: u8, mark: u8)
    ensures
        counted(byte, mark) is Some <==> is_countable(byte),
{
    lemma_marks(byte);
}

/// Every sample raises the count of its cell by one until the count is
/// saturated, and a saturated cell stays saturated: no count ever falls.
pub proof fn lemma_counted_tally(byte: u8, mark: u8)
    requires
        is_countable(byte),
        is_mark(mark),
    ensures
        counted(byte, mark) matches Some(next) && is_countable(next) && tally(next) == if tally(
            byte,
        ) < SATURATION {
            tally(byte) + 1
        } else {
            SATURATION as nat
        },
{
    lemma_marks(byte);
    lemma_marks(mark);
    let next = counted(byte, mark).unwrap();
    lemma_marks(next);
}

/// The cell after `n + 1` samples is the cell after `n` samples with one more
/// sample counted: a blank cell shows the first series' mark, then `2`, `3`
/// and so on through `9`, `a` through `z`, and `#` from then on.
pub proof fn lemma_count_sequence(n: nat, first: u8, mark: u8)
    requires
        is_mark(first),
    ensures
        counted(count_glyph(n, first), if n == 0 {
            first
        } else {
            mark
        }) == Some(count_glyph(n + 1, first)),
{
    lemma_marks(first);
}

/// Under the dot policy a sample leaves its own mark, whatever the cell held.
pub proof fn lemma_dot_overwrites(byte: u8, mark: u8)
    ensures
        stamped(Mode::Dot, byte, mark) == Some(mark),
{
}

} // verus!
