//! The line of text above a plot: the bounds of both axes and, where every
//! series has its own mark, which mark stands for which series.

use crate::canvas::Mode;
use crate::glyph::{mark, mark_of, MAX_SERIES};
use vstd::prelude::*;
use vstd::string::StringExecFns;

verus! {

/// `String::push` of the standard library: appends one character to the text.
pub assume_specification[ String::push ](text: &mut String, c: char)
    ensures
        final(text)@ == old(text)@.push(c),
;

/// The decimal digits of a number.
pub open spec fn decimal(n: nat) -> Seq<char>
    decreases n,
{
    if n < 10 {
        seq![digit(n)]
    } else {
        decimal(n / 10).push(digit(n % 10))
    }
}

/// The digit that writes a number below ten.
pub open spec fn digit(n: nat) -> char
    recommends
        n < 10,
{
    ((n + 48) as u8) as char
}

/// The entry of one series in the legend: its number, a colon, its mark.
pub open spec fn entry_of(series: int) -> Seq<char> {
    decimal(series as nat) + ": "@ + seq![mark_of(series) as char]
}

/// The legend of the first `series` series: their entries, with commas between.
pub open spec fn legend_of(series: int) -> Seq<char>
    decreases series,
{
    if series <= 0 {
        Seq::empty()
    } else if series == 1 {
        entry_of(0)
    } else {
        legend_of(series - 1) + ", "@ + entry_of(series - 1)
    }
}

/// The bounds of one axis as they stand in the header.
pub open spec fn bounds_of(log: bool, axis: Seq<char>, min: Seq<char>, max: Seq<char>) -> Seq<char> {
    "    "@ + (if log {
        "log "@
    } else {
        Seq::empty()
    }) + axis + ": ["@ + min + " - "@ + max + "]"@
}

/// The header of a plot: the bounds of the X axis, those of the Y axis and,
/// under the dot policy, the legend.
pub open spec fn header_of(
    log_x: bool,
    log_y: bool,
    x_min: Seq<char>,
    x_max: Seq<char>,
    y_min: Seq<char>,
    y_max: Seq<char>,
    mode: Mode,
    series: int,
) -> Seq<char> {
    bounds_of(log_x, "x"@, x_min, x_max) + bounds_of(log_y, "y"@, y_min, y_max) + (match mode {
        Mode::Dot => " -- "@ + legend_of(series),
        Mode::Count => Seq::empty(),
    })
}

/// Appends the decimal digits of `n`.
fn put_decimal(text: &mut String, n: usize)
    ensures
        final(text)@ == old(text)@ + decimal(n as nat),
    decreases n,
{
    if n >= 10 {
        put_decimal(text, n / 10);
    }
    let d = (n % 10) as u8 + 48;
    text.push(d as char);
    proof {
        if n >= 10 {
            assert(text@ =~= old(text)@ + decimal(n as nat));
        } else {
            assert(text@ =~= old(text)@ + decimal(n as nat));
        }
    }
}

/// Appends the bounds of one axis.
fn put_bounds(text: &mut String, log: bool, axis: &str, min: &str, max: &str)
    ensures
        final(text)@ == old(text)@ + bounds_of(log, axis@, min@, max@),
{
    text.append("    ");
    if log {
        text.append("log ");
    }
    text.append(axis);
    text.append(": [");
    text.append(min);
    text.append(" - ");
    text.append(max);
    text.append("]");
    assert(text@ =~= old(text)@ + bounds_of(log, axis@, min@, max@));
}

/// The legend of the first `series` series, such as `0: @, 1: *`.
pub fn legend(series: usize) -> (text: String)
    requires
        series <= MAX_SERIES,
    ensures
        text@ == legend_of(series as int),
{
    let mut text = String::new();
    let mut s: usize = 0;
    while s < series
        invariant
            s <= series <= MAX_SERIES,
            text@ == legend_of(s as int),
        decreases series - s,
    {
        let ghost before = text@;
        if s > 0 {
            text.append(", ");
        }
        put_decimal(&mut text, s);
        text.append(": ");
        text.push(mark(s) as char);
        s += 1;
        assert(text@ =~= legend_of(s as int));
    }
    text
}

/// The header of a plot, without the newline that ends it. The bounds are
/// given as the caller has written them.
pub fn header(
    log_x: bool,
    log_y: bool,
    x_min: &str,
    x_max: &str,
    y_min: &str,
    y_max: &str,
    mode: Mode,
    series: usize,
) -> (text: String)
    requires
        series <= MAX_SERIES,
    ensures
        text@ == header_of(log_x, log_y, x_min@, x_max@, y_min@, y_max@, mode, series as int),
{
    let mut text = String::new();
    put_bounds(&mut text, log_x, "x", x_min, x_max);
    put_bounds(&mut text, log_y, "y", y_min, y_max);
    match mode {
        Mode::Dot => {
            text.append(" -- ");
            let entries = legend(series);
            text.append(entries.as_str());
        },
        Mode::Count => {},
    }
    assert(text@ =~= header_of(
        log_x,
        log_y,
        x_min@,
        x_max@,
        y_min@,
        y_max@,
        mode,
        series as int,
    ));
    text
}

} // verus!
