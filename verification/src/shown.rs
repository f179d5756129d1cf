//! What a finished drawing shows.
//!
//! [`crate::data::drawn`] says how a drawing comes about, sample by sample.
//! This module says what is to be seen in a cell afterwards: under the dot
//! policy the mark of the sample that came last, under the counting policy
//! the number of samples that came.

use crate::bits::is_finite;
use crate::canvas::Mode;
use crate::data::{cell_of, draw_sample, draw_upto, stamp_cell, Data, Steps};
use crate::frame::Frame;
use crate::glyph::{
    count_glyph, counted, is_countable, is_ground, is_mark, lemma_count_sequence,
    lemma_counted_tally, mark_of, tally, MAX_SERIES, SATURATION,
};
use vstd::prelude::*;

verus! {

/// Whether the sample of series `s` in row `r` is drawn in the cell at `row`, `column`.
pub open spec fn lands(
    data: Data,
    steps: Steps,
    frame: Frame,
    r: int,
    s: int,
    row: int,
    column: int,
) -> bool {
    is_finite(data.ys@[s]@[r]) && (cell_of(data.flipped, frame, steps.xs@[r], steps.ys@[s]@[r])
        matches Ok((at_row, at_column)) && at_row == row && at_column == column)
}

/// The series of the sample that was drawn into the cell last, among all rows
/// before row `r` and the first `s` series of row `r`; `None` where none was.
pub open spec fn last_series(
    data: Data,
    steps: Steps,
    frame: Frame,
    r: int,
    s: int,
    row: int,
    column: int,
) -> Option<int>
    decreases r, s,
{
    if s > 0 {
        if lands(data, steps, frame, r, s - 1, row, column) {
            Some(s - 1)
        } else {
            last_series(data, steps, frame, r, s - 1, row, column)
        }
    } else if r > 0 {
        last_series(data, steps, frame, r - 1, data.ys@.len() as int, row, column)
    } else {
        None
    }
}

/// The series of the sample that was drawn into the cell first.
pub open spec fn first_series(
    data: Data,
    steps: Steps,
    frame: Frame,
    r: int,
    s: int,
    row: int,
    column: int,
) -> Option<int>
    decreases r, s,
{
    if s > 0 {
        match first_series(data, steps, frame, r, s - 1, row, column) {
            Some(first) => Some(first),
            None => if lands(data, steps, frame, r, s - 1, row, column) {
                Some(s - 1)
            } else {
                None
            },
        }
    } else if r > 0 {
        first_series(data, steps, frame, r - 1, data.ys@.len() as int, row, column)
    } else {
        None
    }
}

/// How many samples were drawn into the cell, among all rows before row `r`
/// and the first `s` series of row `r`.
pub open spec fn hits(
    data: Data,
    steps: Steps,
    frame: Frame,
    r: int,
    s: int,
    row: int,
    column: int,
) -> nat
    decreases r, s,
{
    if s > 0 {
        hits(data, steps, frame, r, s - 1, row, column) + if lands(
            data,
            steps,
            frame,
            r,
            s - 1,
            row,
            column,
        ) {
            1nat
        } else {
            0nat
        }
    } else if r > 0 {
        hits(data, steps, frame, r - 1, data.ys@.len() as int, row, column)
    } else {
        0
    }
}

/// The count that a cell shows after `more` samples have come to a cell that showed `count`.
pub open spec fn raised(count: nat, more: nat) -> nat {
    if count + more < SATURATION {
        count + more
    } else {
        SATURATION as nat
    }
}

/// Where the drawing has not stopped, it had not stopped a sample earlier
/// either, and the sample has been drawn into a cell of the grid.
proof fn lemma_step(
    grid: Seq<Seq<u8>>,
    data: Data,
    steps: Steps,
    frame: Frame,
    mode: Mode,
    r: int,
    s: int,
)
    requires
        0 <= r,
        0 < s,
        draw_upto((grid, None), data, steps, frame, mode, r, s).1 is None,
    ensures
        ({
            let before = draw_upto((grid, None), data, steps, frame, mode, r, s - 1);
            let after = draw_upto((grid, None), data, steps, frame, mode, r, s);
            &&& before.1 is None
            &&& after == draw_sample(before, data, steps, frame, mode, r, s - 1)
            &&& !is_finite(data.ys@[s - 1]@[r]) ==> after == before
            &&& is_finite(data.ys@[s - 1]@[r]) ==> (cell_of(
                data.flipped,
                frame,
                steps.xs@[r],
                steps.ys@[s - 1]@[r],
            ) matches Ok((row, column)) && stamp_cell(
                before.0,
                mode,
                row as int,
                column as int,
                mark_of(s - 1),
            ) == Ok::<Seq<Seq<u8>>, crate::data::Fault>(after.0) && row < before.0.len() && column
                < before.0[row as int].len())
        }),
{
}

/// A drawing keeps the shape of its grid.
pub proof fn lemma_drawing_keeps_shape(
    grid: Seq<Seq<u8>>,
    data: Data,
    steps: Steps,
    frame: Frame,
    mode: Mode,
    r: int,
    s: int,
)
    requires
        0 <= r,
        0 <= s,
    ensures
        ({
            let shown = draw_upto((grid, None), data, steps, frame, mode, r, s).0;
            &&& shown.len() == grid.len()
            &&& forall|row: int| 0 <= row < grid.len() ==> (#[trigger] shown[row]).len() == grid[row].len()
        }),
    decreases r, s,
{
    if s > 0 {
        lemma_drawing_keeps_shape(grid, data, steps, frame, mode, r, s - 1);
    } else if r > 0 {
        lemma_drawing_keeps_shape(grid, data, steps, frame, mode, r - 1, data.ys@.len() as int);
    }
}

/// Under the dot policy, a cell of a drawing that has not stopped shows the
/// mark of the series whose sample was drawn into it last; a cell that no
/// sample was drawn into shows what it showed before.
pub proof fn lemma_dot_shows_last(
    grid: Seq<Seq<u8>>,
    data: Data,
    steps: Steps,
    frame: Frame,
    r: int,
    s: int,
    row: int,
    column: int,
)
    requires
        0 <= r,
        0 <= s,
        0 <= row < grid.len(),
        0 <= column < grid[row].len(),
        draw_upto((grid, None), data, steps, frame, Mode::Dot, r, s).1 is None,
    ensures
        draw_upto((grid, None), data, steps, frame, Mode::Dot, r, s).0[row][column] == (
        match last_series(data, steps, frame, r, s, row, column) {
            Some(series) => mark_of(series),
            None => grid[row][column],
        }),
    decreases r, s,
{
    if s > 0 {
        lemma_step(grid, data, steps, frame, Mode::Dot, r, s);
        lemma_dot_shows_last(grid, data, steps, frame, r, s - 1, row, column);
        lemma_drawing_keeps_shape(grid, data, steps, frame, Mode::Dot, r, s - 1);
        let before = draw_upto((grid, None), data, steps, frame, Mode::Dot, r, s - 1).0;
        let after = draw_upto((grid, None), data, steps, frame, Mode::Dot, r, s).0;
        if lands(data, steps, frame, r, s - 1, row, column) {
            assert(after[row][column] == mark_of(s - 1));
        } else {
            assert(after[row][column] == before[row][column]);
        }
    } else if r > 0 {
        lemma_dot_shows_last(grid, data, steps, frame, r - 1, data.ys@.len() as int, row, column);
    }
}

/// Under the counting policy, a cell of a drawing that has not stopped counts
/// the samples that were drawn into it: its count is what it was before,
/// raised by one for each sample, up to saturation.
pub proof fn lemma_count_shows_hits(
    grid: Seq<Seq<u8>>,
    data: Data,
    steps: Steps,
    frame: Frame,
    r: int,
    s: int,
    row: int,
    column: int,
)
    requires
        data.ys@.len() <= MAX_SERIES,
        0 <= r,
        0 <= s <= data.ys@.len(),
        0 <= row < grid.len(),
        0 <= column < grid[row].len(),
        is_countable(grid[row][column]),
        draw_upto((grid, None), data, steps, frame, Mode::Count, r, s).1 is None,
    ensures
        ({
            let shown = draw_upto((grid, None), data, steps, frame, Mode::Count, r, s).0;
            &&& is_countable(shown[row][column])
            &&& tally(shown[row][column]) == raised(
                tally(grid[row][column]),
                hits(data, steps, frame, r, s, row, column),
            )
            &&& hits(data, steps, frame, r, s, row, column) == 0 ==> shown[row][column]
                == grid[row][column]
        }),
    decreases r, s,
{
    if s > 0 {
        lemma_step(grid, data, steps, frame, Mode::Count, r, s);
        lemma_count_shows_hits(grid, data, steps, frame, r, s - 1, row, column);
        lemma_drawing_keeps_shape(grid, data, steps, frame, Mode::Count, r, s - 1);
        let before = draw_upto((grid, None), data, steps, frame, Mode::Count, r, s - 1).0;
        let after = draw_upto((grid, None), data, steps, frame, Mode::Count, r, s).0;
        assert(is_mark(mark_of(s - 1)));
        lemma_counted_tally(before[row][column], mark_of(s - 1));
        if lands(data, steps, frame, r, s - 1, row, column) {
            assert(after[row][column] == counted(before[row][column], mark_of(s - 1)).unwrap());
        } else {
            assert(after[row][column] == before[row][column]);
        }
    } else if r > 0 {
        lemma_count_shows_hits(
            grid,
            data,
            steps,
            frame,
            r - 1,
            data.ys@.len() as int,
            row,
            column,
        );
    }
}

/// Under the counting policy, a cell that was blank or a piece of an axis
/// shows the samples that were drawn into it as their number: the mark of the
/// first sample's series for one, then `2`, `3` and so on, and `#` from
/// thirty-six on.
pub proof fn lemma_count_shows_number(
    grid: Seq<Seq<u8>>,
    data: Data,
    steps: Steps,
    frame: Frame,
    r: int,
    s: int,
    row: int,
    column: int,
)
    requires
        data.ys@.len() <= MAX_SERIES,
        0 <= r,
        0 <= s <= data.ys@.len(),
        0 <= row < grid.len(),
        0 <= column < grid[row].len(),
        is_ground(grid[row][column]),
        draw_upto((grid, None), data, steps, frame, Mode::Count, r, s).1 is None,
    ensures
        ({
            let shown = draw_upto((grid, None), data, steps, frame, Mode::Count, r, s).0;
            let n = hits(data, steps, frame, r, s, row, column);
            &&& n == 0 <==> first_series(data, steps, frame, r, s, row, column) is None
            &&& first_series(data, steps, frame, r, s, row, column) matches Some(first) ==> 0
                <= first < data.ys@.len()
            &&& shown[row][column] == match first_series(data, steps, frame, r, s, row, column) {
                Some(first) => count_glyph(n, mark_of(first)),
                None => grid[row][column],
            }
        }),
    decreases r, s,
{
    if s > 0 {
        lemma_step(grid, data, steps, frame, Mode::Count, r, s);
        lemma_count_shows_number(grid, data, steps, frame, r, s - 1, row, column);
        lemma_drawing_keeps_shape(grid, data, steps, frame, Mode::Count, r, s - 1);
        let n = hits(data, steps, frame, r, s - 1, row, column);
        let before = draw_upto((grid, None), data, steps, frame, Mode::Count, r, s - 1).0;
        let after = draw_upto((grid, None), data, steps, frame, Mode::Count, r, s).0;
        if lands(data, steps, frame, r, s - 1, row, column) {
            assert(after[row][column] == counted(before[row][column], mark_of(s - 1)).unwrap());
            match first_series(data, steps, frame, r, s - 1, row, column) {
                Some(first) => {
                    assert(is_mark(mark_of(first)));
                    lemma_count_sequence(n, mark_of(first), mark_of(s - 1));
                },
                None => {
                    assert(is_mark(mark_of(s - 1)));
                    lemma_count_sequence(0, mark_of(s - 1), mark_of(s - 1));
                },
            }
        } else {
            assert(after[row][column] == before[row][column]);
        }
    } else if r > 0 {
        lemma_count_shows_number(
            grid,
            data,
            steps,
            frame,
            r - 1,
            data.ys@.len() as int,
            row,
            column,
        );
    }
}

} // verus!
