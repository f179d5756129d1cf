//! The data of a plot and how it is drawn.
//!
//! The data are one sequence of X values and, beside it, any number of series
//! of Y values, each as long as the X values. All values are bit patterns (see
//! [`crate::bits`]); a sample that is not finite is missing and is never drawn.
//!
//! [`drawn`] says what drawing the data makes of a grid, sample by sample;
//! [`drawable`] says when every sample has a place on the grid, which is what
//! [`Data::draw_into`] asks for and [`Data::find_fault`] looks into.

use crate::bits::{finite, is_finite, rank, ranks_below};
use crate::canvas::{Canvas, Mode};
use crate::frame::{Dimension, Frame, FrameError};
use crate::glyph::{
    holds_countable, is_countable, is_mark, lemma_counted_defined, lemma_counted_tally, mark,
    mark_of, stamp, stamped, MAX_SERIES,
};
use vstd::prelude::*;

verus! {

/// The X values and the series of Y values of a plot.
#[derive(Debug)]
pub struct Data {
    /// The rows run along the vertical axis and the series along the horizontal one.
    pub flipped: bool,
    /// The X value of each row.
    pub xs: Vec<u64>,
    /// The series; `ys[s][r]` is the value of series `s` in row `r`.
    pub ys: Vec<Vec<u64>>,
}

/// Where the caller has placed the values of a [`Data`]: for each X value and
/// for each sample its steps along its axis (see [`crate::frame`]), or `None`
/// for a value that lies outside the frame's bounds by more than the
/// caller's tolerance.
#[derive(Debug)]
pub struct Steps {
    pub xs: Vec<Option<usize>>,
    pub ys: Vec<Vec<Option<usize>>>,
}

/// What is wrong with a sample that cannot be drawn.
#[derive(Debug, Clone, Copy, PartialEq, Eq, Structural)]
pub enum Fault {
    /// The sample's X or Y value lies outside the bounds of the frame.
    OutsideFrame,
    /// The sample's cell is none of the canvas.
    OffGrid,
    /// The sample's cell holds this byte, which counts nothing: no drawing
    /// leaves it in a cell.
    UnexpectedByte(u8),
}

/// A sample that cannot be drawn, and why.
#[derive(Debug, Clone, Copy, PartialEq, Eq, Structural)]
pub struct DrawError {
    pub series: usize,
    pub row: usize,
    pub fault: Fault,
}

/// Whether some sample of the sequence is finite.
pub open spec fn has_finite(samples: Seq<u64>) -> bool {
    exists|i: int| 0 <= i < samples.len() && is_finite(#[trigger] samples[i])
}

/// `m` is the least finite sample of the sequence in the total order.
pub open spec fn is_least_finite(samples: Seq<u64>, m: u64) -> bool {
    &&& is_finite(m)
    &&& samples.contains(m)
    &&& forall|i: int|
        0 <= i < samples.len() && is_finite(#[trigger] samples[i]) ==> rank(m) <= rank(samples[i])
}

/// `m` is the greatest finite sample of the sequence in the total order.
pub open spec fn is_greatest_finite(samples: Seq<u64>, m: u64) -> bool {
    &&& is_finite(m)
    &&& samples.contains(m)
    &&& forall|i: int|
        0 <= i < samples.len() && is_finite(#[trigger] samples[i]) ==> rank(samples[i]) <= rank(m)
}

/// What the search for an extreme sample may answer: the extreme one, or
/// `None` where no sample is finite.
pub open spec fn is_least_answer(samples: Seq<u64>, answer: Option<u64>) -> bool {
    match answer {
        Some(m) => is_least_finite(samples, m),
        None => !has_finite(samples),
    }
}

pub open spec fn is_greatest_answer(samples: Seq<u64>, answer: Option<u64>) -> bool {
    match answer {
        Some(m) => is_greatest_finite(samples, m),
        None => !has_finite(samples),
    }
}

/// Whether some sample of some series is finite.
pub open spec fn any_finite(series: Seq<Vec<u64>>) -> bool {
    exists|s: int| 0 <= s < series.len() && has_finite(#[trigger] series[s]@)
}

/// `m` occurs in one of the series.
pub open spec fn occurs(series: Seq<Vec<u64>>, m: u64) -> bool {
    exists|s: int| 0 <= s < series.len() && (#[trigger] series[s]@).contains(m)
}

/// `m` is the least finite sample of all the series together.
pub open spec fn is_least_of_all(series: Seq<Vec<u64>>, m: u64) -> bool {
    &&& is_finite(m)
    &&& occurs(series, m)
    &&& forall|s: int, i: int|
        0 <= s < series.len() && 0 <= i < series[s]@.len() && is_finite(#[trigger] series[s]@[i])
            ==> rank(m) <= rank(series[s]@[i])
}

/// `m` is the greatest finite sample of all the series together.
pub open spec fn is_greatest_of_all(series: Seq<Vec<u64>>, m: u64) -> bool {
    &&& is_finite(m)
    &&& occurs(series, m)
    &&& forall|s: int, i: int|
        0 <= s < series.len() && 0 <= i < series[s]@.len() && is_finite(#[trigger] series[s]@[i])
            ==> rank(series[s]@[i]) <= rank(m)
}

pub open spec fn is_least_answer_of_all(series: Seq<Vec<u64>>, answer: Option<u64>) -> bool {
    match answer {
        Some(m) => is_least_of_all(series, m),
        None => !any_finite(series),
    }
}

pub open spec fn is_greatest_answer_of_all(series: Seq<Vec<u64>>, answer: Option<u64>) -> bool {
    match answer {
        Some(m) => is_greatest_of_all(series, m),
        None => !any_finite(series),
    }
}

proof fn lemma_push_keeps(seen: Seq<u64>, sample: u64)
    ensures
        forall|m: u64| seen.contains(m) ==> #[trigger] seen.push(sample).contains(m),
        forall|k: int| 0 <= k < seen.len() ==> #[trigger] seen.push(sample)[k] == seen[k],
        !is_finite(sample) && !has_finite(seen) ==> !has_finite(seen.push(sample)),
{
    assert forall|m: u64| seen.contains(m) implies #[trigger] seen.push(sample).contains(m) by {
        let k = choose|k: int| 0 <= k < seen.len() && seen[k] == m;
        assert(seen.push(sample)[k] == m);
    }
    if !is_finite(sample) && !has_finite(seen) {
        assert forall|i: int| 0 <= i < seen.push(sample).len() implies !is_finite(
            #[trigger] seen.push(sample)[i],
        ) by {
            if i < seen.len() {
                assert(!is_finite(seen[i]));
            }
        }
    }
}

/// The least and the greatest finite sample of a sequence.
pub fn get_min_max_vec(samples: &Vec<u64>) -> (extremes: (Option<u64>, Option<u64>))
    ensures
        is_least_answer(samples@, extremes.0),
        is_greatest_answer(samples@, extremes.1),
{
    let mut least: Option<u64> = None;
    let mut greatest: Option<u64> = None;
    let mut i: usize = 0;
    while i < samples.len()
        invariant
            i <= samples@.len(),
            is_least_answer(samples@.take(i as int), least),
            is_greatest_answer(samples@.take(i as int), greatest),
        decreases samples@.len() - i,
    {
        let sample = samples[i];
        proof {
            let seen = samples@.take(i as int);
            let next = samples@.take(i + 1);
            assert(next =~= seen.push(sample));
            lemma_push_keeps(seen, sample);
            if is_finite(sample) {
                assert(next[i as int] == sample);
            }
        }
        if finite(sample) {
            least = lesser(least, Some(sample));
            greatest = greater(greatest, Some(sample));
        }
        i += 1;
    }
    assert(samples@.take(i as int) =~= samples@);
    (least, greatest)
}

/// The lesser of two answers of a search for the least sample.
fn lesser(a: Option<u64>, b: Option<u64>) -> (least: Option<u64>)
    ensures
        least == match (a, b) {
            (Some(x), Some(y)) => if rank(y) < rank(x) {
                Some(y)
            } else {
                Some(x)
            },
            (Some(x), None) => Some(x),
            (None, _) => b,
        },
{
    match (a, b) {
        (Some(x), Some(y)) => if ranks_below(y, x) {
            Some(y)
        } else {
            Some(x)
        },
        (Some(x), None) => Some(x),
        (None, _) => b,
    }
}

/// The greater of two answers of a search for the greatest sample.
fn greater(a: Option<u64>, b: Option<u64>) -> (greatest: Option<u64>)
    ensures
        greatest == match (a, b) {
            (Some(x), Some(y)) => if rank(x) < rank(y) {
                Some(y)
            } else {
                Some(x)
            },
            (Some(x), None) => Some(x),
            (None, _) => b,
        },
{
    match (a, b) {
        (Some(x), Some(y)) => if ranks_below(x, y) {
            Some(y)
        } else {
            Some(x)
        },
        (Some(x), None) => Some(x),
        (None, _) => b,
    }
}

/// The least and the greatest finite sample of all the series together.
pub fn get_min_max_vec_vec(series: &Vec<Vec<u64>>) -> (extremes: (Option<u64>, Option<u64>))
    ensures
        is_least_answer_of_all(series@, extremes.0),
        is_greatest_answer_of_all(series@, extremes.1),
{
    let mut least: Option<u64> = None;
    let mut greatest: Option<u64> = None;
    let mut s: usize = 0;
    while s < series.len()
        invariant
            s <= series@.len(),
            is_least_answer_of_all(series@.take(s as int), least),
            is_greatest_answer_of_all(series@.take(s as int), greatest),
        decreases series@.len() - s,
    {
        let (low, high) = get_min_max_vec(&series[s]);
        let ghost seen = series@.take(s as int);
        let ghost next = series@.take(s + 1);
        proof {
            assert(next =~= seen.push(series@[s as int]));
            assert(next[s as int] == series@[s as int]);
            assert forall|k: int| 0 <= k < seen.len() implies #[trigger] next[k] == seen[k] by {}
            if any_finite(seen) {
                let k = choose|k: int| 0 <= k < seen.len() && has_finite(#[trigger] seen[k]@);
                assert(has_finite(next[k]@));
            }
            if least is Some {
                let m = least.unwrap();
                let k = choose|k: int| 0 <= k < seen.len() && (#[trigger] seen[k]@).contains(m);
                assert(next[k]@.contains(m));
                assert(occurs(next, m));
            }
            if greatest is Some {
                let m = greatest.unwrap();
                let k = choose|k: int| 0 <= k < seen.len() && (#[trigger] seen[k]@).contains(m);
                assert(next[k]@.contains(m));
                assert(occurs(next, m));
            }
            if low is Some {
                assert(next[s as int]@.contains(low.unwrap()));
                assert(occurs(next, low.unwrap()));
                let i = choose|i: int|
                    0 <= i < next[s as int]@.len() && next[s as int]@[i] == low.unwrap();
                assert(is_finite(next[s as int]@[i]));
                assert(has_finite(next[s as int]@));
                assert(any_finite(next));
            } else {
                assert(!has_finite(next[s as int]@));
                if any_finite(next) {
                    let k = choose|k: int| 0 <= k < next.len() && has_finite(#[trigger] next[k]@);
                    assert(k < s);
                    assert(has_finite(seen[k]@));
                }
            }
            if high is Some {
                assert(next[s as int]@.contains(high.unwrap()));
                assert(occurs(next, high.unwrap()));
            }
        }
        least = lesser(least, low);
        greatest = greater(greatest, high);
        proof {
            if least is Some {
                let m = least.unwrap();
                assert forall|t: int, i: int|
                    0 <= t < next.len() && 0 <= i < next[t]@.len() && is_finite(
                        #[trigger] next[t]@[i],
                    ) implies rank(m) <= rank(next[t]@[i]) by {
                    if t < s {
                        assert(is_finite(seen[t]@[i]));
                        assert(has_finite(seen[t]@));
                        assert(any_finite(seen));
                    } else {
                        assert(is_finite(series@[s as int]@[i]));
                    }
                }
            }
            if greatest is Some {
                let m = greatest.unwrap();
                assert forall|t: int, i: int|
                    0 <= t < next.len() && 0 <= i < next[t]@.len() && is_finite(
                        #[trigger] next[t]@[i],
                    ) implies rank(next[t]@[i]) <= rank(m) by {
                    if t < s {
                        assert(is_finite(seen[t]@[i]));
                        assert(has_finite(seen[t]@));
                        assert(any_finite(seen));
                    } else {
                        assert(is_finite(series@[s as int]@[i]));
                    }
                }
            }
        }
        s += 1;
    }
    assert(series@.take(s as int) =~= series@);
    (least, greatest)
}

/// The extreme samples pin the answer: a sequence has one least finite sample at most.
pub proof fn lemma_least_finite_unique(samples: Seq<u64>, a: u64, b: u64)
    requires
        is_least_finite(samples, a),
        is_least_finite(samples, b),
    ensures
        a == b,
{
    let i = choose|i: int| 0 <= i < samples.len() && samples[i] == a;
    let j = choose|j: int| 0 <= j < samples.len() && samples[j] == b;
    assert(is_finite(samples[i]) && is_finite(samples[j]));
    crate::bits::lemma_rank_injective(a, b);
}

/// A sequence has one greatest finite sample at most.
pub proof fn lemma_greatest_finite_unique(samples: Seq<u64>, a: u64, b: u64)
    requires
        is_greatest_finite(samples, a),
        is_greatest_finite(samples, b),
    ensures
        a == b,
{
    let i = choose|i: int| 0 <= i < samples.len() && samples[i] == a;
    let j = choose|j: int| 0 <= j < samples.len() && samples[j] == b;
    assert(is_finite(samples[i]) && is_finite(samples[j]));
    crate::bits::lemma_rank_injective(a, b);
}

/// The least finite sample is not greater than the greatest: the extent of
/// the data never runs backwards.
pub proof fn lemma_extremes_ordered(samples: Seq<u64>, least: u64, greatest: u64)
    requires
        is_least_finite(samples, least),
        is_greatest_finite(samples, greatest),
    ensures
        rank(least) <= rank(greatest),
        !crate::bits::is_less(greatest, least),
        crate::bits::is_same(least, greatest) || crate::bits::is_less(least, greatest),
{
    let i = choose|i: int| 0 <= i < samples.len() && samples[i] == least;
    assert(is_finite(samples[i]));
}

/// All the series together have one least finite sample at most.
pub proof fn lemma_least_of_all_unique(series: Seq<Vec<u64>>, a: u64, b: u64)
    requires
        is_least_of_all(series, a),
        is_least_of_all(series, b),
    ensures
        a == b,
{
    let s = choose|s: int| 0 <= s < series.len() && (#[trigger] series[s]@).contains(a);
    let i = choose|i: int| 0 <= i < series[s]@.len() && series[s]@[i] == a;
    let t = choose|t: int| 0 <= t < series.len() && (#[trigger] series[t]@).contains(b);
    let j = choose|j: int| 0 <= j < series[t]@.len() && series[t]@[j] == b;
    assert(is_finite(series[s]@[i]) && is_finite(series[t]@[j]));
    crate::bits::lemma_rank_injective(a, b);
}

/// All the series together have one greatest finite sample at most.
pub proof fn lemma_greatest_of_all_unique(series: Seq<Vec<u64>>, a: u64, b: u64)
    requires
        is_greatest_of_all(series, a),
        is_greatest_of_all(series, b),
    ensures
        a == b,
{
    let s = choose|s: int| 0 <= s < series.len() && (#[trigger] series[s]@).contains(a);
    let i = choose|i: int| 0 <= i < series[s]@.len() && series[s]@[i] == a;
    let t = choose|t: int| 0 <= t < series.len() && (#[trigger] series[t]@).contains(b);
    let j = choose|j: int| 0 <= j < series[t]@.len() && series[t]@[j] == b;
    assert(is_finite(series[s]@[i]) && is_finite(series[t]@[j]));
    crate::bits::lemma_rank_injective(a, b);
}

impl Data {
    /// Every series is as long as the X values, and there is a mark for each.
    pub open spec fn wf(&self) -> bool {
        &&& self.ys@.len() <= MAX_SERIES
        &&& forall|s: int| 0 <= s < self.ys@.len() ==> (#[trigger] self.ys@[s])@.len() == self.xs@.len()
    }

    /// Whether the data are well formed; see [`Data::wf`].
    pub fn is_wf(&self) -> (yes: bool)
        ensures
            yes == self.wf(),
    {
        if self.ys.len() > MAX_SERIES {
            return false;
        }
        let rows = self.xs.len();
        let mut s: usize = 0;
        while s < self.ys.len()
            invariant
                s <= self.ys@.len(),
                rows == self.xs@.len(),
                self.ys@.len() <= MAX_SERIES,
                forall|k: int| 0 <= k < s ==> (#[trigger] self.ys@[k])@.len() == rows,
            decreases self.ys@.len() - s,
        {
            if self.ys[s].len() != rows {
                return false;
            }
            s += 1;
        }
        true
    }

    /// Data without rows and without series.
    pub fn new() -> (data: Data)
        ensures
            data.wf(),
            !data.flipped,
            data.xs@.len() == 0,
            data.ys@.len() == 0,
    {
        Data { flipped: false, xs: Vec::new(), ys: Vec::new() }
    }

    /// Turns the plot on its side, or back.
    pub fn flip(&mut self)
        ensures
            final(self).flipped == !old(self).flipped,
            final(self).xs == old(self).xs,
            final(self).ys == old(self).ys,
    {
        self.flipped = !self.flipped;
    }

    /// The least and greatest finite value along the horizontal axis, then
    /// along the vertical axis: those of the X values and of the series, or the
    /// other way round where the plot is flipped.
    pub fn get_min_max_vals(&self) -> (extremes: (Option<u64>, Option<u64>, Option<u64>, Option<u64>))
        ensures
            !self.flipped ==> is_least_answer(self.xs@, extremes.0) && is_greatest_answer(
                self.xs@,
                extremes.1,
            ) && is_least_answer_of_all(self.ys@, extremes.2) && is_greatest_answer_of_all(
                self.ys@,
                extremes.3,
            ),
            self.flipped ==> is_least_answer_of_all(self.ys@, extremes.0)
                && is_greatest_answer_of_all(self.ys@, extremes.1) && is_least_answer(
                self.xs@,
                extremes.2,
            ) && is_greatest_answer(self.xs@, extremes.3),
    {
        if self.flipped {
            let (min_x, max_x) = get_min_max_vec_vec(&self.ys);
            let (min_y, max_y) = get_min_max_vec(&self.xs);
            (min_x, max_x, min_y, max_y)
        } else {
            let (min_x, max_x) = get_min_max_vec(&self.xs);
            let (min_y, max_y) = get_min_max_vec_vec(&self.ys);
            (min_x, max_x, min_y, max_y)
        }
    }

    /// The extent of the data: the least and greatest finite X value, then the
    /// least and greatest finite sample of all the series. Data without a
    /// finite value in either dimension have no extent.
    pub fn extent(&self) -> (extent: Result<(u64, u64, u64, u64), FrameError>)
        ensures
            extent is Ok <==> has_finite(self.xs@) && any_finite(self.ys@),
            match extent {
                Ok((min_x, max_x, min_y, max_y)) => {
                    &&& is_least_finite(self.xs@, min_x)
                    &&& is_greatest_finite(self.xs@, max_x)
                    &&& is_least_of_all(self.ys@, min_y)
                    &&& is_greatest_of_all(self.ys@, max_y)
                },
                Err(e) => if !has_finite(self.xs@) {
                    e == FrameError::NoFiniteSample(Dimension::X)
                } else {
                    e == FrameError::NoFiniteSample(Dimension::Y) && !any_finite(self.ys@)
                },
            },
    {
        let (min_x, max_x) = get_min_max_vec(&self.xs);
        let (min_y, max_y) = get_min_max_vec_vec(&self.ys);
        match (min_x, max_x) {
            (Some(min_x), Some(max_x)) => match (min_y, max_y) {
                (Some(min_y), Some(max_y)) => Ok((min_x, max_x, min_y, max_y)),
                _ => Err(FrameError::NoFiniteSample(Dimension::Y)),
            },
            _ => Err(FrameError::NoFiniteSample(Dimension::X)),
        }
    }
}

/// A drawing in progress: the grid so far, and the sample that stopped it, if one did.
pub type Drawing = (Seq<Seq<u8>>, Option<DrawError>);

/// The cell, as row and column, of a sample whose X value lies `x` steps and
/// whose Y value lies `y` steps along its axis.
///
/// Upright, X steps count columns and Y steps count rows from the bottom;
/// flipped, X steps count rows from the bottom and Y steps count columns.
pub open spec fn cell_of(flipped: bool, frame: Frame, x: Option<usize>, y: Option<usize>) -> Result<
    (usize, usize),
    Fault,
> {
    match (x, y) {
        (Some(x), Some(y)) => {
            let (up, along) = if flipped {
                (x, y)
            } else {
                (y, x)
            };
            match frame.row_at(up as int) {
                Some(row) => Ok((row, along)),
                None => Err(Fault::OffGrid),
            }
        },
        _ => Err(Fault::OutsideFrame),
    }
}

/// The grid with one more sample of the series with mark `mark` in the cell at
/// `row`, `column`.
pub open spec fn stamp_cell(grid: Seq<Seq<u8>>, mode: Mode, row: int, column: int, mark: u8) -> Result<
    Seq<Seq<u8>>,
    Fault,
> {
    if 0 <= row < grid.len() && 0 <= column < grid[row].len() {
        match stamped(mode, grid[row][column], mark) {
            Some(byte) => Ok(grid.update(row, grid[row].update(column, byte))),
            None => Err(Fault::UnexpectedByte(grid[row][column])),
        }
    } else {
        Err(Fault::OffGrid)
    }
}

impl Steps {
    /// There is a placement for every X value and every sample of the data.
    pub open spec fn fits(&self, data: &Data) -> bool {
        &&& self.xs@.len() == data.xs@.len()
        &&& self.ys@.len() == data.ys@.len()
        &&& forall|s: int|
            0 <= s < self.ys@.len() ==> (#[trigger] self.ys@[s])@.len() == data.ys@[s]@.len()
    }

    /// Whether there is a placement for every X value and every sample of the data.
    pub fn is_fit(&self, data: &Data) -> (yes: bool)
        ensures
            yes == self.fits(data),
    {
        if self.xs.len() != data.xs.len() || self.ys.len() != data.ys.len() {
            return false;
        }
        let mut s: usize = 0;
        while s < self.ys.len()
            invariant
                s <= self.ys@.len(),
                self.xs@.len() == data.xs@.len(),
                self.ys@.len() == data.ys@.len(),
                forall|k: int|
                    0 <= k < s ==> (#[trigger] self.ys@[k])@.len() == data.ys@[k]@.len(),
            decreases self.ys@.len() - s,
        {
            if self.ys[s].len() != data.ys[s].len() {
                return false;
            }
            s += 1;
        }
        true
    }
}

/// The grid with one more sample of series `series`, whose X value lies `x`
/// steps and whose Y value lies `y` steps along its axis; or why the sample
/// cannot be drawn.
pub open spec fn placed(
    grid: Seq<Seq<u8>>,
    mode: Mode,
    flipped: bool,
    frame: Frame,
    x: Option<usize>,
    y: Option<usize>,
    series: int,
) -> Result<Seq<Seq<u8>>, Fault> {
    match cell_of(flipped, frame, x, y) {
        Ok((row, column)) => stamp_cell(grid, mode, row as int, column as int, mark_of(series)),
        Err(fault) => Err(fault),
    }
}

/// The drawing after the sample of series `s` in row `r`: unchanged where the
/// drawing has stopped or the sample is missing, else with the sample in its
/// cell, or stopped by it.
pub open spec fn draw_sample(
    drawing: Drawing,
    data: Data,
    steps: Steps,
    frame: Frame,
    mode: Mode,
    r: int,
    s: int,
) -> Drawing {
    if drawing.1 is Some || !is_finite(data.ys@[s]@[r]) {
        drawing
    } else {
        match placed(drawing.0, mode, data.flipped, frame, steps.xs@[r], steps.ys@[s]@[r], s) {
            Ok(grid) => (grid, None),
            Err(fault) => (
                drawing.0,
                Some(DrawError { series: s as usize, row: r as usize, fault }),
            ),
        }
    }
}

/// The drawing after all rows before row `r` and the first `s` series of row
/// `r`: the samples are drawn row by row, within a row series by series.
pub open spec fn draw_upto(
    start: Drawing,
    data: Data,
    steps: Steps,
    frame: Frame,
    mode: Mode,
    r: int,
    s: int,
) -> Drawing
    decreases r, s,
{
    if s > 0 {
        draw_sample(draw_upto(start, data, steps, frame, mode, r, s - 1), data, steps, frame, mode, r, s - 1)
    } else if r > 0 {
        draw_upto(start, data, steps, frame, mode, r - 1, data.ys@.len() as int)
    } else {
        start
    }
}

/// The drawing of all the data onto a grid.
pub open spec fn drawn(
    grid: Seq<Seq<u8>>,
    data: Data,
    steps: Steps,
    frame: Frame,
    mode: Mode,
) -> Drawing {
    draw_upto((grid, None), data, steps, frame, mode, data.xs@.len() as int, 0)
}

/// A drawing that has stopped stays as it is.
proof fn lemma_stopped_stays(
    start: Drawing,
    data: Data,
    steps: Steps,
    frame: Frame,
    mode: Mode,
    r0: int,
    s0: int,
    r: int,
    s: int,
)
    requires
        0 <= r0,
        0 <= s0 <= data.ys@.len(),
        0 <= s <= data.ys@.len(),
        r0 < r || (r0 == r && s0 <= s),
        draw_upto(start, data, steps, frame, mode, r0, s0).1 is Some,
    ensures
        draw_upto(start, data, steps, frame, mode, r, s) == draw_upto(
            start,
            data,
            steps,
            frame,
            mode,
            r0,
            s0,
        ),
    decreases r, s,
{
    if r0 == r && s0 == s {
    } else if s > 0 {
        lemma_stopped_stays(start, data, steps, frame, mode, r0, s0, r, s - 1);
    } else {
        lemma_stopped_stays(start, data, steps, frame, mode, r0, s0, r - 1, data.ys@.len() as int);
    }
}

/// What keeps a sample off the grid, if anything does: its X value lies `x`
/// steps and its Y value `y` steps along its axis. It has no steps; or its
/// cell is none of the grid; or, under the counting policy, its cell holds a
/// byte that counts nothing.
pub open spec fn cell_fault(
    grid: Seq<Seq<u8>>,
    mode: Mode,
    flipped: bool,
    frame: Frame,
    x: Option<usize>,
    y: Option<usize>,
) -> Option<Fault> {
    match cell_of(flipped, frame, x, y) {
        Err(fault) => Some(fault),
        Ok((row, column)) => if !(row < grid.len() && column < grid[row as int].len()) {
            Some(Fault::OffGrid)
        } else if mode == Mode::Count && !is_countable(grid[row as int][column as int]) {
            Some(Fault::UnexpectedByte(grid[row as int][column as int]))
        } else {
            None
        },
    }
}

/// What keeps the sample of series `s` in row `r` from being drawn, if
/// anything does. Nothing is wrong with a sample that is missing.
pub open spec fn sample_fault(
    grid: Seq<Seq<u8>>,
    mode: Mode,
    data: Data,
    steps: Steps,
    frame: Frame,
    r: int,
    s: int,
) -> Option<Fault> {
    if !is_finite(data.ys@[s]@[r]) {
        None
    } else {
        cell_fault(grid, mode, data.flipped, frame, steps.xs@[r], steps.ys@[s]@[r])
    }
}

/// Every sample of the data can be drawn onto the grid: each that is not
/// missing has steps along both axes and a cell on the grid, and under the
/// counting policy that cell holds a byte that the policy can count on.
pub open spec fn drawable(
    grid: Seq<Seq<u8>>,
    mode: Mode,
    data: Data,
    steps: Steps,
    frame: Frame,
) -> bool {
    forall|r: int, s: int|
        0 <= r < data.xs@.len() && 0 <= s < data.ys@.len() ==> #[trigger] sample_fault(
            grid,
            mode,
            data,
            steps,
            frame,
            r,
            s,
        ) is None
}

/// The first sample that cannot be drawn, among all rows before row `r` and
/// the first `s` series of row `r`, in the order of drawing.
pub open spec fn fault_upto(
    grid: Seq<Seq<u8>>,
    mode: Mode,
    data: Data,
    steps: Steps,
    frame: Frame,
    r: int,
    s: int,
) -> Option<DrawError>
    decreases r, s,
{
    if s > 0 {
        match fault_upto(grid, mode, data, steps, frame, r, s - 1) {
            Some(e) => Some(e),
            None => match sample_fault(grid, mode, data, steps, frame, r, s - 1) {
                Some(fault) => Some(DrawError { series: (s - 1) as usize, row: r as usize, fault }),
                None => None,
            },
        }
    } else if r > 0 {
        fault_upto(grid, mode, data, steps, frame, r - 1, data.ys@.len() as int)
    } else {
        None
    }
}

/// The first sample of the data that cannot be drawn onto the grid, and why.
pub open spec fn first_fault(
    grid: Seq<Seq<u8>>,
    mode: Mode,
    data: Data,
    steps: Steps,
    frame: Frame,
) -> Option<DrawError> {
    fault_upto(grid, mode, data, steps, frame, data.xs@.len() as int, 0)
}

/// A sample that cannot be drawn is the first for good.
proof fn lemma_fault_stays(
    grid: Seq<Seq<u8>>,
    mode: Mode,
    data: Data,
    steps: Steps,
    frame: Frame,
    r0: int,
    s0: int,
    r: int,
    s: int,
)
    requires
        0 <= r0,
        0 <= s0 <= data.ys@.len(),
        0 <= s <= data.ys@.len(),
        r0 < r || (r0 == r && s0 <= s),
        fault_upto(grid, mode, data, steps, frame, r0, s0) is Some,
    ensures
        fault_upto(grid, mode, data, steps, frame, r, s) == fault_upto(
            grid,
            mode,
            data,
            steps,
            frame,
            r0,
            s0,
        ),
    decreases r, s,
{
    if r0 == r && s0 == s {
    } else if s > 0 {
        lemma_fault_stays(grid, mode, data, steps, frame, r0, s0, r, s - 1);
    } else {
        lemma_fault_stays(grid, mode, data, steps, frame, r0, s0, r - 1, data.ys@.len() as int);
    }
}

/// No sample is found wanting exactly where every sample so far can be drawn.
proof fn lemma_fault_upto(
    grid: Seq<Seq<u8>>,
    mode: Mode,
    data: Data,
    steps: Steps,
    frame: Frame,
    r: int,
    s: int,
)
    requires
        0 <= r,
        0 <= s <= data.ys@.len(),
    ensures
        fault_upto(grid, mode, data, steps, frame, r, s) is None <==> (forall|i: int, k: int|
            0 <= i && 0 <= k < data.ys@.len() && (i < r || (i == r && k < s))
                ==> #[trigger] sample_fault(grid, mode, data, steps, frame, i, k) is None),
    decreases r, s,
{
    if s > 0 {
        lemma_fault_upto(grid, mode, data, steps, frame, r, s - 1);
        if fault_upto(grid, mode, data, steps, frame, r, s) is None {
            assert forall|i: int, k: int|
                0 <= i && 0 <= k < data.ys@.len() && (i < r || (i == r && k < s)) implies #[trigger] sample_fault(
                grid,
                mode,
                data,
                steps,
                frame,
                i,
                k,
            ) is None by {
                if i == r && k == s - 1 {
                } else {
                    assert(i < r || (i == r && k < s - 1));
                }
            }
        } else {
            if fault_upto(grid, mode, data, steps, frame, r, s - 1) is None {
                assert(sample_fault(grid, mode, data, steps, frame, r, s - 1) is Some);
            }
        }
    } else if r > 0 {
        lemma_fault_upto(grid, mode, data, steps, frame, r - 1, data.ys@.len() as int);
    }
}

/// The data can be drawn exactly where no sample is found that cannot.
pub proof fn lemma_first_fault(
    grid: Seq<Seq<u8>>,
    mode: Mode,
    data: Data,
    steps: Steps,
    frame: Frame,
)
    ensures
        first_fault(grid, mode, data, steps, frame) is None <==> drawable(
            grid,
            mode,
            data,
            steps,
            frame,
        ),
{
    lemma_fault_upto(grid, mode, data, steps, frame, data.xs@.len() as int, 0);
}

/// A sample can be drawn exactly where nothing keeps it off the grid; and
/// drawing it keeps every other sample drawable: the grid keeps its shape,
/// and under the counting policy the cell holds a counting byte afterwards.
proof fn lemma_placed(
    grid: Seq<Seq<u8>>,
    mode: Mode,
    flipped: bool,
    frame: Frame,
    x: Option<usize>,
    y: Option<usize>,
    series: int,
)
    requires
        is_mark(mark_of(series)),
    ensures
        cell_fault(grid, mode, flipped, frame, x, y) is None <==> placed(
            grid,
            mode,
            flipped,
            frame,
            x,
            y,
            series,
        ) is Ok,
        placed(grid, mode, flipped, frame, x, y, series) matches Ok(after) ==> {
            &&& after.len() == grid.len()
            &&& forall|i: int| 0 <= i < grid.len() ==> (#[trigger] after[i]).len() == grid[i].len()
            &&& forall|i: int, j: int|
                0 <= i < grid.len() && 0 <= j < grid[i].len() ==> #[trigger] after[i][j] == grid[i][j]
                    || (mode == Mode::Count && is_countable(after[i][j]))
                    || mode == Mode::Dot
        },
{
    match cell_of(flipped, frame, x, y) {
        Ok((row, column)) => {
            if row < grid.len() && column < grid[row as int].len() {
                let byte = grid[row as int][column as int];
                lemma_counted_defined(byte, mark_of(series));
                if mode == Mode::Count && is_countable(byte) {
                    lemma_counted_tally(byte, mark_of(series));
                }
            }
        },
        Err(_) => {},
    }
}

/// Drawing one sample keeps all the data drawable.
proof fn lemma_stays_drawable(
    grid: Seq<Seq<u8>>,
    after: Seq<Seq<u8>>,
    mode: Mode,
    data: Data,
    steps: Steps,
    frame: Frame,
)
    requires
        drawable(grid, mode, data, steps, frame),
        after.len() == grid.len(),
        forall|i: int| 0 <= i < grid.len() ==> (#[trigger] after[i]).len() == grid[i].len(),
        forall|i: int, j: int|
            0 <= i < grid.len() && 0 <= j < grid[i].len() ==> #[trigger] after[i][j] == grid[i][j]
                || (mode == Mode::Count && is_countable(after[i][j])) || mode == Mode::Dot,
    ensures
        drawable(after, mode, data, steps, frame),
{
    assert forall|r: int, s: int|
        0 <= r < data.xs@.len() && 0 <= s < data.ys@.len() implies #[trigger] sample_fault(
        after,
        mode,
        data,
        steps,
        frame,
        r,
        s,
    ) is None by {
        assert(sample_fault(grid, mode, data, steps, frame, r, s) is None);
    }
}

/// Data that can be drawn are drawn to the end: no sample stops the drawing,
/// and what is yet to come can still be drawn.
pub proof fn lemma_drawable_is_drawn(
    grid: Seq<Seq<u8>>,
    mode: Mode,
    data: Data,
    steps: Steps,
    frame: Frame,
    r: int,
    s: int,
)
    requires
        data.ys@.len() <= MAX_SERIES,
        drawable(grid, mode, data, steps, frame),
        0 <= r <= data.xs@.len(),
        0 <= s <= data.ys@.len(),
        r < data.xs@.len() || s == 0,
    ensures
        draw_upto((grid, None), data, steps, frame, mode, r, s).1 is None,
        drawable(draw_upto((grid, None), data, steps, frame, mode, r, s).0, mode, data, steps, frame),
    decreases r, s,
{
    if s > 0 {
        lemma_drawable_is_drawn(grid, mode, data, steps, frame, r, s - 1);
        let before = draw_upto((grid, None), data, steps, frame, mode, r, s - 1);
        assert(sample_fault(before.0, mode, data, steps, frame, r, s - 1) is None);
        if is_finite(data.ys@[s - 1]@[r]) {
            assert(is_mark(mark_of(s - 1))) by {
                assert(mark_of(s - 1) == mark_of(s - 1));
            }
            lemma_placed(
                before.0,
                mode,
                data.flipped,
                frame,
                steps.xs@[r],
                steps.ys@[s - 1]@[r],
                s - 1,
            );
            let after = draw_upto((grid, None), data, steps, frame, mode, r, s);
            lemma_stays_drawable(before.0, after.0, mode, data, steps, frame);
        }
    } else if r > 0 {
        lemma_drawable_is_drawn(grid, mode, data, steps, frame, r - 1, data.ys@.len() as int);
    }
}

/// Finds what keeps one sample off the canvas, if anything does.
fn probe(canvas: &Canvas, using: &Frame, flipped: bool, x: Option<usize>, y: Option<usize>) -> (fault:
    Option<Fault>)
    ensures
        canvas.wf(),
        fault == cell_fault(canvas@, canvas.policy(), flipped, *using, x, y),
{
    let mode = canvas.mode();
    let (x, y) = match (x, y) {
        (Some(x), Some(y)) => (x, y),
        _ => {
            return Some(Fault::OutsideFrame);
        },
    };
    let (up, along) = if flipped {
        (x, y)
    } else {
        (y, x)
    };
    let row = match using.y_to_row(up) {
        Some(row) => row,
        None => {
            return Some(Fault::OffGrid);
        },
    };
    match canvas.get(row, along) {
        None => Some(Fault::OffGrid),
        Some(byte) => match mode {
            Mode::Dot => None,
            Mode::Count => if holds_countable(byte) {
                None
            } else {
                Some(Fault::UnexpectedByte(byte))
            },
        },
    }
}

/// Draws one sample of series `series` into its cell, or says why it cannot
/// be drawn and leaves the canvas as it is.
fn place(
    canvas: &mut Canvas,
    using: &Frame,
    flipped: bool,
    x: Option<usize>,
    y: Option<usize>,
    series: usize,
) -> (fault: Option<Fault>)
    requires
        series < MAX_SERIES,
    ensures
        final(canvas).wf(),
        final(canvas).nrows() == old(canvas).nrows(),
        final(canvas).ncols() == old(canvas).ncols(),
        final(canvas).policy() == old(canvas).policy(),
        match placed(old(canvas)@, old(canvas).policy(), flipped, *using, x, y, series as int) {
            Ok(grid) => fault is None && final(canvas)@ == grid,
            Err(f) => fault == Some(f) && final(canvas)@ == old(canvas)@,
        },
{
    let mode = canvas.mode();
    let (x, y) = match (x, y) {
        (Some(x), Some(y)) => (x, y),
        _ => {
            return Some(Fault::OutsideFrame);
        },
    };
    let (up, along) = if flipped {
        (x, y)
    } else {
        (y, x)
    };
    let row = match using.y_to_row(up) {
        Some(row) => row,
        None => {
            return Some(Fault::OffGrid);
        },
    };
    let glyph = mark(series);
    let ghost before = canvas@;
    let fault = match canvas.cell(row, along) {
        Some(cell) => match stamp(mode, *cell, glyph) {
            Some(byte) => {
                *cell = byte;
                None
            },
            None => Some(Fault::UnexpectedByte(*cell)),
        },
        None => Some(Fault::OffGrid),
    };
    assert(fault is Some ==> canvas@ =~~= before);
    fault
}

impl Data {
    /// Finds the first sample, in the order of drawing, that cannot be drawn
    /// onto the canvas, and says what keeps it off: see [`cell_fault`]. The
    /// data can be drawn exactly where none is found.
    pub fn find_fault(&self, canvas: &Canvas, using: &Frame, steps: &Steps) -> (fault: Option<
        DrawError,
    >)
        requires
            self.wf(),
            steps.fits(self),
        ensures
            fault == first_fault(canvas@, canvas.policy(), *self, *steps, *using),
            fault is None <==> drawable(canvas@, canvas.policy(), *self, *steps, *using),
    {
        let ghost mode = canvas.policy();
        let rows = self.xs.len();
        let series = self.ys.len();
        proof {
            lemma_first_fault(canvas@, mode, *self, *steps, *using);
        }
        let mut r: usize = 0;
        while r < rows
            invariant
                self.wf(),
                steps.fits(self),
                mode == canvas.policy(),
                rows == self.xs@.len(),
                series == self.ys@.len(),
                r <= rows,
                fault_upto(canvas@, mode, *self, *steps, *using, r as int, 0) is None,
            decreases rows - r,
        {
            let x = steps.xs[r];
            let mut s: usize = 0;
            while s < series
                invariant
                    self.wf(),
                    steps.fits(self),
                    mode == canvas.policy(),
                    rows == self.xs@.len(),
                    series == self.ys@.len(),
                    r < rows,
                    s <= series,
                    x == steps.xs@[r as int],
                    fault_upto(canvas@, mode, *self, *steps, *using, r as int, s as int) is None,
                decreases series - s,
            {
                if finite(self.ys[s][r]) {
                    match probe(canvas, using, self.flipped, x, steps.ys[s][r]) {
                        Some(fault) => {
                            let error = DrawError { series: s, row: r, fault };
                            proof {
                                assert(fault_upto(canvas@, mode, *self, *steps, *using, r as int, s + 1)
                                    == Some(error));
                                lemma_fault_stays(
                                    canvas@,
                                    mode,
                                    *self,
                                    *steps,
                                    *using,
                                    r as int,
                                    s + 1,
                                    rows as int,
                                    0,
                                );
                            }
                            return Some(error);
                        },
                        None => {},
                    }
                }
                s += 1;
            }
            r += 1;
        }
        None
    }

    /// Draws every sample that is not missing onto the canvas, in the canvas's
    /// mode: as the mark of its series, or as one more in the count of its cell.
    ///
    /// The samples are drawn row by row and within a row series by series.
    /// Every sample must have a place on the canvas: see [`drawable`], and
    /// [`Data::find_fault`] for the sample that has none.
    pub fn draw_into(&self, canvas: &mut Canvas, using: &Frame, steps: &Steps)
        requires
            self.wf(),
            steps.fits(self),
            drawable(old(canvas)@, old(canvas).policy(), *self, *steps, *using),
        ensures
            final(canvas).wf(),
            final(canvas).nrows() == old(canvas).nrows(),
            final(canvas).ncols() == old(canvas).ncols(),
            final(canvas).policy() == old(canvas).policy(),
            (final(canvas)@, None::<DrawError>) == drawn(
                old(canvas)@,
                *self,
                *steps,
                *using,
                old(canvas).policy(),
            ),
    {
        let mode = canvas.mode();
        let ghost start: Drawing = (canvas@, None);
        let rows = self.xs.len();
        let series = self.ys.len();
        let mut r: usize = 0;
        while r < rows
            invariant
                self.wf(),
                steps.fits(self),
                canvas.wf(),
                canvas.nrows() == old(canvas).nrows(),
                canvas.ncols() == old(canvas).ncols(),
                canvas.policy() == mode,
                mode == old(canvas).policy(),
                rows == self.xs@.len(),
                series == self.ys@.len(),
                r <= rows,
                start == (old(canvas)@, None::<DrawError>),
                drawable(canvas@, mode, *self, *steps, *using),
                (canvas@, None::<DrawError>) == draw_upto(
                    start,
                    *self,
                    *steps,
                    *using,
                    mode,
                    r as int,
                    0,
                ),
            decreases rows - r,
        {
            let x = steps.xs[r];
            let mut s: usize = 0;
            while s < series
                invariant
                    self.wf(),
                    steps.fits(self),
                    canvas.wf(),
                    canvas.nrows() == old(canvas).nrows(),
                    canvas.ncols() == old(canvas).ncols(),
                    canvas.policy() == mode,
                    mode == old(canvas).policy(),
                    rows == self.xs@.len(),
                    series == self.ys@.len(),
                    r < rows,
                    s <= series,
                    x == steps.xs@[r as int],
                    start == (old(canvas)@, None::<DrawError>),
                    drawable(canvas@, mode, *self, *steps, *using),
                    (canvas@, None::<DrawError>) == draw_upto(
                        start,
                        *self,
                        *steps,
                        *using,
                        mode,
                        r as int,
                        s as int,
                    ),
                decreases series - s,
            {
                if finite(self.ys[s][r]) {
                    let ghost before = canvas@;
                    proof {
                        assert(sample_fault(before, mode, *self, *steps, *using, r as int, s as int)
                            is None);
                        assert(is_mark(mark_of(s as int))) by {
                            assert(mark_of(s as int) == mark_of(s as int));
                        }
                        lemma_placed(
                            before,
                            mode,
                            self.flipped,
                            *using,
                            x,
                            steps.ys@[s as int]@[r as int],
                            s as int,
                        );
                    }
                    let _ = place(canvas, using, self.flipped, x, steps.ys[s][r], s);
                    proof {
                        lemma_stays_drawable(before, canvas@, mode, *self, *steps, *using);
                    }
                }
                s += 1;
            }
            r += 1;
        }
    }
}

/// Under the dot policy two samples in different cells do not touch each
/// other: each cell shows its own sample's mark, in whichever order they are drawn.
pub proof fn lemma_dot_cells_independent(
    grid: Seq<Seq<u8>>,
    row_a: int,
    column_a: int,
    mark_a: u8,
    row_b: int,
    column_b: int,
    mark_b: u8,
)
    requires
        0 <= row_a < grid.len() && 0 <= column_a < grid[row_a].len(),
        0 <= row_b < grid.len() && 0 <= column_b < grid[row_b].len(),
        row_a != row_b || column_a != column_b,
    ensures
        ({
            let first = stamp_cell(grid, Mode::Dot, row_a, column_a, mark_a);
            let both = stamp_cell(first->Ok_0, Mode::Dot, row_b, column_b, mark_b);
            let other = stamp_cell(grid, Mode::Dot, row_b, column_b, mark_b);
            let both_ways = stamp_cell(other->Ok_0, Mode::Dot, row_a, column_a, mark_a);
            &&& first is Ok
            &&& both is Ok
            &&& both->Ok_0[row_a][column_a] == mark_a
            &&& both->Ok_0[row_b][column_b] == mark_b
            &&& both_ways == both
        }),
{
    let first = stamp_cell(grid, Mode::Dot, row_a, column_a, mark_a);
    let both = stamp_cell(first->Ok_0, Mode::Dot, row_b, column_b, mark_b);
    let other = stamp_cell(grid, Mode::Dot, row_b, column_b, mark_b);
    let both_ways = stamp_cell(other->Ok_0, Mode::Dot, row_a, column_a, mark_a);
    assert(both->Ok_0 =~~= both_ways->Ok_0);
}

/// Under the dot policy a cell shows the mark of the sample that was drawn
/// into it last, and no other cell changes.
pub proof fn lemma_dot_last_wins(
    grid: Seq<Seq<u8>>,
    row: int,
    column: int,
    mark_a: u8,
    mark_b: u8,
)
    requires
        0 <= row < grid.len() && 0 <= column < grid[row].len(),
    ensures
        ({
            let first = stamp_cell(grid, Mode::Dot, row, column, mark_a);
            let second = stamp_cell(first->Ok_0, Mode::Dot, row, column, mark_b);
            &&& first is Ok
            &&& second is Ok
            &&& second->Ok_0[row][column] == mark_b
            &&& second == stamp_cell(grid, Mode::Dot, row, column, mark_b)
        }),
{
    let first = stamp_cell(grid, Mode::Dot, row, column, mark_a);
    let second = stamp_cell(first->Ok_0, Mode::Dot, row, column, mark_b);
    let direct = stamp_cell(grid, Mode::Dot, row, column, mark_b);
    assert(second->Ok_0 =~~= direct->Ok_0);
}

/// Under the counting policy a sample changes its own cell alone, and makes of
/// it what the count of one more sample is.
pub proof fn lemma_count_touches_one_cell(
    grid: Seq<Seq<u8>>,
    row: int,
    column: int,
    mark: u8,
    r: int,
    c: int,
)
    requires
        0 <= row < grid.len() && 0 <= column < grid[row].len(),
        0 <= r < grid.len() && 0 <= c < grid[r].len(),
        crate::glyph::is_countable(grid[row][column]),
    ensures
        stamp_cell(grid, Mode::Count, row, column, mark) matches Ok(next) && next[r][c] == if r
            == row && c == column {
            crate::glyph::counted(grid[row][column], mark).unwrap()
        } else {
            grid[r][c]
        },
{
    crate::glyph::lemma_counted_defined(grid[row][column], mark);
}

} // verus!
