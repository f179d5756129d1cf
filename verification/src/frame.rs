//! The bounds of a plot and the axis lines.
//!
//! A [`Frame`] holds, for each axis, the least and the greatest value shown and
//! the distance between them, as bit patterns (see [`crate::bits`]). Sums and
//! differences of samples are the caller's to compute; which of them become
//! the bounds is decided here, from signs and comparisons alone.
//!
//! A value is placed by its *steps*: the whole number of cells that lie between
//! it and the axis minimum, which the caller gets by scaling the value's share
//! of the range to the plot's extent and rounding. Columns count steps from the
//! left edge; rows count them upwards from the row of the axis minimum, which
//! lies `PAD` rows above the bottom edge (see [`Frame::row_at`]).

use crate::bits::{
    is_finite, is_nan, is_negative, is_positive, is_same, nan, negate, negated, negative,
    positive, same, ZERO,
};
use crate::canvas::{Canvas, BLANK};
use crate::glyph::{BAR, DOT, MINUS, PLUS};
use vstd::prelude::*;

verus! {

/// Columns and rows at the far edge of the canvas that the plot's extent leaves out.
pub const PAD: usize = 2;

/// Every how many cells an axis line carries a tick.
pub const TICK: usize = 5;

/// The bits of 1: how far an axis goes on beyond data that are a single value.
pub const WIDENING: u64 = 0x3ff0_0000_0000_0000;

/// The bits of 2: data that lie within so many of their ranges of zero get an
/// axis that reaches to zero.
pub const CROSS_PAD: u64 = 0x4000_0000_0000_0000;

/// The bits of 0.001: how far beyond the bounds of the X axis a value may lie
/// and yet be drawn. The caller moves the bounds by so much;
/// [`crate::bits::within_bounds`] then says whether a value lies within them.
pub const CMP_PAD: u64 = 0x3f50_624d_d2f1_a9fc;

/// One of the two dimensions of the plot.
#[derive(Debug, Clone, Copy, PartialEq, Eq, Structural)]
pub enum Dimension {
    X,
    Y,
}

/// The bounds of one axis.
#[derive(Debug, Clone, Copy, PartialEq, Eq, Structural)]
pub struct Axis {
    /// The value at the low end of the axis.
    pub min: u64,
    /// The value at the high end of the axis.
    pub max: u64,
    /// The distance from `min` to `max`.
    pub range: u64,
}

/// Why no frame can be made.
#[derive(Debug, Clone, Copy, PartialEq, Eq, Structural)]
pub enum FrameError {
    /// The data holds no finite value in this dimension.
    NoFiniteSample(Dimension),
    /// The range of this axis is not greater than zero.
    EmptyRange(Dimension),
    /// The canvas is narrower or lower than the margin that the plot leaves free.
    TooSmall,
}

/// Why the axis lines cannot be drawn.
#[derive(Debug, Clone, Copy, PartialEq, Eq, Structural)]
pub enum AxisError {
    /// The horizontal line lies this many steps above the axis minimum, beyond the maximum.
    AboveTop { steps: usize },
    /// A line passes through this cell, which the canvas does not have.
    OffGrid { row: usize, column: usize },
}

/// How the values of one kind, the X values or the samples, are placed.
#[derive(Debug, Clone, Copy, PartialEq, Eq, Structural)]
pub struct Placement {
    /// The axis that the values lie along.
    pub axis: Axis,
    /// The cells that the axis extends over: a value at `axis.max` lies this many steps along.
    pub extent: usize,
    /// Whether a value must lie within the bounds of the X axis, give or take
    /// [`CMP_PAD`], to be drawn.
    pub bounded: bool,
}

/// The bounds of a plot.
#[derive(Debug, Clone, Copy, PartialEq, Eq, Structural)]
pub struct Frame {
    pub width: usize,
    pub height: usize,
    pub x: Axis,
    pub y: Axis,
}

/// `bits <= 0` as numbers.
pub open spec fn at_most_zero(bits: u64) -> bool {
    !is_nan(bits) && !is_positive(bits)
}

/// `bits >= 0` as numbers.
pub open spec fn at_least_zero(bits: u64) -> bool {
    !is_nan(bits) && !is_negative(bits)
}

/// Whether zero lies within the bounds, so that the axis line stands at zero.
pub open spec fn crosses_zero(min: u64, max: u64) -> bool {
    at_most_zero(min) && at_least_zero(max)
}

/// The greatest value of an axis whose data reach from `min` to `max`: where
/// they are one value, the axis goes on to `successor`, the caller's sum of
/// `min` and [`WIDENING`].
pub open spec fn widened(min: u64, max: u64, successor: u64) -> u64 {
    if is_same(min, max) {
        successor
    } else {
        max
    }
}

/// The bounds of an axis whose data reach from `min` to `max` over `range`.
///
/// Data that do not reach zero, but lie within twice their range of it, get
/// an axis that starts or ends at zero; `below` is what the caller finds
/// [`CROSS_PAD`] ranges below `min`, and `above` what it finds as many ranges
/// above `max`.
pub open spec fn settled(min: u64, max: u64, range: u64, below: u64, above: u64) -> Axis {
    if crosses_zero(min, max) {
        Axis { min, max, range }
    } else if is_positive(min) && is_negative(below) {
        Axis { min: ZERO, max, range: max }
    } else if is_negative(max) && is_positive(above) {
        Axis { min, max: ZERO, range: negated(min) }
    } else {
        Axis { min, max, range }
    }
}

/// The value at which the line of an axis stands: zero where the bounds hold
/// it, else the bound that is nearer to zero.
pub open spec fn anchor(axis: Axis) -> u64 {
    if crosses_zero(axis.min, axis.max) {
        ZERO
    } else if is_positive(axis.min) {
        axis.min
    } else {
        axis.max
    }
}

/// The byte of the vertical line at `row`.
pub open spec fn vertical_glyph(row: int, at_zero: bool) -> u8 {
    if at_zero {
        if row % (TICK as int) == 0 {
            PLUS
        } else {
            BAR
        }
    } else {
        if row % (TICK as int) == 0 {
            DOT
        } else {
            BLANK
        }
    }
}

/// The byte of the horizontal line at `column`.
pub open spec fn horizontal_glyph(column: int, at_zero: bool) -> u8 {
    if at_zero {
        if column % (TICK as int) == 0 {
            PLUS
        } else {
            MINUS
        }
    } else {
        if column % (TICK as int) == 0 {
            DOT
        } else {
            BLANK
        }
    }
}

/// The grid with the first `rows` cells of the vertical line drawn at `column`.
pub open spec fn with_vertical(
    grid: Seq<Seq<u8>>,
    rows: int,
    column: int,
    at_zero: bool,
) -> Seq<Seq<u8>> {
    Seq::new(
        grid.len(),
        |r: int|
            Seq::new(
                grid[r].len(),
                |c: int|
                    if c == column && r < rows {
                        vertical_glyph(r, at_zero)
                    } else {
                        grid[r][c]
                    },
            ),
    )
}

/// The grid with the first `columns` cells of the horizontal line drawn at `row`.
pub open spec fn with_horizontal(
    grid: Seq<Seq<u8>>,
    row: int,
    columns: int,
    at_zero: bool,
) -> Seq<Seq<u8>> {
    Seq::new(
        grid.len(),
        |r: int|
            Seq::new(
                grid[r].len(),
                |c: int|
                    if r == row && c < columns {
                        horizontal_glyph(c, at_zero)
                    } else {
                        grid[r][c]
                    },
            ),
    )
}

/// The grid with both lines drawn: a vertical line of `height` cells at
/// `column`, over it a horizontal line of `width` cells at `row`, and `+` where
/// the two meet.
pub open spec fn with_axes(
    grid: Seq<Seq<u8>>,
    width: int,
    height: int,
    row: int,
    column: int,
    x_at_zero: bool,
    y_at_zero: bool,
) -> Seq<Seq<u8>> {
    Seq::new(
        grid.len(),
        |r: int|
            Seq::new(
                grid[r].len(),
                |c: int|
                    if r == row && c == column {
                        PLUS
                    } else if r == row && c < width {
                        horizontal_glyph(c, y_at_zero)
                    } else if c == column && r < height {
                        vertical_glyph(r, x_at_zero)
                    } else {
                        grid[r][c]
                    },
            ),
    )
}

/// The first cell in the order of drawing that the canvas does not have, if
/// there is one: down the vertical line, then along the horizontal line.
pub open spec fn first_off_grid(
    width: int,
    height: int,
    row: int,
    column: int,
    rows: int,
    columns: int,
) -> Option<(int, int)> {
    if height > 0 && column >= columns {
        Some((0, column))
    } else if height > rows {
        Some((rows, column))
    } else if width > 0 && row >= rows {
        Some((row, 0))
    } else if width > columns {
        Some((row, columns))
    } else if row >= rows || column >= columns {
        Some((row, column))
    } else {
        None
    }
}

fn at_most_zero_exec(bits: u64) -> (yes: bool)
    ensures
        yes == at_most_zero(bits),
{
    !nan(bits) && !positive(bits)
}

fn at_least_zero_exec(bits: u64) -> (yes: bool)
    ensures
        yes == at_least_zero(bits),
{
    !nan(bits) && !negative(bits)
}

impl Axis {
    /// Whether zero lies within the bounds.
    pub fn holds_zero(&self) -> (yes: bool)
        ensures
            yes == crosses_zero(self.min, self.max),
    {
        at_most_zero_exec(self.min) && at_least_zero_exec(self.max)
    }

    /// The greatest value of the axis: `max`, or `successor` where the data are a
    /// single value, so that the axis has an extent.
    pub fn widen(min: u64, max: u64, successor: u64) -> (top: u64)
        ensures
            top == widened(min, max, successor),
    {
        if same(min, max) {
            successor
        } else {
            max
        }
    }

    /// The bounds of the axis: those of the data, or bounds that reach to zero
    /// where the data lie near it.
    pub fn settle(min: u64, max: u64, range: u64, below: u64, above: u64) -> (axis: Axis)
        ensures
            axis == settled(min, max, range, below, above),
    {
        let crosses = at_most_zero_exec(min) && at_least_zero_exec(max);
        if crosses {
            Axis { min, max, range }
        } else if positive(min) && negative(below) {
            Axis { min: ZERO, max, range: max }
        } else if negative(max) && positive(above) {
            Axis { min, max: ZERO, range: negate(min) }
        } else {
            Axis { min, max, range }
        }
    }

    /// The value at which the line of the axis stands.
    pub fn anchor(&self) -> (value: u64)
        ensures
            value == anchor(*self),
    {
        if self.holds_zero() {
            ZERO
        } else if positive(self.min) {
            self.min
        } else {
            self.max
        }
    }
}

impl Frame {
    /// The frame has room for a plot, and both ranges are greater than zero.
    pub open spec fn wf(&self) -> bool {
        &&& self.width >= PAD
        &&& self.height >= PAD
        &&& is_positive(self.x.range)
        &&& is_positive(self.y.range)
    }

    /// Whether the frame is well formed; see [`Frame::wf`].
    pub fn is_wf(&self) -> (yes: bool)
        ensures
            yes == self.wf(),
    {
        self.width >= PAD && self.height >= PAD && positive(self.x.range) && positive(
            self.y.range,
        )
    }

    /// Columns that the plot extends over.
    pub open spec fn plot_columns(&self) -> int {
        self.width - PAD
    }

    /// Rows that the plot extends over.
    pub open spec fn plot_rows(&self) -> int {
        self.height - PAD
    }

    /// The placement of the X values and that of the samples.
    pub open spec fn placed(&self, flipped: bool) -> (Placement, Placement) {
        let across = Placement {
            axis: self.x,
            extent: self.plot_columns() as usize,
            bounded: true,
        };
        let up = Placement { axis: self.y, extent: self.plot_rows() as usize, bounded: false };
        if flipped {
            (up, across)
        } else {
            (across, up)
        }
    }

    /// The row of a value that lies `steps` above the axis minimum.
    ///
    /// Rows count from the top of the canvas. A value at the axis minimum lies
    /// in row `height - PAD - 1`, and every step more lies one row higher. By
    /// that count a value at the axis maximum, `height - PAD` steps up, would
    /// lie one row above row 0: it is drawn in row 0, the top row, beside the
    /// values one step below it. Beyond the maximum there is no row.
    pub open spec fn row_at(&self, steps: int) -> Option<usize> {
        if 0 <= steps < self.height - PAD {
            Some((self.height - PAD - steps - 1) as usize)
        } else if 0 <= steps == self.height - PAD {
            Some(0)
        } else {
            None
        }
    }

    /// Whether both axis lines lie on a canvas of `rows` by `columns` cells:
    /// the canvas has at least the frame's rows and columns, and the row of the
    /// horizontal line and the column of the vertical line are of the canvas.
    pub open spec fn lines_fit(&self, rows: nat, columns: nat, x_steps: usize, y_steps: usize) -> bool {
        &&& self.height <= rows
        &&& self.width <= columns
        &&& x_steps < columns
        &&& self.row_at(y_steps as int) matches Some(row) && row < rows
    }

    /// What keeps the axis lines off a canvas of `rows` by `columns` cells, if
    /// anything does: the horizontal line lies beyond the top, or a line
    /// passes through a cell that the canvas does not have; the cell named is
    /// the first such in the order of drawing.
    pub open spec fn lines_fault(&self, rows: nat, columns: nat, x_steps: usize, y_steps: usize) -> Option<
        AxisError,
    > {
        match self.row_at(y_steps as int) {
            None => Some(AxisError::AboveTop { steps: y_steps }),
            Some(row) => match first_off_grid(
                self.width as int,
                self.height as int,
                row as int,
                x_steps as int,
                rows as int,
                columns as int,
            ) {
                Some((r, c)) => Some(AxisError::OffGrid { row: r as usize, column: c as usize }),
                None => None,
            },
        }
    }

    /// A frame of `width` by `height` cells over the two axes.
    ///
    /// A frame whose range is zero could place no value; none is made.
    pub fn new_over(width: usize, height: usize, x: Axis, y: Axis) -> (frame: Result<
        Frame,
        FrameError,
    >)
        ensures
            frame == (if width < PAD || height < PAD {
                Err::<Frame, FrameError>(FrameError::TooSmall)
            } else if !is_positive(x.range) {
                Err(FrameError::EmptyRange(Dimension::X))
            } else if !is_positive(y.range) {
                Err(FrameError::EmptyRange(Dimension::Y))
            } else {
                Ok(Frame { width, height, x, y })
            }),
            frame matches Ok(f) ==> f.wf(),
    {
        if width < PAD || height < PAD {
            Err(FrameError::TooSmall)
        } else if !positive(x.range) {
            Err(FrameError::EmptyRange(Dimension::X))
        } else if !positive(y.range) {
            Err(FrameError::EmptyRange(Dimension::Y))
        } else {
            Ok(Frame { width, height, x, y })
        }
    }

    /// The least and the greatest X value shown.
    pub fn x_bounds(&self) -> (bounds: (u64, u64))
        ensures
            bounds == (self.x.min, self.x.max),
    {
        (self.x.min, self.x.max)
    }

    /// The least and the greatest Y value shown.
    pub fn y_bounds(&self) -> (bounds: (u64, u64))
        ensures
            bounds == (self.y.min, self.y.max),
    {
        (self.y.min, self.y.max)
    }

    /// The ranges of the X and of the Y axis.
    pub fn range_xy(&self) -> (ranges: (u64, u64))
        ensures
            ranges == (self.x.range, self.y.range),
    {
        (self.x.range, self.y.range)
    }

    /// Columns that the plot extends over: a value at the axis maximum lies this
    /// many steps from the left edge.
    pub fn plot_width(&self) -> (columns: usize)
        requires
            self.wf(),
        ensures
            columns == self.plot_columns(),
    {
        self.width - PAD
    }

    /// Rows that the plot extends over: a value at the axis maximum lies this
    /// many steps above the axis minimum.
    pub fn plot_height(&self) -> (rows: usize)
        requires
            self.wf(),
        ensures
            rows == self.plot_rows(),
    {
        self.height - PAD
    }

    /// The column of a value that lies `steps` right of the axis minimum:
    /// columns count from the left edge, as steps do.
    pub fn x_to_column(&self, steps: usize) -> (column: usize)
        ensures
            column == steps,
    {
        steps
    }

    /// The row of a value that lies `steps` above the axis minimum. Row 0 is the
    /// top of the canvas, so more steps give a lesser row: the minimum lies in
    /// row `height - PAD - 1`, the maximum in row 0; `None` beyond the maximum.
    pub fn y_to_row(&self, steps: usize) -> (row: Option<usize>)
        ensures
            row == self.row_at(steps as int),
    {
        if self.height < PAD {
            return None;
        }
        let rows = self.height - PAD;
        if steps < rows {
            Some(rows - steps - 1)
        } else if steps == rows {
            Some(0)
        } else {
            None
        }
    }

    /// The cell, as row and column, of a point that lies `x_steps` right of the
    /// X minimum and `y_steps` above the Y minimum.
    pub fn point_to_cell(&self, x_steps: usize, y_steps: usize) -> (cell: Option<(usize, usize)>)
        ensures
            cell == match self.row_at(y_steps as int) {
                Some(row) => Some((row, x_steps)),
                None => None,
            },
    {
        match self.y_to_row(y_steps) {
            Some(row) => Some((row, self.x_to_column(x_steps))),
            None => None,
        }
    }

    /// How the X values and how the samples are placed.
    ///
    /// Upright, the X values lie along the X axis, which extends over the
    /// plot's columns, and must lie within its bounds; the samples lie along
    /// the Y axis, over the plot's rows. Flipped, the X values lie along the Y
    /// axis, over the rows, and the samples along the X axis, over the
    /// columns and within its bounds.
    pub fn placements(&self, flipped: bool) -> (placements: (Placement, Placement))
        requires
            self.wf(),
        ensures
            placements == self.placed(flipped),
    {
        let across = Placement { axis: self.x, extent: self.width - PAD, bounded: true };
        let up = Placement { axis: self.y, extent: self.height - PAD, bounded: false };
        if flipped {
            (up, across)
        } else {
            (across, up)
        }
    }

    /// The X value at which the vertical line stands and the Y value at which
    /// the horizontal line stands.
    pub fn axis_anchors(&self) -> (anchors: (u64, u64))
        ensures
            anchors == (anchor(self.x), anchor(self.y)),
    {
        (self.x.anchor(), self.y.anchor())
    }

    /// Finds what keeps the axis lines off the canvas, if anything does; see
    /// [`Frame::lines_fault`]. The lines can be drawn exactly where nothing is found.
    pub fn axis_fault(&self, canvas: &Canvas, x_steps: usize, y_steps: usize) -> (fault: Option<
        AxisError,
    >)
        ensures
            fault == self.lines_fault(canvas.nrows(), canvas.ncols(), x_steps, y_steps),
            fault is None <==> self.lines_fit(canvas.nrows(), canvas.ncols(), x_steps, y_steps),
    {
        let rows = canvas.height();
        let columns = canvas.width();
        let row = match self.y_to_row(y_steps) {
            Some(row) => row,
            None => {
                return Some(AxisError::AboveTop { steps: y_steps });
            },
        };
        let column = x_steps;
        if self.height > 0 && column >= columns {
            Some(AxisError::OffGrid { row: 0, column })
        } else if self.height > rows {
            Some(AxisError::OffGrid { row: rows, column })
        } else if self.width > 0 && row >= rows {
            Some(AxisError::OffGrid { row, column: 0 })
        } else if self.width > columns {
            Some(AxisError::OffGrid { row, column: columns })
        } else if row >= rows || column >= columns {
            Some(AxisError::OffGrid { row, column })
        } else {
            None
        }
    }

    /// Draws the two axis lines: the vertical one `x_steps` right of the left
    /// edge, the horizontal one in the row of a value `y_steps` above the Y minimum.
    ///
    /// A line that stands at zero is drawn solid, with a `+` at every fifth
    /// cell; one that stands at a bound of the data is dotted. Both lines must
    /// lie on the canvas.
    pub fn draw_into(&self, canvas: &mut Canvas, x_steps: usize, y_steps: usize)
        requires
            self.lines_fit(old(canvas).nrows(), old(canvas).ncols(), x_steps, y_steps),
        ensures
            final(canvas).wf(),
            final(canvas).nrows() == old(canvas).nrows(),
            final(canvas).ncols() == old(canvas).ncols(),
            final(canvas).policy() == old(canvas).policy(),
            final(canvas)@ == with_axes(
                old(canvas)@,
                self.width as int,
                self.height as int,
                self.row_at(y_steps as int).unwrap() as int,
                x_steps as int,
                crosses_zero(self.x.min, self.x.max),
                crosses_zero(self.y.min, self.y.max),
            ),
    {
        let rows = canvas.height();
        let columns = canvas.width();
        let column = x_steps;
        let row = match self.y_to_row(y_steps) {
            Some(row) => row,
            None => 0,
        };
        let x_at_zero = self.x.holds_zero();
        let y_at_zero = self.y.holds_zero();
        let ghost start = canvas@;
        assert(canvas@ =~~= with_vertical(start, 0, column as int, x_at_zero));
        let mut r: usize = 0;
        while r < self.height
            invariant
                canvas.wf(),
                canvas.nrows() == rows,
                canvas.ncols() == columns,
                canvas.policy() == old(canvas).policy(),
                start.len() == rows,
                forall|i: int| 0 <= i < rows ==> (#[trigger] start[i]).len() == columns,
                self.height <= rows,
                column < columns,
                r <= self.height,
                canvas@ == with_vertical(start, r as int, column as int, x_at_zero),
            decreases self.height - r,
        {
            let glyph = if x_at_zero {
                if r % TICK == 0 {
                    PLUS
                } else {
                    BAR
                }
            } else {
                if r % TICK == 0 {
                    DOT
                } else {
                    BLANK
                }
            };
            match canvas.cell(r, column) {
                Some(cell) => {
                    *cell = glyph;
                },
                None => {},
            }
            r += 1;
            assert(canvas@ =~~= with_vertical(start, r as int, column as int, x_at_zero));
        }
        let ghost upright = canvas@;
        assert(canvas@ =~~= with_horizontal(upright, row as int, 0, y_at_zero));
        let mut c: usize = 0;
        while c < self.width
            invariant
                canvas.wf(),
                canvas.nrows() == rows,
                canvas.ncols() == columns,
                canvas.policy() == old(canvas).policy(),
                upright.len() == rows,
                forall|i: int| 0 <= i < rows ==> (#[trigger] upright[i]).len() == columns,
                self.width <= columns,
                row < rows,
                c <= self.width,
                canvas@ == with_horizontal(upright, row as int, c as int, y_at_zero),
            decreases self.width - c,
        {
            let glyph = if y_at_zero {
                if c % TICK == 0 {
                    PLUS
                } else {
                    MINUS
                }
            } else {
                if c % TICK == 0 {
                    DOT
                } else {
                    BLANK
                }
            };
            match canvas.cell(row, c) {
                Some(cell) => {
                    *cell = glyph;
                },
                None => {},
            }
            c += 1;
            assert(canvas@ =~~= with_horizontal(upright, row as int, c as int, y_at_zero));
        }
        match canvas.cell(row, column) {
            Some(cell) => {
                *cell = PLUS;
            },
            None => {},
        }
        assert(canvas@ =~~= with_axes(
            start,
            self.width as int,
            self.height as int,
            row as int,
            column as int,
            x_at_zero,
            y_at_zero,
        ));
    }
}

/// Within the plot's extent every step lies on the canvas: columns run from 0
/// at the axis minimum to `width - PAD` at the maximum, rows from
/// `height - PAD - 1` at the minimum up to row 0 at the maximum.
pub proof fn lemma_extent_on_canvas(frame: Frame, steps: int)
    requires
        frame.wf(),
        0 <= steps,
    ensures
        steps <= frame.plot_columns() ==> steps < frame.width,
        steps <= frame.plot_rows() ==> (frame.row_at(steps) matches Some(row) && row
            < frame.height),
        frame.height > PAD ==> frame.row_at(0) == Some((frame.height - PAD - 1) as usize),
        frame.row_at(frame.plot_rows()) == Some(0usize),
{
}

/// A greater value never lies in a lower row: more steps give a lesser row,
/// one row for each step below the maximum.
pub proof fn lemma_rows_fall(frame: Frame, a: int, b: int)
    requires
        frame.wf(),
        0 <= a <= b <= frame.plot_rows(),
    ensures
        frame.row_at(a).unwrap() >= frame.row_at(b).unwrap(),
        b < frame.plot_rows() ==> frame.row_at(a).unwrap() - frame.row_at(b).unwrap() == b - a,
{
}

/// The range that the bounds are settled with is greater than zero wherever
/// the data's own range is: a frame never divides by zero.
pub proof fn lemma_settled_range_positive(min: u64, max: u64, range: u64, below: u64, above: u64)
    requires
        is_finite(min),
        is_finite(max),
        crate::bits::is_less(min, max),
        is_positive(range),
    ensures
        is_positive(settled(min, max, range, below, above).range),
{
}

/// The settled bounds hold the data's bounds: the axis may reach further, to
/// zero, but never less far.
pub proof fn lemma_settled_holds_data(min: u64, max: u64, range: u64, below: u64, above: u64)
    requires
        is_finite(min),
        is_finite(max),
    ensures
        ({
            let axis = settled(min, max, range, below, above);
            &&& (axis.min == min || (axis.min == ZERO && is_positive(min)))
            &&& (axis.max == max || (axis.max == ZERO && is_negative(max)))
            &&& crosses_zero(min, max) ==> axis == Axis { min, max, range }
            &&& crate::bits::is_less(min, max) ==> crate::bits::is_less(axis.min, axis.max)
            &&& is_finite(axis.min) && is_finite(axis.max)
        }),
{
}

} // verus!
