//! A whole plot: the axis lines and, over them, the samples.

use crate::canvas::{blank_grid, Canvas, Mode};
use crate::data::{drawn, first_fault, Data, DrawError, Steps};
use crate::frame::{crosses_zero, with_axes, AxisError, Frame};
use vstd::prelude::*;

verus! {

/// Why there is no plot: what [`compose`] found before it drew anything.
#[derive(Debug, Clone, Copy, PartialEq, Eq, Structural)]
pub enum PlotError {
    /// The canvas has more cells than can be counted.
    TooLarge,
    /// The axis lines cannot be drawn.
    Axis(AxisError),
    /// A sample cannot be drawn.
    Draw(DrawError),
}

/// The grid under the samples: blank, or with the axis lines.
pub open spec fn ground(draw_axes: bool, frame: Frame, anchors: (usize, usize)) -> Result<
    Seq<Seq<u8>>,
    AxisError,
> {
    let blank = blank_grid(frame.height as nat, frame.width as nat);
    if !draw_axes {
        Ok(blank)
    } else {
        match frame.lines_fault(frame.height as nat, frame.width as nat, anchors.0, anchors.1) {
            Some(e) => Err(e),
            None => Ok(
                with_axes(
                    blank,
                    frame.width as int,
                    frame.height as int,
                    frame.row_at(anchors.1 as int).unwrap() as int,
                    anchors.0 as int,
                    crosses_zero(frame.x.min, frame.x.max),
                    crosses_zero(frame.y.min, frame.y.max),
                ),
            ),
        }
    }
}

/// The grid of the finished plot, or what keeps it from being drawn: a
/// canvas too large, an axis line off the canvas, or the first sample that
/// has no place on it.
pub open spec fn composed(
    mode: Mode,
    draw_axes: bool,
    frame: Frame,
    data: Data,
    anchors: (usize, usize),
    steps: Steps,
) -> Result<Seq<Seq<u8>>, PlotError> {
    if frame.width * frame.height > usize::MAX {
        Err(PlotError::TooLarge)
    } else {
        match ground(draw_axes, frame, anchors) {
            Err(e) => Err(PlotError::Axis(e)),
            Ok(lined) => match first_fault(lined, mode, data, steps, frame) {
                Some(e) => Err(PlotError::Draw(e)),
                None => Ok(drawn(lined, data, steps, frame, mode).0),
            },
        }
    }
}

/// Draws a plot on a fresh canvas of the frame's size: first the axis lines,
/// where they are wanted, then the samples over them. Nothing is drawn
/// unless all of it can be: the lines and every sample are looked at before
/// they are drawn.
///
/// `anchors` are the steps of the two axis lines, the vertical one's along the
/// X axis and the horizontal one's along the Y axis; `steps` are those of the data.
pub fn compose(
    mode: Mode,
    draw_axes: bool,
    frame: &Frame,
    data: &Data,
    anchors: (usize, usize),
    steps: &Steps,
) -> (plot: Result<Canvas, PlotError>)
    requires
        data.wf(),
        steps.fits(data),
    ensures
        match plot {
            Ok(canvas) => canvas.wf() && canvas.nrows() == frame.height && canvas.ncols()
                == frame.width && canvas.policy() == mode && composed(
                mode,
                draw_axes,
                *frame,
                *data,
                anchors,
                *steps,
            ) == Ok::<Seq<Seq<u8>>, PlotError>(canvas@),
            Err(e) => composed(mode, draw_axes, *frame, *data, anchors, *steps) == Err::<
                Seq<Seq<u8>>,
                PlotError,
            >(e),
        },
{
    if frame.height.checked_mul(frame.width).is_none() {
        assert(frame.width * frame.height == frame.height * frame.width) by (nonlinear_arith);
        return Err(PlotError::TooLarge);
    }
    assert(frame.width * frame.height == frame.height * frame.width) by (nonlinear_arith);
    let mut canvas = Canvas::new(frame.height, frame.width, mode);
    if draw_axes {
        match frame.axis_fault(&canvas, anchors.0, anchors.1) {
            Some(e) => {
                return Err(PlotError::Axis(e));
            },
            None => {
                frame.draw_into(&mut canvas, anchors.0, anchors.1);
            },
        }
    }
    match data.find_fault(&canvas, frame, steps) {
        Some(e) => Err(PlotError::Draw(e)),
        None => {
            data.draw_into(&mut canvas, frame, steps);
            Ok(canvas)
        },
    }
}

} // verus!
