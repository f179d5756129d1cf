use plotgrid::bits::{NAN, ZERO};
use plotgrid::canvas::{Canvas, Mode};
use plotgrid::frame::{
    Axis, AxisError, Dimension, Frame, FrameError, Placement, CMP_PAD, CROSS_PAD, PAD, TICK,
    WIDENING,
};

fn bits(x: f64) -> u64 {
    x.to_bits()
}

fn axis(min: f64, max: f64, range: f64) -> Axis {
    Axis { min: bits(min), max: bits(max), range: bits(range) }
}

/// The bounds of an axis over data that reach from `min` to `max`, with the
/// sums and differences computed here.
fn settle(min: f64, max: f64) -> Axis {
    let successor = min + f64::from_bits(WIDENING);
    let max = f64::from_bits(Axis::widen(bits(min), bits(max), bits(successor)));
    let range = max - min;
    let reach = range * f64::from_bits(CROSS_PAD);
    Axis::settle(bits(min), bits(max), bits(range), bits(min - reach), bits(max + reach))
}

fn steps(extent: usize, value: f64, axis: &Axis) -> usize {
    let share = (value - f64::from_bits(axis.min)) / f64::from_bits(axis.range);
    (extent as f64 * share).round() as usize
}

fn frame(width: usize, height: usize, x: Axis, y: Axis) -> Frame {
    Frame::new_over(width, height, x, y).unwrap()
}

fn text(canvas: &Canvas) -> String {
    String::from_utf8(canvas.text()).unwrap()
}

fn lines(rows: &[&str]) -> String {
    rows.iter().map(|row| format!("{row}\n")).collect()
}

#[test]
fn constants() {
    assert_eq!(PAD, 2);
    assert_eq!(TICK, 5);
    assert_eq!(f64::from_bits(WIDENING), 1.0);
    assert_eq!(f64::from_bits(CROSS_PAD), 2.0);
    assert_eq!(f64::from_bits(CMP_PAD), 0.001);
}

#[test]
fn widen_keeps_an_axis_with_an_extent() {
    assert_eq!(Axis::widen(bits(1.0), bits(3.0), bits(2.0)), bits(3.0));
    assert_eq!(Axis::widen(bits(-1.0), bits(0.0), bits(0.0)), bits(0.0));
}

#[test]
fn widen_extends_a_single_value() {
    assert_eq!(Axis::widen(bits(5.0), bits(5.0), bits(6.0)), bits(6.0));
    assert_eq!(Axis::widen(bits(-0.0), bits(0.0), bits(1.0)), bits(1.0));
    assert_eq!(Axis::widen(bits(0.0), bits(-0.0), bits(1.0)), bits(1.0));
}

#[test]
fn degenerate_axis_is_widened_to_exactly_one() {
    for value in [5.0, 0.0, -3.25, 1e6] {
        let widened = f64::from_bits(Axis::widen(bits(value), bits(value), bits(value + 1.0)));
        assert_eq!(widened - value, 1.0);
        assert!(f64::from_bits(settle(value, value).range) > 0.0);
    }
    assert_eq!(settle(5.0, 5.0), axis(5.0, 6.0, 1.0));
    assert_eq!(settle(0.0, 0.0), axis(0.0, 1.0, 1.0));
    assert_eq!(settle(-3.0, -3.0), axis(-3.0, -2.0, 1.0));
    assert_eq!(settle(-0.25, -0.25), axis(-0.25, 0.75, 1.0));
}

#[test]
fn zero_range_makes_no_frame() {
    let flat = axis(5.0, 5.0, 0.0);
    let fine = axis(0.0, 1.0, 1.0);
    assert_eq!(Frame::new_over(72, 40, flat, fine), Err(FrameError::EmptyRange(Dimension::X)));
    assert_eq!(Frame::new_over(72, 40, fine, flat), Err(FrameError::EmptyRange(Dimension::Y)));
    assert_eq!(
        Frame::new_over(72, 40, axis(5.0, 5.0, -0.0), fine),
        Err(FrameError::EmptyRange(Dimension::X))
    );
    assert_eq!(
        Frame::new_over(72, 40, fine, axis(1.0, 0.0, -1.0)),
        Err(FrameError::EmptyRange(Dimension::Y))
    );
    assert_eq!(
        Frame::new_over(72, 40, Axis { min: ZERO, max: ZERO, range: NAN }, fine),
        Err(FrameError::EmptyRange(Dimension::X))
    );
}

#[test]
fn narrow_canvas_makes_no_frame() {
    let fine = axis(0.0, 1.0, 1.0);
    assert_eq!(Frame::new_over(1, 40, fine, fine), Err(FrameError::TooSmall));
    assert_eq!(Frame::new_over(72, 0, fine, fine), Err(FrameError::TooSmall));
    assert_eq!(Frame::new_over(1, 40, axis(0.0, 0.0, 0.0), fine), Err(FrameError::TooSmall));
    assert!(Frame::new_over(2, 2, fine, fine).is_ok());
}

#[test]
fn new_over_keeps_what_it_is_given() {
    let x = axis(0.0, 2.0, 2.0);
    let y = axis(0.0, 3.0, 3.0);
    let got = frame(72, 40, x, y);
    assert_eq!(got, Frame { width: 72, height: 40, x, y });
    assert_eq!(got.x_bounds(), (bits(0.0), bits(2.0)));
    assert_eq!(got.y_bounds(), (bits(0.0), bits(3.0)));
    assert_eq!(got.range_xy(), (bits(2.0), bits(3.0)));
    assert_eq!(got.plot_width(), 70);
    assert_eq!(got.plot_height(), 38);
}

#[test]
fn zero_crossing_far_from_zero_is_not_pinned() {
    assert_eq!(settle(5.0, 7.0), axis(5.0, 7.0, 2.0));
    assert_eq!(settle(-7.0, -5.0), axis(-7.0, -5.0, 2.0));
    assert_eq!(settle(4.0, 6.0), axis(4.0, 6.0, 2.0));
}

#[test]
fn zero_crossing_near_zero_is_pinned() {
    let got = settle(0.1, 0.2);
    assert_eq!(got.min, bits(0.0));
    assert_eq!(got.max, bits(0.2));
    assert_eq!(got.range, bits(0.2));
    let got = settle(-0.2, -0.1);
    assert_eq!(got.min, bits(-0.2));
    assert_eq!(got.max, bits(0.0));
    assert_eq!(got.range, bits(0.2));
    assert_eq!(settle(1.0, 3.0), axis(0.0, 3.0, 3.0));
}

#[test]
fn data_across_zero_keep_their_bounds() {
    assert_eq!(settle(-1.0, 2.0), axis(-1.0, 2.0, 3.0));
    assert_eq!(settle(0.0, 2.0), axis(0.0, 2.0, 2.0));
    assert_eq!(settle(-2.0, 0.0), axis(-2.0, 0.0, 2.0));
    assert_eq!(settle(-0.0, 4.0), axis(-0.0, 4.0, 4.0));
}

#[test]
fn settle_decides_by_the_signs_it_is_given() {
    let one = bits(1.0);
    let three = bits(3.0);
    let two = bits(2.0);
    let pinned = Axis::settle(one, three, two, bits(-3.0), bits(7.0));
    assert_eq!(pinned, Axis { min: ZERO, max: three, range: three });
    let kept = Axis::settle(one, three, two, bits(0.0), bits(7.0));
    assert_eq!(kept, Axis { min: one, max: three, range: two });
    let kept = Axis::settle(one, three, two, NAN, bits(7.0));
    assert_eq!(kept, Axis { min: one, max: three, range: two });
    let mirrored = Axis::settle(bits(-3.0), bits(-1.0), two, bits(-7.0), bits(3.0));
    assert_eq!(mirrored, Axis { min: bits(-3.0), max: ZERO, range: three });
    let kept = Axis::settle(bits(-3.0), bits(-1.0), two, bits(-7.0), bits(-0.0));
    assert_eq!(kept, Axis { min: bits(-3.0), max: bits(-1.0), range: two });
}

#[test]
fn anchors_stand_at_zero_or_at_the_nearer_bound() {
    assert!(axis(-1.0, 2.0, 3.0).holds_zero());
    assert!(axis(0.0, 2.0, 2.0).holds_zero());
    assert!(!axis(5.0, 7.0, 2.0).holds_zero());
    assert!(!axis(-7.0, -5.0, 2.0).holds_zero());
    assert_eq!(axis(-1.0, 2.0, 3.0).anchor(), bits(0.0));
    assert_eq!(axis(5.0, 7.0, 2.0).anchor(), bits(5.0));
    assert_eq!(axis(-7.0, -5.0, 2.0).anchor(), bits(-5.0));
    let got = frame(72, 40, axis(5.0, 7.0, 2.0), axis(-7.0, -5.0, 2.0));
    assert_eq!(got.axis_anchors(), (bits(5.0), bits(-5.0)));
}

#[test]
fn rows_count_from_the_top() {
    let fine = axis(0.0, 1.0, 1.0);
    let got = frame(72, 40, fine, fine);
    assert_eq!(got.y_to_row(0), Some(37));
    assert_eq!(got.y_to_row(1), Some(36));
    assert_eq!(got.y_to_row(36), Some(1));
    assert_eq!(got.y_to_row(37), Some(0));
    assert_eq!(got.y_to_row(38), Some(0));
    assert_eq!(got.y_to_row(39), None);
    assert_eq!(got.y_to_row(40), None);
    assert_eq!(got.y_to_row(usize::MAX), None);
    let least = frame(2, 2, fine, fine);
    assert_eq!(least.y_to_row(0), Some(0));
    assert_eq!(least.y_to_row(1), None);
    let hand_made = Frame { width: 5, height: 1, x: fine, y: fine };
    assert_eq!(hand_made.y_to_row(0), None);
    assert_eq!(got.x_to_column(0), 0);
    assert_eq!(got.x_to_column(70), 70);
    assert_eq!(got.point_to_cell(7, 38), Some((0, 7)));
    assert_eq!(got.point_to_cell(7, 30), Some((7, 7)));
    assert_eq!(got.point_to_cell(0, 0), Some((37, 0)));
    assert_eq!(got.point_to_cell(0, 39), None);
}

#[test]
fn bounds_map_to_the_ends_of_the_plot() {
    for (width, height) in [(72usize, 40usize), (90, 25), (10, 7), (2, 2)] {
        for (min, max) in [(5.0, 7.0), (-3.0, 9.0), (0.1, 0.2), (-1e9, -1e3)] {
            let x = settle(min, max);
            let y = settle(min, max);
            let got = frame(width, height, x, y);
            let low = f64::from_bits(x.min);
            let high = f64::from_bits(x.max);
            assert_eq!(steps(got.plot_width(), low, &x), 0);
            assert_eq!(steps(got.plot_width(), high, &x), width - PAD);
            let bottom = if height > PAD { height - PAD - 1 } else { 0 };
            assert_eq!(got.y_to_row(steps(got.plot_height(), low, &y)), Some(bottom));
            assert_eq!(got.y_to_row(steps(got.plot_height(), high, &y)), Some(0));
        }
    }
}

#[test]
fn axes_through_zero_are_solid() {
    let got = frame(12, 7, axis(-1.0, 1.0, 2.0), axis(-1.0, 1.0, 2.0));
    let mut canvas = Canvas::new(7, 12, Mode::Dot);
    assert_eq!(got.axis_fault(&canvas, 5, 2), None);
    got.draw_into(&mut canvas, 5, 2);
    let expected = lines(&[
        "     +      ",
        "     |      ",
        "+----+----+-",
        "     |      ",
        "     |      ",
        "     +      ",
        "     |      ",
    ]);
    assert_eq!(text(&canvas), expected);
}

#[test]
fn boundary_lines_are_dotted() {
    let got = frame(12, 7, axis(5.0, 7.0, 2.0), axis(5.0, 7.0, 2.0));
    let mut canvas = Canvas::new(7, 12, Mode::Dot);
    for row in 0..7 {
        for column in 0..12 {
            *canvas.cell(row, column).unwrap() = b'x';
        }
    }
    assert_eq!(got.axis_fault(&canvas, 0, 0), None);
    got.draw_into(&mut canvas, 0, 0);
    let expected = lines(&[
        ".xxxxxxxxxxx",
        " xxxxxxxxxxx",
        " xxxxxxxxxxx",
        " xxxxxxxxxxx",
        "+    .    . ",
        ".xxxxxxxxxxx",
        " xxxxxxxxxxx",
    ]);
    assert_eq!(text(&canvas), expected);
}

#[test]
fn mixed_lines() {
    let got = frame(6, 6, axis(-1.0, 1.0, 2.0), axis(5.0, 7.0, 2.0));
    let mut canvas = Canvas::new(6, 6, Mode::Dot);
    assert_eq!(got.axis_fault(&canvas, 2, 0), None);
    got.draw_into(&mut canvas, 2, 0);
    let expected = lines(&["  +   ", "  |   ", "  |   ", ". +  .", "  |   ", "  +   "]);
    assert_eq!(text(&canvas), expected);
}

#[test]
fn the_line_at_the_maximum_is_the_top_row() {
    let got = frame(6, 6, axis(-7.0, -5.0, 2.0), axis(-7.0, -5.0, 2.0));
    let mut canvas = Canvas::new(6, 6, Mode::Dot);
    assert_eq!(got.axis_fault(&canvas, 4, 4), None);
    got.draw_into(&mut canvas, 4, 4);
    let expected = lines(&[".   +.", "      ", "      ", "      ", "      ", "    . "]);
    assert_eq!(text(&canvas), expected);
}

#[test]
fn lines_beyond_the_canvas_are_found() {
    let fine = axis(-1.0, 1.0, 2.0);
    let got = frame(12, 7, fine, fine);
    let canvas = Canvas::new(7, 12, Mode::Dot);
    assert_eq!(got.axis_fault(&canvas, 5, 5), None);
    assert_eq!(got.axis_fault(&canvas, 5, 6), Some(AxisError::AboveTop { steps: 6 }));
    assert_eq!(got.axis_fault(&canvas, 5, 7), Some(AxisError::AboveTop { steps: 7 }));
    assert_eq!(got.axis_fault(&canvas, 12, 2), Some(AxisError::OffGrid { row: 0, column: 12 }));
    assert_eq!(got.axis_fault(&canvas, 11, 2), None);
    let low = Canvas::new(5, 12, Mode::Dot);
    assert_eq!(got.axis_fault(&low, 5, 2), Some(AxisError::OffGrid { row: 5, column: 5 }));
    let narrow = Canvas::new(7, 10, Mode::Dot);
    assert_eq!(got.axis_fault(&narrow, 5, 2), Some(AxisError::OffGrid { row: 2, column: 10 }));
    let mut tall = Canvas::new(9, 14, Mode::Dot);
    assert_eq!(got.axis_fault(&tall, 13, 0), None);
    got.draw_into(&mut tall, 13, 0);
    assert_eq!(tall.get(4, 13), Some(b'+'));
    assert_eq!(tall.get(4, 11), Some(b'-'));
    assert_eq!(tall.get(4, 12), Some(b' '));
    assert_eq!(tall.get(7, 13), Some(b' '));
    assert_eq!(tall.get(9, 13), None);
}

#[test]
fn placements_follow_the_flip() {
    let x = axis(0.0, 2.0, 2.0);
    let y = axis(-1.0, 3.0, 4.0);
    let got = frame(72, 40, x, y);
    assert!(got.is_wf());
    let across = Placement { axis: x, extent: 70, bounded: true };
    let up = Placement { axis: y, extent: 38, bounded: false };
    assert_eq!(got.placements(false), (across, up));
    assert_eq!(got.placements(true), (up, across));
}

#[test]
fn frames_made_by_hand_may_be_ill_formed() {
    let fine = axis(0.0, 1.0, 1.0);
    assert!(Frame { width: 2, height: 2, x: fine, y: fine }.is_wf());
    assert!(!Frame { width: 1, height: 2, x: fine, y: fine }.is_wf());
    assert!(!Frame { width: 2, height: 1, x: fine, y: fine }.is_wf());
    assert!(!Frame { width: 2, height: 2, x: axis(0.0, 0.0, 0.0), y: fine }.is_wf());
    assert!(!Frame { width: 2, height: 2, x: fine, y: axis(0.0, 1.0, f64::NAN) }.is_wf());
}

#[test]
fn a_value_too_large_to_widen_makes_no_frame() {
    let huge = settle(1e300, 1e300);
    assert_eq!(huge, axis(1e300, 1e300, 0.0));
    let fine = axis(0.0, 1.0, 1.0);
    assert_eq!(Frame::new_over(72, 40, huge, fine), Err(FrameError::EmptyRange(Dimension::X)));
    assert_eq!(Frame::new_over(72, 40, fine, huge), Err(FrameError::EmptyRange(Dimension::Y)));
}
