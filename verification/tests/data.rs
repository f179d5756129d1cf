use plotgrid::bits::NAN;
use plotgrid::canvas::{Canvas, Mode};
use plotgrid::data::{get_min_max_vec, get_min_max_vec_vec, Data, DrawError, Fault, Steps};
use plotgrid::frame::{Axis, Dimension, Frame, FrameError};

fn bits(x: f64) -> u64 {
    x.to_bits()
}

fn series(values: &[f64]) -> Vec<u64> {
    values.iter().map(|v| v.to_bits()).collect()
}

fn data(xs: &[f64], ys: &[&[f64]]) -> Data {
    Data { flipped: false, xs: series(xs), ys: ys.iter().map(|s| series(s)).collect() }
}

/// A frame whose plot extends over the whole of a canvas of `rows` rows:
/// a value `s` steps up lies in the row `rows - s - 1`.
fn frame(width: usize, rows: usize) -> Frame {
    let axis = Axis { min: bits(0.0), max: bits(1.0), range: bits(1.0) };
    Frame::new_over(width, rows + 2, axis, axis).unwrap()
}

/// Draws the data if all of it can be drawn, else says what cannot.
fn draw(data: &Data, canvas: &mut Canvas, using: &Frame, steps: &Steps) -> Result<(), DrawError> {
    assert!(data.is_wf() && steps.is_fit(data));
    match data.find_fault(canvas, using, steps) {
        Some(fault) => Err(fault),
        None => {
            data.draw_into(canvas, using, steps);
            Ok(())
        }
    }
}

fn text(canvas: &Canvas) -> String {
    String::from_utf8(canvas.text()).unwrap()
}

fn at(canvas: &mut Canvas, row: usize, column: usize) -> u8 {
    *canvas.cell(row, column).unwrap()
}

#[test]
fn min_max_of_finite_values() {
    let v = series(&[3.0, -1.5, 7.25, 0.0]);
    assert_eq!(get_min_max_vec(&v), (Some(bits(-1.5)), Some(bits(7.25))));
}

#[test]
fn min_max_skips_what_is_not_finite() {
    let v = series(&[f64::NAN, 2.0, f64::INFINITY, -4.0, f64::NEG_INFINITY, 9.0, -f64::NAN]);
    assert_eq!(get_min_max_vec(&v), (Some(bits(-4.0)), Some(bits(9.0))));
}

#[test]
fn min_max_of_nothing_finite() {
    assert_eq!(get_min_max_vec(&Vec::new()), (None, None));
    assert_eq!(get_min_max_vec(&series(&[f64::NAN, f64::INFINITY])), (None, None));
}

#[test]
fn min_max_of_a_single_value() {
    assert_eq!(get_min_max_vec(&series(&[5.0])), (Some(bits(5.0)), Some(bits(5.0))));
}

#[test]
fn min_max_tells_the_zeros_apart() {
    let v = series(&[0.0, -0.0, 0.0]);
    assert_eq!(get_min_max_vec(&v), (Some(bits(-0.0)), Some(bits(0.0))));
}

#[test]
fn min_max_agrees_with_the_total_order() {
    let values = [1.0, -1.0, 1e-300, -1e-300, 5e-324, 1e300, -1e300, 2.5, f64::NAN, 0.0];
    let expected_min = values.iter().copied().filter(|v| v.is_finite()).min_by(f64::total_cmp);
    let expected_max = values.iter().copied().filter(|v| v.is_finite()).max_by(f64::total_cmp);
    let (min, max) = get_min_max_vec(&series(&values));
    assert_eq!(min.map(f64::from_bits), expected_min);
    assert_eq!(max.map(f64::from_bits), expected_max);
}

#[test]
fn min_max_over_all_series() {
    let ys = vec![series(&[f64::NAN, 2.0]), series(&[-3.0, f64::NAN]), series(&[1.0, 8.0])];
    assert_eq!(get_min_max_vec_vec(&ys), (Some(bits(-3.0)), Some(bits(8.0))));
    assert_eq!(get_min_max_vec_vec(&Vec::new()), (None, None));
    assert_eq!(get_min_max_vec_vec(&vec![Vec::new(), series(&[f64::NAN])]), (None, None));
    assert_eq!(
        get_min_max_vec_vec(&vec![series(&[f64::NAN]), series(&[4.0])]),
        (Some(bits(4.0)), Some(bits(4.0)))
    );
}

#[test]
fn min_max_vals_follow_the_flip() {
    let mut d = data(&[0.0, 1.0], &[&[5.0, 6.0], &[7.0, f64::NAN]]);
    assert_eq!(
        d.get_min_max_vals(),
        (Some(bits(0.0)), Some(bits(1.0)), Some(bits(5.0)), Some(bits(7.0)))
    );
    d.flip();
    assert!(d.flipped);
    assert_eq!(
        d.get_min_max_vals(),
        (Some(bits(5.0)), Some(bits(7.0)), Some(bits(0.0)), Some(bits(1.0)))
    );
    d.flip();
    assert!(!d.flipped);
}

#[test]
fn extent_of_data() {
    let d = data(&[0.0, 1.0, 2.0], &[&[1.0, 2.0, 3.0]]);
    assert_eq!(d.extent(), Ok((bits(0.0), bits(2.0), bits(1.0), bits(3.0))));
}

#[test]
fn extent_needs_a_finite_value_in_each_dimension() {
    assert_eq!(Data::new().extent(), Err(FrameError::NoFiniteSample(Dimension::X)));
    let no_x = data(&[f64::NAN], &[&[1.0]]);
    assert_eq!(no_x.extent(), Err(FrameError::NoFiniteSample(Dimension::X)));
    let no_y = data(&[1.0], &[&[f64::NAN]]);
    assert_eq!(no_y.extent(), Err(FrameError::NoFiniteSample(Dimension::Y)));
    let no_series = data(&[1.0], &[]);
    assert_eq!(no_series.extent(), Err(FrameError::NoFiniteSample(Dimension::Y)));
    let neither = data(&[f64::INFINITY], &[&[f64::NAN]]);
    assert_eq!(neither.extent(), Err(FrameError::NoFiniteSample(Dimension::X)));
}

#[test]
fn well_formed_data() {
    assert!(Data::new().is_wf());
    assert!(data(&[0.0, 1.0], &[&[1.0, 2.0], &[3.0, 4.0]]).is_wf());
    assert!(!data(&[0.0, 1.0], &[&[1.0]]).is_wf());
    let many = Data { flipped: false, xs: Vec::new(), ys: vec![Vec::new(); 33] };
    assert!(!many.is_wf());
    let most = Data { flipped: false, xs: Vec::new(), ys: vec![Vec::new(); 32] };
    assert!(most.is_wf());
}

#[test]
fn steps_fit_their_data() {
    let d = data(&[0.0, 1.0], &[&[1.0, 2.0]]);
    let fit = Steps { xs: vec![Some(0), None], ys: vec![vec![Some(1), Some(2)]] };
    assert!(fit.is_fit(&d));
    let short = Steps { xs: vec![Some(0)], ys: vec![vec![Some(1), Some(2)]] };
    assert!(!short.is_fit(&d));
    let ragged = Steps { xs: vec![Some(0), None], ys: vec![vec![Some(1)]] };
    assert!(!ragged.is_fit(&d));
    let fewer = Steps { xs: vec![Some(0), None], ys: Vec::new() };
    assert!(!fewer.is_fit(&d));
}

#[test]
fn distinct_marks_in_distinct_cells_do_not_interfere() {
    let d = data(&[0.0, 1.0], &[&[0.0, 1.0], &[1.0, 0.0]]);
    let steps = Steps {
        xs: vec![Some(0), Some(3)],
        ys: vec![vec![Some(0), Some(2)], vec![Some(2), Some(0)]],
    };
    let mut canvas = Canvas::new(3, 4, Mode::Dot);
    assert_eq!(draw(&d, &mut canvas, &frame(4, 3), &steps), Ok(()));
    assert_eq!(text(&canvas), "*  @\n    \n@  *\n");
}

#[test]
fn same_cell_collision_shows_the_later_series() {
    let d = data(&[0.0], &[&[1.0], &[1.0], &[1.0]]);
    let steps =
        Steps { xs: vec![Some(1)], ys: vec![vec![Some(1)], vec![Some(1)], vec![Some(1)]] };
    let mut canvas = Canvas::new(3, 4, Mode::Dot);
    assert_eq!(draw(&d, &mut canvas, &frame(4, 3), &steps), Ok(()));
    assert_eq!(text(&canvas), "    \n ^  \n    \n");
}

#[test]
fn later_rows_overwrite_earlier_rows() {
    let d = data(&[0.0, 0.0], &[&[1.0, f64::NAN], &[f64::NAN, 1.0]]);
    let steps = Steps {
        xs: vec![Some(2), Some(2)],
        ys: vec![vec![Some(0), Some(0)], vec![Some(0), Some(0)]],
    };
    let mut canvas = Canvas::new(2, 3, Mode::Dot);
    assert_eq!(draw(&d, &mut canvas, &frame(3, 2), &steps), Ok(()));
    assert_eq!(at(&mut canvas, 1, 2), b'*');
}

#[test]
fn count_mode_counts_overlapping_samples() {
    let d = data(&[0.0], &[&[1.0], &[1.0], &[1.0]]);
    let steps =
        Steps { xs: vec![Some(1)], ys: vec![vec![Some(1)], vec![Some(1)], vec![Some(1)]] };
    let mut canvas = Canvas::new(3, 4, Mode::Count);
    assert_eq!(draw(&d, &mut canvas, &frame(4, 3), &steps), Ok(()));
    assert_eq!(text(&canvas), "    \n 3  \n    \n");
}

#[test]
fn count_mode_shows_single_samples_by_their_mark() {
    let d = data(&[0.0, 1.0], &[&[0.0, f64::NAN], &[f64::NAN, 1.0]]);
    let steps = Steps {
        xs: vec![Some(0), Some(3)],
        ys: vec![vec![Some(0), Some(0)], vec![Some(0), Some(2)]],
    };
    let mut canvas = Canvas::new(3, 4, Mode::Count);
    *canvas.cell(2, 0).unwrap() = b'+';
    assert_eq!(draw(&d, &mut canvas, &frame(4, 3), &steps), Ok(()));
    assert_eq!(text(&canvas), "   *\n    \n@   \n");
}

#[test]
fn count_mode_saturates() {
    let rows = 50;
    let d = Data { flipped: false, xs: vec![bits(0.0); rows], ys: vec![vec![bits(0.0); rows]] };
    let steps = Steps { xs: vec![Some(0); rows], ys: vec![vec![Some(0); rows]] };
    let mut canvas = Canvas::new(2, 2, Mode::Count);
    assert_eq!(draw(&d, &mut canvas, &frame(2, 2), &steps), Ok(()));
    assert_eq!(at(&mut canvas, 1, 0), b'#');
    let fewer = Data { flipped: false, xs: vec![bits(0.0); 35], ys: vec![vec![bits(0.0); 35]] };
    let steps = Steps { xs: vec![Some(1); 35], ys: vec![vec![Some(0); 35]] };
    assert_eq!(draw(&fewer, &mut canvas, &frame(2, 2), &steps), Ok(()));
    assert_eq!(at(&mut canvas, 1, 1), b'z');
}

#[test]
fn missing_samples_are_not_drawn() {
    let d = Data {
        flipped: false,
        xs: series(&[0.0, 1.0]),
        ys: vec![series(&[f64::NAN, f64::INFINITY]), vec![bits(f64::NEG_INFINITY), NAN]],
    };
    let steps =
        Steps { xs: vec![None, Some(9)], ys: vec![vec![None, Some(9)], vec![Some(9), None]] };
    let mut canvas = Canvas::new(3, 4, Mode::Dot);
    assert_eq!(draw(&d, &mut canvas, &frame(4, 3), &steps), Ok(()));
    assert_eq!(text(&canvas), "    \n    \n    \n");
}

#[test]
fn a_value_outside_the_frame_cannot_be_drawn() {
    let d = data(&[0.0, 1.0, 2.0], &[&[0.0, 1.0, 1.0]]);
    let steps = Steps {
        xs: vec![Some(0), None, Some(1)],
        ys: vec![vec![Some(0), Some(1), Some(1)]],
    };
    let mut canvas = Canvas::new(3, 4, Mode::Dot);
    assert_eq!(
        draw(&d, &mut canvas, &frame(4, 3), &steps),
        Err(DrawError { series: 0, row: 1, fault: Fault::OutsideFrame })
    );
    assert_eq!(text(&canvas), "    \n    \n    \n");
    let steps = Steps {
        xs: vec![Some(0), Some(1), Some(1)],
        ys: vec![vec![None, Some(1), Some(1)]],
    };
    let mut canvas = Canvas::new(3, 4, Mode::Dot);
    assert_eq!(
        draw(&d, &mut canvas, &frame(4, 3), &steps),
        Err(DrawError { series: 0, row: 0, fault: Fault::OutsideFrame })
    );
}

#[test]
fn a_cell_off_the_grid_cannot_be_drawn() {
    let d = data(&[0.0, 1.0], &[&[0.0, 1.0], &[0.0, 1.0]]);
    let steps = Steps {
        xs: vec![Some(0), Some(4)],
        ys: vec![vec![Some(0), Some(1)], vec![Some(1), Some(1)]],
    };
    let mut canvas = Canvas::new(3, 4, Mode::Dot);
    assert_eq!(
        draw(&d, &mut canvas, &frame(4, 3), &steps),
        Err(DrawError { series: 0, row: 1, fault: Fault::OffGrid })
    );
    assert_eq!(text(&canvas), "    \n    \n    \n");
    let steps = Steps {
        xs: vec![Some(0), Some(1)],
        ys: vec![vec![Some(0), Some(1)], vec![Some(4), Some(1)]],
    };
    let mut canvas = Canvas::new(3, 4, Mode::Dot);
    assert_eq!(
        draw(&d, &mut canvas, &frame(4, 3), &steps),
        Err(DrawError { series: 1, row: 0, fault: Fault::OffGrid })
    );
    let mut small = Canvas::new(2, 4, Mode::Dot);
    let steps = Steps {
        xs: vec![Some(0), Some(1)],
        ys: vec![vec![Some(0), Some(1)], vec![Some(1), Some(1)]],
    };
    assert_eq!(
        draw(&d, &mut small, &frame(4, 3), &steps),
        Err(DrawError { series: 0, row: 0, fault: Fault::OffGrid })
    );
}

#[test]
fn an_unknown_byte_cannot_be_counted() {
    let d = data(&[0.0], &[&[0.0]]);
    let steps = Steps { xs: vec![Some(1)], ys: vec![vec![Some(1)]] };
    let mut canvas = Canvas::new(3, 4, Mode::Count);
    *canvas.cell(1, 1).unwrap() = b'?';
    assert_eq!(
        draw(&d, &mut canvas, &frame(4, 3), &steps),
        Err(DrawError { series: 0, row: 0, fault: Fault::UnexpectedByte(b'?') })
    );
    assert_eq!(text(&canvas), "    \n ?  \n    \n");
    let mut dots = Canvas::new(3, 4, Mode::Dot);
    *dots.cell(1, 1).unwrap() = b'?';
    assert_eq!(draw(&d, &mut dots, &frame(4, 3), &steps), Ok(()));
    assert_eq!(text(&dots), "    \n @  \n    \n");
}

#[test]
fn flipped_data_run_the_other_way() {
    let mut d = data(&[0.0, 1.0], &[&[0.0, 1.0]]);
    d.flip();
    let steps = Steps { xs: vec![Some(0), Some(2)], ys: vec![vec![Some(1), Some(3)]] };
    let mut canvas = Canvas::new(3, 4, Mode::Dot);
    assert_eq!(draw(&d, &mut canvas, &frame(4, 3), &steps), Ok(()));
    assert_eq!(text(&canvas), "   @\n    \n @  \n");
}

#[test]
fn data_without_rows_draw_nothing() {
    let d = data(&[], &[&[], &[]]);
    let steps = Steps { xs: Vec::new(), ys: vec![Vec::new(), Vec::new()] };
    let mut canvas = Canvas::new(2, 2, Mode::Count);
    assert_eq!(draw(&d, &mut canvas, &frame(2, 2), &steps), Ok(()));
    assert_eq!(text(&canvas), "  \n  \n");
}

#[test]
fn the_maximum_shares_the_top_row() {
    let d = data(&[0.0, 1.0, 2.0], &[&[0.0, 0.5, 1.0]]);
    let steps = Steps {
        xs: vec![Some(0), Some(1), Some(2)],
        ys: vec![vec![Some(0), Some(2), Some(3)]],
    };
    let using = frame(4, 3);
    assert_eq!(using.height, 5);
    let mut canvas = Canvas::new(3, 4, Mode::Dot);
    assert_eq!(draw(&d, &mut canvas, &using, &steps), Ok(()));
    assert_eq!(text(&canvas), " @@ \n    \n@   \n");
}

#[test]
fn find_fault_says_what_draw_into_needs() {
    let d = data(&[0.0, 1.0], &[&[0.0, 1.0]]);
    let steps = Steps { xs: vec![Some(0), Some(3)], ys: vec![vec![Some(0), Some(2)]] };
    let mut canvas = Canvas::new(3, 4, Mode::Count);
    assert_eq!(d.find_fault(&canvas, &frame(4, 3), &steps), None);
    *canvas.cell(0, 0).unwrap() = 200;
    assert_eq!(d.find_fault(&canvas, &frame(4, 3), &steps), None);
    *canvas.cell(0, 3).unwrap() = 200;
    assert_eq!(
        d.find_fault(&canvas, &frame(4, 3), &steps),
        Some(DrawError { series: 0, row: 1, fault: Fault::UnexpectedByte(200) })
    );
    *canvas.cell(2, 0).unwrap() = b'[';
    assert_eq!(
        d.find_fault(&canvas, &frame(4, 3), &steps),
        Some(DrawError { series: 0, row: 0, fault: Fault::UnexpectedByte(b'[') })
    );
    let mut dots = Canvas::new(3, 4, Mode::Dot);
    *dots.cell(0, 3).unwrap() = 200;
    assert_eq!(d.find_fault(&dots, &frame(4, 3), &steps), None);
    assert_eq!(d.find_fault(&Canvas::new(2, 4, Mode::Dot), &frame(4, 3), &steps), Some(
        DrawError { series: 0, row: 0, fault: Fault::OffGrid }
    ));
}
