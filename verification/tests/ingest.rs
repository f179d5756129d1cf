use plotgrid::bits::NAN;
use plotgrid::data::Data;
use plotgrid::ingest::{fields, numeric, space, take_log};

fn cut(line: &str) -> Vec<String> {
    let chars: Vec<char> = line.chars().collect();
    fields(&chars).iter().map(|field| field.iter().collect()).collect()
}

fn number(field: &str) -> u64 {
    match field.parse::<f64>() {
        Ok(v) => v.to_bits(),
        Err(_) => NAN,
    }
}

fn numbers(line: &str) -> Vec<u64> {
    cut(line).iter().map(|f| number(f)).collect()
}

fn bits(values: &[f64]) -> Vec<u64> {
    values.iter().map(|v| v.to_bits()).collect()
}

#[test]
fn numeric_characters() {
    for c in "0123456789-+.eE".chars() {
        assert!(numeric(c), "{c}");
    }
    for c in " \t,;abcdfxXnNiI_/\u{e9}\u{0}".chars() {
        assert!(!numeric(c), "{c:?}");
    }
}

#[test]
fn space_is_white_space() {
    for code in 0..0x3100u32 {
        if let Some(c) = char::from_u32(code) {
            assert_eq!(space(c), c.is_whitespace(), "{code:x}");
        }
    }
    assert!(!space('\u{10ffff}'));
    assert!(!space('\u{feff}'));
}

#[test]
fn fields_are_cut_at_single_separators() {
    assert_eq!(cut("1 2 3"), vec!["1", "2", "3"]);
    assert_eq!(cut("1,2,3"), vec!["1", "2", "3"]);
    assert_eq!(cut("1\t-2.5e3\t+4"), vec!["1", "-2.5e3", "+4"]);
    assert_eq!(cut("0.5;1E9"), vec!["0.5", "1E9"]);
    assert_eq!(cut("42"), vec!["42"]);
}

#[test]
fn trailing_white_space_is_no_field() {
    assert_eq!(cut("1 2\n"), vec!["1", "2"]);
    assert_eq!(cut("1 2 \t\r\n"), vec!["1", "2"]);
    assert_eq!(cut("1 2\u{a0}\u{3000}"), vec!["1", "2"]);
    assert_eq!(cut("1,"), vec!["1"]);
    assert_eq!(cut("1, "), vec!["1"]);
}

#[test]
fn empty_lines_have_no_fields() {
    assert_eq!(cut(""), Vec::<String>::new());
    assert_eq!(cut("\n"), Vec::<String>::new());
    assert_eq!(cut("   \t  "), Vec::<String>::new());
}

#[test]
fn a_run_of_separators_is_one_missing_field() {
    assert_eq!(cut("1  2"), vec!["1", "", "2"]);
    assert_eq!(cut("1   2"), vec!["1", "", "2"]);
    assert_eq!(cut("1 abc 2"), vec!["1", "", "2"]);
    assert_eq!(cut("1, 2"), vec!["1", "", "2"]);
    assert_eq!(cut(" 1"), vec!["", "1"]);
    assert_eq!(cut("   1"), vec!["", "1"]);
    assert_eq!(cut(","), vec![""]);
    assert_eq!(cut(",,,"), vec![""]);
    assert_eq!(cut("x1"), vec!["", "1"]);
    assert_eq!(cut("1 a 2 b 3"), vec!["1", "", "2", "", "3"]);
}

#[test]
fn other_characters_separate_one_by_one() {
    assert_eq!(cut("1\u{e9}2"), vec!["1", "2"]);
    assert_eq!(cut("1x2y3"), vec!["1", "2", "3"]);
}

#[test]
fn fields_of_numeric_characters_may_write_no_number() {
    assert_eq!(cut("1 e 2"), vec!["1", "e", "2"]);
    assert_eq!(numbers("1 e 2"), vec![1.0f64.to_bits(), NAN, 2.0f64.to_bits()]);
    assert_eq!(numbers("1.2.3 --4 5e"), vec![NAN, NAN, NAN]);
}

#[test]
fn malformed_token_row() {
    let mut data = Data::new();
    data.push_row(None, &numbers("1 abc 2"));
    assert_eq!(data.xs, bits(&[1.0]));
    assert_eq!(data.ys.len(), 2);
    assert!(f64::from_bits(data.ys[0][0]).is_nan());
    assert_eq!(data.ys[0], vec![NAN]);
    assert_eq!(data.ys[1], bits(&[2.0]));
}

#[test]
fn rows_with_their_own_x() {
    let mut data = Data::new();
    for line in ["0 1\n", "1 2\n", "2 3\n"] {
        data.push_row(None, &numbers(line));
    }
    assert!(data.is_wf());
    assert_eq!(data.xs, bits(&[0.0, 1.0, 2.0]));
    assert_eq!(data.ys, vec![bits(&[1.0, 2.0, 3.0])]);
}

#[test]
fn numbered_rows() {
    let mut data = Data::new();
    for (row, line) in ["0 1\n", "1 2\n", "2 3\n"].iter().enumerate() {
        data.push_row(Some((row as f64).to_bits()), &numbers(line));
    }
    assert_eq!(data.xs, bits(&[0.0, 1.0, 2.0]));
    assert_eq!(data.ys, vec![bits(&[0.0, 1.0, 2.0]), bits(&[1.0, 2.0, 3.0])]);
}

#[test]
fn a_line_without_values_is_no_row() {
    let mut data = Data::new();
    data.push_row(None, &numbers("1 2"));
    data.push_row(None, &numbers(""));
    assert_eq!(data.xs, bits(&[1.0]));
    assert_eq!(data.ys, vec![bits(&[2.0])]);
    data.push_row(Some(5.0f64.to_bits()), &numbers(""));
    data.push_row(Some(6.0f64.to_bits()), &numbers("   \n"));
    assert_eq!(data.xs, bits(&[1.0]));
    assert_eq!(data.ys, vec![bits(&[2.0])]);
    data.push_row(Some(7.0f64.to_bits()), &numbers("abc"));
    assert_eq!(data.xs, bits(&[1.0, 7.0]));
    assert_eq!(data.ys, vec![vec![2.0f64.to_bits(), NAN]]);
    assert!(data.is_wf());
}

#[test]
fn new_series_are_filled_back_and_short_rows_filled_up() {
    let mut data = Data::new();
    data.push_row(None, &numbers("0 1"));
    data.push_row(None, &numbers("1 2 3 4"));
    data.push_row(None, &numbers("2"));
    data.push_row(None, &numbers("3 5 6"));
    assert!(data.is_wf());
    assert_eq!(data.xs, bits(&[0.0, 1.0, 2.0, 3.0]));
    assert_eq!(data.ys.len(), 3);
    assert_eq!(data.ys[0], vec![1.0f64.to_bits(), 2.0f64.to_bits(), NAN, 5.0f64.to_bits()]);
    assert_eq!(data.ys[1], vec![NAN, 3.0f64.to_bits(), NAN, 6.0f64.to_bits()]);
    assert_eq!(data.ys[2], vec![NAN, 4.0f64.to_bits(), NAN, NAN]);
}

#[test]
fn samples_beyond_the_marks_are_dropped() {
    let mut data = Data::new();
    let row: Vec<u64> = (0..40).map(|v| (v as f64).to_bits()).collect();
    data.push_row(Some(0.0f64.to_bits()), &row);
    assert!(data.is_wf());
    assert_eq!(data.ys.len(), 32);
    for (s, series) in data.ys.iter().enumerate() {
        assert_eq!(series, &bits(&[s as f64]));
    }
    data.push_row(None, &row);
    assert_eq!(data.ys.len(), 32);
    assert_eq!(data.xs, bits(&[0.0, 0.0]));
    assert_eq!(data.ys[31], bits(&[31.0, 32.0]));
}

#[test]
fn push_row_keeps_the_flip() {
    let mut data = Data::new();
    data.flip();
    data.push_row(None, &numbers("1 2"));
    assert!(data.flipped);
}

#[test]
fn logarithms_leave_zero_alone() {
    assert_eq!(take_log(100.0f64.to_bits(), 2.0f64.to_bits()), 2.0f64.to_bits());
    assert_eq!(take_log(0.0f64.to_bits(), f64::NEG_INFINITY.to_bits()), 0.0f64.to_bits());
    assert_eq!(take_log((-0.0f64).to_bits(), f64::NEG_INFINITY.to_bits()), (-0.0f64).to_bits());
    assert_eq!(take_log(NAN, NAN), NAN);
    assert_eq!(take_log((-1.0f64).to_bits(), NAN), NAN);
}

#[test]
fn logarithms_of_the_data() {
    let mut data = Data::new();
    for line in ["0 1 100", "10 0 1000", "100 10"] {
        data.push_row(None, &numbers(line));
    }
    let log = |v: &u64| f64::from_bits(*v).log10().to_bits();
    let logs_x: Vec<u64> = data.xs.iter().map(log).collect();
    let logs_y: Vec<Vec<u64>> = data.ys.iter().map(|s| s.iter().map(log).collect()).collect();
    data.set_log_x(&logs_x);
    assert_eq!(data.xs, bits(&[0.0, 1.0, 2.0]));
    data.set_log_y(&logs_y);
    assert_eq!(data.ys[0], bits(&[0.0, 0.0, 1.0]));
    assert_eq!(data.ys[1][0], 2.0f64.to_bits());
    assert_eq!(data.ys[1][1], 3.0f64.to_bits());
    assert!(f64::from_bits(data.ys[1][2]).is_nan());
    assert!(data.is_wf());
}
