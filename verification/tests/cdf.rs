use plotgrid::bits::NAN;
use plotgrid::cdf::{distribution, shared_length, Bin, CdfError};
use plotgrid::data::Data;

fn finite(n: usize) -> Vec<u64> {
    vec![1.0f64.to_bits(); n]
}

fn share(bin: &Bin) -> f64 {
    f64::from_bits(bin.quantile)
}

fn bin(value: u64, quantile: f64) -> Bin {
    Bin { value, count: 0, running: 0, quantile: quantile.to_bits() }
}

#[test]
fn distribution_counts_by_column() {
    let columns = vec![0, 1, 1, 3];
    let bins = distribution(&finite(4), &columns, 10).unwrap();
    assert_eq!(bins.len(), 4);
    let values: Vec<u64> = bins.iter().map(|b| b.value).collect();
    assert_eq!(values, vec![0, 1, 2, 3]);
    let counts: Vec<u64> = bins.iter().map(|b| b.count).collect();
    assert_eq!(counts, vec![1, 2, 0, 1]);
    let running: Vec<u64> = bins.iter().map(|b| b.running).collect();
    assert_eq!(running, vec![1, 3, 3, 4]);
    let shares: Vec<f64> = bins.iter().map(share).collect();
    assert_eq!(shares, vec![0.25, 0.75, 0.75, 1.0]);
}

#[test]
fn distribution_quantile_is_the_share_of_all_samples() {
    let columns = vec![2, 0, 2];
    let bins = distribution(&finite(3), &columns, 72).unwrap();
    assert_eq!(bins.len(), 3);
    assert_eq!(share(&bins[0]), 1.0f64 / 3.0);
    assert_eq!(share(&bins[1]), 1.0f64 / 3.0);
    assert_eq!(share(&bins[2]), 1.0);
}

#[test]
fn distribution_does_not_hand_back_its_columns() {
    let columns = vec![5, 5, 5];
    let bins = distribution(&finite(3), &columns, 72).unwrap();
    assert_eq!(bins.len(), 6);
    for (i, b) in bins.iter().enumerate() {
        assert_eq!(b.value, i as u64);
        assert_eq!(b.count, if i == 5 { 3 } else { 0 });
        assert_eq!(share(b), if i == 5 { 1.0 } else { 0.0 });
    }
}

#[test]
fn totals_equal_the_finite_samples_and_quantiles_never_fall() {
    let samples: Vec<u64> = [1.0, f64::NAN, 2.0, 3.0, f64::INFINITY, 4.0, 5.0, 0.5, f64::NAN]
        .iter()
        .map(|v| v.to_bits())
        .collect();
    let columns = vec![7, 900, 3, 3, 901, 0, 70, 12, 902];
    let bins = distribution(&samples, &columns, 70).unwrap();
    let total: u64 = bins.iter().map(|b| b.count).sum();
    assert_eq!(total, 6);
    assert_eq!(bins.last().unwrap().running, 6);
    assert_eq!(bins.len(), 71);
    for pair in bins.windows(2) {
        assert!(pair[0].running <= pair[1].running);
        assert!(share(&pair[0]) <= share(&pair[1]));
    }
    assert_eq!(share(bins.last().unwrap()), 1.0);
}

#[test]
fn samples_that_are_not_finite_are_left_out() {
    let samples = vec![NAN, 1.0f64.to_bits(), f64::NEG_INFINITY.to_bits()];
    let columns = vec![0, 2, 1];
    let bins = distribution(&samples, &columns, 10).unwrap();
    let counts: Vec<u64> = bins.iter().map(|b| b.count).collect();
    assert_eq!(counts, vec![0, 0, 1]);
}

#[test]
fn a_series_without_samples_has_one_empty_column() {
    let bins = distribution(&Vec::new(), &Vec::new(), 72).unwrap();
    assert_eq!(bins.len(), 1);
    assert_eq!(bins[0].value, 0);
    assert_eq!(bins[0].count, 0);
    assert_eq!(bins[0].running, 0);
    assert!(share(&bins[0]).is_nan());
    let bins = distribution(&vec![NAN, NAN], &vec![3, 4], 72).unwrap();
    assert_eq!(bins.len(), 1);
}

#[test]
fn a_narrow_canvas_has_no_distribution() {
    assert_eq!(distribution(&finite(1), &vec![0], 1), Err(CdfError::TooNarrow));
    assert_eq!(distribution(&finite(1), &vec![0], 0), Err(CdfError::TooNarrow));
    assert_eq!(distribution(&finite(1), &vec![5], 1), Err(CdfError::TooNarrow));
    assert!(distribution(&finite(1), &vec![0], 2).is_ok());
}

#[test]
fn a_column_beyond_the_canvas_is_refused() {
    let columns = vec![0, 11, 12];
    assert_eq!(distribution(&finite(3), &columns, 10), Err(CdfError::OutOfRange { row: 1 }));
    let samples = vec![1.0f64.to_bits(), NAN, 2.0f64.to_bits()];
    assert_eq!(distribution(&samples, &columns, 10), Err(CdfError::OutOfRange { row: 2 }));
    assert!(distribution(&finite(3), &vec![0, 10, 10], 10).is_ok());
}

#[test]
fn wide_canvases_count_every_sample() {
    let columns = vec![0, 1999, 2000, 2500, 3000, 3001, 4999, 5000];
    let bins = distribution(&finite(8), &columns, 5000).unwrap();
    let total: u64 = bins.iter().map(|b| b.count).sum();
    assert_eq!(total, 8);
    assert_eq!(bins.last().unwrap().running, 8);
    for (i, b) in bins.iter().enumerate() {
        assert_eq!(b.value, i as u64);
    }
    assert_eq!(bins.len(), 5004);
    assert_eq!(bins[0].count, 1);
    assert_eq!(bins[1999].count, 1);
}

#[test]
fn the_widest_distribution_gives_the_length() {
    let none: Vec<Vec<Bin>> = Vec::new();
    assert_eq!(shared_length(&none), 0);
    let series = vec![vec![bin(0, 0.5)], vec![bin(0, 0.1), bin(1, 0.2), bin(2, 0.3)], Vec::new()];
    assert_eq!(shared_length(&series), 3);
}

#[test]
fn short_distributions_go_on_with_their_last_quantile() {
    let series = vec![
        vec![bin(0, 0.5), bin(1, 1.0)],
        vec![bin(0, 0.1), bin(1, 0.2), bin(2, 0.3), bin(3, 1.0)],
        Vec::new(),
    ];
    let xs: Vec<u64> = [0.0f64, 0.5, 1.0, 1.5].iter().map(|v| v.to_bits()).collect();
    let mut data = Data::new();
    data.push_row(Some(7.0f64.to_bits()), &vec![1.0f64.to_bits()]);
    data.set_distributions(xs.clone(), &series);
    assert!(data.is_wf());
    assert!(!data.flipped);
    assert_eq!(data.xs, xs);
    assert_eq!(data.ys.len(), 3);
    let as_numbers = |s: &Vec<u64>| s.iter().map(|v| f64::from_bits(*v)).collect::<Vec<f64>>();
    assert_eq!(as_numbers(&data.ys[0]), vec![0.5, 1.0, 1.0, 1.0]);
    assert_eq!(as_numbers(&data.ys[1]), vec![0.1, 0.2, 0.3, 1.0]);
    assert_eq!(data.ys[2], vec![NAN; 4]);
}

#[test]
fn distributions_of_two_series_share_their_columns() {
    let a = distribution(&finite(2), &vec![1, 4], 72).unwrap();
    let b = distribution(&finite(3), &vec![0, 2, 2], 72).unwrap();
    assert_eq!(a.len(), 5);
    assert_eq!(b.len(), 3);
    for (left, right) in a.iter().zip(b.iter()) {
        assert_eq!(left.value, right.value);
    }
    assert_eq!(shared_length(&vec![a, b]), 5);
}

#[test]
fn narrow_canvases_count_every_column_by_itself() {
    let mut state: u64 = 0x2545_f491_4f6c_dd1d;
    for limit in [2u64, 3, 10, 72, 90, 1000, 1999, 2000] {
        for size in [0usize, 1, 2, 17, 300] {
            let mut columns = Vec::new();
            for _ in 0..size {
                state ^= state << 13;
                state ^= state >> 7;
                state ^= state << 17;
                columns.push(state % (limit + 1));
            }
            if size > 0 {
                columns[0] = limit;
            }
            let bins = distribution(&finite(size), &columns, limit).unwrap();
            let top = columns.iter().copied().max().unwrap_or(0);
            assert_eq!(bins.len() as u64, top + 1);
            let mut running = 0;
            for (i, b) in bins.iter().enumerate() {
                let expected = columns.iter().filter(|c| **c == i as u64).count() as u64;
                running += expected;
                assert_eq!(b.value, i as u64);
                assert_eq!(b.count, expected, "limit {limit}, column {i}");
                assert_eq!(b.running, running);
                let quantile = running as f64 / size as f64;
                assert_eq!(b.quantile, quantile.to_bits());
            }
            assert_eq!(running, size as u64);
        }
    }
}

#[test]
fn a_histogram_reaches_as_far_as_it_is_asked_to() {
    for limit in [2u64, 2047, 2048, 1 << 20, 1 << 40, u64::MAX] {
        let bins = distribution(&finite(2), &vec![0, 1], limit).unwrap();
        assert_eq!(bins.len(), 2);
        assert_eq!(bins[1].running, 2);
    }
}

#[test]
fn quantiles_rise_to_one() {
    let one = 1.0f64.to_bits();
    for limit in [2u64, 72, 2000, 5000] {
        for columns in [vec![0], vec![2], vec![0, 0, 1, 2], vec![1, 1, 2, 2, 2, 0, 1]] {
            let bins = distribution(&finite(columns.len()), &columns, limit).unwrap();
            assert_eq!(bins.last().unwrap().quantile, one);
            for pair in bins.windows(2) {
                assert!(share(&pair[0]) <= share(&pair[1]));
            }
            for b in &bins {
                assert!(share(b) >= 0.0 && share(b) <= 1.0);
            }
        }
    }
    let bins = distribution(&finite(3), &vec![3000, 4000, 4001], 5000).unwrap();
    assert_eq!(bins.last().unwrap().quantile, one);
    assert_eq!(bins[0].quantile, 0.0f64.to_bits());
}

/// The lowest value that shares a counter with `value` in a histogram that
/// keeps three significant digits.
fn slot(value: u64) -> u64 {
    if value < 2048 {
        value
    } else {
        let shift = 63 - value.leading_zeros() as u64 - 10;
        (value >> shift) << shift
    }
}

#[test]
fn wide_canvases_count_neighbours_together() {
    let mut state: u64 = 0x9e37_79b9_7f4a_7c15;
    for limit in [2001u64, 2047, 2048, 4095, 4096, 5000, 10_000, 70_000] {
        for size in [1usize, 2, 5, 40] {
            let mut columns = Vec::new();
            for _ in 0..size {
                state ^= state << 13;
                state ^= state >> 7;
                state ^= state << 17;
                columns.push(state % (limit + 1));
            }
            columns[0] = limit;
            let bins = distribution(&finite(size), &columns, limit).unwrap();
            let top = columns.iter().copied().map(slot).max().unwrap();
            let length = bins.len() as u64;
            assert_eq!(slot(length - 1), top, "limit {limit}");
            assert_eq!(slot(length), length, "limit {limit}");
            for (i, b) in bins.iter().enumerate() {
                let expected = columns.iter().filter(|c| slot(**c) == i as u64).count() as u64;
                assert_eq!(b.count, expected, "limit {limit}, column {i}");
            }
        }
    }
}
