//! The cumulative distribution of a series.
//!
//! The samples of a series are counted by the column that each would be drawn
//! in; walking the columns from the left then gives, for every column, the
//! share of the samples that lie in it or left of it. The counting is done by
//! a histogram of the `hdrhistogram` crate, which this module fills and walks
//! through the wrappers below.

use crate::bits::{finite, is_finite, is_less, is_nan, NAN, ONE, ZERO};
use crate::data::Data;
use crate::glyph::MAX_SERIES;
use vstd::multiset::Multiset;
use vstd::prelude::*;

verus! {

/// The least value that a histogram must reach to: twice its lowest value.
pub const LEAST_LIMIT: u64 = 2;

/// The lowest value that the histogram tells from zero.
pub const LOWEST: u64 = 1;

/// Significant decimal digits that the histogram keeps of a value.
pub const DIGITS: u8 = 3;

/// A histogram that tells [`LOWEST`] from zero and keeps [`DIGITS`]
/// significant digits keeps every value apart up to twice the third power
/// of ten.
pub const EXACT_LIMIT: u64 = 2000;

/// The histogram walks its values in steps of this size.
pub const STEP: u64 = 1;

/// `hdrhistogram::Histogram<u32>`, a histogram with 32-bit counters, made to
/// tell [`LOWEST`] from zero and to keep [`DIGITS`] significant digits: no
/// other is made here. Nothing of it is seen; what it holds goes by the
/// names [`recorded`] and [`reach`].
#[verifier::external_body]
pub struct Tally {
    inner: hdrhistogram::Histogram<u32>,
}

/// `hdrhistogram::CreationError`, why no histogram is made.
#[verifier::external_type_specification]
pub struct ExCreationError(hdrhistogram::CreationError);

/// `hdrhistogram::RecordError`, why a value is not recorded.
#[verifier::external_type_specification]
pub struct ExRecordError(hdrhistogram::RecordError);

/// The samples that a histogram counts: of every slot of its counters the
/// lowest value that the slot stands for, as often as the slot counts. Up
/// to [`EXACT_LIMIT`] every value has a slot of its own; a greater value may
/// share its slot with its neighbours.
pub uninterp spec fn recorded(tally: Tally) -> Multiset<u64>;

/// The highest value that a histogram was made to track.
pub uninterp spec fn reach(tally: Tally) -> u64;

/// The lowest of the values that share a slot with `value` in a histogram as
/// it is made here: what `hdrhistogram::Histogram::lowest_equivalent` gives
/// for `value`.
pub uninterp spec fn slot_of(value: u64) -> u64;

/// The bits of the quantile `below / total` as `hdrhistogram` computes it in
/// binary64 from the two counts, of which `total` is not zero.
pub uninterp spec fn quantile_bits(below: u64, total: u64) -> u64;

/// The samples that the first `n` steps of a walk have counted.
pub open spec fn walked(steps: Seq<(u64, u64, u64)>, n: int) -> int
    decreases n,
{
    if n <= 0 {
        0
    } else {
        walked(steps, n - 1) + steps[n - 1].1
    }
}

/// `hdrhistogram::Histogram::<u32>::new_with_bounds`: an empty histogram for
/// values from `low` to `high`, kept to `sigfig` significant digits.
///
/// Asked for only with the lowest value and the digits of this module, on
/// which the other claims about a histogram rest. Claimed: a histogram that
/// is made is empty and reaches to `high`; one is made exactly where `high`
/// is at least twice the lowest value.
#[verifier::external_body]
fn tally_new(low: u64, high: u64, sigfig: u8) -> (made: Result<
    Tally,
    hdrhistogram::CreationError,
>)
    requires
        low == LOWEST,
        sigfig == DIGITS,
    ensures
        made matches Ok(tally) ==> recorded(tally) == Multiset::<u64>::empty() && reach(tally)
            == high,
        high >= LEAST_LIMIT ==> made is Ok,
        high < LEAST_LIMIT ==> made is Err,
{
    hdrhistogram::Histogram::<u32>::new_with_bounds(low, high, sigfig).map(|inner| Tally { inner })
}

/// `hdrhistogram::Histogram::record`: counts one more sample of `value`.
///
/// Asked for only while the histogram counts fewer samples than a counter
/// holds, so that no counter is full. Claimed: a value up to the
/// histogram's reach is always taken; a value that is taken is counted in
/// its slot, which makes one sample more of the slot's lowest value; up to
/// [`EXACT_LIMIT`] that is the value itself; a value that is refused leaves
/// the histogram as it was; the reach stays.
#[verifier::external_body]
fn tally_record(tally: &mut Tally, value: u64) -> (taken: Result<(), hdrhistogram::RecordError>)
    requires
        recorded(*old(tally)).len() < u32::MAX,
    ensures
        value <= reach(*old(tally)) ==> taken is Ok,
        taken is Ok ==> recorded(*final(tally)) == recorded(*old(tally)).insert(slot_of(value)),
        taken is Ok && value <= EXACT_LIMIT ==> recorded(*final(tally)) == recorded(
            *old(tally),
        ).insert(value),
        taken is Err ==> recorded(*final(tally)) == recorded(*old(tally)),
        reach(*final(tally)) == reach(*old(tally)),
{
    tally.inner.record(value)
}

/// Step `i` of the walk has walked to the value `i`.
pub open spec fn walks_by_ones(steps: Seq<(u64, u64, u64)>) -> bool {
    forall|i: int| 0 <= i < steps.len() ==> (#[trigger] steps[i]).0 == i
}

/// Step `i` counts the samples of the value `i`, and the walk goes on beyond
/// every value that has a sample.
pub open spec fn counts_by_slot(steps: Seq<(u64, u64, u64)>, samples: Multiset<u64>) -> bool {
    &&& forall|i: int| 0 <= i < steps.len() ==> (#[trigger] steps[i]).1 == samples.count(i as u64)
    &&& forall|v: u64| samples.count(v) > 0 ==> v < steps.len()
}

/// Step `i` counts the samples of the value `i`, and the walk ends with the
/// greatest value that has a sample.
pub open spec fn counts_each_value(steps: Seq<(u64, u64, u64)>, samples: Multiset<u64>) -> bool {
    &&& forall|i: int| 0 <= i < steps.len() ==> (#[trigger] steps[i]).1 == samples.count(i as u64)
    &&& forall|v: u64| samples.count(v) > 0 ==> v < steps.len()
    &&& steps.len() == 1 || samples.count((steps.len() - 1) as u64) > 0
}

/// The quantiles of the steps are numbers from 0 to 1 that never fall from
/// one step to the next, and the last of them is 1.
pub open spec fn quantiles_rise(steps: Seq<(u64, u64, u64)>) -> bool {
    &&& forall|i: int|
        0 <= i < steps.len() ==> is_finite((#[trigger] steps[i]).2) && !is_less(steps[i].2, ZERO)
            && !is_less(ONE, steps[i].2)
    &&& forall|i: int, j: int|
        0 <= i <= j < steps.len() ==> !is_less((#[trigger] steps[j]).2, (#[trigger] steps[i]).2)
    &&& steps.last().2 == ONE
}

/// `hdrhistogram::Histogram::iter_linear`: walks the values from zero in
/// steps of `step`, and hands out for each step the value walked to
/// (`value_iterated_to`), the samples counted since the step before
/// (`count_since_last_iteration`) and the bits of `quantile`.
///
/// Claimed, of a walk in steps of one through a histogram as `tally_new`
/// makes it, over no more samples than a counter holds: there is a first
/// step; step `i` walks to the value `i`; the steps count every sample once,
/// each slot's samples at the step of the slot's lowest value; the walk ends
/// with the last value of the slot that holds the greatest sample, so that
/// the value after it starts a slot; and where the histogram reaches no
/// further than it keeps values apart, the last step is that of the greatest
/// recorded value.
///
/// Claimed of the quantiles: in a histogram with samples, that of a step is
/// the quotient of the samples counted up to it and all samples. The
/// quotient is taken in binary64, where division is rounded correctly:
/// so it lies between 0 and 1, does not fall as the count rises, and is 1
/// at the last step, where the count is that of all samples. In a histogram
/// without samples the quotient is that of zero and zero, a not-a-number of
/// which no more is said.
#[verifier::external_body]
fn tally_walk(tally: &Tally, step: u64) -> (steps: Vec<(u64, u64, u64)>)
    requires
        step == 1,
        recorded(*tally).len() <= u32::MAX,
    ensures
        steps@.len() >= 1,
        walks_by_ones(steps@),
        walked(steps@, steps@.len() as int) == recorded(*tally).len(),
        counts_by_slot(steps@, recorded(*tally)),
        steps@.len() == 1 || recorded(*tally).count(slot_of((steps@.len() - 1) as u64)) > 0,
        slot_of(steps@.len() as u64) == steps@.len(),
        recorded(*tally).len() > 0 ==> forall|i: int|
            0 <= i < steps@.len() ==> (#[trigger] steps@[i]).2 == quantile_bits(
                walked(steps@, i + 1) as u64,
                recorded(*tally).len() as u64,
            ),
        recorded(*tally).len() > 0 ==> quantiles_rise(steps@),
        recorded(*tally).len() == 0 ==> forall|i: int|
            0 <= i < steps@.len() ==> is_nan((#[trigger] steps@[i]).2),
        reach(*tally) <= EXACT_LIMIT ==> counts_each_value(steps@, recorded(*tally)),
{
    tally.inner.iter_linear(step).map(
        |bin| (bin.value_iterated_to(), bin.count_since_last_iteration(), bin.quantile().to_bits()),
    ).collect()
}

/// One column of a distribution.
#[derive(Debug, Clone, Copy, PartialEq, Eq, Structural)]
pub struct Bin {
    /// The column.
    pub value: u64,
    /// Samples in this column.
    pub count: u64,
    /// Samples in this column and in the columns left of it.
    pub running: u64,
    /// The share of all samples that `running` is, from 0 to 1, as the bits of
    /// a binary64 number.
    pub quantile: u64,
}

/// Why a series has no distribution.
#[derive(Debug, Clone, Copy, PartialEq, Eq, Structural)]
pub enum CdfError {
    /// The canvas has fewer than two columns.
    TooNarrow,
    /// The sample of this row lies in a column beyond the canvas.
    OutOfRange { row: usize },
    /// The series holds more samples than a counter of the histogram counts.
    TooMany,
}

/// The columns of the samples that are counted among the first `n`: those of
/// the finite samples, in order. Counting stops at the first sample that
/// cannot be counted.
pub open spec fn counted_columns(samples: Seq<u64>, columns: Seq<u64>, limit: u64, n: int) -> Result<
    Seq<u64>,
    CdfError,
>
    decreases n,
{
    if n <= 0 {
        Ok(Seq::empty())
    } else {
        match counted_columns(samples, columns, limit, n - 1) {
            Err(e) => Err(e),
            Ok(before) => if !is_finite(samples[n - 1]) {
                Ok(before)
            } else if columns[n - 1] > limit {
                Err(CdfError::OutOfRange { row: (n - 1) as usize })
            } else if before.len() >= u32::MAX {
                Err(CdfError::TooMany)
            } else {
                Ok(before.push(columns[n - 1]))
            },
        }
    }
}

/// How many of the first `n` samples are finite.
pub open spec fn finite_count(samples: Seq<u64>, n: int) -> nat
    decreases n,
{
    if n <= 0 {
        0
    } else {
        finite_count(samples, n - 1) + if is_finite(samples[n - 1]) {
            1nat
        } else {
            0nat
        }
    }
}

/// The samples in the first `n` columns of a distribution.
pub open spec fn samples_upto(bins: Seq<Bin>, n: int) -> int
    decreases n,
{
    if n <= 0 {
        0
    } else {
        samples_upto(bins, n - 1) + bins[n - 1].count
    }
}

/// The quantiles of the columns are numbers from 0 to 1 that never fall from
/// one column to the next, and the last of them is 1.
pub open spec fn quantiles_never_fall(bins: Seq<Bin>) -> bool {
    &&& forall|i: int|
        0 <= i < bins.len() ==> is_finite((#[trigger] bins[i]).quantile) && !is_less(
            bins[i].quantile,
            ZERO,
        ) && !is_less(ONE, bins[i].quantile)
    &&& forall|i: int, j: int|
        0 <= i <= j < bins.len() ==> !is_less(
            (#[trigger] bins[j]).quantile,
            (#[trigger] bins[i]).quantile,
        )
    &&& bins.last().quantile == ONE
}

/// The columns that the samples are counted in: of each sample's column the
/// lowest that shares a slot with it.
pub open spec fn slotted(columns: Seq<u64>) -> Seq<u64> {
    Seq::new(columns.len(), |k: int| slot_of(columns[k]))
}

/// `bins` is the distribution of samples that lie in the columns `columns`:
/// column by column their number, their running number and its share of all
/// samples. Of samples that are none the share is a not-a-number.
///
/// A sample is counted in the lowest column that shares a slot with its own.
/// Up to [`EXACT_LIMIT`] that is its own column; so on a canvas no wider than
/// that every column counts its own samples, and the last column is that of
/// the rightmost sample.
pub open spec fn is_distribution(bins: Seq<Bin>, columns: Seq<u64>, limit: u64) -> bool {
    &&& bins.len() >= 1
    &&& forall|i: int|
        0 <= i < bins.len() ==> (#[trigger] bins[i]).count == slotted(columns).to_multiset().count(
            i as u64,
        )
    &&& forall|k: int| 0 <= k < columns.len() ==> slot_of(#[trigger] columns[k]) < bins.len()
    &&& forall|k: int|
        0 <= k < columns.len() && columns[k] <= EXACT_LIMIT ==> slot_of(#[trigger] columns[k])
            == columns[k]
    &&& bins.len() == 1 || slotted(columns).to_multiset().count(slot_of((bins.len() - 1) as u64))
        > 0
    &&& slot_of(bins.len() as u64) == bins.len()
    &&& forall|i: int| 0 <= i < bins.len() ==> (#[trigger] bins[i]).value == i
    &&& forall|i: int| 0 <= i < bins.len() ==> (#[trigger] bins[i]).running == samples_upto(bins, i + 1)
    &&& samples_upto(bins, bins.len() as int) == columns.len()
    &&& columns.len() > 0 ==> forall|i: int|
        0 <= i < bins.len() ==> (#[trigger] bins[i]).quantile == quantile_bits(
            bins[i].running,
            columns.len() as u64,
        )
    &&& columns.len() > 0 ==> quantiles_never_fall(bins)
    &&& columns.len() == 0 ==> forall|i: int|
        0 <= i < bins.len() ==> is_nan((#[trigger] bins[i]).quantile)
    &&& limit <= EXACT_LIMIT ==> {
        &&& forall|i: int|
            0 <= i < bins.len() ==> (#[trigger] bins[i]).count == columns.to_multiset().count(i as u64)
        &&& forall|v: u64| columns.to_multiset().count(v) > 0 ==> v < bins.len()
        &&& bins.len() == 1 || columns.to_multiset().count((bins.len() - 1) as u64) > 0
    }
}

proof fn lemma_walked_grows(steps: Seq<(u64, u64, u64)>, a: int, b: int)
    requires
        0 <= a <= b,
    ensures
        0 <= walked(steps, a) <= walked(steps, b),
    decreases b,
{
    if a < b {
        lemma_walked_grows(steps, a, b - 1);
    } else {
        if a > 0 {
            lemma_walked_grows(steps, a - 1, a - 1);
        }
    }
}

/// Where all samples can be counted, every finite sample is counted once and
/// no other: a distribution has as many samples as its series has finite ones.
pub proof fn lemma_counts_finite_samples(samples: Seq<u64>, columns: Seq<u64>, limit: u64, n: int)
    requires
        0 <= n <= samples.len(),
        samples.len() == columns.len(),
        counted_columns(samples, columns, limit, n) is Ok,
    ensures
        counted_columns(samples, columns, limit, n)->Ok_0.len() == finite_count(samples, n),
    decreases n,
{
    if n > 0 {
        lemma_counts_finite_samples(samples, columns, limit, n - 1);
    }
}

/// Counts never fall along a distribution: each column counts the samples of
/// all columns before it as well.
pub proof fn lemma_running_rises(bins: Seq<Bin>, a: int, b: int)
    requires
        0 <= a <= b,
    ensures
        0 <= samples_upto(bins, a) <= samples_upto(bins, b),
    decreases b,
{
    if a < b {
        lemma_running_rises(bins, a, b - 1);
    } else {
        if a > 0 {
            lemma_running_rises(bins, a - 1, a - 1);
        }
    }
}

/// The columns of a distribution count every sample once, and the count of
/// samples up to a column never falls from one column to the next.
pub proof fn lemma_distribution_totals(bins: Seq<Bin>, columns: Seq<u64>, limit: u64, i: int, j: int)
    requires
        is_distribution(bins, columns, limit),
        0 <= i <= j < bins.len(),
    ensures
        bins[i].running <= bins[j].running,
        bins[j].running <= columns.len(),
        bins.last().running == columns.len(),
{
    lemma_running_rises(bins, i + 1, j + 1);
    lemma_running_rises(bins, j + 1, bins.len() as int);
}

/// The share of the samples up to a column never falls from one column to the
/// next, and a series made of a distribution never falls from one row to the
/// next: where it has no more columns it goes on with its last share, 1.
pub proof fn lemma_quantiles_never_fall(
    bins: Seq<Bin>,
    columns: Seq<u64>,
    limit: u64,
    earlier: int,
    later: int,
)
    requires
        is_distribution(bins, columns, limit),
        columns.len() > 0,
        0 <= earlier <= later,
    ensures
        !is_less(spread(bins, later), spread(bins, earlier)),
        is_finite(spread(bins, later)),
        later >= bins.len() - 1 ==> spread(bins, later) == ONE,
{
    let last = bins.len() - 1;
    let i = if earlier < bins.len() {
        earlier
    } else {
        last
    };
    let j = if later < bins.len() {
        later
    } else {
        last
    };
    assert(spread(bins, earlier) == bins[i].quantile);
    assert(spread(bins, later) == bins[j].quantile);
    assert(!is_less(bins[j].quantile, bins[i].quantile));
}

/// The distribution of a series: for every column from the left edge to the
/// last column that holds a sample, how many of the samples lie in it, how
/// many in it and left of it, and what share of all that is.
///
/// `columns[r]` is the column that the caller has found for `samples[r]`;
/// samples that are not finite are left out, whatever their column.
pub fn distribution(samples: &Vec<u64>, columns: &Vec<u64>, limit: u64) -> (result: Result<
    Vec<Bin>,
    CdfError,
>)
    requires
        samples@.len() == columns@.len(),
    ensures
        match result {
            Ok(bins) => limit >= LEAST_LIMIT && (counted_columns(
                samples@,
                columns@,
                limit,
                samples@.len() as int,
            ) matches Ok(counted) && is_distribution(bins@, counted, limit)) && samples_upto(
                bins@,
                bins@.len() as int,
            ) == finite_count(samples@, samples@.len() as int),
            Err(e) => if limit < LEAST_LIMIT {
                e == CdfError::TooNarrow
            } else {
                counted_columns(samples@, columns@, limit, samples@.len() as int) == Err::<
                    Seq<u64>,
                    CdfError,
                >(e)
            },
        },
{
    if limit < LEAST_LIMIT {
        return Err(CdfError::TooNarrow);
    }
    let mut tally = match tally_new(LOWEST, limit, DIGITS) {
        Ok(tally) => tally,
        Err(_) => {
            return Err(CdfError::TooNarrow);
        },
    };
    let ghost mut counted: Seq<u64> = Seq::empty();
    let mut n: u32 = 0;
    let mut r: usize = 0;
    proof {
        broadcast use vstd::seq_lib::group_to_multiset_ensures;

        assert(counted.to_multiset() =~= Multiset::<u64>::empty());
        assert(slotted(counted) =~= Seq::<u64>::empty());
    }
    while r < samples.len()
        invariant
            samples@.len() == columns@.len(),
            r <= samples@.len(),
            limit >= LEAST_LIMIT,
            reach(tally) == limit,
            counted_columns(samples@, columns@, limit, r as int) == Ok::<Seq<u64>, CdfError>(counted),
            recorded(tally).len() == counted.len(),
            recorded(tally) == slotted(counted).to_multiset(),
            limit <= EXACT_LIMIT ==> recorded(tally) == counted.to_multiset(),
            forall|k: int|
                0 <= k < counted.len() && counted[k] <= EXACT_LIMIT ==> slot_of(
                    #[trigger] counted[k],
                ) == counted[k],
            n == counted.len(),
        decreases samples@.len() - r,
    {
        if finite(samples[r]) {
            let column = columns[r];
            if column > limit {
                proof {
                    lemma_counting_stops(samples@, columns@, limit, r + 1, samples@.len() as int);
                }
                return Err(CdfError::OutOfRange { row: r });
            }
            if n == u32::MAX {
                proof {
                    lemma_counting_stops(samples@, columns@, limit, r + 1, samples@.len() as int);
                }
                return Err(CdfError::TooMany);
            }
            let ghost before = recorded(tally);
            match tally_record(&mut tally, column) {
                Ok(()) => {},
                Err(_) => {
                    return Err(CdfError::OutOfRange { row: r });
                },
            }
            proof {
                broadcast use vstd::seq_lib::group_to_multiset_ensures;

                assert(counted.push(column).to_multiset() =~= counted.to_multiset().insert(column));
                assert(slotted(counted.push(column)) =~= slotted(counted).push(slot_of(column)));
                if column <= EXACT_LIMIT {
                    assert(before.insert(column).count(column) == before.insert(
                        slot_of(column),
                    ).count(column));
                    assert(slot_of(column) == column);
                }
                counted = counted.push(column);
            }
            n += 1;
        }
        r += 1;
    }
    let steps = tally_walk(&tally, STEP);
    let mut bins: Vec<Bin> = Vec::new();
    let mut running: u64 = 0;
    let mut i: usize = 0;
    while i < steps.len()
        invariant
            i <= steps@.len(),
            bins@.len() == i,
            running == walked(steps@, i as int),
            walked(steps@, steps@.len() as int) == counted.len(),
            counted.len() <= u32::MAX,
            forall|k: int|
                0 <= k < i ==> {
                    &&& (#[trigger] bins@[k]).value == steps@[k].0
                    &&& bins@[k].count == steps@[k].1
                    &&& bins@[k].running == walked(steps@, k + 1)
                    &&& bins@[k].quantile == steps@[k].2
                },
        decreases steps@.len() - i,
    {
        let (value, count, quantile) = steps[i];
        proof {
            lemma_walked_grows(steps@, i + 1, steps@.len() as int);
            lemma_walked_grows(steps@, i as int, i + 1);
        }
        running = running + count;
        bins.push(Bin { value, count, running, quantile });
        i += 1;
    }
    proof {
        lemma_counts_finite_samples(samples@, columns@, limit, samples@.len() as int);
        lemma_bins_follow_walk(bins@, steps@, bins@.len() as int);
        assert forall|k: int| 0 <= k < bins@.len() implies (#[trigger] bins@[k]).running
            == samples_upto(bins@, k + 1) by {
            lemma_bins_follow_walk(bins@, steps@, k + 1);
        }
        assert forall|k: int| 0 <= k < counted.len() implies slot_of(#[trigger] counted[k])
            < bins@.len() by {
            broadcast use vstd::seq_lib::group_to_multiset_ensures;

            let slots = slotted(counted);
            assert(slots[k] == slot_of(counted[k]));
            assert(slots.contains(slots[k]));
            assert(slots.to_multiset().count(slots[k]) > 0);
        }
        assert(is_distribution(bins@, counted, limit));
    }
    Ok(bins)
}

proof fn lemma_bins_follow_walk(bins: Seq<Bin>, steps: Seq<(u64, u64, u64)>, n: int)
    requires
        0 <= n <= bins.len() <= steps.len(),
        forall|k: int| 0 <= k < bins.len() ==> (#[trigger] bins[k]).count == steps[k].1,
    ensures
        samples_upto(bins, n) == walked(steps, n),
    decreases n,
{
    if n > 0 {
        lemma_bins_follow_walk(bins, steps, n - 1);
    }
}

/// Once a sample cannot be counted, the counting has stopped for good.
proof fn lemma_counting_stops(samples: Seq<u64>, columns: Seq<u64>, limit: u64, at: int, n: int)
    requires
        0 <= at <= n,
        counted_columns(samples, columns, limit, at) is Err,
    ensures
        counted_columns(samples, columns, limit, n) == counted_columns(samples, columns, limit, at),
    decreases n,
{
    if at < n {
        lemma_counting_stops(samples, columns, limit, at, n - 1);
    }
}

/// The number of columns of the widest distribution.
pub open spec fn widest(series: Seq<Vec<Bin>>, upto: int) -> nat
    decreases upto,
{
    if upto <= 0 {
        0
    } else {
        let before = widest(series, upto - 1);
        if series[upto - 1]@.len() > before {
            series[upto - 1]@.len()
        } else {
            before
        }
    }
}

/// The sample of row `r` in a series made of a distribution: the quantile of
/// column `r`; past the last column the last quantile again, and a missing
/// sample where there is no column at all.
pub open spec fn spread(bins: Seq<Bin>, r: int) -> u64 {
    if r < bins.len() {
        bins[r].quantile
    } else if bins.len() > 0 {
        bins.last().quantile
    } else {
        NAN
    }
}

/// The number of columns of the widest of the distributions: as many X values
/// as the data made of them have.
pub fn shared_length(series: &Vec<Vec<Bin>>) -> (length: usize)
    ensures
        length == widest(series@, series@.len() as int),
        forall|s: int| 0 <= s < series@.len() ==> (#[trigger] series@[s])@.len() <= length,
{
    let mut length: usize = 0;
    let mut s: usize = 0;
    while s < series.len()
        invariant
            s <= series@.len(),
            length == widest(series@, s as int),
            forall|k: int| 0 <= k < s ==> (#[trigger] series@[k])@.len() <= length,
        decreases series@.len() - s,
    {
        if series[s].len() > length {
            length = series[s].len();
        }
        s += 1;
    }
    length
}

impl Data {
    /// Replaces the data by distributions: `xs` become the X values, and the
    /// quantiles of `series[s]` become series `s`, which goes on with its
    /// last quantile where it has fewer columns than there are X values.
    pub fn set_distributions(&mut self, xs: Vec<u64>, series: &Vec<Vec<Bin>>)
        requires
            series@.len() <= MAX_SERIES,
            forall|s: int| 0 <= s < series@.len() ==> (#[trigger] series@[s])@.len() <= xs@.len(),
        ensures
            final(self).wf(),
            final(self).flipped == old(self).flipped,
            final(self).xs@ == xs@,
            final(self).ys@.len() == series@.len(),
            forall|s: int, r: int|
                0 <= s < series@.len() && 0 <= r < xs@.len() ==> #[trigger] final(self).ys@[s]@[r]
                    == spread(series@[s]@, r),
    {
        let rows = xs.len();
        let mut ys: Vec<Vec<u64>> = Vec::new();
        let mut s: usize = 0;
        while s < series.len()
            invariant
                s <= series@.len(),
                rows == xs@.len(),
                ys@.len() == s,
                forall|k: int| 0 <= k < series@.len() ==> (#[trigger] series@[k])@.len() <= rows,
                forall|k: int| 0 <= k < s ==> (#[trigger] ys@[k])@.len() == rows,
                forall|k: int, r: int|
                    0 <= k < s && 0 <= r < rows ==> #[trigger] ys@[k]@[r] == spread(series@[k]@, r),
            decreases series@.len() - s,
        {
            let bins = &series[s];
            let mut column: Vec<u64> = Vec::new();
            let mut r: usize = 0;
            while r < rows
                invariant
                    r <= rows,
                    s < series@.len(),
                    bins@ == series@[s as int]@,
                    bins@.len() <= rows,
                    column@.len() == r,
                    forall|k: int| 0 <= k < r ==> #[trigger] column@[k] == spread(bins@, k),
                decreases rows - r,
            {
                let value = if r < bins.len() {
                    bins[r].quantile
                } else if bins.len() > 0 {
                    bins[bins.len() - 1].quantile
                } else {
                    NAN
                };
                column.push(value);
                r += 1;
            }
            ys.push(column);
            s += 1;
        }
        self.xs = xs;
        self.ys = ys;
    }
}

} // verus!
