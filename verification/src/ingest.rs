//! From lines of text to rows of data.
//!
//! A line is cut into fields at every character that cannot stand in a number.
//! Turning a field into a number is the caller's part; a field that writes no
//! number is a missing sample. Where the rows carry their own X value it is
//! the first field of the line, and the fields after it are the samples of
//! the series in order.

use crate::bits::{is_zero, NAN};
use crate::data::Data;
use crate::glyph::MAX_SERIES;
use vstd::prelude::*;

verus! {

/// Whether the character can stand in a number: a digit, a sign, the decimal
/// point, or the `e` of an exponent.
pub open spec fn is_numeric(c: char) -> bool {
    ('0' <= c <= '9') || c == '-' || c == '+' || c == '.' || c == 'E' || c == 'e'
}

/// Whether the character is white space.
pub open spec fn is_space(c: char) -> bool {
    ('\u{9}' <= c <= '\u{d}') || c == ' ' || c == '\u{85}' || c == '\u{a0}' || c == '\u{1680}' || (
    '\u{2000}' <= c <= '\u{200a}') || c == '\u{2028}' || c == '\u{2029}' || c == '\u{202f}' || c
        == '\u{205f}' || c == '\u{3000}'
}

/// The length of the line without the white space at its end.
pub open spec fn trimmed_length(line: Seq<char>) -> int
    decreases line.len(),
{
    if line.len() == 0 || !is_space(line.last()) {
        line.len() as int
    } else {
        trimmed_length(line.drop_last())
    }
}

/// Where the field that starts at `start` ends: at the first character from
/// there on that cannot stand in a number, or at the end of the line.
pub open spec fn field_end(line: Seq<char>, start: int) -> int
    decreases line.len() - start,
{
    if start >= line.len() || start < 0 || !is_numeric(line[start]) {
        start
    } else {
        field_end(line, start + 1)
    }
}

/// A field ends at or after its start, and within the line.
pub proof fn lemma_field_end_bounds(line: Seq<char>, start: int)
    requires
        0 <= start <= line.len(),
    ensures
        start <= field_end(line, start) <= line.len(),
    decreases line.len() - start,
{
    if start < line.len() && is_numeric(line[start]) {
        lemma_field_end_bounds(line, start + 1);
    }
}

/// The fields of the line from `start` on: each ends at one separating
/// character, so that two separators in a row hold an empty field between them.
pub open spec fn fields_from(line: Seq<char>, start: int) -> Seq<Seq<char>>
    decreases line.len() - start,
{
    if start >= line.len() || start < 0 {
        Seq::empty()
    } else {
        let end = field_end(line, start);
        proof {
            lemma_field_end_bounds(line, start);
        }
        seq![line.subrange(start, end)] + (if end < line.len() {
            fields_from(line, end + 1)
        } else {
            Seq::empty()
        })
    }
}

/// The fields with every run of empty fields made one empty field.
pub open spec fn merged(fields: Seq<Seq<char>>) -> Seq<Seq<char>>
    decreases fields.len(),
{
    if fields.len() == 0 {
        Seq::empty()
    } else {
        let before = merged(fields.drop_last());
        if fields.last().len() == 0 && before.len() > 0 && before.last().len() == 0 {
            before
        } else {
            before.push(fields.last())
        }
    }
}

/// The characters of each field.
pub open spec fn texts(fields: Seq<Vec<char>>) -> Seq<Seq<char>> {
    Seq::new(fields.len(), |i: int| fields[i]@)
}

/// The fields of a line: those of the line without its trailing white space,
/// a run of separators counting as one missing field.
pub open spec fn line_fields(line: Seq<char>) -> Seq<Seq<char>> {
    merged(fields_from(line.take(trimmed_length(line)), 0))
}

/// Whether every character of the field can stand in a number.
pub open spec fn is_numeric_field(field: Seq<char>) -> bool {
    forall|i: int| 0 <= i < field.len() ==> is_numeric(#[trigger] field[i])
}

proof fn lemma_field_is_numeric(line: Seq<char>, start: int)
    requires
        0 <= start <= line.len(),
    ensures
        is_numeric_field(line.subrange(start, field_end(line, start))),
    decreases line.len() - start,
{
    lemma_field_end_bounds(line, start);
    if start < line.len() && is_numeric(line[start]) {
        lemma_field_is_numeric(line, start + 1);
        lemma_field_end_bounds(line, start + 1);
        let end = field_end(line, start);
        let field = line.subrange(start, end);
        let rest = line.subrange(start + 1, end);
        assert forall|i: int| 0 <= i < field.len() implies is_numeric(#[trigger] field[i]) by {
            if i > 0 {
                assert(field[i] == rest[i - 1]);
            }
        }
    }
}

proof fn lemma_fields_from_numeric(line: Seq<char>, start: int, k: int)
    requires
        0 <= start,
        0 <= k < fields_from(line, start).len(),
    ensures
        is_numeric_field(fields_from(line, start)[k]),
    decreases line.len() - start,
{
    if start < line.len() {
        let end = field_end(line, start);
        lemma_field_end_bounds(line, start);
        lemma_field_is_numeric(line, start);
        if k > 0 {
            if end < line.len() {
                lemma_fields_from_numeric(line, end + 1, k - 1);
            }
        }
    }
}

proof fn lemma_merged_within(fields: Seq<Seq<char>>, k: int)
    requires
        0 <= k < merged(fields).len(),
    ensures
        exists|j: int| 0 <= j < fields.len() && fields[j] == merged(fields)[k],
    decreases fields.len(),
{
    if fields.len() > 0 {
        let before = merged(fields.drop_last());
        if k < before.len() {
            lemma_merged_within(fields.drop_last(), k);
            let j = choose|j: int|
                0 <= j < fields.drop_last().len() && fields.drop_last()[j] == before[k];
            assert(fields[j] == merged(fields)[k]);
        } else {
            assert(fields[fields.len() - 1] == merged(fields)[k]);
        }
    }
}

/// A field holds no character that cannot stand in a number: whatever else
/// is in a line only separates its fields.
pub proof fn lemma_fields_are_numeric(line: Seq<char>, k: int)
    requires
        0 <= k < line_fields(line).len(),
    ensures
        is_numeric_field(line_fields(line)[k]),
{
    let text = line.take(trimmed_length(line));
    let raw = fields_from(text, 0);
    lemma_merged_within(raw, k);
    let j = choose|j: int| 0 <= j < raw.len() && raw[j] == merged(raw)[k];
    lemma_fields_from_numeric(text, 0, j);
}

/// Whether the character can stand in a number.
pub fn numeric(c: char) -> (yes: bool)
    ensures
        yes == is_numeric(c),
{
    ('0' <= c && c <= '9') || c == '-' || c == '+' || c == '.' || c == 'E' || c == 'e'
}

/// Whether the character is white space.
pub fn space(c: char) -> (yes: bool)
    ensures
        yes == is_space(c),
{
    ('\u{9}' <= c && c <= '\u{d}') || c == ' ' || c == '\u{85}' || c == '\u{a0}' || c
        == '\u{1680}' || ('\u{2000}' <= c && c <= '\u{200a}') || c == '\u{2028}' || c == '\u{2029}'
        || c == '\u{202f}' || c == '\u{205f}' || c == '\u{3000}'
}

proof fn lemma_field_end(line: Seq<char>, start: int, end: int)
    requires
        0 <= start <= end <= line.len(),
        forall|k: int| start <= k < end ==> is_numeric(line[k]),
        end == line.len() || !is_numeric(line[end]),
    ensures
        field_end(line, start) == end,
    decreases end - start,
{
    if start < end {
        lemma_field_end(line, start + 1, end);
    }
}

proof fn lemma_trimmed_length(line: Seq<char>, end: int)
    requires
        0 <= end <= line.len(),
        forall|k: int| end <= k < line.len() ==> is_space(line[k]),
        end == 0 || !is_space(line[end - 1]),
    ensures
        trimmed_length(line) == end,
    decreases line.len(),
{
    if end < line.len() {
        let shorter = line.drop_last();
        assert forall|k: int| end <= k < shorter.len() implies is_space(shorter[k]) by {
            assert(shorter[k] == line[k]);
        }
        if end > 0 {
            assert(shorter[end - 1] == line[end - 1]);
        }
        lemma_trimmed_length(shorter, end);
    }
}

/// Cuts a line into its fields.
pub fn fields(line: &Vec<char>) -> (fields: Vec<Vec<char>>)
    ensures
        texts(fields@) == line_fields(line@),
{
    let mut end = line.len();
    while end > 0 && space(line[end - 1])
        invariant
            end <= line@.len(),
            forall|k: int| end <= k < line@.len() ==> is_space(line@[k]),
        decreases end,
    {
        end -= 1;
    }
    proof {
        lemma_trimmed_length(line@, end as int);
    }
    let ghost text = line@.take(end as int);
    let ghost mut raw: Seq<Seq<char>> = Seq::empty();
    let ghost mut reached: int = 0;
    let mut fields: Vec<Vec<char>> = Vec::new();
    let mut start: usize = 0;
    let mut more = end > 0;
    assert(texts(fields@) =~= merged(raw));
    assert(raw + fields_from(text, 0) =~= fields_from(text, 0));
    while more
        invariant
            end <= line@.len(),
            text == line@.take(end as int),
            more ==> start < end && reached == start,
            !more ==> reached >= end,
            0 <= reached,
            fields_from(text, 0) == raw + fields_from(text, reached),
            texts(fields@) == merged(raw),
        decreases end - start, (if more { 1int } else { 0int }),
    {
        let mut stop = start;
        let mut field: Vec<char> = Vec::new();
        while stop < end && numeric(line[stop])
            invariant
                start <= stop <= end <= line@.len(),
                text == line@.take(end as int),
                forall|k: int| start <= k < stop ==> is_numeric(text[k]),
                field@ == text.subrange(start as int, stop as int),
            decreases end - stop,
        {
            field.push(line[stop]);
            stop += 1;
            assert(field@ =~= text.subrange(start as int, stop as int));
        }
        proof {
            lemma_field_end(text, start as int, stop as int);
            let rest = fields_from(text, stop + 1);
            assert(fields_from(text, start as int) =~= seq![field@] + rest);
            assert(raw + (seq![field@] + rest) =~= raw.push(field@) + rest);
            assert(raw.push(field@).drop_last() =~= raw);
        }
        let keep = field.len() > 0 || fields.len() == 0 || fields[fields.len() - 1].len() > 0;
        let ghost before = texts(fields@);
        assert(fields@.len() > 0 ==> before.last() == fields@[fields@.len() - 1]@);
        if keep {
            fields.push(field);
            assert(texts(fields@) =~= before.push(field@));
        }
        proof {
            raw = raw.push(field@);
            reached = stop + 1;
        }
        if stop < end {
            start = stop + 1;
            more = start < end;
        } else {
            more = false;
        }
    }
    proof {
        assert(fields_from(text, reached) =~= Seq::<Seq<char>>::empty());
        assert(raw + Seq::<Seq<char>>::empty() =~= raw);
    }
    fields
}

/// The X value and the samples of a row: where the rows are numbered, all the
/// values are samples; else the first value is the X value. A line without
/// values is no row, numbered or not.
pub open spec fn row_parts(x: Option<u64>, values: Seq<u64>) -> Option<(u64, Seq<u64>)> {
    if values.len() == 0 {
        None
    } else {
        match x {
            Some(x) => Some((x, values)),
            None => Some((values[0], values.skip(1))),
        }
    }
}

/// The number of series after a row with `samples` samples has come to data
/// of `series` series: a row brings new series for its further samples, as
/// far as there are marks for them.
pub open spec fn series_after(series: nat, samples: nat) -> nat {
    let shown = if samples > MAX_SERIES {
        MAX_SERIES as nat
    } else {
        samples
    };
    if shown > series {
        shown
    } else {
        series
    }
}

/// The series `s` after the row has come: what it held, or a missing sample
/// for each earlier row where the series is new, and then the sample of the
/// row, missing where the row has none for it.
pub open spec fn series_with_row(data: Data, samples: Seq<u64>, s: int) -> Seq<u64> {
    let held = if s < data.ys@.len() {
        data.ys@[s]@
    } else {
        Seq::new(data.xs@.len(), |r: int| NAN)
    };
    held.push(
        if s < samples.len() {
            samples[s]
        } else {
            NAN
        },
    )
}

impl Data {
    /// Adds the row of one line. `x` is the X value of a numbered row, `None`
    /// for a row that carries its X value as its first value. A line without
    /// values adds nothing.
    pub fn push_row(&mut self, x: Option<u64>, values: &Vec<u64>)
        requires
            old(self).wf(),
        ensures
            final(self).wf(),
            final(self).flipped == old(self).flipped,
            match row_parts(x, values@) {
                None => final(self).xs@ == old(self).xs@ && final(self).ys@ == old(self).ys@,
                Some((x, samples)) => {
                    &&& final(self).xs@ == old(self).xs@.push(x)
                    &&& final(self).ys@.len() == series_after(old(self).ys@.len(), samples.len())
                    &&& forall|s: int|
                        0 <= s < final(self).ys@.len() ==> (#[trigger] final(self).ys@[s])@
                            == series_with_row(*old(self), samples, s)
                },
            },
    {
        if values.len() == 0 {
            return;
        }
        let (x, skip): (u64, usize) = match x {
            Some(x) => (x, 0),
            None => (values[0], 1),
        };
        let ghost samples = values@.skip(skip as int);
        let rows = self.xs.len();
        let given = values.len() - skip;
        let held = self.ys.len();
        let mut s: usize = 0;
        while s < held
            invariant
                s <= held,
                held == old(self).ys@.len(),
                held == self.ys@.len(),
                held <= MAX_SERIES,
                skip <= values@.len(),
                given + skip == values.len(),
                samples == values@.skip(skip as int),
                self.xs == old(self).xs,
                self.flipped == old(self).flipped,
                old(self).wf(),
                forall|k: int|
                    0 <= k < s ==> (#[trigger] self.ys@[k])@ == series_with_row(
                        *old(self),
                        samples,
                        k,
                    ),
                forall|k: int| s <= k < held ==> self.ys@[k] == old(self).ys@[k],
            decreases held - s,
        {
            let value = if s < given {
                values[s + skip]
            } else {
                NAN
            };
            let ghost before = self.ys@;
            self.ys[s].push(value);
            assert(forall|k: int| 0 <= k < held && k != s ==> self.ys@[k] == before[k]);
            s += 1;
        }
        while s < given && s < MAX_SERIES
            invariant
                held <= s,
                s == self.ys@.len(),
                s <= MAX_SERIES,
                s <= given || s == held,
                held == old(self).ys@.len(),
                skip <= values@.len(),
                given + skip == values.len(),
                samples == values@.skip(skip as int),
                rows == old(self).xs@.len(),
                self.xs == old(self).xs,
                self.flipped == old(self).flipped,
                old(self).wf(),
                forall|k: int|
                    0 <= k < s ==> (#[trigger] self.ys@[k])@ == series_with_row(
                        *old(self),
                        samples,
                        k,
                    ),
            decreases given - s,
        {
            let mut series: Vec<u64> = vec![NAN; rows];
            assert(series@ =~= Seq::new(rows as nat, |r: int| NAN));
            series.push(values[s + skip]);
            let ghost before = self.ys@;
            self.ys.push(series);
            assert(forall|k: int| 0 <= k < s ==> self.ys@[k] == before[k]);
            s += 1;
        }
        self.xs.push(x);
    }

    /// Takes the logarithms of the X values: `logs[r]` is the caller's
    /// logarithm of the X value of row `r`. A value of zero has none and stays.
    pub fn set_log_x(&mut self, logs: &Vec<u64>)
        requires
            logs@.len() == old(self).xs@.len(),
        ensures
            final(self).flipped == old(self).flipped,
            final(self).ys == old(self).ys,
            final(self).xs@.len() == old(self).xs@.len(),
            forall|r: int|
                0 <= r < old(self).xs@.len() ==> #[trigger] final(self).xs@[r] == logged(
                    old(self).xs@[r],
                    logs@[r],
                ),
    {
        let rows = self.xs.len();
        let mut r: usize = 0;
        while r < rows
            invariant
                r <= rows,
                rows == old(self).xs@.len(),
                rows == self.xs@.len(),
                rows == logs@.len(),
                self.flipped == old(self).flipped,
                self.ys == old(self).ys,
                forall|k: int|
                    0 <= k < r ==> #[trigger] self.xs@[k] == logged(old(self).xs@[k], logs@[k]),
                forall|k: int| r <= k < rows ==> self.xs@[k] == old(self).xs@[k],
            decreases rows - r,
        {
            let value = take_log(self.xs[r], logs[r]);
            self.xs.set(r, value);
            r += 1;
        }
    }

    /// Takes the logarithms of the samples: `logs[s][r]` is the caller's
    /// logarithm of the sample of series `s` in row `r`. A sample of zero has
    /// none and stays.
    pub fn set_log_y(&mut self, logs: &Vec<Vec<u64>>)
        requires
            logs@.len() == old(self).ys@.len(),
            forall|s: int|
                0 <= s < logs@.len() ==> (#[trigger] logs@[s])@.len() == old(self).ys@[s]@.len(),
        ensures
            final(self).flipped == old(self).flipped,
            final(self).xs == old(self).xs,
            final(self).ys@.len() == old(self).ys@.len(),
            forall|s: int|
                0 <= s < old(self).ys@.len() ==> (#[trigger] final(self).ys@[s])@.len() == old(
                    self,
                ).ys@[s]@.len(),
            forall|s: int, r: int|
                0 <= s < old(self).ys@.len() && 0 <= r < old(self).ys@[s]@.len()
                    ==> #[trigger] final(self).ys@[s]@[r] == logged(
                    old(self).ys@[s]@[r],
                    logs@[s]@[r],
                ),
    {
        let count = self.ys.len();
        let mut s: usize = 0;
        while s < count
            invariant
                s <= count,
                count == old(self).ys@.len(),
                count == self.ys@.len(),
                count == logs@.len(),
                forall|k: int|
                    0 <= k < logs@.len() ==> (#[trigger] logs@[k])@.len() == old(
                        self,
                    ).ys@[k]@.len(),
                self.flipped == old(self).flipped,
                self.xs == old(self).xs,
                forall|k: int|
                    0 <= k < count ==> (#[trigger] self.ys@[k])@.len() == old(self).ys@[k]@.len(),
                forall|k: int, r: int|
                    0 <= k < s && 0 <= r < old(self).ys@[k]@.len() ==> #[trigger] self.ys@[k]@[r]
                        == logged(old(self).ys@[k]@[r], logs@[k]@[r]),
                forall|k: int| s <= k < count ==> self.ys@[k] == old(self).ys@[k],
            decreases count - s,
        {
            let rows = self.ys[s].len();
            let mut series: Vec<u64> = Vec::new();
            let mut r: usize = 0;
            while r < rows
                invariant
                    r <= rows,
                    s < count,
                    count == self.ys@.len(),
                    count == logs@.len(),
                    rows == self.ys@[s as int]@.len(),
                    rows == logs@[s as int]@.len(),
                    series@.len() == r,
                    forall|k: int|
                        0 <= k < r ==> #[trigger] series@[k] == logged(
                            self.ys@[s as int]@[k],
                            logs@[s as int]@[k],
                        ),
                decreases rows - r,
            {
                series.push(take_log(self.ys[s][r], logs[s][r]));
                r += 1;
            }
            let ghost before = self.ys@;
            self.ys.set(s, series);
            assert(forall|k: int| 0 <= k < count && k != s ==> self.ys@[k] == before[k]);
            s += 1;
        }
    }
}

/// A value after the logarithm has been taken: the logarithm, but the value
/// itself where it is zero.
pub open spec fn logged(value: u64, log: u64) -> u64 {
    if is_zero(value) {
        value
    } else {
        log
    }
}

/// The value to plot on a logarithmic axis, given the value and its logarithm.
pub fn take_log(value: u64, log: u64) -> (taken: u64)
    ensures
        taken == logged(value, log),
{
    if value == crate::bits::ZERO || value == crate::bits::SIGN {
        value
    } else {
        log
    }
}

} // verus!
