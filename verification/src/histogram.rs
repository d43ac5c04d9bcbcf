//! The single forward pass: decode the tabular input, take the target
//! field of each data row, parse it, classify it, and count matches per
//! range. A row lacking the target field aborts the whole run; a row
//! whose field does not parse is skipped silently.

use vstd::prelude::*;
use crate::parse::parse_usize_spec;
use crate::parse::parse_usize;
use crate::ranges::NUM_RANGES;
use crate::ranges::classify_spec;
use crate::ranges::classify;
use crate::table::CounterTable;

verus! {

/// The position of the target field in each row.
pub const FIELD_INDEX: usize = 20;

/// An error type of the decoder that reads the tabular input.
#[verifier::external_type_specification]
#[verifier::external_body]
pub struct ExCsvError(csv::Error);

/// What aborts a run: a row without the target field (with the index of
/// the first such row), or a record the input decoder could not read.
#[derive(Debug)]
pub enum HistogramError {
    MissingField(usize),
    Csv(csv::Error),
}

/// The data rows that decoding `data` as headered, comma-delimited text
/// yields, field by field, in input order; nothing if some record cannot
/// be decoded. The decoding is a function of the bytes alone.
pub uninterp spec fn csv_rows(data: Seq<u8>) -> Option<Seq<Seq<Seq<char>>>>;

/// Relies on csv::Reader::from_reader and Reader::records: decodes the
/// input as comma-delimited rows with a header row (which is dropped),
/// yielding the data records in order, or the first read error.
#[verifier::external_body]
fn read_records(data: &[u8]) -> (r: Result<Vec<Vec<String>>, csv::Error>)
    ensures
        match r {
            Ok(rows) => csv_rows(data@) == Some(rows.deep_view()),
            Err(_) => csv_rows(data@) is None,
        },
{
    let mut rdr = csv::Reader::from_reader(data);
    let mut rows: Vec<Vec<String>> = Vec::new();
    for result in rdr.records() {
        let record = result?;
        rows.push(record.iter().map(|f| f.to_string()).collect());
    }
    Ok(rows)
}

/// The row carries the target field.
pub open spec fn row_ok(row: Seq<Seq<char>>) -> bool {
    row.len() > FIELD_INDEX
}

/// The range index the row contributes to: the classification of its
/// target field's value, or nothing if the field does not parse.
pub open spec fn row_bucket(row: Seq<Seq<char>>) -> Option<int> {
    match parse_usize_spec(row[FIELD_INDEX as int]) {
        Some(v) => Some(classify_spec(v)),
        None => None,
    }
}

/// Every row carries the target field.
pub open spec fn all_rows_ok(rows: Seq<Seq<Seq<char>>>) -> bool {
    forall|i: int| 0 <= i < rows.len() ==> row_ok(#[trigger] rows[i])
}

/// Row `i` is the first one that lacks the target field.
pub open spec fn is_first_short(rows: Seq<Seq<Seq<char>>>, i: int) -> bool {
    &&& 0 <= i < rows.len()
    &&& !row_ok(rows[i])
    &&& forall|j: int| 0 <= j < i ==> row_ok(#[trigger] rows[j])
}

/// How many rows contribute to range index `b`.
pub open spec fn bucket_count(rows: Seq<Seq<Seq<char>>>, b: int) -> nat
    decreases rows.len(),
{
    if rows.len() == 0 {
        0
    } else {
        bucket_count(rows.drop_last(), b) + if row_bucket(rows.last()) == Some(b) {
            1nat
        } else {
            0nat
        }
    }
}

/// How many rows have a target field that parses as a non-negative
/// integer (such a row contributes to exactly one bucket).
pub open spec fn parsed_count(rows: Seq<Seq<Seq<char>>>) -> nat
    decreases rows.len(),
{
    if rows.len() == 0 {
        0
    } else {
        parsed_count(rows.drop_last()) + if row_bucket(rows.last()) is Some {
            1nat
        } else {
            0nat
        }
    }
}

/// No bucket counts more rows than there are.
proof fn lemma_bucket_count_le_len(rows: Seq<Seq<Seq<char>>>, b: int)
    ensures
        bucket_count(rows, b) <= rows.len(),
    decreases rows.len(),
{
    if rows.len() > 0 {
        lemma_bucket_count_le_len(rows.drop_last(), b);
    }
}

/// One more row changes exactly the bucket it falls in.
proof fn lemma_bucket_count_step(rows: Seq<Seq<Seq<char>>>, i: int, b: int)
    requires
        0 <= i < rows.len(),
    ensures
        bucket_count(rows.take(i + 1), b) == bucket_count(rows.take(i), b) + if row_bucket(
            rows[i],
        ) == Some(b) {
            1nat
        } else {
            0nat
        },
{
    assert(rows.take(i + 1).drop_last() =~= rows.take(i));
    assert(rows.take(i + 1).last() == rows[i]);
}

/// With no data rows, every bucket's count is zero.
pub proof fn lemma_empty_input_counts(rows: Seq<Seq<Seq<char>>>)
    requires
        rows.len() == 0,
    ensures
        forall|b: int| bucket_count(rows, b) == 0,
        parsed_count(rows) == 0,
{
}

/// A row whose target field does not parse (non-numeric text, a negative
/// number, overflow) changes no bucket's count.
pub proof fn lemma_skipped_row_no_effect(rows: Seq<Seq<Seq<char>>>, row: Seq<Seq<char>>)
    requires
        row_bucket(row) is None,
    ensures
        forall|b: int| bucket_count(rows.push(row), b) == bucket_count(rows, b),
{
    assert forall|b: int| bucket_count(rows.push(row), b) == bucket_count(rows, b) by {
        assert(rows.push(row).drop_last() =~= rows);
        assert(rows.push(row).last() == row);
    }
}

/// The counts are a function of the rows alone: two tables whose entries
/// both equal the per-bucket counts of the same rows are identical.
pub proof fn lemma_compute_deterministic(rows: Seq<Seq<Seq<char>>>, t1: Seq<u64>, t2: Seq<u64>)
    requires
        t1.len() == NUM_RANGES,
        t2.len() == NUM_RANGES,
        forall|b: int| 0 <= b < NUM_RANGES ==> t1[b] as nat == bucket_count(rows, b),
        forall|b: int| 0 <= b < NUM_RANGES ==> t2[b] as nat == bucket_count(rows, b),
    ensures
        t1 == t2,
{
    assert(t1 =~= t2);
}

/// The bucket counts sum to the number of rows whose target field parsed.
pub proof fn lemma_counts_sum_to_parsed(rows: Seq<Seq<Seq<char>>>)
    ensures
        bucket_count(rows, 0) + bucket_count(rows, 1) + bucket_count(rows, 2) + bucket_count(
            rows,
            3,
        ) + bucket_count(rows, 4) == parsed_count(rows),
    decreases rows.len(),
{
    if rows.len() > 0 {
        lemma_counts_sum_to_parsed(rows.drop_last());
        match row_bucket(rows.last()) {
            Some(b) => {
                assert(0 <= b < NUM_RANGES);
            },
            None => {},
        }
    }
}

/// Count, for each range, the rows whose target field's value falls in
/// it. A row without the target field is a fatal error; a row whose field
/// does not parse is skipped.
pub fn compute(rows: &Vec<Vec<String>>) -> (r: Result<CounterTable, HistogramError>)
    ensures
        all_rows_ok(rows.deep_view()) ==> (r matches Ok(t) && t@.len() == NUM_RANGES && forall|
            b: int,
        |
            0 <= b < NUM_RANGES ==> t@[b] as nat == bucket_count(rows.deep_view(), b)),
        !all_rows_ok(rows.deep_view()) ==> (r matches Err(HistogramError::MissingField(i))
            && is_first_short(rows.deep_view(), i as int)),
{
    let ghost dv = rows.deep_view();
    let mut t = CounterTable::new();
    let n = rows.len();
    let mut i: usize = 0;
    while i < n
        invariant
            0 <= i <= n,
            n == rows@.len(),
            dv == rows.deep_view(),
            dv.len() == n,
            forall|j: int| 0 <= j < i ==> row_ok(#[trigger] dv[j]),
            t@.len() == NUM_RANGES,
            forall|b: int| 0 <= b < NUM_RANGES ==> t@[b] as nat == bucket_count(dv.take(i as int), b),
        decreases n - i,
    {
        let row = &rows[i];
        proof {
            assert(dv[i as int] == row.deep_view());
            assert(dv[i as int].len() == row@.len());
        }
        if row.len() <= FIELD_INDEX {
            proof {
                assert(!row_ok(dv[i as int]));
            }
            return Err(HistogramError::MissingField(i));
        }
        let field = &row[FIELD_INDEX];
        proof {
            assert(field@ == dv[i as int][FIELD_INDEX as int]);
        }
        match parse_usize(field.as_str()) {
            Some(v) => {
                let b = classify(v);
                proof {
                    assert(row_bucket(dv[i as int]) == Some(b as int));
                    lemma_bucket_count_le_len(dv.take(i as int), b as int);
                    assert(t@[b as int] < u64::MAX);
                    lemma_bucket_count_step(dv, i as int, b as int);
                    assert forall|b2: int| 0 <= b2 < NUM_RANGES && b2 != b implies bucket_count(
                        dv.take(i + 1),
                        b2,
                    ) == bucket_count(dv.take(i as int), b2) by {
                        lemma_bucket_count_step(dv, i as int, b2);
                    }
                }
                t.increment(b);
            },
            None => {
                proof {
                    assert(row_bucket(dv[i as int]) is None);
                    assert forall|b2: int| 0 <= b2 < NUM_RANGES implies bucket_count(
                        dv.take(i + 1),
                        b2,
                    ) == bucket_count(dv.take(i as int), b2) by {
                        lemma_bucket_count_step(dv, i as int, b2);
                    }
                }
            },
        }
        i = i + 1;
    }
    proof {
        assert(dv.take(n as int) =~= dv);
    }
    Ok(t)
}

/// Decode `data` as headered, comma-delimited text and count, for each
/// range, the data rows whose target field's value falls in it.
pub fn bucket_sort(data: &[u8]) -> (r: Result<CounterTable, HistogramError>)
    ensures
        csv_rows(data@) is None ==> r matches Err(HistogramError::Csv(_)),
        csv_rows(data@) matches Some(rows) ==> {
            &&& all_rows_ok(rows) ==> (r matches Ok(t) && t@.len() == NUM_RANGES && forall|b: int|
                0 <= b < NUM_RANGES ==> t@[b] as nat == bucket_count(rows, b))
            &&& !all_rows_ok(rows) ==> (r matches Err(HistogramError::MissingField(i))
                && is_first_short(rows, i as int))
        },
{
    match read_records(data) {
        Ok(rows) => compute(&rows),
        Err(e) => Err(HistogramError::Csv(e)),
    }
}

} // verus!
