use bucketed_counter::histogram::{bucket_sort, compute, HistogramError};
use bucketed_counter::parse::parse_usize;
use bucketed_counter::ranges::{classify, ranges};
use bucketed_counter::render::{render, render_line};

/// A CSV input with a 21-column header row and one data row per value,
/// carrying the value in field 20.
fn csv_with_field20(values: &[&str]) -> Vec<u8> {
    let mut s = String::new();
    for j in 0..21 {
        if j > 0 {
            s.push(',');
        }
        s.push_str(&format!("h{}", j));
    }
    s.push('\n');
    for v in values {
        for j in 0..21 {
            if j > 0 {
                s.push(',');
            }
            if j == 20 {
                s.push_str(v);
            } else {
                s.push('x');
            }
        }
        s.push('\n');
    }
    s.into_bytes()
}

fn rows_with_field20(values: &[&str]) -> Vec<Vec<String>> {
    values
        .iter()
        .map(|v| {
            let mut row: Vec<String> = vec!["x".to_string(); 20];
            row.push(v.to_string());
            row
        })
        .collect()
}

#[test]
fn ranges_are_the_five_fixed_intervals() {
    let rs = ranges();
    assert_eq!(rs.len(), 5);
    let bounds: Vec<(usize, usize)> = rs.iter().map(|r| (*r.start(), *r.end())).collect();
    assert_eq!(
        bounds,
        vec![
            (0, 10),
            (10, 100),
            (100, 1000),
            (1000, 10000),
            (10000, usize::MAX)
        ]
    );
}

#[test]
fn classify_picks_first_matching_range() {
    assert_eq!(classify(0), 0);
    assert_eq!(classify(5), 0);
    // shared boundaries resolve to the lower range
    assert_eq!(classify(10), 0);
    assert_eq!(classify(11), 1);
    assert_eq!(classify(100), 1);
    assert_eq!(classify(1000), 2);
    assert_eq!(classify(10000), 3);
    assert_eq!(classify(10001), 4);
    assert_eq!(classify(usize::MAX), 4);
}

#[test]
fn parse_accepts_plain_and_signed_plus_digits() {
    assert_eq!(parse_usize("42"), Some(42));
    assert_eq!(parse_usize("0"), Some(0));
    assert_eq!(parse_usize("+5"), Some(5));
    assert_eq!(parse_usize("18446744073709551615"), Some(u64::MAX as usize));
}

#[test]
fn parse_rejects_non_numeric_negative_and_overflow() {
    assert_eq!(parse_usize("abc"), None);
    assert_eq!(parse_usize(""), None);
    assert_eq!(parse_usize("+"), None);
    assert_eq!(parse_usize("-1"), None);
    assert_eq!(parse_usize(" 5"), None);
    assert_eq!(parse_usize("5 "), None);
    assert_eq!(parse_usize("4.5"), None);
    assert_eq!(parse_usize("18446744073709551616"), None);
}

#[test]
fn empty_input_gives_empty_table_and_no_output() {
    // a header row and no data rows
    let data = csv_with_field20(&[]);
    let t = bucket_sort(&data).unwrap();
    for i in 0..5 {
        assert_eq!(t.get(i), 0);
    }
    assert_eq!(render(&t).len(), 0);
}

#[test]
fn scenario_five_values_fill_four_buckets() {
    let data = csv_with_field20(&["5", "10", "15", "9999", "100000"]);
    let t = bucket_sort(&data).unwrap();
    assert_eq!(t.get(0), 2); // values 5 and 10: the boundary resolves down
    assert_eq!(t.get(1), 1); // value 15
    assert_eq!(t.get(2), 0); // nothing between 100 and 1000
    assert_eq!(t.get(3), 1); // value 9999
    assert_eq!(t.get(4), 1); // value 100000
    let lines = render(&t);
    // range index 2 never matched: no line for it
    assert_eq!(
        lines,
        vec![
            "Some(0..=10):  - 2".to_string(),
            "Some(10..=100):  - 1".to_string(),
            "Some(1000..=10000):  - 1".to_string(),
            format!("Some(10000..={}):  - 1", usize::MAX),
        ]
    );
}

#[test]
fn unparsable_field_is_skipped_silently() {
    let data = csv_with_field20(&["abc", "7", "-3", "4.5", ""]);
    let t = bucket_sort(&data).unwrap();
    assert_eq!(t.get(0), 1); // only the value 7 counts
    assert_eq!(t.get(1), 0);
    assert_eq!(t.get(2), 0);
    assert_eq!(t.get(3), 0);
    assert_eq!(t.get(4), 0);
}

#[test]
fn short_rows_abort_the_run() {
    // every row (header included) has three fields: no field 20 anywhere
    let data = b"a,b,c\n1,2,3\n".to_vec();
    match bucket_sort(&data) {
        Err(HistogramError::MissingField(row)) => assert_eq!(row, 0),
        other => panic!("expected a missing-field error, got {:?}", other.is_ok()),
    }
}

#[test]
fn ragged_rows_abort_the_run() {
    // a data row with fewer fields than the header: the reader refuses it
    let mut data = csv_with_field20(&["5"]);
    data.extend_from_slice(b"only,three,fields\n");
    assert!(bucket_sort(&data).is_err());
}

#[test]
fn compute_reports_first_short_row() {
    let mut rows = rows_with_field20(&["5", "10"]);
    rows.insert(1, vec!["a".to_string(), "b".to_string()]);
    match compute(&rows) {
        Err(HistogramError::MissingField(row)) => assert_eq!(row, 1),
        _ => panic!("expected a missing-field error"),
    }
}

#[test]
fn compute_twice_gives_identical_tables() {
    let rows = rows_with_field20(&["5", "10", "15", "9999", "100000", "abc"]);
    let t1 = compute(&rows).unwrap();
    let t2 = compute(&rows).unwrap();
    for i in 0..5 {
        assert_eq!(t1.get(i), t2.get(i));
    }
}

#[test]
fn counts_sum_to_number_of_parsed_rows() {
    let data = csv_with_field20(&["1", "50", "500", "5000", "50000", "junk", "-2", "8"]);
    let t = bucket_sort(&data).unwrap();
    let sum: u64 = (0..5).map(|i| t.get(i)).sum();
    assert_eq!(sum, 6); // six of the eight fields parse
}

#[test]
fn bars_scale_by_twenty() {
    assert_eq!(render_line(0, 45), "Some(0..=10): ## - 45");
    assert_eq!(render_line(0, 19), "Some(0..=10):  - 19");
    assert_eq!(render_line(0, 20), "Some(0..=10): # - 20");
    assert_eq!(render_line(2, 100), "Some(100..=1000): ##### - 100");
    assert_eq!(
        render_line(4, 3),
        format!("Some(10000..={}):  - 3", usize::MAX)
    );
}

#[test]
fn quoted_fields_are_decoded_by_the_reader() {
    // the reader must unquote the field before it is parsed
    let data = csv_with_field20(&["\"25\""]);
    let t = bucket_sort(&data).unwrap();
    assert_eq!(t.get(1), 1);
}
