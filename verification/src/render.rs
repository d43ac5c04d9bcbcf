//! Reporting: one line per matched range, in ascending range order. A
//! line shows the range's bounds, a bar of marker characters whose length
//! is the count divided by a fixed scale, and the raw count. An index the
//! table never matched produces no line.

use vstd::prelude::*;
use vstd::string::StringExecFns;
use crate::ranges::NUM_RANGES;
use crate::ranges::range_lo;
use crate::ranges::range_hi;
use crate::table::CounterTable;

verus! {

/// Each marker character of a bar stands for this many matches.
pub const BAR_SCALE: u64 = 20;

/// The decimal digit character for `d`.
pub open spec fn dec_digit_char(d: nat) -> char {
    if d == 0 {
        '0'
    } else if d == 1 {
        '1'
    } else if d == 2 {
        '2'
    } else if d == 3 {
        '3'
    } else if d == 4 {
        '4'
    } else if d == 5 {
        '5'
    } else if d == 6 {
        '6'
    } else if d == 7 {
        '7'
    } else if d == 8 {
        '8'
    } else {
        '9'
    }
}

/// The decimal rendering of `n`, most significant digit first.
pub open spec fn dec_str(n: nat) -> Seq<char>
    decreases n,
{
    if n < 10 {
        seq![dec_digit_char(n)]
    } else {
        dec_str(n / 10).push(dec_digit_char(n % 10))
    }
}

/// A bar of `k` marker characters.
pub open spec fn bar_str(k: nat) -> Seq<char> {
    Seq::new(k, |i: int| '#')
}

/// The report line for range `i` holding count `c`.
pub open spec fn line_spec(i: int, c: u64) -> Seq<char> {
    "Some("@ + dec_str(range_lo(i) as nat) + "..="@ + dec_str(range_hi(i) as nat) + "): "@
        + bar_str((c / BAR_SCALE) as nat) + " - "@ + dec_str(c as nat)
}

/// The report lines for the counts from index `i` up: ascending order,
/// one line per index with a non-zero count.
pub open spec fn render_from(counts: Seq<u64>, i: int) -> Seq<Seq<char>>
    decreases NUM_RANGES - i,
{
    if i < 0 || i >= NUM_RANGES {
        Seq::empty()
    } else if counts[i] != 0 {
        seq![line_spec(i, counts[i])] + render_from(counts, i + 1)
    } else {
        render_from(counts, i + 1)
    }
}

/// The whole report for the counts.
pub open spec fn render_spec(counts: Seq<u64>) -> Seq<Seq<char>> {
    render_from(counts, 0)
}

/// A table that matched nothing produces a report with zero lines.
pub proof fn lemma_render_empty_table(counts: Seq<u64>)
    requires
        counts.len() == NUM_RANGES,
        forall|i: int| 0 <= i < NUM_RANGES ==> counts[i] == 0,
    ensures
        render_spec(counts).len() == 0,
{
    assert(render_from(counts, 5).len() == 0);
    assert(render_from(counts, 4).len() == 0);
    assert(render_from(counts, 3).len() == 0);
    assert(render_from(counts, 2).len() == 0);
    assert(render_from(counts, 1).len() == 0);
    assert(render_from(counts, 0).len() == 0);
}

/// With zero data rows, every bucket's count is zero, the counter table
/// is empty as a mapping, and the report has zero lines.
pub proof fn lemma_empty_input_report(rows: Seq<Seq<Seq<char>>>, t: CounterTable)
    requires
        rows.len() == 0,
        t@.len() == NUM_RANGES,
        forall|b: int| 0 <= b < NUM_RANGES ==> t@[b] as nat == crate::histogram::bucket_count(rows, b),
    ensures
        t.table_map() == Map::<int, u64>::empty(),
        render_spec(t@).len() == 0,
{
    crate::histogram::lemma_empty_input_counts(rows);
    assert forall|b: int| 0 <= b < NUM_RANGES implies t@[b] == 0 by {
        assert(crate::histogram::bucket_count(rows, b) == 0);
    }
    t.lemma_zero_table_is_empty();
    lemma_render_empty_table(t@);
}

/// The single decimal digit for `d` as text.
fn digit_str(d: u64) -> (s: &'static str)
    requires
        d < 10,
    ensures
        s@ == seq![dec_digit_char(d as nat)],
{
    if d == 0 {
        let s = "0";
        proof {
            reveal_strlit("0");
            assert(s@ =~= seq![dec_digit_char(d as nat)]);
        }
        s
    } else if d == 1 {
        let s = "1";
        proof {
            reveal_strlit("1");
            assert(s@ =~= seq![dec_digit_char(d as nat)]);
        }
        s
    } else if d == 2 {
        let s = "2";
        proof {
            reveal_strlit("2");
            assert(s@ =~= seq![dec_digit_char(d as nat)]);
        }
        s
    } else if d == 3 {
        let s = "3";
        proof {
            reveal_strlit("3");
            assert(s@ =~= seq![dec_digit_char(d as nat)]);
        }
        s
    } else if d == 4 {
        let s = "4";
        proof {
            reveal_strlit("4");
            assert(s@ =~= seq![dec_digit_char(d as nat)]);
        }
        s
    } else if d == 5 {
        let s = "5";
        proof {
            reveal_strlit("5");
            assert(s@ =~= seq![dec_digit_char(d as nat)]);
        }
        s
    } else if d == 6 {
        let s = "6";
        proof {
            reveal_strlit("6");
            assert(s@ =~= seq![dec_digit_char(d as nat)]);
        }
        s
    } else if d == 7 {
        let s = "7";
        proof {
            reveal_strlit("7");
            assert(s@ =~= seq![dec_digit_char(d as nat)]);
        }
        s
    } else if d == 8 {
        let s = "8";
        proof {
            reveal_strlit("8");
            assert(s@ =~= seq![dec_digit_char(d as nat)]);
        }
        s
    } else {
        let s = "9";
        proof {
            reveal_strlit("9");
            assert(s@ =~= seq![dec_digit_char(d as nat)]);
        }
        s
    }
}

/// Append the decimal rendering of `n` to `out`.
fn push_dec(n: u64, out: &mut String)
    ensures
        final(out)@ == old(out)@ + dec_str(n as nat),
    decreases n,
{
    if n >= 10 {
        push_dec(n / 10, out);
        out.append(digit_str(n % 10));
        proof {
            assert(final(out)@ =~= old(out)@ + dec_str(n as nat));
        }
    } else {
        out.append(digit_str(n));
        proof {
            assert(final(out)@ =~= old(out)@ + dec_str(n as nat));
        }
    }
}

/// Append a bar of `k` marker characters to `out`.
fn push_bar(k: u64, out: &mut String)
    ensures
        final(out)@ == old(out)@ + bar_str(k as nat),
{
    let ghost base = out@;
    let mut j: u64 = 0;
    while j < k
        invariant
            j <= k,
            out@ == base + bar_str(j as nat),
        decreases k - j,
    {
        out.append("#");
        proof {
            reveal_strlit("#");
            assert(out@ =~= base + bar_str((j + 1) as nat));
        }
        j = j + 1;
    }
    proof {
        assert(final(out)@ =~= old(out)@ + bar_str(k as nat));
    }
}

/// The bounds of range `i`, as values.
fn range_bounds(i: usize) -> (p: (usize, usize))
    requires
        i < NUM_RANGES,
    ensures
        p.0 == range_lo(i as int),
        p.1 == range_hi(i as int),
{
    if i == 0 {
        (0, 10)
    } else if i == 1 {
        (10, 100)
    } else if i == 2 {
        (100, 1000)
    } else if i == 3 {
        (1000, 10000)
    } else {
        (10000, usize::MAX)
    }
}

/// The report line for range `i` holding count `c`.
pub fn render_line(i: usize, c: u64) -> (line: String)
    requires
        i < NUM_RANGES,
    ensures
        line@ == line_spec(i as int, c),
{
    let p = range_bounds(i);
    let mut line = String::new();
    line.append("Some(");
    push_dec(p.0 as u64, &mut line);
    line.append("..=");
    push_dec(p.1 as u64, &mut line);
    line.append("): ");
    push_bar(c / BAR_SCALE, &mut line);
    line.append(" - ");
    push_dec(c, &mut line);
    proof {
        assert(line@ =~= line_spec(i as int, c));
    }
    line
}

/// The whole report for the table: one line per matched range, ascending.
pub fn render(t: &CounterTable) -> (lines: Vec<String>)
    ensures
        lines.deep_view() == render_spec(t@),
{
    let mut lines: Vec<String> = Vec::new();
    proof {
        assert(render_spec(t@) =~= lines.deep_view() + render_from(t@, 0));
    }
    let mut i: usize = 0;
    while i < NUM_RANGES
        invariant
            0 <= i <= NUM_RANGES,
            render_spec(t@) == lines.deep_view() + render_from(t@, i as int),
        decreases NUM_RANGES - i,
    {
        let c = t.get(i);
        if c != 0 {
            let line = render_line(i, c);
            let ghost prev = lines.deep_view();
            lines.push(line);
            proof {
                assert(lines.deep_view() =~= prev + seq![line@]);
                assert(render_spec(t@) =~= lines.deep_view() + render_from(t@, i + 1));
            }
        }
        i = i + 1;
    }
    proof {
        assert(render_spec(t@) =~= lines.deep_view());
    }
    lines
}

} // verus!
