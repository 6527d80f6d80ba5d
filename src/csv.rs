use vstd::prelude::*;

use crate::backtrace_support::HashedBacktrace;
use crate::metric::BacktraceMetric;
use crate::text::{
    chars_of, decimal, escape_field, escape_round_trip, escaped, lemma_decimal, parse_digits, parsed_u64, push_char,
    push_str, unescape_range, unescaped, write_decimal,
};
use crate::tracker::BacktraceReport;

verus! {

/// The first line of a CSV report.
pub const CSV_HEADER: &'static str = "allocated,allocations,avg_allocation,freed,total_used,backtrace\n";

/// The figures of a metric as CSV fields: allocated, allocations, the
/// average (`avg`, written by the caller), freed, and bytes in use.
pub open spec fn metric_fields(m: BacktraceMetric, avg: Seq<char>) -> Seq<char> {
    decimal(m.allocated as nat) + seq![','] + decimal(m.allocations as nat) + seq![','] + avg + seq![',']
        + decimal(m.freed as nat) + seq![','] + decimal(m.spec_in_use() as nat)
}

/// One CSV line: the metric's fields, then the call stack text escaped and
/// quoted.
pub open spec fn csv_line(m: BacktraceMetric, avg: Seq<char>, stack: Seq<char>) -> Seq<char> {
    metric_fields(m, avg) + seq![',', '"'] + escaped(stack) + seq!['"', '\n']
}

/// The lines of the first `n` entries.
pub open spec fn csv_lines(
    entries: Seq<(HashedBacktrace, BacktraceMetric)>,
    avgs: Seq<String>,
    stacks: Seq<String>,
    n: int,
) -> Seq<char>
    decreases n,
{
    if n <= 0 {
        Seq::empty()
    } else {
        csv_lines(entries, avgs, stacks, n - 1) + csv_line(entries[n - 1].1, avgs[n - 1]@, stacks[n - 1]@)
    }
}

impl BacktraceMetric {
    /// Appends the metric's CSV fields; `avg` is the average allocation as
    /// text.
    pub fn csv_write(&self, avg: &str, out: &mut String)
        ensures
            final(out)@ == old(out)@ + metric_fields(*self, avg@),
    {
        write_decimal(out, self.allocated);
        push_char(out, ',');
        write_decimal(out, self.allocations);
        push_char(out, ',');
        push_str(out, avg);
        push_char(out, ',');
        write_decimal(out, self.freed);
        push_char(out, ',');
        write_decimal(out, self.in_use());
        assert(final(out)@ =~= old(out)@ + metric_fields(*self, avg@));
    }
}

impl BacktraceReport {
    /// The report as CSV: the header, then one line per entry, where
    /// `avgs[i]` is entry `i`'s average allocation as text and `stacks[i]`
    /// its call stack as text.
    pub fn csv(&self, avgs: &Vec<String>, stacks: &Vec<String>) -> (r: String)
        requires
            avgs@.len() == self.0@.len(),
            stacks@.len() == self.0@.len(),
            forall|i: int| 0 <= i < avgs@.len() ==> !(#[trigger] avgs@[i])@.contains(',') && !avgs@[i]@.contains('\n'),
        ensures
            r@ == CSV_HEADER@ + csv_lines(self.0@, avgs@, stacks@, self.0@.len() as int),
    {
        let mut out = String::new();
        push_str(&mut out, CSV_HEADER);
        let mut i: usize = 0;
        while i < self.0.len()
            invariant
                i <= self.0@.len(),
                avgs@.len() == self.0@.len(),
                stacks@.len() == self.0@.len(),
                out@ == CSV_HEADER@ + csv_lines(self.0@, avgs@, stacks@, i as int),
            decreases self.0@.len() - i,
        {
            let ghost before = out@;
            let metric = &self.0[i].1;
            metric.csv_write(avgs[i].as_str(), &mut out);
            push_char(&mut out, ',');
            push_char(&mut out, '"');
            let field = escape_field(stacks[i].as_str());
            push_str(&mut out, field.as_str());
            push_char(&mut out, '"');
            push_char(&mut out, '\n');
            assert(out@ =~= before + csv_line(*metric, avgs@[i as int]@, stacks@[i as int]@));
            i = i + 1;
        }
        out
    }
}

/// The figures read back from one CSV line.
pub struct CsvRecord {
    pub allocated: u64,
    pub allocations: u64,
    pub freed: u64,
    pub total_used: u64,
    pub backtrace: String,
}

/// Position of the first comma at or after `from` (the length if none).
pub open spec fn next_comma(t: Seq<char>, from: int) -> int
    decreases t.len() - from,
{
    if from >= t.len() {
        t.len() as int
    } else if t[from] == ',' {
        from
    } else {
        next_comma(t, from + 1)
    }
}

/// Reads a CSV line: five comma-ended fields (allocated, allocations, the
/// average, freed, in use), then the quoted escaped call stack and a newline.
/// The average is skipped; every other field must read back.
pub open spec fn parse_line(t: Seq<char>) -> Option<(u64, u64, u64, u64, Seq<char>)> {
    let c0 = next_comma(t, 0);
    let c1 = next_comma(t, c0 + 1);
    let c2 = next_comma(t, c1 + 1);
    let c3 = next_comma(t, c2 + 1);
    let c4 = next_comma(t, c3 + 1);
    let body = t.subrange(c4 + 1, t.len() as int);
    if c4 < t.len() && body.len() >= 3 && body[0] == '"' && body[body.len() - 2] == '"' && body.last() == '\n' {
        let a = parsed_u64(t.subrange(0, c0));
        let n = parsed_u64(t.subrange(c0 + 1, c1));
        let f = parsed_u64(t.subrange(c2 + 1, c3));
        let u = parsed_u64(t.subrange(c3 + 1, c4));
        let s = unescaped(body.subrange(1, body.len() - 2));
        if a is Some && n is Some && f is Some && u is Some && s is Some {
            Some((a->0, n->0, f->0, u->0, s->0))
        } else {
            None
        }
    } else {
        None
    }
}

proof fn lemma_next_comma_range(t: Seq<char>, from: int)
    requires
        0 <= from,
    ensures
        from <= t.len() ==> from <= next_comma(t, from) <= t.len(),
        next_comma(t, from) < t.len() ==> t[next_comma(t, from)] == ',',
    decreases t.len() - from,
{
    if from < t.len() && t[from] != ',' {
        lemma_next_comma_range(t, from + 1);
    }
}

proof fn lemma_next_comma_at(t: Seq<char>, from: int, k: int)
    requires
        0 <= from <= k < t.len(),
        t[k] == ',',
        forall|j: int| from <= j < k ==> t[j] != ',',
    ensures
        next_comma(t, from) == k,
    decreases k - from,
{
    if from < k {
        lemma_next_comma_at(t, from + 1, k);
    }
}

fn find_comma(cs: &Vec<char>, from: usize) -> (r: usize)
    requires
        from <= cs@.len(),
    ensures
        r == next_comma(cs@, from as int),
{
    let mut i = from;
    while i < cs.len()
        invariant
            from <= i <= cs@.len(),
            next_comma(cs@, from as int) == next_comma(cs@, i as int),
        decreases cs@.len() - i,
    {
        if cs[i] == ',' {
            return i;
        }
        i = i + 1;
    }
    i
}

/// Reads one CSV line back; see `parse_line`.
pub fn parse_csv_line(line: &str) -> (r: Option<CsvRecord>)
    ensures
        r is Some <==> parse_line(line@) is Some,
        r is Some ==> {
            let p = parse_line(line@)->0;
            &&& r->0.allocated == p.0
            &&& r->0.allocations == p.1
            &&& r->0.freed == p.2
            &&& r->0.total_used == p.3
            &&& r->0.backtrace@ == p.4
        },
{
    let cs = chars_of(line);
    let n = cs.len();
    proof {
        lemma_next_comma_range(cs@, 0);
    }
    let c0 = find_comma(&cs, 0);
    if c0 >= n {
        return None;
    }
    proof {
        lemma_next_comma_range(cs@, c0 + 1);
    }
    let c1 = find_comma(&cs, c0 + 1);
    if c1 >= n {
        return None;
    }
    proof {
        lemma_next_comma_range(cs@, c1 + 1);
    }
    let c2 = find_comma(&cs, c1 + 1);
    if c2 >= n {
        return None;
    }
    proof {
        lemma_next_comma_range(cs@, c2 + 1);
    }
    let c3 = find_comma(&cs, c2 + 1);
    if c3 >= n {
        return None;
    }
    proof {
        lemma_next_comma_range(cs@, c3 + 1);
    }
    let c4 = find_comma(&cs, c3 + 1);
    if c4 >= n {
        return None;
    }
    let ghost body = cs@.subrange(c4 + 1, n as int);
    if n - (c4 + 1) < 3 || cs[c4 + 1] != '"' || cs[n - 2] != '"' || cs[n - 1] != '\n' {
        return None;
    }
    assert(body[0] == cs@[c4 + 1]);
    assert(body[body.len() - 2] == cs@[n - 2]);
    assert(body.last() == cs@[n - 1]);
    let a = parse_digits(&cs, 0, c0);
    let k = parse_digits(&cs, c0 + 1, c1);
    let f = parse_digits(&cs, c2 + 1, c3);
    let u = parse_digits(&cs, c3 + 1, c4);
    assert(body.subrange(1, body.len() - 2) =~= cs@.subrange(c4 + 2, n - 2));
    let s = unescape_range(&cs, c4 + 2, n - 2);
    match (a, k, f, u, s) {
        (Some(a), Some(k), Some(f), Some(u), Some(s)) => Some(
            CsvRecord { allocated: a, allocations: k, freed: f, total_used: u, backtrace: s },
        ),
        _ => None,
    }
}

/// Every CSV line of a metric reads back to the metric's allocated,
/// allocations, freed and in-use figures and to the call stack text, as long
/// as the average's text holds no comma.
#[verifier::spinoff_prover]
#[verifier::rlimit(60)]
pub proof fn csv_round_trip(m: BacktraceMetric, avg: Seq<char>, stack: Seq<char>)
    requires
        !avg.contains(','),
    ensures
        parse_line(csv_line(m, avg, stack)) == Some(
            (m.allocated, m.allocations, m.freed, m.spec_in_use() as u64, stack),
        ),
{
    let d0 = decimal(m.allocated as nat);
    let d1 = decimal(m.allocations as nat);
    let d3 = decimal(m.freed as nat);
    let d4 = decimal(m.spec_in_use() as nat);
    lemma_decimal(m.allocated as nat);
    lemma_decimal(m.allocations as nat);
    lemma_decimal(m.freed as nat);
    lemma_decimal(m.spec_in_use() as nat);
    let e = escaped(stack);
    let t = csv_line(m, avg, stack);
    let k0 = d0.len() as int;
    let k1 = k0 + 1 + d1.len();
    let k2 = k1 + 1 + avg.len();
    let k3 = k2 + 1 + d3.len();
    let k4 = k3 + 1 + d4.len();
    assert(t =~= d0 + seq![','] + d1 + seq![','] + avg + seq![','] + d3 + seq![','] + d4 + seq![',', '"'] + e + seq!['"', '\n']);
    assert(t.subrange(0, k0) =~= d0);
    assert(t.subrange(k0 + 1, k1) =~= d1);
    assert(t.subrange(k1 + 1, k2) =~= avg);
    assert(t.subrange(k2 + 1, k3) =~= d3);
    assert(t.subrange(k3 + 1, k4) =~= d4);
    assert forall|j: int| 0 <= j < k0 implies t[j] != ',' by {
        assert(t[j] == t.subrange(0, k0)[j]);
    }
    assert forall|j: int| k0 + 1 <= j < k1 implies t[j] != ',' by {
        assert(t[j] == t.subrange(k0 + 1, k1)[j - k0 - 1]);
    }
    assert forall|j: int| k1 + 1 <= j < k2 implies t[j] != ',' by {
        assert(t[j] == t.subrange(k1 + 1, k2)[j - k1 - 1]);
    }
    assert forall|j: int| k2 + 1 <= j < k3 implies t[j] != ',' by {
        assert(t[j] == t.subrange(k2 + 1, k3)[j - k2 - 1]);
    }
    assert forall|j: int| k3 + 1 <= j < k4 implies t[j] != ',' by {
        assert(t[j] == t.subrange(k3 + 1, k4)[j - k3 - 1]);
    }
    lemma_next_comma_at(t, 0, k0);
    lemma_next_comma_at(t, k0 + 1, k1);
    lemma_next_comma_at(t, k1 + 1, k2);
    lemma_next_comma_at(t, k2 + 1, k3);
    lemma_next_comma_at(t, k3 + 1, k4);
    let body = t.subrange(k4 + 1, t.len() as int);
    assert(body =~= seq!['"'] + e + seq!['"', '\n']);
    assert(body.subrange(1, body.len() - 2) =~= e);
    escape_round_trip(stack);
    assert(m.spec_in_use() <= u64::MAX);
}

} // verus!
