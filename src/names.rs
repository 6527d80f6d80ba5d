use vstd::prelude::*;

use crate::text::{chars_of, string_of};
use crate::threads::{metric_of, thread_report, ThreadReport, ThreadTable};

verus! {

/// Lexical order of character sequences, by code point (the order of
/// `String`'s `Ord`).
pub open spec fn lex_lt(a: Seq<char>, b: Seq<char>) -> bool
    decreases a.len(),
{
    if a.len() == 0 {
        b.len() > 0
    } else if b.len() == 0 {
        false
    } else if a[0] != b[0] {
        (a[0] as u32) < (b[0] as u32)
    } else {
        lex_lt(a.skip(1), b.skip(1))
    }
}

pub proof fn lemma_lex_irreflexive(a: Seq<char>)
    ensures
        !lex_lt(a, a),
    decreases a.len(),
{
    if a.len() > 0 {
        lemma_lex_irreflexive(a.skip(1));
    }
}

pub proof fn lemma_lex_total(a: Seq<char>, b: Seq<char>)
    ensures
        a != b ==> lex_lt(a, b) || lex_lt(b, a),
    decreases a.len(),
{
    if a.len() > 0 && b.len() > 0 && a[0] == b[0] {
        lemma_lex_total(a.skip(1), b.skip(1));
        if a.skip(1) == b.skip(1) {
            assert(a =~= seq![a[0]] + a.skip(1));
            assert(b =~= seq![b[0]] + b.skip(1));
        }
    } else if a.len() == 0 && b.len() == 0 {
        assert(a =~= b);
    } else if a.len() > 0 && b.len() > 0 {
        vstd::utf8::char_u32_cast(a[0], a[0] as u32);
        vstd::utf8::char_u32_cast(b[0], b[0] as u32);
    }
}

pub proof fn lemma_lex_transitive(a: Seq<char>, b: Seq<char>, c: Seq<char>)
    ensures
        lex_lt(a, b) && lex_lt(b, c) ==> lex_lt(a, c),
    decreases a.len(),
{
    if a.len() > 0 && b.len() > 0 && c.len() > 0 {
        lemma_lex_transitive(a.skip(1), b.skip(1), c.skip(1));
    }
}

fn lex_less(a: &Vec<char>, b: &Vec<char>) -> (r: bool)
    ensures
        r == lex_lt(a@, b@),
{
    let mut i: usize = 0;
    assert(a@.skip(0) =~= a@);
    assert(b@.skip(0) =~= b@);
    while i < a.len() && i < b.len() && a[i] == b[i]
        invariant
            i <= a@.len(),
            i <= b@.len(),
            lex_lt(a@, b@) == lex_lt(a@.skip(i as int), b@.skip(i as int)),
        decreases a@.len() - i,
    {
        assert(a@.skip(i as int).skip(1) =~= a@.skip(i + 1));
        assert(b@.skip(i as int).skip(1) =~= b@.skip(i + 1));
        i = i + 1;
    }
    if i == a.len() {
        i < b.len()
    } else if i == b.len() {
        false
    } else {
        (a[i] as u32) < (b[i] as u32)
    }
}

fn same_chars(a: &Vec<char>, b: &Vec<char>) -> (r: bool)
    ensures
        r == (a@ == b@),
{
    proof {
        lemma_lex_total(a@, b@);
        lemma_lex_irreflexive(a@);
    }
    !lex_less(a, b) && !lex_less(b, a)
}

/// Whether `x` is one of `names`.
pub open spec fn listed(names: Seq<Vec<char>>, x: Seq<char>) -> bool {
    exists|k: int| 0 <= k < names.len() && names[k]@ == x
}

/// Whether one of the first `i` slots has the name `x`.
pub open spec fn named_slot(slots: Seq<Option<String>>, i: int, x: Seq<char>) -> bool {
    exists|j: int| 0 <= j < i && slots[j] is Some && (#[trigger] slots[j])->0@ == x
}

pub open spec fn strictly_sorted(names: Seq<Seq<char>>) -> bool {
    forall|i: int, j: int| 0 <= i < j < names.len() ==> lex_lt(#[trigger] names[i], #[trigger] names[j])
}

/// The text of each string.
pub open spec fn string_views(s: Seq<String>) -> Seq<Seq<char>> {
    s.map_values(|x: String| x@)
}

spec fn views(names: Seq<Vec<char>>) -> Seq<Seq<char>> {
    names.map_values(|v: Vec<char>| v@)
}

proof fn lemma_insert_listed(names: Seq<Vec<char>>, p: int, v: Vec<char>, x: Seq<char>)
    requires
        0 <= p <= names.len(),
    ensures
        listed(names.insert(p, v), x) <==> (listed(names, x) || x == v@),
{
    let n2 = names.insert(p, v);
    if listed(n2, x) {
        let k = choose|k: int| 0 <= k < n2.len() && n2[k]@ == x;
        if k < p {
            assert(names[k]@ == x);
        } else if k > p {
            assert(names[k - 1]@ == x);
        }
    }
    if listed(names, x) {
        let k = choose|k: int| 0 <= k < names.len() && names[k]@ == x;
        if k < p {
            assert(n2[k]@ == x);
        } else {
            assert(n2[k + 1]@ == x);
        }
    }
    if x == v@ {
        assert(n2[p]@ == x);
    }
}

/// The distinct names of the slots, in lexical order, and for each slot the
/// position of its name among them (`None` for a slot without a name).
pub fn group_names(slots: &Vec<Option<String>>) -> (r: (Vec<String>, Vec<Option<usize>>))
    ensures
        strictly_sorted(string_views(r.0@)),
        forall|x: Seq<char>| (exists|k: int| 0 <= k < r.0@.len() && r.0@[k]@ == x) <==> #[trigger] named_slot(
            slots@,
            slots@.len() as int,
            x,
        ),
        r.1@.len() == slots@.len(),
        forall|i: int| 0 <= i < slots@.len() ==> (#[trigger] r.1@[i] is Some <==> slots@[i] is Some),
        forall|i: int| 0 <= i < slots@.len() && r.1@[i] is Some ==> {
            &&& (#[trigger] r.1@[i])->0 < r.0@.len()
            &&& r.0@[r.1@[i]->0 as int]@ == slots@[i]->0@
        },
{
    let mut names: Vec<Vec<char>> = Vec::new();
    let mut i: usize = 0;
    while i < slots.len()
        invariant
            i <= slots@.len(),
            strictly_sorted(views(names@)),
            forall|x: Seq<char>| #[trigger] listed(names@, x) <==> named_slot(slots@, i as int, x),
        decreases slots@.len() - i,
    {
        let ghost before = names@;
        assert forall|x: Seq<char>| named_slot(slots@, i + 1, x) <==> (named_slot(slots@, i as int, x) || (
        slots@[i as int] is Some && slots@[i as int]->0@ == x)) by {
            if named_slot(slots@, i + 1, x) {
                let j = choose|j: int| 0 <= j < i + 1 && slots@[j] is Some && (#[trigger] slots@[j])->0@ == x;
                if j < i {
                    assert(slots@[j]->0@ == x);
                }
            }
            if slots@[i as int] is Some && slots@[i as int]->0@ == x {
                assert(slots@[i as int]->0@ == x);
            }
        }
        match &slots[i] {
            None => {},
            Some(s) => {
                let cs = chars_of(s.as_str());
                let mut p: usize = 0;
                while p < names.len() && lex_less(&names[p], &cs)
                    invariant
                        p <= names@.len(),
                        names@ == before,
                        forall|q: int| 0 <= q < p ==> lex_lt(#[trigger] names@[q]@, cs@),
                    decreases names@.len() - p,
                {
                    p = p + 1;
                }
                let found = p < names.len() && same_chars(&names[p], &cs);
                if !found {
                    proof {
                        if p < names@.len() {
                            lemma_lex_total(names@[p as int]@, cs@);
                        }
                        assert forall|a: int, b: int| 0 <= a < b < names@.len() + 1 implies lex_lt(
                            #[trigger] views(names@.insert(p as int, cs))[a],
                            #[trigger] views(names@.insert(p as int, cs))[b],
                        ) by {
                            let ins = names@.insert(p as int, cs);
                            if b == p {
                                assert(ins[a] == names@[a]);
                            } else if a == p {
                                assert(ins[b] == names@[b - 1]);
                                if b - 1 > p {
                                    assert(lex_lt(views(names@)[p as int], views(names@)[b - 1]));
                                    lemma_lex_transitive(cs@, names@[p as int]@, names@[b - 1]@);
                                }
                            } else if a < p {
                                assert(ins[a] == names@[a]);
                                if b < p {
                                    assert(ins[b] == names@[b]);
                                    assert(lex_lt(views(names@)[a], views(names@)[b]));
                                } else {
                                    assert(ins[b] == names@[b - 1]);
                                    assert(lex_lt(names@[a]@, cs@));
                                    lemma_lex_transitive(names@[a]@, cs@, names@[p as int]@);
                                    if b - 1 > p {
                                        assert(lex_lt(views(names@)[p as int], views(names@)[b - 1]));
                                        lemma_lex_transitive(names@[a]@, names@[p as int]@, names@[b - 1]@);
                                    }
                                }
                            } else {
                                assert(ins[a] == names@[a - 1]);
                                assert(ins[b] == names@[b - 1]);
                                assert(lex_lt(views(names@)[a - 1], views(names@)[b - 1]));
                            }
                        }
                        assert forall|x: Seq<char>| #[trigger] listed(names@.insert(p as int, cs), x) <==> (listed(names@, x) || x == cs@) by {
                            lemma_insert_listed(names@, p as int, cs, x);
                        }
                    }
                    names.insert(p, cs);
                } else {
                    assert(listed(names@, cs@)) by {
                        assert(names@[p as int]@ == cs@);
                    }
                }
            },
        }
        i = i + 1;
    }
    let mut ids: Vec<Option<usize>> = Vec::new();
    let mut j: usize = 0;
    while j < slots.len()
        invariant
            j <= slots@.len(),
            ids@.len() == j,
            forall|x: Seq<char>| #[trigger] listed(names@, x) <==> named_slot(slots@, slots@.len() as int, x),
            forall|q: int| 0 <= q < j ==> (#[trigger] ids@[q] is Some <==> slots@[q] is Some),
            forall|q: int| 0 <= q < j && ids@[q] is Some ==> {
                &&& (#[trigger] ids@[q])->0 < names@.len()
                &&& names@[ids@[q]->0 as int]@ == slots@[q]->0@
            },
        decreases slots@.len() - j,
    {
        match &slots[j] {
            None => ids.push(None),
            Some(s) => {
                let cs = chars_of(s.as_str());
                assert(named_slot(slots@, slots@.len() as int, cs@)) by {
                    assert(slots@[j as int]->0@ == cs@);
                }
                let mut k: usize = 0;
                while k < names.len() && !same_chars(&names[k], &cs)
                    invariant
                        k <= names@.len(),
                        forall|q: int| 0 <= q < k ==> (#[trigger] names@[q])@ != cs@,
                    decreases names@.len() - k,
                {
                    k = k + 1;
                }
                proof {
                    if k == names@.len() {
                        assert(listed(names@, cs@));
                        let w = choose|w: int| 0 <= w < names@.len() && names@[w]@ == cs@;
                        assert(names@[w]@ != cs@);
                    }
                }
                ids.push(Some(k));
            },
        }
        j = j + 1;
    }
    let mut out: Vec<String> = Vec::new();
    let mut m: usize = 0;
    while m < names.len()
        invariant
            m <= names@.len(),
            out@.len() == m,
            forall|q: int| 0 <= q < m ==> (#[trigger] out@[q])@ == names@[q]@,
        decreases names@.len() - m,
    {
        out.push(string_of(names[m].as_slice()));
        m = m + 1;
    }
    proof {
        assert forall|a: int, b: int| 0 <= a < b < out@.len() implies lex_lt(
            #[trigger] string_views(out@)[a],
            #[trigger] string_views(out@)[b],
        ) by {
            assert(lex_lt(views(names@)[a], views(names@)[b]));
        }
        assert forall|x: Seq<char>| (exists|k: int| 0 <= k < out@.len() && out@[k]@ == x) <==> #[trigger] named_slot(
            slots@,
            slots@.len() as int,
            x,
        ) by {
            if exists|k: int| 0 <= k < out@.len() && out@[k]@ == x {
                let k = choose|k: int| 0 <= k < out@.len() && out@[k]@ == x;
                assert(names@[k]@ == x);
                assert(listed(names@, x));
            }
            if named_slot(slots@, slots@.len() as int, x) {
                assert(listed(names@, x));
                let k = choose|k: int| 0 <= k < names@.len() && names@[k]@ == x;
                assert(out@[k]@ == x);
            }
        }
    }
    (out, ids)
}

/// `ids` gives each slot the position of its name among `names`.
pub open spec fn ids_match(slots: Seq<Option<String>>, names: Seq<Seq<char>>, ids: Seq<Option<usize>>) -> bool {
    &&& ids.len() == slots.len()
    &&& forall|i: int| 0 <= i < slots.len() ==> (#[trigger] ids[i] is Some <==> slots[i] is Some)
    &&& forall|i: int| 0 <= i < slots.len() && ids[i] is Some ==> {
        &&& (#[trigger] ids[i])->0 < names.len()
        &&& names[ids[i]->0 as int] == slots[i]->0@
    }
}

/// The names of the entries of a report.
pub open spec fn report_names(r: ThreadReport) -> Seq<Seq<char>> {
    r.0@.map_values(|e: (String, crate::threads::ThreadMetric)| e.0@)
}

/// The thread report keyed by name: one entry per distinct name of the slots
/// (`slots[i]` names slot `i`; a slot without a name is left out), in
/// lexical order, each with the totals of the slots of that name.
pub fn thread_report_by_name(table: &ThreadTable, slots: &Vec<Option<String>>) -> (r: ThreadReport)
    requires
        table.wf(),
    ensures
        strictly_sorted(report_names(r)),
        forall|x: Seq<char>| (exists|k: int| 0 <= k < r.0@.len() && r.0@[k].0@ == x) <==> #[trigger] named_slot(
            slots@,
            slots@.len() as int,
            x,
        ),
        exists|ids: Seq<Option<usize>>| {
            &&& #[trigger] ids_match(slots@, report_names(r), ids)
            &&& forall|k: int| 0 <= k < r.0@.len() ==> #[trigger] metric_of(*table, ids, r.0@.len() as int, k, r.0@[k].1)
        },
{
    let (names, ids) = group_names(slots);
    let r = thread_report(table, &ids, &names);
    proof {
        assert(report_names(r) =~= string_views(names@));
        assert forall|x: Seq<char>| (exists|k: int| 0 <= k < r.0@.len() && r.0@[k].0@ == x) <==> #[trigger] named_slot(
            slots@,
            slots@.len() as int,
            x,
        ) by {
            if exists|k: int| 0 <= k < r.0@.len() && r.0@[k].0@ == x {
                let k = choose|k: int| 0 <= k < r.0@.len() && r.0@[k].0@ == x;
                assert(names@[k]@ == x);
            }
            if named_slot(slots@, slots@.len() as int, x) {
                let k = choose|k: int| 0 <= k < names@.len() && names@[k]@ == x;
                assert(r.0@[k].0@ == x);
            }
        }
        assert(ids_match(slots@, report_names(r), ids@));
    }
    r
}

} // verus!
