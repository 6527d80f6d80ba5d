use vstd::prelude::*;

use crate::metric::BacktraceMetric;
use crate::threads::{free_step, freed_by_name, metric_of, name_id, name_sum, slot_part, Part, ThreadTable};
use crate::tracker::Tracker;

verus! {

/// Freeing an address that was just allocated succeeds, and afterwards the
/// address is no longer live, so freeing it again is refused.
pub proof fn free_ends_tracking(
    t0: Tracker,
    t1: Tracker,
    t2: Tracker,
    slot: int,
    addr: usize,
    size: u64,
    h: u64,
    freer: int,
    freed_size: u64,
)
    requires
        t0.wf(),
        Tracker::alloc_recorded(t0, t1, slot, addr, size, h),
        Tracker::free_recorded(t1, t2, freer, addr, freed_size),
    ensures
        t1.spec_live().contains_key(addr),
        !t2.spec_live().contains_key(addr),
{
}

/// `n` allocations of `size` bytes each by one thread add exactly `n * size`
/// to that thread's allocated bytes, as long as the total fits in a `u64`.
pub proof fn allocations_add_up(ts: Seq<Tracker>, slot: int, size: u64, addrs: Seq<usize>, hashes: Seq<u64>)
    requires
        ts.len() >= 1,
        ts[0].wf(),
        0 <= slot < ts[0].spec_table().spec_slots(),
        addrs.len() == ts.len() - 1,
        hashes.len() == ts.len() - 1,
        forall|k: int| 0 <= k < ts.len() - 1 ==> #[trigger] Tracker::alloc_recorded(ts[k], ts[k + 1], slot, addrs[k], size, hashes[k]),
        ts[0].spec_table().spec_allocated(slot) + (ts.len() - 1) * size <= u64::MAX,
    ensures
        ts.last().spec_table().spec_allocated(slot) == ts[0].spec_table().spec_allocated(slot) + (ts.len() - 1) * size,
        ts.last().spec_table().spec_slots() == ts[0].spec_table().spec_slots(),
    decreases ts.len(),
{
    let n = ts.len() - 1;
    if n > 0 {
        let prev = ts.drop_last();
        assert forall|k: int| 0 <= k < prev.len() - 1 implies #[trigger] Tracker::alloc_recorded(
            prev[k],
            prev[k + 1],
            slot,
            addrs.drop_last()[k],
            size,
            hashes.drop_last()[k],
        ) by {
            assert(Tracker::alloc_recorded(ts[k], ts[k + 1], slot, addrs[k], size, hashes[k]));
        }
        assert((n - 1) * size <= n * size) by (nonlinear_arith)
            requires
                n >= 1,
                size >= 0,
        ;
        allocations_add_up(prev, slot, size, addrs.drop_last(), hashes.drop_last());
        assert((n - 1) * size + size == n * size) by (nonlinear_arith);
        let k = n - 1;
        assert(Tracker::alloc_recorded(ts[k], ts[k + 1], slot, addrs[k], size, hashes[k]));
        assert(ts[k + 1] == ts.last());
        assert(prev.last() == ts[k]);
        assert(prev[0] == ts[0]);
        let before = ts[k].spec_table().spec_allocated(slot) as int;
        assert(before + size <= u64::MAX);
        assert(ts[k + 1].spec_table().spec_allocated(slot) == crate::threads::sat_add(before, size as int));
        assert(before == ts[0].spec_table().spec_allocated(slot) + (n - 1) * size);
        assert(ts.last().spec_table().spec_allocated(slot) == ts[0].spec_table().spec_allocated(slot) + n * size);
    } else {
        assert(n * size == 0) by (nonlinear_arith)
            requires
                n == 0,
        ;
    }
}

/// When thread `a` allocates `size` bytes and thread `b` frees them, the
/// bytes that `b` freed of `a`'s grow by `size`, and the free changes neither
/// thread's allocated bytes.
pub proof fn cross_thread_free(t0: Tracker, t1: Tracker, t2: Tracker, a: usize, b: usize, addr: usize, size: u64, h: u64)
    requires
        t0.wf(),
        a < t0.spec_table().spec_slots(),
        b < t0.spec_table().spec_slots(),
        Tracker::alloc_recorded(t0, t1, a as int, addr, size, h),
        Tracker::free_recorded(t1, t2, b as int, addr, size),
        t1.spec_table().spec_freed(b as int, a as int) + size <= u64::MAX,
    ensures
        t2.spec_table().spec_freed(b as int, a as int) == t1.spec_table().spec_freed(b as int, a as int) + size,
        t2.spec_table().spec_allocated(a as int) == t1.spec_table().spec_allocated(a as int),
        t2.spec_table().spec_allocated(b as int) == t1.spec_table().spec_allocated(b as int),
        !t2.spec_live().contains_key(addr),
{
    assert(t1.spec_live()[addr] == (a, h));
}

/// Two allocations from the same call site, new to the ledger, share one
/// record: two allocations, the sum of their sizes allocated, nothing freed.
pub proof fn same_site_shares_record(
    t0: Tracker,
    t1: Tracker,
    t2: Tracker,
    s1: int,
    s2: int,
    a1: usize,
    a2: usize,
    z1: u64,
    z2: u64,
    h: u64,
)
    requires
        t0.wf(),
        t0.spec_mode().spec_enabled(),
        t0.spec_site(h) is None,
        Tracker::alloc_recorded(t0, t1, s1, a1, z1, h),
        Tracker::alloc_recorded(t1, t2, s2, a2, z2, h),
        z1 + z2 <= u64::MAX,
    ensures
        t2.spec_site(h) == Some(BacktraceMetric { allocated: (z1 + z2) as u64, freed: 0, allocations: 2, mode: t0.spec_mode() }),
        t2.spec_site(h)->0.spec_in_use() == z1 + z2,
        t2.spec_order() == t0.spec_order().push(h),
{
}

/// What a free by slot `freer` of memory of slot `owner` adds to the count
/// of bytes that the first `j` named slots (those named `m`, or all with
/// `m == -1`) freed of `owner`'s memory.
proof fn lemma_free_step_freed_by(
    t1: ThreadTable,
    t2: ThreadTable,
    ids: Seq<Option<usize>>,
    n: int,
    freer: int,
    owner: int,
    size: int,
    who: int,
    m: Option<int>,
    j: int,
)
    requires
        free_step(t1, t2, freer, owner, size),
        0 <= freer < t1.spec_slots(),
        0 <= j <= t1.spec_slots(),
    ensures
        freed_by_name(t2, ids, n, who, m, j) == freed_by_name(t1, ids, n, who, m, j) + if who == owner && freer < j
            && name_id(ids, n, freer) is Some && (m is None || name_id(ids, n, freer) == m) {
            t2.spec_freed(freer, owner) - t1.spec_freed(freer, owner)
        } else {
            0
        },
    decreases j,
{
    if j > 0 {
        lemma_free_step_freed_by(t1, t2, ids, n, freer, owner, size, who, m, j - 1);
        assert(t2.spec_freed(j - 1, who) == if j - 1 == freer && who == owner {
            crate::threads::sat_add(t1.spec_freed(j - 1, who) as int, size)
        } else {
            t1.spec_freed(j - 1, who) as int
        });
    }
}

/// What that free adds to a report sum over the first `i` slots named `k`.
proof fn lemma_free_step_name_sum(
    t1: ThreadTable,
    t2: ThreadTable,
    ids: Seq<Option<usize>>,
    n: int,
    freer: int,
    owner: int,
    size: int,
    k: int,
    m: int,
    i: int,
)
    requires
        free_step(t1, t2, freer, owner, size),
        0 <= freer < t1.spec_slots(),
        0 <= i <= t1.spec_slots(),
        m >= 0,
    ensures
        name_sum(t2, ids, n, k, i, Part::FreedByName, m) == name_sum(t1, ids, n, k, i, Part::FreedByName, m) + if owner < i && name_id(ids, n, owner)
            == Some(k) && name_id(ids, n, freer) is Some && name_id(ids, n, freer)->0 == m {
            t2.spec_freed(freer, owner) - t1.spec_freed(freer, owner)
        } else {
            0
        },
        name_sum(t2, ids, n, k, i, Part::Allocated, m) == name_sum(t1, ids, n, k, i, Part::Allocated, m),
    decreases i,
{
    if i > 0 {
        lemma_free_step_name_sum(t1, t2, ids, n, freer, owner, size, k, m, i - 1);
        let s = t1.spec_slots() as int;
        lemma_free_step_freed_by(t1, t2, ids, n, freer, owner, size, i - 1, Some(m), s);
        assert(t2.spec_slots() == s);
        assert(slot_part(t2, ids, n, i - 1, Part::FreedByName, m) == freed_by_name(t2, ids, n, i - 1, Some(m), s));
        assert(slot_part(t1, ids, n, i - 1, Part::FreedByName, m) == freed_by_name(t1, ids, n, i - 1, Some(m), s));
        assert(slot_part(t2, ids, n, i - 1, Part::Allocated, m) == slot_part(t1, ids, n, i - 1, Part::Allocated, m));
    }
}

/// In the thread report, when a thread of name `kb` frees `size` bytes that a
/// thread of name `ka` allocated, the bytes of `ka` freed by `kb` grow by
/// `size`, and no name's allocated bytes change (as long as the counts fit in
/// a `u64`).
pub proof fn cross_thread_free_in_report(
    t1: Tracker,
    t2: Tracker,
    b: usize,
    addr: usize,
    size: u64,
    ids: Seq<Option<usize>>,
    names: int,
    ka: int,
    kb: int,
    k: int,
    r1a: crate::threads::ThreadMetric,
    r2a: crate::threads::ThreadMetric,
    r1k: crate::threads::ThreadMetric,
    r2k: crate::threads::ThreadMetric,
)
    requires
        t1.wf(),
        b < t1.spec_table().spec_slots(),
        Tracker::free_recorded(t1, t2, b as int, addr, size),
        name_id(ids, names, t1.spec_live()[addr].0 as int) == Some(ka),
        name_id(ids, names, b as int) == Some(kb),
        t1.spec_table().spec_freed(b as int, t1.spec_live()[addr].0 as int) + size <= u64::MAX,
        name_sum(t1.spec_table(), ids, names, ka, t1.spec_table().spec_slots() as int, Part::FreedByName, kb) + size <= u64::MAX,
        metric_of(t1.spec_table(), ids, names, ka, r1a),
        metric_of(t2.spec_table(), ids, names, ka, r2a),
        metric_of(t1.spec_table(), ids, names, k, r1k),
        metric_of(t2.spec_table(), ids, names, k, r2k),
    ensures
        r2a.freed_by_others@[kb] == r1a.freed_by_others@[kb] + size,
        r2k.total_alloc == r1k.total_alloc,
{
    cross_thread_free_report_counts(t1, t2, b, addr, size, ids, names, ka, kb, k, r1a, r2a, r1k, r2k);
}

/// In the thread report, when a thread of name `kb` frees `size` bytes that a
/// thread of name `ka` allocated, `ka`'s bytes in use fall by `size`, as long
/// as the allocating thread's allocations cover what named threads freed of
/// them and the counts fit in a `u64`.
pub proof fn cross_thread_free_lowers_in_use(
    t1: Tracker,
    t2: Tracker,
    b: usize,
    addr: usize,
    size: u64,
    ids: Seq<Option<usize>>,
    names: int,
    ka: int,
    kb: int,
    r1a: crate::threads::ThreadMetric,
    r2a: crate::threads::ThreadMetric,
)
    requires
        t1.wf(),
        b < t1.spec_table().spec_slots(),
        Tracker::free_recorded(t1, t2, b as int, addr, size),
        name_id(ids, names, t1.spec_live()[addr].0 as int) == Some(ka),
        name_id(ids, names, b as int) == Some(kb),
        t1.spec_table().spec_freed(b as int, t1.spec_live()[addr].0 as int) + size <= u64::MAX,
        freed_by_name(t1.spec_table(), ids, names, t1.spec_live()[addr].0 as int, None, t1.spec_table().spec_slots() as int)
            + size <= t1.spec_table().spec_allocated(t1.spec_live()[addr].0 as int),
        name_sum(t1.spec_table(), ids, names, ka, t1.spec_table().spec_slots() as int, Part::InUse, 0) <= u64::MAX,
        metric_of(t1.spec_table(), ids, names, ka, r1a),
        metric_of(t2.spec_table(), ids, names, ka, r2a),
    ensures
        r2a.current_used == r1a.current_used - size,
{
    let a = t1.spec_live()[addr].0 as int;
    let s = t1.spec_table().spec_slots() as int;
    t1.lemma_live_slot(addr);
    assert(t2.spec_table().spec_freed(b as int, a) == t1.spec_table().spec_freed(b as int, a) + size);
    lemma_free_step_in_use(t1.spec_table(), t2.spec_table(), ids, names, b as int, a, size as int, ka, s);
    assert(t2.spec_table().spec_slots() == s);
}

proof fn cross_thread_free_report_counts(
    t1: Tracker,
    t2: Tracker,
    b: usize,
    addr: usize,
    size: u64,
    ids: Seq<Option<usize>>,
    names: int,
    ka: int,
    kb: int,
    k: int,
    r1a: crate::threads::ThreadMetric,
    r2a: crate::threads::ThreadMetric,
    r1k: crate::threads::ThreadMetric,
    r2k: crate::threads::ThreadMetric,
)
    requires
        t1.wf(),
        b < t1.spec_table().spec_slots(),
        Tracker::free_recorded(t1, t2, b as int, addr, size),
        name_id(ids, names, t1.spec_live()[addr].0 as int) == Some(ka),
        name_id(ids, names, b as int) == Some(kb),
        t1.spec_table().spec_freed(b as int, t1.spec_live()[addr].0 as int) + size <= u64::MAX,
        name_sum(t1.spec_table(), ids, names, ka, t1.spec_table().spec_slots() as int, Part::FreedByName, kb) + size <= u64::MAX,
        metric_of(t1.spec_table(), ids, names, ka, r1a),
        metric_of(t2.spec_table(), ids, names, ka, r2a),
        metric_of(t1.spec_table(), ids, names, k, r1k),
        metric_of(t2.spec_table(), ids, names, k, r2k),
    ensures
        r2a.freed_by_others@[kb] == r1a.freed_by_others@[kb] + size,
        r2k.total_alloc == r1k.total_alloc,
{
    let a = t1.spec_live()[addr].0 as int;
    let s = t1.spec_table().spec_slots() as int;
    assert(0 <= kb < names);
    t1.lemma_live_slot(addr);
    assert(t2.spec_table().spec_freed(b as int, a) == t1.spec_table().spec_freed(b as int, a) + size);
    lemma_free_step_name_sum(t1.spec_table(), t2.spec_table(), ids, names, b as int, a, size as int, ka, kb, s);
    lemma_free_step_name_sum(t1.spec_table(), t2.spec_table(), ids, names, b as int, a, size as int, k, 0, s);
    assert(t2.spec_table().spec_slots() == s);
    assert(r2a.freed_by_others@[kb] == crate::threads::cap(name_sum(t2.spec_table(), ids, names, ka, s, Part::FreedByName, kb)));
    lemma_name_sum_nonneg(t1.spec_table(), ids, names, ka, s, kb);
}

/// What that free takes off the bytes in use of the first `i` slots named
/// `k`, when the owner's allocations cover what named slots freed of them.
proof fn lemma_free_step_in_use(
    t1: ThreadTable,
    t2: ThreadTable,
    ids: Seq<Option<usize>>,
    n: int,
    freer: int,
    owner: int,
    size: int,
    k: int,
    i: int,
)
    requires
        free_step(t1, t2, freer, owner, size),
        0 <= freer < t1.spec_slots(),
        0 <= i <= t1.spec_slots(),
        name_id(ids, n, freer) is Some,
        size >= 0,
        t2.spec_freed(freer, owner) == t1.spec_freed(freer, owner) + size,
        freed_by_name(t1, ids, n, owner, None, t1.spec_slots() as int) + size <= u64::MAX,
        t1.spec_allocated(owner) >= freed_by_name(t1, ids, n, owner, None, t1.spec_slots() as int) + size,
    ensures
        name_sum(t2, ids, n, k, i, Part::InUse, 0) == name_sum(t1, ids, n, k, i, Part::InUse, 0) - if owner < i
            && name_id(ids, n, owner) == Some(k) {
            size
        } else {
            0
        },
    decreases i,
{
    if i > 0 {
        lemma_free_step_in_use(t1, t2, ids, n, freer, owner, size, k, i - 1);
        let s = t1.spec_slots() as int;
        assert(t2.spec_slots() == s);
        lemma_free_step_freed_by(t1, t2, ids, n, freer, owner, size, i - 1, None, s);
        crate::threads::lemma_freed_by_name_nonneg(t1, ids, n, i - 1, None, s);
        assert(t2.spec_allocated(i - 1) == t1.spec_allocated(i - 1));
        let f1 = freed_by_name(t1, ids, n, i - 1, None, s);
        let f2 = freed_by_name(t2, ids, n, i - 1, None, s);
        assert(f2 == f1 + if i - 1 == owner {
            size
        } else {
            0
        });
        assert(slot_part(t1, ids, n, i - 1, Part::InUse, 0) == crate::threads::sat_sub(
            t1.spec_allocated(i - 1) as int,
            crate::threads::cap(f1),
        ));
        assert(slot_part(t2, ids, n, i - 1, Part::InUse, 0) == crate::threads::sat_sub(
            t2.spec_allocated(i - 1) as int,
            crate::threads::cap(f2),
        ));
        if i - 1 == owner {
            assert(f1 >= 0);
            assert(f1 == freed_by_name(t1, ids, n, owner, None, t1.spec_slots() as int));
            assert(f2 <= u64::MAX);
            assert(crate::threads::cap(f2) == f2);
            assert(crate::threads::cap(f1) == f1);
            assert(t1.spec_allocated(owner) >= f2);
            assert(slot_part(t2, ids, n, i - 1, Part::InUse, 0) == slot_part(t1, ids, n, i - 1, Part::InUse, 0) - size);
        } else {
            assert(slot_part(t2, ids, n, i - 1, Part::InUse, 0) == slot_part(t1, ids, n, i - 1, Part::InUse, 0));
        }
    }
}

proof fn lemma_name_sum_nonneg(t: ThreadTable, ids: Seq<Option<usize>>, n: int, k: int, i: int, m: int)
    ensures
        name_sum(t, ids, n, k, i, Part::FreedByName, m) >= 0,
    decreases i,
{
    if i > 0 {
        lemma_name_sum_nonneg(t, ids, n, k, i - 1, m);
        crate::threads::lemma_freed_by_name_nonneg(t, ids, n, i - 1, Some(m), t.spec_slots() as int);
    }
}

} // verus!
