use vstd::prelude::*;

verus! {

/// Default number of thread slots; a slot is handed out once per thread and
/// never reused.
pub const MAX_THREADS: usize = 1024;

/// `a + b`, held at `u64::MAX` where it would not fit.
pub open spec fn sat_add(a: int, b: int) -> int {
    if a + b > u64::MAX {
        u64::MAX as int
    } else {
        a + b
    }
}

/// `a - b`, held at zero where it would be negative.
pub open spec fn sat_sub(a: int, b: int) -> int {
    if a < b {
        0
    } else {
        a - b
    }
}

/// `b` is `a` with its slots, capacity and thread ids kept.
pub open spec fn same_slots(a: ThreadTable, b: ThreadTable) -> bool {
    &&& b.wf()
    &&& b.spec_capacity() == a.spec_capacity()
    &&& b.spec_slots() == a.spec_slots()
    &&& forall|i: int| #[trigger] b.spec_os_tid(i) == a.spec_os_tid(i)
}

/// `b` is `a` after `slot` allocated `size` bytes.
pub open spec fn alloc_step(a: ThreadTable, b: ThreadTable, slot: int, size: int) -> bool {
    &&& same_slots(a, b)
    &&& forall|i: int| 0 <= i < a.spec_slots() ==> #[trigger] b.spec_allocated(i) == if i == slot {
        sat_add(a.spec_allocated(i) as int, size)
    } else {
        a.spec_allocated(i) as int
    }
    &&& forall|i: int, j: int| #[trigger] b.spec_freed(i, j) == a.spec_freed(i, j)
}

/// `b` is `a` after `freer` freed `size` bytes that `owner` allocated.
pub open spec fn free_step(a: ThreadTable, b: ThreadTable, freer: int, owner: int, size: int) -> bool {
    &&& same_slots(a, b)
    &&& forall|i: int| #[trigger] b.spec_allocated(i) == a.spec_allocated(i)
    &&& forall|i: int, j: int| 0 <= i < a.spec_slots() ==> #[trigger] b.spec_freed(i, j) == if i == freer && j == owner {
        sat_add(a.spec_freed(i, j) as int, size)
    } else {
        a.spec_freed(i, j) as int
    }
}

/// The per-thread accounting: one slot per thread that has touched the
/// allocator, each with the bytes it allocated and, for every slot `j`, the
/// bytes that it freed out of what slot `j` allocated.
pub struct ThreadTable {
    capacity: usize,
    os_tids: Vec<u32>,
    allocated: Vec<u64>,
    freed: Vec<Vec<u64>>,
}

impl ThreadTable {
    /// Largest number of slots this table hands out.
    pub closed spec fn spec_capacity(&self) -> nat {
        self.capacity as nat
    }

    /// Number of slots handed out so far.
    pub closed spec fn spec_slots(&self) -> nat {
        self.allocated@.len()
    }

    /// OS thread id recorded for a slot (0: none yet).
    pub closed spec fn spec_os_tid(&self, slot: int) -> u32 {
        self.os_tids@[slot]
    }

    /// Bytes allocated by a slot.
    pub closed spec fn spec_allocated(&self, slot: int) -> u64 {
        self.allocated@[slot]
    }

    /// Bytes that slot `freer` freed out of memory that slot `owner` allocated.
    pub closed spec fn spec_freed(&self, freer: int, owner: int) -> u64 {
        if 0 <= owner < self.capacity {
            self.freed@[freer]@[owner]
        } else {
            0
        }
    }

    pub closed spec fn wf(&self) -> bool {
        &&& self.allocated@.len() <= self.capacity
        &&& self.os_tids@.len() == self.allocated@.len()
        &&& self.freed@.len() == self.allocated@.len()
        &&& forall|i: int| 0 <= i < self.freed@.len() ==> #[trigger] self.freed@[i]@.len() == self.capacity
    }

    /// A table with no slots that hands out at most `capacity` of them.
    pub fn with_capacity(capacity: usize) -> (r: Self)
        ensures
            r.wf(),
            r.spec_capacity() == capacity,
            r.spec_slots() == 0,
    {
        ThreadTable { capacity, os_tids: Vec::new(), allocated: Vec::new(), freed: Vec::new() }
    }

    pub fn capacity(&self) -> (r: usize)
        ensures
            r == self.spec_capacity(),
    {
        self.capacity
    }

    pub fn slots(&self) -> (r: usize)
        requires
            self.wf(),
        ensures
            r == self.spec_slots(),
    {
        self.allocated.len()
    }

    /// Hands out the next slot, or `None` when all of them are taken; the
    /// slots already handed out are left as they were.
    pub fn register(&mut self) -> (r: Option<usize>)
        requires
            old(self).wf(),
        ensures
            final(self).wf(),
            final(self).spec_capacity() == old(self).spec_capacity(),
            old(self).spec_slots() < old(self).spec_capacity() <==> r is Some,
            r is Some ==> r->0 == old(self).spec_slots() && final(self).spec_slots() == old(self).spec_slots() + 1,
            r is None ==> *final(self) == *old(self),
            forall|i: int| 0 <= i < old(self).spec_slots() ==> {
                &&& #[trigger] final(self).spec_allocated(i) == old(self).spec_allocated(i)
                &&& final(self).spec_os_tid(i) == old(self).spec_os_tid(i)
            },
            forall|i: int, j: int| 0 <= i < old(self).spec_slots() ==>
                #[trigger] final(self).spec_freed(i, j) == old(self).spec_freed(i, j),
            r is Some ==> final(self).spec_allocated(r->0 as int) == 0 && final(self).spec_os_tid(r->0 as int) == 0,
            r is Some ==> forall|j: int| #[trigger] final(self).spec_freed(r->0 as int, j) == 0,
    {
        let n = self.allocated.len();
        if n >= self.capacity {
            return None;
        }
        let mut row: Vec<u64> = Vec::new();
        let mut k: usize = 0;
        while k < self.capacity
            invariant
                k <= self.capacity,
                row@.len() == k,
                forall|x: int| 0 <= x < k ==> row@[x] == 0,
            decreases self.capacity - k,
        {
            row.push(0);
            k = k + 1;
        }
        self.os_tids.push(0);
        self.allocated.push(0);
        self.freed.push(row);
        assert forall|i: int| 0 <= i < self.freed@.len() implies #[trigger] self.freed@[i]@.len() == self.capacity by {
            if i < n {
                assert(self.freed@[i] == old(self).freed@[i]);
            }
        }
        Some(n)
    }

    /// Whether the OS thread id of a slot is still to be recorded.
    pub fn needs_os_tid(&self, slot: usize) -> (r: bool)
        requires
            self.wf(),
            slot < self.spec_slots(),
        ensures
            r == (self.spec_os_tid(slot as int) == 0),
    {
        self.os_tids[slot] == 0
    }

    pub fn os_tid(&self, slot: usize) -> (r: u32)
        requires
            self.wf(),
            slot < self.spec_slots(),
        ensures
            r == self.spec_os_tid(slot as int),
    {
        self.os_tids[slot]
    }

    /// Records the OS thread id of a slot, used to look up its name.
    pub fn set_os_tid(&mut self, slot: usize, tid: u32)
        requires
            old(self).wf(),
            slot < old(self).spec_slots(),
        ensures
            final(self).wf(),
            final(self).spec_capacity() == old(self).spec_capacity(),
            final(self).spec_slots() == old(self).spec_slots(),
            forall|i: int| 0 <= i < old(self).spec_slots() ==> #[trigger] final(self).spec_os_tid(i) == if i == slot {
                tid
            } else {
                old(self).spec_os_tid(i)
            },
            forall|i: int| #[trigger] final(self).spec_allocated(i) == old(self).spec_allocated(i),
            forall|i: int, j: int| #[trigger] final(self).spec_freed(i, j) == old(self).spec_freed(i, j),
    {
        self.os_tids.set(slot, tid);
    }

    pub fn allocated(&self, slot: usize) -> (r: u64)
        requires
            self.wf(),
            slot < self.spec_slots(),
        ensures
            r == self.spec_allocated(slot as int),
    {
        self.allocated[slot]
    }

    pub fn freed(&self, freer: usize, owner: usize) -> (r: u64)
        requires
            self.wf(),
            freer < self.spec_slots(),
        ensures
            r == self.spec_freed(freer as int, owner as int),
    {
        if owner < self.capacity {
            self.freed[freer][owner]
        } else {
            0
        }
    }

    /// Adds `size` bytes to what `slot` allocated.
    pub fn add_allocated(&mut self, slot: usize, size: u64)
        requires
            old(self).wf(),
            slot < old(self).spec_slots(),
        ensures
            alloc_step(*old(self), *final(self), slot as int, size as int),
    {
        let v = self.allocated[slot].saturating_add(size);
        self.allocated.set(slot, v);
    }

    /// Adds `size` bytes to what `freer` freed out of what `owner` allocated.
    pub fn add_freed(&mut self, freer: usize, owner: usize, size: u64)
        requires
            old(self).wf(),
            freer < old(self).spec_slots(),
            owner < old(self).spec_slots(),
        ensures
            free_step(*old(self), *final(self), freer as int, owner as int, size as int),
    {
        let mut row: Vec<u64> = Vec::new();
        std::mem::swap(&mut row, &mut self.freed[freer]);
        let v = row[owner].saturating_add(size);
        row.set(owner, v);
        self.freed.set(freer, row);
        assert forall|i: int| 0 <= i < self.freed@.len() implies #[trigger] self.freed@[i]@.len() == self.capacity by {
            if i != freer {
                assert(self.freed@[i] == old(self).freed@[i]);
            }
        }
    }
}

/// `x` held at `u64::MAX`.
pub open spec fn cap(x: int) -> int {
    if x > u64::MAX {
        u64::MAX as int
    } else {
        x
    }
}

/// The name id of slot `j`, where `ids` gives one below `n`.
pub open spec fn name_id(ids: Seq<Option<usize>>, n: int, j: int) -> Option<int> {
    if 0 <= j < ids.len() && ids[j] is Some && (ids[j]->0 as int) < n {
        Some(ids[j]->0 as int)
    } else {
        None
    }
}

/// Bytes that the first `j` slots whose name is `m` freed of what `owner`
/// allocated; with `m` of `None`, the first `j` slots that have any name.
pub open spec fn freed_by_name(t: ThreadTable, ids: Seq<Option<usize>>, n: int, owner: int, m: Option<int>, j: int) -> int
    decreases j,
{
    if j <= 0 {
        0
    } else {
        freed_by_name(t, ids, n, owner, m, j - 1) + match name_id(ids, n, j - 1) {
            Some(x) => if m is None || m == Some(x) {
                t.spec_freed(j - 1, owner) as int
            } else {
                0
            },
            None => 0,
        }
    }
}

pub proof fn lemma_freed_by_name_nonneg(t: ThreadTable, ids: Seq<Option<usize>>, n: int, owner: int, m: Option<int>, j: int)
    ensures
        freed_by_name(t, ids, n, owner, m, j) >= 0,
    decreases j,
{
    if j > 0 {
        lemma_freed_by_name_nonneg(t, ids, n, owner, m, j - 1);
    }
}

/// Bytes that slot `i` freed, over the first `c` owners.
pub open spec fn freed_row(t: ThreadTable, i: int, c: int) -> int
    decreases c,
{
    if c <= 0 {
        0
    } else {
        freed_row(t, i, c - 1) + t.spec_freed(i, c - 1) as int
    }
}

/// The figures of a thread report entry, each a sum over the slots of one
/// name.
pub enum Part {
    /// Bytes the slot allocated.
    Allocated,
    /// Bytes of the slot's memory that named slots freed.
    FreedByNamed,
    /// Bytes the slot freed, whoever allocated them.
    FreedBySelf,
    /// Bytes the slot allocated and no named slot freed.
    InUse,
    /// Bytes of the slot's memory that the slots of one name freed.
    FreedByName,
}

/// What slot `i` adds to the figure `part` of its name's entry (`m` is the
/// freeing name, for `Part::FreedByName`).
pub open spec fn slot_part(t: ThreadTable, ids: Seq<Option<usize>>, n: int, i: int, part: Part, m: int) -> int {
    let slots = t.spec_slots() as int;
    let freed_by_named = cap(freed_by_name(t, ids, n, i, None, slots));
    match part {
        Part::Allocated => t.spec_allocated(i) as int,
        Part::FreedByNamed => freed_by_named,
        Part::FreedBySelf => cap(freed_row(t, i, t.spec_capacity() as int)),
        Part::InUse => sat_sub(t.spec_allocated(i) as int, freed_by_named),
        Part::FreedByName => freed_by_name(t, ids, n, i, Some(m), slots),
    }
}

/// Sum of `slot_part` over the first `i` slots whose name is `k`.
pub open spec fn name_sum(t: ThreadTable, ids: Seq<Option<usize>>, n: int, k: int, i: int, part: Part, m: int) -> int
    decreases i,
{
    if i <= 0 {
        0
    } else {
        name_sum(t, ids, n, k, i - 1, part, m) + if name_id(ids, n, i - 1) == Some(k) {
            slot_part(t, ids, n, i - 1, part, m)
        } else {
            0
        }
    }
}

/// Allocation totals of all the threads that share one name.
pub struct ThreadMetric {
    /// Bytes these threads allocated.
    pub total_alloc: u64,
    /// Bytes these threads freed, whoever allocated them, counted per
    /// thread and held at `u64::MAX`.
    pub total_did_free: u64,
    /// Bytes of theirs that named threads freed, counted per thread and
    /// held at `u64::MAX`.
    pub total_freed: u64,
    /// Bytes of theirs not yet freed by a named thread.
    pub current_used: u64,
    /// For each name id, the bytes of theirs that threads of that name freed.
    pub freed_by_others: Vec<u64>,
}

/// One entry per thread name, in the order of the names given.
pub struct ThreadReport(pub Vec<(String, ThreadMetric)>);

/// The report entry of name `k`: every field is the capped sum over the slots
/// of that name.
pub open spec fn metric_of(t: ThreadTable, ids: Seq<Option<usize>>, n: int, k: int, r: ThreadMetric) -> bool {
    let s = t.spec_slots() as int;
    &&& r.total_alloc == cap(name_sum(t, ids, n, k, s, Part::Allocated, 0))
    &&& r.total_did_free == cap(name_sum(t, ids, n, k, s, Part::FreedBySelf, 0))
    &&& r.total_freed == cap(name_sum(t, ids, n, k, s, Part::FreedByNamed, 0))
    &&& r.current_used == cap(name_sum(t, ids, n, k, s, Part::InUse, 0))
    &&& r.freed_by_others@.len() == n
    &&& forall|m: int| 0 <= m < n ==> #[trigger] r.freed_by_others@[m] == cap(name_sum(t, ids, n, k, s, Part::FreedByName, m))
}

/// Bytes that the named slots freed of what `owner` allocated, and adds each
/// of them to the count of the freeing slot's name in `by_name`.
fn freed_of_owner(t: &ThreadTable, ids: &Vec<Option<usize>>, owner: usize, by_name: &mut Vec<u64>) -> (r: u64)
    requires
        t.wf(),
        owner < t.spec_slots(),
        forall|m: int| 0 <= m < old(by_name)@.len() ==> cap(#[trigger] old(by_name)@[m] as int) == old(by_name)@[m],
    ensures
        r == cap(freed_by_name(*t, ids@, old(by_name)@.len() as int, owner as int, None, t.spec_slots() as int)),
        final(by_name)@.len() == old(by_name)@.len(),
        forall|m: int| 0 <= m < old(by_name)@.len() ==> #[trigger] final(by_name)@[m] == cap(
            old(by_name)@[m] + freed_by_name(*t, ids@, old(by_name)@.len() as int, owner as int, Some(m), t.spec_slots() as int),
        ),
{
    let n = by_name.len();
    let slots = t.slots();
    let ghost start = by_name@;
    let mut total: u64 = 0;
    let mut j: usize = 0;
    while j < slots
        invariant
            t.wf(),
            slots == t.spec_slots(),
            owner < slots,
            j <= slots,
            by_name@.len() == n,
            n == start.len(),
            total == cap(freed_by_name(*t, ids@, n as int, owner as int, None, j as int)),
            forall|m: int| 0 <= m < n ==> #[trigger] by_name@[m] == cap(
                start[m] + freed_by_name(*t, ids@, n as int, owner as int, Some(m), j as int),
            ),
            forall|m: int| 0 <= m < n ==> cap(#[trigger] start[m] as int) == start[m],
        decreases slots - j,
    {
        let freed = t.freed(j, owner);
        if j < ids.len() {
            match ids[j] {
                Some(m) => {
                    if m < n {
                        total = total.saturating_add(freed);
                        let v = by_name[m].saturating_add(freed);
                        by_name.set(m, v);
                    }
                },
                None => {},
            }
        }
        j = j + 1;
    }
    total
}

/// Builds the report entry of name `k`.
fn metric_for_name(t: &ThreadTable, ids: &Vec<Option<usize>>, n: usize, k: usize) -> (r: ThreadMetric)
    requires
        t.wf(),
    ensures
        metric_of(*t, ids@, n as int, k as int, r),
{
    let slots = t.slots();
    let mut by_name: Vec<u64> = Vec::new();
    let mut x: usize = 0;
    while x < n
        invariant
            x <= n,
            by_name@.len() == x,
            forall|m: int| 0 <= m < x ==> by_name@[m] == 0,
        decreases n - x,
    {
        by_name.push(0);
        x = x + 1;
    }
    let mut total_alloc: u64 = 0;
    let mut total_did_free: u64 = 0;
    let mut total_freed: u64 = 0;
    let mut current_used: u64 = 0;
    let mut i: usize = 0;
    while i < slots
        invariant
            t.wf(),
            slots == t.spec_slots(),
            i <= slots,
            by_name@.len() == n,
            total_alloc == cap(name_sum(*t, ids@, n as int, k as int, i as int, Part::Allocated, 0)),
            total_did_free == cap(name_sum(*t, ids@, n as int, k as int, i as int, Part::FreedBySelf, 0)),
            total_freed == cap(name_sum(*t, ids@, n as int, k as int, i as int, Part::FreedByNamed, 0)),
            current_used == cap(name_sum(*t, ids@, n as int, k as int, i as int, Part::InUse, 0)),
            forall|m: int| 0 <= m < n ==> #[trigger] by_name@[m] == cap(
                name_sum(*t, ids@, n as int, k as int, i as int, Part::FreedByName, m),
            ),
        decreases slots - i,
    {
        let named_k = i < ids.len() && match ids[i] {
            Some(id) => id == k && k < n,
            None => false,
        };
        assert(named_k == (name_id(ids@, n as int, i as int) == Some(k as int)));
        if named_k {
            let alloced = t.allocated(i);
            let ghost before = by_name@;
            assert forall|m: int| 0 <= m < before.len() implies cap(#[trigger] before[m] as int) == before[m] by {}
            let freed_by_named = freed_of_owner(t, ids, i, &mut by_name);
            assert forall|m: int| 0 <= m < n implies #[trigger] by_name@[m] == cap(
                name_sum(*t, ids@, n as int, k as int, i + 1, Part::FreedByName, m),
            ) by {
                lemma_freed_by_name_nonneg(*t, ids@, n as int, i as int, Some(m), slots as int);
            }
            let mut row: u64 = 0;
            let cap_n = t.capacity();
            let mut c: usize = 0;
            while c < cap_n
                invariant
                    t.wf(),
                    i < t.spec_slots(),
                    cap_n == t.spec_capacity(),
                    c <= cap_n,
                    row == cap(freed_row(*t, i as int, c as int)),
                decreases cap_n - c,
            {
                row = row.saturating_add(t.freed(i, c));
                c = c + 1;
            }
            total_alloc = total_alloc.saturating_add(alloced);
            total_did_free = total_did_free.saturating_add(row);
            total_freed = total_freed.saturating_add(freed_by_named);
            current_used = current_used.saturating_add(alloced.saturating_sub(freed_by_named));
        }
        i = i + 1;
    }
    ThreadMetric { total_alloc, total_did_free, total_freed, current_used, freed_by_others: by_name }
}

/// The thread report: for each of `names`, in order, the totals of the slots
/// that `ids` gives that name (`ids[i]` names slot `i`; a slot without a name,
/// or with an id out of range, is left out, and so are the bytes that it freed).
pub fn thread_report(table: &ThreadTable, ids: &Vec<Option<usize>>, names: &Vec<String>) -> (r: ThreadReport)
    requires
        table.wf(),
    ensures
        r.0@.len() == names@.len(),
        forall|k: int| 0 <= k < names@.len() ==> {
            &&& (#[trigger] r.0@[k]).0@ == names@[k]@
            &&& metric_of(*table, ids@, names@.len() as int, k, r.0@[k].1)
        },
{
    let n = names.len();
    let mut out: Vec<(String, ThreadMetric)> = Vec::new();
    let mut k: usize = 0;
    while k < n
        invariant
            table.wf(),
            n == names@.len(),
            k <= n,
            out@.len() == k,
            forall|x: int| 0 <= x < k ==> {
                &&& (#[trigger] out@[x]).0@ == names@[x]@
                &&& metric_of(*table, ids@, n as int, x, out@[x].1)
            },
        decreases n - k,
    {
        let metric = metric_for_name(table, ids, n, k);
        let name = names[k].clone();
        out.push((name, metric));
        k = k + 1;
    }
    ThreadReport(out)
}

} // verus!
