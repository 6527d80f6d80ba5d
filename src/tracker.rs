use backtrace::Backtrace;
use dashmap::DashMap;
use vstd::prelude::*;

use crate::backtrace_support::{frames_resolved, HashedBacktrace};
use crate::metric::BacktraceMetric;
use crate::mode::BacktraceMode;
use crate::threads::{alloc_step, free_step, sat_add, ThreadTable};

verus! {

#[verifier::external_type_specification]
#[verifier::external_body]
#[verifier::reject_recursive_types(K)]
#[verifier::reject_recursive_types(V)]
#[verifier::reject_recursive_types(S)]
pub struct ExDashMap<K, V, S>(DashMap<K, V, S>);

/// What the live-allocation table holds: address to (allocating slot, site hash).
pub uninterp spec fn live_entries(m: DashMap<usize, (usize, u64)>) -> Map<usize, (usize, u64)>;

/// What the site index holds: site hash to the position of its record.
pub uninterp spec fn site_positions(m: DashMap<u64, usize>) -> Map<u64, usize>;

/// Relies on `DashMap::new`: an empty map.
#[verifier::external_body]
fn new_live_table() -> (r: DashMap<usize, (usize, u64)>)
    ensures
        live_entries(r).dom() == Set::<usize>::empty(),
{
    DashMap::new()
}

/// Relies on `DashMap::insert`: afterwards the key maps to the value, and
/// the other keys are untouched.
#[verifier::external_body]
fn live_insert(m: &mut DashMap<usize, (usize, u64)>, addr: usize, v: (usize, u64))
    ensures
        live_entries(*final(m)) == live_entries(*old(m)).insert(addr, v),
{
    m.insert(addr, v);
}

/// Relies on `DashMap::remove`: takes out the entry of the key and returns
/// its value, or returns `None` when there is none.
#[verifier::external_body]
fn live_remove(m: &mut DashMap<usize, (usize, u64)>, addr: usize) -> (r: Option<(usize, u64)>)
    ensures
        live_entries(*old(m)).contains_key(addr) ==> r == Some(live_entries(*old(m))[addr]),
        !live_entries(*old(m)).contains_key(addr) ==> r is None,
        live_entries(*final(m)) == live_entries(*old(m)).remove(addr),
{
    m.remove(&addr).map(|(_, v)| v)
}

/// Relies on `DashMap::contains_key`.
#[verifier::external_body]
fn live_contains(m: &DashMap<usize, (usize, u64)>, addr: usize) -> (r: bool)
    ensures
        r == live_entries(*m).contains_key(addr),
{
    m.contains_key(&addr)
}

/// Relies on `DashMap::new`: an empty map.
#[verifier::external_body]
fn new_site_index() -> (r: DashMap<u64, usize>)
    ensures
        site_positions(r).dom() == Set::<u64>::empty(),
{
    DashMap::new()
}

/// Relies on `DashMap::get`: the value of the key, if any.
#[verifier::external_body]
fn site_get(m: &DashMap<u64, usize>, h: u64) -> (r: Option<usize>)
    ensures
        site_positions(*m).contains_key(h) ==> r == Some(site_positions(*m)[h]),
        !site_positions(*m).contains_key(h) ==> r is None,
{
    m.get(&h).map(|e| *e.value())
}

/// Relies on `DashMap::insert`: afterwards the key maps to the value, and
/// the other keys are untouched.
#[verifier::external_body]
fn site_insert(m: &mut DashMap<u64, usize>, h: u64, pos: usize)
    ensures
        site_positions(*final(m)) == site_positions(*old(m)).insert(h, pos),
{
    m.insert(h, pos);
}

/// The site hash and the figures of each entry.
pub open spec fn pairs_of(s: Seq<(HashedBacktrace, BacktraceMetric)>) -> Seq<(u64, BacktraceMetric)> {
    s.map_values(|e: (HashedBacktrace, BacktraceMetric)| (e.0.spec_hash(), e.1))
}

/// Every entry holds a captured stack whose symbols were looked up.
pub open spec fn all_resolved(s: Seq<(HashedBacktrace, BacktraceMetric)>) -> bool {
    forall|i: int| 0 <= i < s.len() ==> #[trigger] s[i].0.has_frames() && frames_resolved(s[i].0.spec_inner())
}

/// Entries ordered ascending by bytes in use.
pub open spec fn sorted_by_in_use(s: Seq<(HashedBacktrace, BacktraceMetric)>) -> bool {
    forall|i: int, j: int| 0 <= i < j < s.len() ==> #[trigger] s[i].1.spec_in_use() <= #[trigger] s[j].1.spec_in_use()
}

/// Relies on `slice::sort_by_key`: a stable sort, ascending by the key,
/// here the bytes in use; the entries are only reordered.
#[verifier::external_body]
fn sort_by_in_use(v: &mut Vec<(HashedBacktrace, BacktraceMetric)>)
    ensures
        final(v)@.to_multiset() == old(v)@.to_multiset(),
        pairs_of(final(v)@).to_multiset() == pairs_of(old(v)@).to_multiset(),
        forall|i: int| 0 <= i < final(v)@.len() ==> old(v)@.contains(#[trigger] final(v)@[i]),
        sorted_by_in_use(final(v)@),
{
    v.sort_by_key(|e| e.1.in_use())
}

/// The allocator wrapper's settings: the allocator it hands the real work
/// to, and how much of each call stack it records.
pub struct AllocTrack<T> {
    pub inner: T,
    pub backtrace: BacktraceMode,
}

impl<T> AllocTrack<T> {
    pub fn new(inner: T, backtrace: BacktraceMode) -> (r: Self)
        ensures
            r.inner == inner,
            r.backtrace == backtrace,
    {
        AllocTrack { inner, backtrace }
    }
}

/// Why a thread could not be given a slot.
#[derive(Clone, Copy, Debug, PartialEq, Eq, Structural)]
pub enum SlotError {
    /// Every slot of the table is taken.
    CapacityExceeded,
}

/// Why a free could not be recorded.
#[derive(Clone, Copy, Debug, PartialEq, Eq, Structural)]
pub enum FreeError {
    /// The address is not a live allocation: freed twice, or never allocated here.
    DoubleFree,
}

/// The bookkeeping behind the allocator wrapper: the thread table, the
/// addresses currently allocated, and the per-call-site ledger.
pub struct Tracker {
    mode: BacktraceMode,
    table: ThreadTable,
    live: DashMap<usize, (usize, u64)>,
    site_index: DashMap<u64, usize>,
    sites: Vec<BacktraceMetric>,
    site_traces: Vec<HashedBacktrace>,
}

/// A report of the call sites that passed a filter, with their figures,
/// ascending by bytes in use.
pub struct BacktraceReport(pub Vec<(HashedBacktrace, BacktraceMetric)>);

/// `m` after an allocation of `size` bytes.
pub open spec fn add_alloc(m: BacktraceMetric, size: u64) -> BacktraceMetric {
    BacktraceMetric {
        allocated: sat_add(m.allocated as int, size as int) as u64,
        allocations: sat_add(m.allocations as int, 1) as u64,
        ..m
    }
}

/// `m` after a free of `size` bytes.
pub open spec fn add_free(m: BacktraceMetric, size: u64) -> BacktraceMetric {
    BacktraceMetric { freed: sat_add(m.freed as int, size as int) as u64, ..m }
}

impl Tracker {
    pub closed spec fn spec_mode(&self) -> BacktraceMode {
        self.mode
    }

    pub closed spec fn spec_table(&self) -> ThreadTable {
        self.table
    }

    /// The live allocations: address to (allocating slot, site hash).
    pub closed spec fn spec_live(&self) -> Map<usize, (usize, u64)> {
        live_entries(self.live)
    }

    /// The hashes of the recorded call sites, in the order first seen.
    pub closed spec fn spec_order(&self) -> Seq<u64> {
        self.site_traces@.map_values(|t: HashedBacktrace| t.spec_hash())
    }

    /// The figures of the call site with hash `h`, if it was recorded.
    pub closed spec fn spec_site(&self, h: u64) -> Option<BacktraceMetric> {
        if site_positions(self.site_index).contains_key(h) {
            Some(self.sites@[site_positions(self.site_index)[h] as int])
        } else {
            None
        }
    }

    pub closed spec fn wf(&self) -> bool {
        let pos = site_positions(self.site_index);
        &&& self.table.wf()
        &&& self.sites@.len() == self.site_traces@.len()
        &&& forall|a: usize| #[trigger] live_entries(self.live).contains_key(a)
            ==> live_entries(self.live)[a].0 < self.table.spec_slots()
        &&& forall|h: u64| #[trigger] pos.contains_key(h) ==> pos[h] < self.sites@.len()
            && self.site_traces@[pos[h] as int].spec_hash() == h
        &&& forall|i: int| 0 <= i < self.sites@.len() ==> {
            &&& pos.contains_key(#[trigger] self.site_traces@[i].spec_hash())
            &&& pos[self.site_traces@[i].spec_hash()] == i
            &&& self.site_traces@[i].has_frames()
            &&& self.sites@[i].mode == self.mode
        }
        &&& !self.mode.spec_enabled() ==> self.sites@.len() == 0
    }

    /// A live allocation belongs to a slot that was handed out.
    pub proof fn lemma_live_slot(&self, addr: usize)
        requires
            self.wf(),
            self.spec_live().contains_key(addr),
        ensures
            self.spec_live()[addr].0 < self.spec_table().spec_slots(),
    {
    }

    /// `b` is `a` after `slot` allocated `size` bytes at `addr`, from the call
    /// site with hash `h`.
    pub open spec fn alloc_recorded(a: Tracker, b: Tracker, slot: int, addr: usize, size: u64, h: u64) -> bool {
        &&& b.wf()
        &&& b.spec_mode() == a.spec_mode()
        &&& b.spec_live() == a.spec_live().insert(addr, (slot as usize, h))
        &&& alloc_step(a.spec_table(), b.spec_table(), slot, size as int)
        &&& if a.spec_mode().spec_enabled() {
            &&& b.spec_site(h) == Some(match a.spec_site(h) {
                Some(m) => add_alloc(m, size),
                None => BacktraceMetric { allocated: size, freed: 0, allocations: 1, mode: a.spec_mode() },
            })
            &&& b.spec_order() == if a.spec_site(h) is Some {
                a.spec_order()
            } else {
                a.spec_order().push(h)
            }
            &&& forall|g: u64| g != h ==> #[trigger] b.spec_site(g) == a.spec_site(g)
        } else {
            &&& b.spec_order() == a.spec_order()
            &&& forall|g: u64| #[trigger] b.spec_site(g) == a.spec_site(g)
        }
    }

    /// `b` is `a` after `slot` freed `size` bytes at the live address `addr`.
    pub open spec fn free_recorded(a: Tracker, b: Tracker, slot: int, addr: usize, size: u64) -> bool {
        let (owner, h) = a.spec_live()[addr];
        &&& a.spec_live().contains_key(addr)
        &&& b.wf()
        &&& b.spec_mode() == a.spec_mode()
        &&& b.spec_live() == a.spec_live().remove(addr)
        &&& free_step(a.spec_table(), b.spec_table(), slot, owner as int, size as int)
        &&& b.spec_order() == a.spec_order()
        &&& b.spec_site(h) == match a.spec_site(h) {
            Some(m) => Some(add_free(m, size)),
            None => None,
        }
        &&& forall|g: u64| g != h ==> #[trigger] b.spec_site(g) == a.spec_site(g)
    }

    /// A tracker with no threads, allocations or call sites, that gives out
    /// at most `max_threads` thread slots.
    pub fn new(mode: BacktraceMode, max_threads: usize) -> (r: Self)
        ensures
            r.wf(),
            r.spec_mode() == mode,
            r.spec_table().spec_capacity() == max_threads,
            r.spec_table().spec_slots() == 0,
            r.spec_live() == Map::<usize, (usize, u64)>::empty(),
            r.spec_order() == Seq::<u64>::empty(),
            forall|h: u64| #[trigger] r.spec_site(h) is None,
    {
        let r = Tracker {
            mode,
            table: ThreadTable::with_capacity(max_threads),
            live: new_live_table(),
            site_index: new_site_index(),
            sites: Vec::new(),
            site_traces: Vec::new(),
        };
        assert(r.spec_order() =~= Seq::<u64>::empty());
        assert(r.spec_live() =~= Map::<usize, (usize, u64)>::empty());
        r
    }

    pub fn mode(&self) -> (r: BacktraceMode)
        ensures
            r == self.spec_mode(),
    {
        self.mode
    }

    pub fn table(&self) -> (r: &ThreadTable)
        ensures
            *r == self.spec_table(),
            self.wf() ==> r.wf(),
    {
        &self.table
    }

    /// Whether `addr` is a live allocation.
    pub fn is_live(&self, addr: usize) -> (r: bool)
        ensures
            r == self.spec_live().contains_key(addr),
    {
        live_contains(&self.live, addr)
    }

    /// Gives the calling thread the next slot, or fails when all are taken;
    /// the slots already given out are left as they were.
    #[verifier::spinoff_prover]
    pub fn register_thread(&mut self) -> (r: Result<usize, SlotError>)
        requires
            old(self).wf(),
        ensures
            final(self).wf(),
            final(self).spec_mode() == old(self).spec_mode(),
            final(self).spec_live() == old(self).spec_live(),
            final(self).spec_order() == old(self).spec_order(),
            forall|h: u64| #[trigger] final(self).spec_site(h) == old(self).spec_site(h),
            final(self).spec_table().spec_capacity() == old(self).spec_table().spec_capacity(),
            (old(self).spec_table().spec_slots() < old(self).spec_table().spec_capacity()) <==> r is Ok,
            r is Ok ==> r->Ok_0 == old(self).spec_table().spec_slots()
                && final(self).spec_table().spec_slots() == old(self).spec_table().spec_slots() + 1,
            r is Err ==> *final(self) == *old(self),
            forall|i: int| 0 <= i < old(self).spec_table().spec_slots() ==> {
                &&& #[trigger] final(self).spec_table().spec_allocated(i) == old(self).spec_table().spec_allocated(i)
                &&& final(self).spec_table().spec_os_tid(i) == old(self).spec_table().spec_os_tid(i)
            },
            forall|i: int, j: int| 0 <= i < old(self).spec_table().spec_slots() ==>
                #[trigger] final(self).spec_table().spec_freed(i, j) == old(self).spec_table().spec_freed(i, j),
            r is Ok ==> final(self).spec_table().spec_allocated(r->Ok_0 as int) == 0
                && final(self).spec_table().spec_os_tid(r->Ok_0 as int) == 0,
            r is Ok ==> forall|j: int| #[trigger] final(self).spec_table().spec_freed(r->Ok_0 as int, j) == 0,
    {
        let r = self.table.register();
        assert forall|a: usize| #[trigger] live_entries(self.live).contains_key(a)
            implies live_entries(self.live)[a].0 < self.table.spec_slots() by {
            assert(live_entries(old(self).live).contains_key(a));
        }
        match r {
            Some(slot) => Ok(slot),
            None => Err(SlotError::CapacityExceeded),
        }
    }

    /// The figures of the call site at position `i` of the ledger.
    pub closed spec fn spec_site_at(&self, i: int) -> BacktraceMetric {
        self.sites@[i]
    }

    /// The call stack of the call site at position `i` of the ledger.
    pub closed spec fn spec_trace_at(&self, i: int) -> Backtrace {
        self.site_traces@[i].spec_inner()
    }

    /// `kept` lists, in ledger order, the positions whose call of `filter`
    /// said yes (every other position's call said no), and `entries` holds
    /// the figures of those positions.
    pub open spec fn selected_by<F: Fn(&Backtrace, &BacktraceMetric) -> bool>(
        &self,
        filter: &F,
        kept: Seq<int>,
        entries: Seq<(HashedBacktrace, BacktraceMetric)>,
    ) -> bool {
        &&& forall|x: int, y: int| 0 <= x < y < kept.len() ==> #[trigger] kept[x] < #[trigger] kept[y]
        &&& forall|x: int| 0 <= x < kept.len() ==> 0 <= #[trigger] kept[x] < self.spec_order().len()
        &&& forall|i: int| 0 <= i < self.spec_order().len() ==> #[trigger] filter.ensures(
            (&self.spec_trace_at(i), &self.spec_site_at(i)),
            kept.contains(i),
        )
        &&& pairs_of(entries).to_multiset() == self.sites_at(kept).to_multiset()
    }

    /// The hashes and figures of the call sites at the positions `kept`.
    pub open spec fn sites_at(&self, kept: Seq<int>) -> Seq<(u64, BacktraceMetric)> {
        kept.map_values(|i: int| (self.spec_order()[i], self.spec_site_at(i)))
    }

    /// The call sites that pass `filter`, with their figures, ascending by
    /// bytes in use (see `selected_by`).
    pub fn backtrace_report<F: Fn(&Backtrace, &BacktraceMetric) -> bool>(&self, filter: F) -> (r: BacktraceReport)
        requires
            self.wf(),
            forall|b: &Backtrace, m: &BacktraceMetric| #[trigger] filter.requires((b, m)),
        ensures
            !self.spec_mode().spec_enabled() ==> r.0@.len() == 0,
            sorted_by_in_use(r.0@),
            exists|kept: Seq<int>| #[trigger] self.selected_by(&filter, kept, r.0@),
            all_resolved(r.0@),
    {
        let mut out: Vec<(HashedBacktrace, BacktraceMetric)> = Vec::new();
        let ghost mut kept: Seq<int> = Seq::empty();
        let n = self.sites.len();
        let mut i: usize = 0;
        while i < n
            invariant
                self.wf(),
                n == self.sites@.len(),
                n == self.spec_order().len(),
                i <= n,
                forall|b: &Backtrace, m: &BacktraceMetric| #[trigger] filter.requires((b, m)),
                forall|x: int, y: int| 0 <= x < y < kept.len() ==> #[trigger] kept[x] < #[trigger] kept[y],
                forall|x: int| 0 <= x < kept.len() ==> 0 <= #[trigger] kept[x] < i,
                forall|k: int| 0 <= k < i ==> #[trigger] filter.ensures(
                    (&self.spec_trace_at(k), &self.spec_site_at(k)),
                    kept.contains(k),
                ),
                pairs_of(out@) == self.sites_at(kept),
                all_resolved(out@),
                out@.len() == kept.len(),
            decreases n - i,
        {
            let metric = self.sites[i];
            let trace = &self.site_traces[i];
            assert(site_positions(self.site_index).contains_key(self.site_traces@[i as int].spec_hash()));
            let frames = trace.inner();
            assert(*frames == self.spec_trace_at(i as int));
            let keep = filter(frames, &metric);
            assert(metric == self.spec_site_at(i as int));
            assert(filter.ensures((&self.spec_trace_at(i as int), &self.spec_site_at(i as int)), keep));
            let ghost old_kept = kept;
            if keep {
                let mut entry = trace.clone();
                entry.resolve();
                let ghost prev = out@;
                out.push((entry, metric));
                proof {
                    kept = kept.push(i as int);
                }
                assert(pairs_of(out@) =~= pairs_of(prev).push((self.spec_order()[i as int], metric)));
                assert(self.sites_at(kept) =~= self.sites_at(old_kept).push(
                    (self.spec_order()[i as int], self.spec_site_at(i as int)),
                ));
            }
            assert forall|k: int| 0 <= k < i + 1 implies #[trigger] filter.ensures(
                (&self.spec_trace_at(k), &self.spec_site_at(k)),
                kept.contains(k),
            ) by {
                if k < i {
                    if old_kept.contains(k) {
                        let x = choose|x: int| 0 <= x < old_kept.len() && old_kept[x] == k;
                        assert(kept[x] == k);
                    }
                    if kept.contains(k) {
                        let x = choose|x: int| 0 <= x < kept.len() && kept[x] == k;
                        if x < old_kept.len() {
                            assert(old_kept[x] == k);
                        }
                    }
                    assert(kept.contains(k) == old_kept.contains(k));
                    assert(filter.ensures((&self.spec_trace_at(k), &self.spec_site_at(k)), old_kept.contains(k)));
                } else if keep {
                    assert(kept[kept.len() - 1] == k);
                    assert(kept.contains(k));
                } else {
                    if kept.contains(k) {
                        let x = choose|x: int| 0 <= x < kept.len() && kept[x] == k;
                        assert(kept[x] < i);
                    }
                    assert(!kept.contains(k));
                }
            }
            i = i + 1;
        }
        let ghost before = out@;
        assert(all_resolved(before));
        proof {
            if kept.len() > 0 {
                assert(0 <= kept[0] < n);
            }
        }
        sort_by_in_use(&mut out);
        proof {
            vstd::seq_lib::to_multiset_len(out@);
            vstd::seq_lib::to_multiset_len(before);
        }
        assert(self.spec_order().len() == n);
        assert(self.selected_by(&filter, kept, out@));
        assert forall|x: int| 0 <= x < out@.len() implies #[trigger] out@[x].0.has_frames() && frames_resolved(
            out@[x].0.spec_inner(),
        ) by {
            let y = choose|y: int| 0 <= y < before.len() && before[y] == out@[x];
        }
        BacktraceReport(out)
    }

    /// Records the OS thread id of a slot unless one is recorded already.
    pub fn record_os_tid_once(&mut self, slot: usize, tid: u32)
        requires
            old(self).wf(),
            slot < old(self).spec_table().spec_slots(),
        ensures
            final(self).wf(),
            final(self).spec_mode() == old(self).spec_mode(),
            final(self).spec_live() == old(self).spec_live(),
            final(self).spec_order() == old(self).spec_order(),
            forall|h: u64| #[trigger] final(self).spec_site(h) == old(self).spec_site(h),
            final(self).spec_table().spec_capacity() == old(self).spec_table().spec_capacity(),
            final(self).spec_table().spec_slots() == old(self).spec_table().spec_slots(),
            forall|i: int| 0 <= i < old(self).spec_table().spec_slots() ==> #[trigger] final(self).spec_table().spec_os_tid(i) == if i == slot && old(self).spec_table().spec_os_tid(i) == 0 {
                tid
            } else {
                old(self).spec_table().spec_os_tid(i)
            },
            forall|i: int| #[trigger] final(self).spec_table().spec_allocated(i) == old(self).spec_table().spec_allocated(i),
            forall|i: int, j: int| #[trigger] final(self).spec_table().spec_freed(i, j) == old(self).spec_table().spec_freed(i, j),
    {
        if self.table.needs_os_tid(slot) {
            self.set_os_tid(slot, tid);
        }
    }

    /// Records the OS thread id of a slot.
    pub fn set_os_tid(&mut self, slot: usize, tid: u32)
        requires
            old(self).wf(),
            slot < old(self).spec_table().spec_slots(),
        ensures
            final(self).wf(),
            final(self).spec_mode() == old(self).spec_mode(),
            final(self).spec_live() == old(self).spec_live(),
            final(self).spec_order() == old(self).spec_order(),
            forall|h: u64| #[trigger] final(self).spec_site(h) == old(self).spec_site(h),
            final(self).spec_table().spec_capacity() == old(self).spec_table().spec_capacity(),
            final(self).spec_table().spec_slots() == old(self).spec_table().spec_slots(),
            forall|i: int| 0 <= i < old(self).spec_table().spec_slots() ==> #[trigger] final(self).spec_table().spec_os_tid(i) == if i == slot {
                tid
            } else {
                old(self).spec_table().spec_os_tid(i)
            },
            forall|i: int| #[trigger] final(self).spec_table().spec_allocated(i) == old(self).spec_table().spec_allocated(i),
            forall|i: int, j: int| #[trigger] final(self).spec_table().spec_freed(i, j) == old(self).spec_table().spec_freed(i, j),
    {
        self.table.set_os_tid(slot, tid);
    }

    /// Records that `slot` allocated `size` bytes at `addr`, from the call
    /// site that `trace` identifies (its figures are kept only when call
    /// stacks are captured).
    #[verifier::spinoff_prover]
    pub fn record_alloc(&mut self, slot: usize, addr: usize, size: u64, trace: HashedBacktrace)
        requires
            old(self).wf(),
            slot < old(self).spec_table().spec_slots(),
            old(self).spec_mode().spec_enabled() ==> trace.has_frames(),
        ensures
            Self::alloc_recorded(*old(self), *final(self), slot as int, addr, size, trace.spec_hash()),
    {
        let h = trace.hash();
        self.table.add_allocated(slot, size);
        live_insert(&mut self.live, addr, (slot, h));
        if self.mode.is_enabled() {
            match site_get(&self.site_index, h) {
                Some(pos) => {
                    let m = self.sites[pos];
                    let m2 = BacktraceMetric {
                        allocated: m.allocated.saturating_add(size),
                        allocations: m.allocations.saturating_add(1),
                        ..m
                    };
                    self.sites.set(pos, m2);
                    assert(self.spec_order() =~= old(self).spec_order());
                    assert forall|g: u64| g != h implies #[trigger] self.spec_site(g) == old(self).spec_site(g) by {
                        if site_positions(self.site_index).contains_key(g) {
                            assert(self.site_traces@[site_positions(self.site_index)[g] as int].spec_hash() == g);
                        }
                    }
                },
                None => {
                    let pos = self.sites.len();
                    self.sites.push(BacktraceMetric { allocated: size, freed: 0, allocations: 1, mode: self.mode });
                    self.site_traces.push(trace);
                    site_insert(&mut self.site_index, h, pos);
                    assert(self.spec_order() =~= old(self).spec_order().push(h));
                    let ghost p0 = site_positions(old(self).site_index);
                    assert forall|g: u64| g != h implies #[trigger] self.spec_site(g) == old(self).spec_site(g) by {
                        if p0.contains_key(g) {
                            assert(p0[g] < pos);
                        }
                    }
                    assert forall|i: int| 0 <= i < self.sites@.len() implies {
                        &&& site_positions(self.site_index).contains_key(#[trigger] self.site_traces@[i].spec_hash())
                        &&& site_positions(self.site_index)[self.site_traces@[i].spec_hash()] == i
                        &&& self.site_traces@[i].has_frames()
                        &&& self.sites@[i].mode == self.mode
                    } by {
                        if i < pos {
                            assert(self.site_traces@[i] == old(self).site_traces@[i]);
                            assert(p0.contains_key(old(self).site_traces@[i].spec_hash()));
                        }
                    }
                },
            }
        }
    }

    /// Records that `slot` freed `size` bytes at `addr`, or fails, changing
    /// nothing, when `addr` is not a live allocation.
    #[verifier::spinoff_prover]
    pub fn record_free(&mut self, slot: usize, addr: usize, size: u64) -> (r: Result<(), FreeError>)
        requires
            old(self).wf(),
            slot < old(self).spec_table().spec_slots(),
        ensures
            r is Err <==> !old(self).spec_live().contains_key(addr),
            r is Err ==> *final(self) == *old(self),
            r is Ok ==> Self::free_recorded(*old(self), *final(self), slot as int, addr, size),
    {
        if !live_contains(&self.live, addr) {
            return Err(FreeError::DoubleFree);
        }
        let (owner, h) = match live_remove(&mut self.live, addr) {
            Some(v) => v,
            None => return Err(FreeError::DoubleFree),
        };
        if self.mode.is_enabled() {
            match site_get(&self.site_index, h) {
                Some(pos) => {
                    let m = self.sites[pos];
                    let m2 = BacktraceMetric { freed: m.freed.saturating_add(size), ..m };
                    self.sites.set(pos, m2);
                    assert forall|g: u64| g != h implies #[trigger] self.spec_site(g) == old(self).spec_site(g) by {
                        if site_positions(self.site_index).contains_key(g) {
                            assert(self.site_traces@[site_positions(self.site_index)[g] as int].spec_hash() == g);
                        }
                    }
                },
                None => {},
            }
        }
        self.table.add_freed(slot, owner, size);
        assert forall|a: usize| #[trigger] live_entries(self.live).contains_key(a)
            implies live_entries(self.live)[a].0 < self.table.spec_slots() by {
            assert(live_entries(old(self).live).contains_key(a));
        }
        assert(self.table.wf());
        assert(self.sites@.len() == self.site_traces@.len());
        assert(!self.mode.spec_enabled() ==> self.sites@.len() == 0);
        assert(self.wf());
        Ok(())
    }
}

} // verus!
