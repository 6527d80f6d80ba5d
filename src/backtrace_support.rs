use backtrace::Backtrace;
use std::collections::hash_map::DefaultHasher;
use std::hash::Hasher;
use vstd::prelude::*;
use vstd::std_specs::hash::DefaultHasherAdditionalSpecFns;

use crate::mode::BacktraceMode;
use crate::text::chars_of;

verus! {

#[verifier::external_type_specification]
#[verifier::external_body]
pub struct ExBacktrace(Backtrace);

/// The instruction pointers of a captured stack's frames, in order.
pub uninterp spec fn frame_ips_of(b: Backtrace) -> Seq<u64>;

/// Whether the symbols of every frame have been looked up.
pub uninterp spec fn frames_resolved(b: Backtrace) -> bool;

/// Relies on `backtrace::Backtrace::new_unresolved`: the current call stack,
/// with symbols left for later.
#[verifier::external_body]
fn capture_unresolved() -> Backtrace {
    Backtrace::new_unresolved()
}

/// Relies on `Backtrace::frames` and `BacktraceFrame::ip`: the instruction
/// pointer of each frame, as an integer.
#[verifier::external_body]
fn frame_ips(b: &Backtrace) -> (r: Vec<u64>)
    ensures
        r@ == frame_ips_of(*b),
{
    b.frames().iter().map(|f| f.ip() as usize as u64).collect()
}

/// Relies on `Backtrace::resolve`: looks up the symbols of every frame, and
/// leaves the frames themselves as they were.
#[verifier::external_body]
fn resolve_symbols(b: &mut Backtrace)
    ensures
        frames_resolved(*final(b)),
        frame_ips_of(*final(b)) == frame_ips_of(*old(b)),
{
    b.resolve()
}

/// Relies on `Backtrace`'s derived `Clone`: the copy has the same frames,
/// with the same symbols.
#[verifier::external_body]
fn clone_backtrace(b: &Backtrace) -> (r: Backtrace)
    ensures
        frame_ips_of(r) == frame_ips_of(*b),
        frames_resolved(*b) ==> frames_resolved(r),
{
    b.clone()
}

/// The eight bytes of `x`, least significant first.
pub open spec fn le_bytes(x: u64) -> Seq<u8> {
    seq![
        (x % 256) as u8,
        (x / 0x100 % 256) as u8,
        (x / 0x10000 % 256) as u8,
        (x / 0x1000000 % 256) as u8,
        (x / 0x100000000 % 256) as u8,
        (x / 0x10000000000 % 256) as u8,
        (x / 0x1000000000000 % 256) as u8,
        (x / 0x100000000000000 % 256) as u8,
    ]
}

/// What a `DefaultHasher` is fed for a sequence of instruction pointers.
pub open spec fn ip_writes(ips: Seq<u64>) -> Seq<Seq<u8>> {
    ips.map_values(|x: u64| le_bytes(x))
}

/// The hash that identifies a call site with these instruction pointers.
pub open spec fn ip_hash(ips: Seq<u64>) -> u64 {
    DefaultHasher::spec_finish(ip_writes(ips))
}

fn bytes_of(x: u64) -> (r: Vec<u8>)
    ensures
        r@ == le_bytes(x),
{
    let r = vec![
        (x % 256) as u8,
        (x / 0x100 % 256) as u8,
        (x / 0x10000 % 256) as u8,
        (x / 0x1000000 % 256) as u8,
        (x / 0x100000000 % 256) as u8,
        (x / 0x10000000000 % 256) as u8,
        (x / 0x1000000000000 % 256) as u8,
        (x / 0x100000000000000 % 256) as u8,
    ];
    assert(r@ =~= le_bytes(x));
    r
}

/// Hashes a sequence of instruction pointers.
pub fn hash_ips(ips: &Vec<u64>) -> (r: u64)
    ensures
        r == ip_hash(ips@),
{
    let mut h = DefaultHasher::new();
    let mut i: usize = 0;
    while i < ips.len()
        invariant
            i <= ips@.len(),
            h@ == ip_writes(ips@.take(i as int)),
        decreases ips@.len() - i,
    {
        let bytes = bytes_of(ips[i]);
        h.write(bytes.as_slice());
        assert(ip_writes(ips@.take(i + 1)) =~= ip_writes(ips@.take(i as int)).push(le_bytes(ips@[i as int])));
        i = i + 1;
    }
    assert(ips@.take(ips@.len() as int) =~= ips@);
    h.finish()
}

/// A call stack together with the hash that identifies its call site.
/// Two stacks with the same hash count as the same site.
pub struct HashedBacktrace {
    inner: Option<Backtrace>,
    hash: u64,
}

impl Clone for HashedBacktrace {
    fn clone(&self) -> (r: Self)
        ensures
            r.spec_hash() == self.spec_hash(),
            r.has_frames() == self.has_frames(),
            r.has_frames() ==> frame_ips_of(r.spec_inner()) == frame_ips_of(self.spec_inner()),
            r.has_frames() && frames_resolved(self.spec_inner()) ==> frames_resolved(r.spec_inner()),
    {
        let inner = match &self.inner {
            Some(b) => Some(clone_backtrace(b)),
            None => None,
        };
        HashedBacktrace { inner, hash: self.hash }
    }
}

impl HashedBacktrace {
    pub closed spec fn spec_hash(&self) -> u64 {
        self.hash
    }

    /// Whether a call stack was captured.
    pub closed spec fn has_frames(&self) -> bool {
        self.inner is Some
    }

    /// The captured call stack.
    pub closed spec fn spec_inner(&self) -> Backtrace
        recommends
            self.has_frames(),
    {
        self.inner->0
    }

    /// Captures the call stack when `mode` asks for it. With capture disabled
    /// the result has no frames and hash 0; otherwise its hash is that of the
    /// instruction pointers of the frames.
    pub fn capture(mode: BacktraceMode) -> (r: Self)
        ensures
            !mode.spec_enabled() ==> !r.has_frames() && r.spec_hash() == 0,
            mode.spec_enabled() ==> r.has_frames() && r.spec_hash() == ip_hash(frame_ips_of(r.spec_inner())),
    {
        if !mode.is_enabled() {
            return HashedBacktrace { inner: None, hash: 0 };
        }
        let backtrace = capture_unresolved();
        let ips = frame_ips(&backtrace);
        let hash = hash_ips(&ips);
        HashedBacktrace { inner: Some(backtrace), hash }
    }

    pub fn inner(&self) -> (r: &Backtrace)
        requires
            self.has_frames(),
        ensures
            *r == self.spec_inner(),
    {
        self.inner.as_ref().unwrap()
    }

    pub fn inner_mut(&mut self) -> (r: &mut Backtrace)
        requires
            old(self).has_frames(),
        ensures
            *r == old(self).spec_inner(),
            final(self).spec_hash() == old(self).spec_hash(),
            final(self).has_frames(),
            final(self).spec_inner() == *final(r),
    {
        match &mut self.inner {
            Some(b) => b,
            None => {
                assert(false);
                unreached()
            },
        }
    }

    pub fn hash(&self) -> (r: u64)
        ensures
            r == self.spec_hash(),
    {
        self.hash
    }

    /// Looks up the symbols of the captured frames.
    pub fn resolve(&mut self)
        ensures
            final(self).spec_hash() == old(self).spec_hash(),
            final(self).has_frames() == old(self).has_frames(),
            final(self).has_frames() ==> frames_resolved(final(self).spec_inner()),
            final(self).has_frames() ==> frame_ips_of(final(self).spec_inner()) == frame_ips_of(old(self).spec_inner()),
    {
        match &mut self.inner {
            Some(b) => resolve_symbols(b),
            None => {},
        }
    }
}

impl PartialEq for HashedBacktrace {
    fn eq(&self, other: &Self) -> (r: bool) {
        self.hash == other.hash
    }
}

impl Eq for HashedBacktrace {

}

impl vstd::std_specs::cmp::PartialEqSpecImpl for HashedBacktrace {
    open spec fn obeys_eq_spec() -> bool {
        true
    }

    open spec fn eq_spec(&self, other: &Self) -> bool {
        self.spec_hash() == other.spec_hash()
    }
}

pub open spec fn starts_with(s: Seq<char>, p: Seq<char>) -> bool {
    p.len() <= s.len() && s.take(p.len() as int) == p
}

/// A symbol name without the `<` that opens a trait-impl path.
pub open spec fn without_angle(s: Seq<char>) -> Seq<char> {
    if s.len() > 0 && s[0] == '<' {
        s.skip(1)
    } else {
        s
    }
}

/// Frames of the allocator itself, of the allocation runtime, and of the
/// startup and panic machinery, which a short backtrace leaves out.
pub open spec fn internal_frame(name: Seq<char>) -> bool {
    let n = without_angle(name);
    ||| starts_with(n, "alloc_track::"@)
    ||| n == "__rg_alloc"@
    ||| starts_with(n, "alloc::"@)
    ||| starts_with(n, "std::panicking::"@)
    ||| n == "__rust_try"@
    ||| n == "_start"@
    ||| n == "__libc_start_main_impl"@
    ||| n == "__libc_start_call_main"@
    ||| starts_with(n, "std::rt::"@)
}

fn prefix_at(cs: &Vec<char>, start: usize, p: &str) -> (r: bool)
    requires
        start <= cs@.len(),
    ensures
        r == starts_with(cs@.skip(start as int), p@),
{
    let pc = chars_of(p);
    let n = cs.len();
    if pc.len() > n - start {
        return false;
    }
    let mut i: usize = 0;
    while i < pc.len()
        invariant
            n == cs@.len(),
            pc@ == p@,
            start + pc@.len() <= cs@.len(),
            i <= pc@.len(),
            forall|j: int| 0 <= j < i ==> cs@[start + j] == pc@[j],
        decreases pc@.len() - i,
    {
        if cs[start + i] != pc[i] {
            assert(cs@.skip(start as int).take(pc@.len() as int)[i as int] != pc@[i as int]);
            return false;
        }
        i = i + 1;
    }
    assert(cs@.skip(start as int).take(pc@.len() as int) =~= pc@);
    true
}

fn equal_at(cs: &Vec<char>, start: usize, p: &str) -> (r: bool)
    requires
        start <= cs@.len(),
    ensures
        r == (cs@.skip(start as int) == p@),
{
    let same = cs.len() - start == p.unicode_len() && prefix_at(cs, start, p);
    proof {
        if same || cs@.skip(start as int) == p@ {
            assert(cs@.skip(start as int).take(p@.len() as int) =~= cs@.skip(start as int));
        }
    }
    same
}

/// Whether a frame with this symbol name is left out of a short backtrace.
pub fn is_internal_frame(name: &str) -> (r: bool)
    ensures
        r == internal_frame(name@),
{
    let cs = chars_of(name);
    let start: usize = if cs.len() > 0 && cs[0] == '<' {
        1
    } else {
        0
    };
    assert(cs@.skip(start as int) == without_angle(name@)) by {
        if start == 0 {
            assert(cs@.skip(0) =~= cs@);
        }
    }
    prefix_at(&cs, start, "alloc_track::") || equal_at(&cs, start, "__rg_alloc") || prefix_at(&cs, start, "alloc::")
        || prefix_at(&cs, start, "std::panicking::") || equal_at(&cs, start, "__rust_try") || equal_at(
        &cs,
        start,
        "_start",
    ) || equal_at(&cs, start, "__libc_start_main_impl") || equal_at(&cs, start, "__libc_start_call_main")
        || prefix_at(&cs, start, "std::rt::")
}

} // verus!
