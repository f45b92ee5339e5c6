use vstd::prelude::*;
use crate::hashing::{xxhash64, xxhash64_of};

verus! {

/// One step of the ring: whether `h` was already there, and the ring afterwards.
/// A new fingerprint goes to the back; when the ring is full the oldest leaves.
pub open spec fn ring_step(q: Seq<u64>, cap: nat, h: u64) -> (bool, Seq<u64>) {
    if q.contains(h) {
        (true, q)
    } else if q.len() < cap {
        (false, q.push(h))
    } else {
        (false, q.skip(1).push(h))
    }
}

/// The ring after feeding the fingerprints `hs` in turn.
pub open spec fn ring_run(q: Seq<u64>, cap: nat, hs: Seq<u64>) -> Seq<u64>
    decreases hs.len(),
{
    if hs.len() == 0 {
        q
    } else {
        ring_step(ring_run(q, cap, hs.drop_last()), cap, hs.last()).1
    }
}

/// A bounded FIFO of the fingerprints of recent broadcasts.
pub struct DedupRing {
    entries: Vec<u64>,
    cap: usize,
}

impl View for DedupRing {
    type V = Seq<u64>;

    /// The fingerprints held, oldest first.
    closed spec fn view(&self) -> Seq<u64> {
        self.entries@
    }
}

impl DedupRing {
    pub closed spec fn capacity(&self) -> nat {
        self.cap as nat
    }

    pub closed spec fn wf(&self) -> bool {
        0 < self.cap && self.entries@.len() <= self.cap
    }

    /// An empty ring that holds at most `cap` fingerprints.
    pub fn new(cap: usize) -> (r: DedupRing)
        requires
            cap > 0,
        ensures
            r.wf(),
            r@ == Seq::<u64>::empty(),
            r.capacity() == cap,
    {
        DedupRing { entries: Vec::new(), cap }
    }

    pub fn len(&self) -> (r: usize)
        requires
            self.wf(),
        ensures
            r == self@.len(),
    {
        self.entries.len()
    }

    pub fn contains(&self, h: u64) -> (r: bool)
        ensures
            r == self@.contains(h),
    {
        let mut i: usize = 0;
        while i < self.entries.len()
            invariant
                i <= self.entries@.len(),
                forall|j: int| 0 <= j < i ==> self.entries@[j] != h,
            decreases self.entries@.len() - i,
        {
            if self.entries[i] == h {
                return true;
            }
            i = i + 1;
        }
        false
    }

    /// Says whether `h` was seen; if not, remembers it, forgetting the oldest when full.
    pub fn seen_or_insert(&mut self, h: u64) -> (r: bool)
        requires
            old(self).wf(),
        ensures
            final(self).wf(),
            final(self).capacity() == old(self).capacity(),
            (r, final(self)@) == ring_step(old(self)@, old(self).capacity(), h),
    {
        if self.contains(h) {
            return true;
        }
        if self.entries.len() >= self.cap {
            self.entries.remove(0);
        }
        self.entries.push(h);
        assert(self.entries@ =~= ring_step(old(self)@, old(self).capacity(), h).1);
        false
    }
}

/// The fingerprint of a broadcast payload: its 64-bit XxHash.
pub fn fingerprint(payload: &[u8]) -> (r: u64)
    ensures
        r == xxhash64_of(payload@),
{
    xxhash64(payload)
}

/// `h` is among the last `k` entries of `r`.
pub open spec fn in_last(r: Seq<u64>, h: u64, k: int) -> bool {
    exists|i: int| 0 <= i < r.len() && r.len() - k <= i && r[i] == h
}

proof fn lemma_stays_near_back(q: Seq<u64>, cap: nat, h: u64, others: Seq<u64>, d: int)
    requires
        q.len() <= cap,
        1 <= d,
        d + others.len() <= cap,
        in_last(q, h, d),
    ensures
        ring_run(q, cap, others).len() <= cap,
        in_last(ring_run(q, cap, others), h, d + others.len()),
    decreases others.len(),
{
    if others.len() > 0 {
        let init = others.drop_last();
        lemma_stays_near_back(q, cap, h, init, d);
        let r0 = ring_run(q, cap, init);
        let k = d + init.len();
        let i = choose|i: int| 0 <= i < r0.len() && r0.len() - k <= i && r0[i] == h;
        let x = others.last();
        let r1 = ring_step(r0, cap, x).1;
        if r0.contains(x) {
            assert(r1[i] == h);
        } else if r0.len() < cap {
            assert(r1[i] == h);
        } else {
            assert(r1[i - 1] == h);
        }
    }
}

/// A fresh broadcast is forwarded, and fed again before `cap` other payloads have come
/// it is dropped: it is forwarded exactly once.
pub proof fn lemma_repeat_within_capacity_dropped(q: Seq<u64>, cap: nat, h: u64, others: Seq<u64>)
    requires
        q.len() <= cap,
        others.len() < cap,
        !q.contains(h),
    ensures
        !ring_step(q, cap, h).0,
        ring_step(ring_run(ring_step(q, cap, h).1, cap, others), cap, h).0,
{
    let q1 = ring_step(q, cap, h).1;
    assert(q1[q1.len() - 1] == h);
    lemma_stays_near_back(q1, cap, h, others, 1);
    let r = ring_run(q1, cap, others);
    let i = choose|i: int| 0 <= i < r.len() && r.len() - (1 + others.len()) <= i && r[i] == h;
    assert(r.contains(h));
}

/// Fed distinct fingerprints, an empty ring holds the last `cap` of them.
pub proof fn lemma_distinct_run(cap: nat, hs: Seq<u64>)
    requires
        cap > 0,
        hs.no_duplicates(),
    ensures
        ring_run(Seq::empty(), cap, hs) == (if hs.len() <= cap { hs } else { hs.skip(hs.len() - cap) }),
    decreases hs.len(),
{
    if hs.len() > 0 {
        let init = hs.drop_last();
        assert(init.no_duplicates());
        lemma_distinct_run(cap, init);
        let r0 = ring_run(Seq::empty(), cap, init);
        let x = hs.last();
        assert(!r0.contains(x)) by {
            if r0.contains(x) {
                let j = choose|j: int| 0 <= j < r0.len() && r0[j] == x;
                if init.len() <= cap {
                    assert(hs[j] == hs[hs.len() - 1]);
                } else {
                    assert(hs[j + init.len() - cap] == hs[hs.len() - 1]);
                }
            }
        }
        if init.len() < cap {
            assert(r0.push(x) =~= hs);
        } else if init.len() == cap {
            assert(r0.skip(1).push(x) =~= hs.skip(hs.len() - cap));
        } else {
            assert(r0.skip(1).push(x) =~= hs.skip(hs.len() - cap));
        }
    }
}

/// After `cap + 1` distinct payloads an empty ring has forgotten the first: fed again,
/// it is forwarded.
pub proof fn lemma_oldest_evicted(cap: nat, hs: Seq<u64>)
    requires
        cap > 0,
        hs.no_duplicates(),
        hs.len() == cap + 1,
    ensures
        !ring_step(ring_run(Seq::empty(), cap, hs), cap, hs[0]).0,
{
    lemma_distinct_run(cap, hs);
    let r = ring_run(Seq::empty(), cap, hs);
    assert(!r.contains(hs[0])) by {
        if r.contains(hs[0]) {
            let j = choose|j: int| 0 <= j < r.len() && r[j] == hs[0];
            assert(hs[j + 1] == hs[0]);
        }
    }
}

} // verus!
