use vstd::prelude::*;
use rand::Rng;
use vstd::arithmetic::power2::{pow2, lemma2_to64, lemma_pow2_unfold};
use crate::peer::P2PPeer;

verus! {

/// Number of buckets: one per bit of a node ID.
pub const KBUCKETS: usize = 64;

/// Most peers a bucket holds.
pub const BUCKET_SIZE: usize = 20;

/// Peers a bootstrapper hands out in one peer list.
pub const BOOTSTRAP_PEER_COUNT: usize = 100;

/// The bucket of a peer at XOR distance `d`: the position of the highest set bit of `d`
/// (distance 0 and 1 both fall in bucket 0).
pub open spec fn bucket_of(d: u64) -> nat
    decreases d,
{
    if d <= 1 {
        0
    } else {
        1 + bucket_of(d / 2)
    }
}

proof fn lemma_bucket_bound(d: u64, k: nat)
    requires
        k >= 1,
        d < pow2(k),
    ensures
        bucket_of(d) < k,
    decreases k,
{
    if d > 1 {
        lemma_pow2_unfold(k);
        if k == 1 {
            lemma2_to64();
        } else {
            lemma_bucket_bound(d / 2, (k - 1) as nat);
        }
    }
}

pub fn bucket_index(own_id: u64, remote_id: u64) -> (r: usize)
    ensures
        r == bucket_of(own_id ^ remote_id),
        r < KBUCKETS,
{
    let mut d: u64 = own_id ^ remote_id;
    let ghost d0 = d;
    proof {
        lemma2_to64();
        lemma_bucket_bound(d0, 64);
    }
    let mut b: usize = 0;
    while d > 1
        invariant
            b + bucket_of(d) == bucket_of(d0),
            bucket_of(d0) < 64,
        decreases d,
    {
        d = d / 2;
        b = b + 1;
    }
    b
}

/// A known peer and the networks it announced.
#[derive(Debug, Clone)]
pub struct BucketEntry {
    pub peer: P2PPeer,
    pub networks: Vec<u16>,
}

/// Some network of `a` is in `b`.
pub open spec fn intersects(a: Seq<u16>, b: Seq<u16>) -> bool {
    exists|i: int| 0 <= i < a.len() && b.contains(#[trigger] a[i])
}

/// A peer that `get_random_nodes` may hand out.
pub open spec fn eligible(e: (P2PPeer, Seq<u16>), exclude: u64, nets: Seq<u16>) -> bool {
    e.0.id != exclude && intersects(e.1, nets)
}

/// Known peers, sorted into buckets by XOR distance from this node.
pub struct Buckets {
    own_id: u64,
    entries: Vec<BucketEntry>,
}

impl View for Buckets {
    type V = Seq<(P2PPeer, Seq<u16>)>;

    closed spec fn view(&self) -> Seq<(P2PPeer, Seq<u16>)> {
        self.entries@.map_values(|e: BucketEntry| (e.peer, e.networks@))
    }
}

/// Picks a number below `n`.
/// Relies on `rand::Rng::gen_range` over `0..n` with the thread's generator: a value in range.
#[verifier::external_body]
fn random_below(n: usize) -> (r: usize)
    requires
        n > 0,
    ensures
        r < n,
{
    rand::thread_rng().gen_range(0..n)
}

pub fn contains_network(nets: &[u16], n: u16) -> (r: bool)
    ensures
        r == nets@.contains(n),
{
    let mut i: usize = 0;
    while i < nets.len()
        invariant
            i <= nets@.len(),
            forall|j: int| 0 <= j < i ==> nets@[j] != n,
        decreases nets@.len() - i,
    {
        if nets[i] == n {
            return true;
        }
        i = i + 1;
    }
    false
}

pub fn networks_intersect(a: &[u16], b: &[u16]) -> (r: bool)
    ensures
        r == intersects(a@, b@),
{
    let mut i: usize = 0;
    while i < a.len()
        invariant
            i <= a@.len(),
            forall|j: int| 0 <= j < i ==> !b@.contains(#[trigger] a@[j]),
        decreases a@.len() - i,
    {
        if contains_network(b, a[i]) {
            return true;
        }
        i = i + 1;
    }
    false
}

impl Buckets {
    /// No two entries are the same peer (same ID and address).
    pub closed spec fn wf(&self) -> bool {
        forall|i: int, j: int| 0 <= i < j < self.entries@.len()
            ==> !same_peer(#[trigger] self.entries@[i].peer, #[trigger] self.entries@[j].peer)
    }

    /// The ID distances are measured from.
    pub closed spec fn owner(&self) -> u64 {
        self.own_id
    }

    pub fn new(own_id: u64) -> (r: Buckets)
        ensures
            r@ == Seq::<(P2PPeer, Seq<u16>)>::empty(),
            r.owner() == own_id,
            r.wf(),
    {
        let r = Buckets { own_id, entries: Vec::new() };
        assert(r@ =~= Seq::<(P2PPeer, Seq<u16>)>::empty());
        r
    }

    pub fn len(&self) -> (r: usize)
        ensures
            r == self@.len(),
    {
        self.entries.len()
    }

    /// How many known peers fall in bucket `b`.
    pub fn bucket_len(&self, b: usize) -> (r: usize)
        ensures
            r == bucket_count(self@, self.owner(), b as nat),
    {
        let mut i: usize = 0;
        let mut c: usize = 0;
        while i < self.entries.len()
            invariant
                i <= self.entries@.len(),
                c <= i,
                c == bucket_count(self@.take(i as int), self.own_id, b as nat),
            decreases self.entries@.len() - i,
        {
            proof {
                assert(self@.take(i + 1).drop_last() =~= self@.take(i as int));
                assert(self@[i as int].0 == self.entries@[i as int].peer);
            }
            if bucket_index(self.own_id, self.entries[i].peer.id) == b {
                c = c + 1;
            }
            i = i + 1;
        }
        assert(self@.take(self@.len() as int) =~= self@);
        c
    }

    /// Records `peer` with the networks it announced. A peer already known by ID and
    /// address gets its networks replaced; a new peer is added unless its bucket is full.
    pub fn insert_into_bucket(&mut self, peer: &P2PPeer, networks: Vec<u16>)
        requires
            old(self).wf(),
        ensures
            final(self).wf(),
            final(self).owner() == old(self).owner(),
            match position_of(old(self)@, *peer) {
                Some(i) => final(self)@ == old(self)@.update(i, (*peer, networks@)),
                None => if bucket_count(old(self)@, old(self).owner(), bucket_of(old(self).owner() ^ peer.id))
                    < BUCKET_SIZE {
                    final(self)@ == old(self)@.push((*peer, networks@))
                } else {
                    final(self)@ == old(self)@
                },
            },
    {
        let mut i: usize = 0;
        while i < self.entries.len()
            invariant
                i <= self.entries@.len(),
                forall|j: int| 0 <= j < i ==> !same_peer(#[trigger] self@[j].0, *peer),
                forall|a: int, b: int| 0 <= a < b < self.entries@.len()
                    ==> !same_peer(#[trigger] self.entries@[a].peer, #[trigger] self.entries@[b].peer),
                self@ == old(self)@,
                self.own_id == old(self).own_id,
            decreases self.entries@.len() - i,
        {
            let e = &self.entries[i];
            if e.peer.id == peer.id && e.peer.addr == peer.addr {
                proof {
                    lemma_first_position(old(self)@, *peer, i as int);
                }
                let ghost nets = networks@;
                let ghost before = self.entries@;
                self.entries.set(i, BucketEntry { peer: *peer, networks });
                assert(self@ =~= old(self)@.update(i as int, (*peer, nets)));
                assert forall|a: int, b: int| 0 <= a < b < self.entries@.len() implies
                    !same_peer(#[trigger] self.entries@[a].peer, #[trigger] self.entries@[b].peer) by {
                    assert(same_peer(before[i as int].peer, *peer));
                    if a != i && b != i {
                        assert(self.entries@[a] == before[a] && self.entries@[b] == before[b]);
                    } else if a == i {
                        assert(self.entries@[b] == before[b]);
                        assert(!same_peer(before[a].peer, before[b].peer));
                    } else {
                        assert(self.entries@[a] == before[a]);
                        assert(!same_peer(before[a].peer, before[b].peer));
                    }
                }
                assert(self@[i as int] == (*peer, nets));
                return;
            }
            i = i + 1;
        }
        proof {
            lemma_no_position(old(self)@, *peer);
        }
        let b = bucket_index(self.own_id, peer.id);
        if self.bucket_len(b) < BUCKET_SIZE {
            let ghost nets = networks@;
            let ghost before = self.entries@;
            self.entries.push(BucketEntry { peer: *peer, networks });
            assert(self@ =~= old(self)@.push((*peer, nets)));
            assert forall|a: int, b: int| 0 <= a < b < self.entries@.len() implies
                !same_peer(#[trigger] self.entries@[a].peer, #[trigger] self.entries@[b].peer) by {
                assert(self.entries@[a] == before[a]);
                if b < before.len() {
                    assert(self.entries@[b] == before[b]);
                } else {
                    assert(self@[a].0 == before[a].peer);
                }
            }
        }
    }

    /// Up to `count` peers drawn at random, without replacement, from those whose ID is
    /// not `exclude` and that share a network with `nets`.
    pub fn get_random_nodes(&self, exclude: u64, count: usize, nets: &[u16]) -> (r: Vec<P2PPeer>)
        requires
            self.wf(),
        ensures
            r@.len() == if count < eligible_count(self@, exclude, nets@) { count as int } else {
                eligible_count(self@, exclude, nets@)
            },
            forall|i: int| 0 <= i < r@.len() ==> from_eligible(#[trigger] r@[i], self@, exclude, nets@),
            r@.no_duplicates(),
    {
        let mut pool: Vec<P2PPeer> = Vec::new();
        let mut i: usize = 0;
        while i < self.entries.len()
            invariant
                i <= self.entries@.len(),
                pool@.len() == eligible_count(self@.take(i as int), exclude, nets@),
                forall|k: int| 0 <= k < pool@.len() ==> from_eligible(#[trigger] pool@[k], self@, exclude, nets@),
                pool@.no_duplicates(),
                forall|k: int| 0 <= k < pool@.len() ==> exists|j: int| 0 <= j < i && #[trigger] pool@[k] == self.entries@[j].peer,
                forall|a: int, b: int| 0 <= a < b < self.entries@.len()
                    ==> !same_peer(#[trigger] self.entries@[a].peer, #[trigger] self.entries@[b].peer),
            decreases self.entries@.len() - i,
        {
            let e = &self.entries[i];
            proof {
                assert(self@.take(i + 1).drop_last() =~= self@.take(i as int));
                assert(self@[i as int] == (e.peer, e.networks@));
            }
            if e.peer.id != exclude && networks_intersect(e.networks.as_slice(), nets) {
                assert(from_eligible(e.peer, self@, exclude, nets@)) by {
                    assert(self@[i as int].0 == e.peer);
                }
                let ghost old_pool = pool@;
                assert forall|k: int| 0 <= k < old_pool.len() implies old_pool[k] != e.peer by {
                    let j = choose|j: int| 0 <= j < i && old_pool[k] == self.entries@[j].peer;
                    assert(!same_peer(self.entries@[j].peer, self.entries@[i as int].peer));
                }
                pool.push(e.peer);
                assert forall|a: int, b: int| 0 <= a < pool@.len() && 0 <= b < pool@.len() && a != b
                    implies pool@[a] != pool@[b] by {
                    if a < old_pool.len() && b < old_pool.len() {
                        assert(pool@[a] == old_pool[a] && pool@[b] == old_pool[b]);
                    }
                }
                assert forall|k: int| 0 <= k < pool@.len() implies exists|j: int| 0 <= j < i + 1
                    && #[trigger] pool@[k] == self.entries@[j].peer by {
                    if k < old_pool.len() {
                        assert(pool@[k] == old_pool[k]);
                        let j = choose|j: int| 0 <= j < i && old_pool[k] == self.entries@[j].peer;
                    } else {
                        assert(pool@[k] == self.entries@[i as int].peer);
                    }
                }
            }
            i = i + 1;
        }
        assert(self@.take(self@.len() as int) =~= self@);
        let mut out: Vec<P2PPeer> = Vec::new();
        while out.len() < count && pool.len() > 0
            invariant
                out@.len() <= count,
                out@.len() + pool@.len() == eligible_count(self@, exclude, nets@),
                forall|k: int| 0 <= k < pool@.len() ==> from_eligible(#[trigger] pool@[k], self@, exclude, nets@),
                forall|k: int| 0 <= k < out@.len() ==> from_eligible(#[trigger] out@[k], self@, exclude, nets@),
                pool@.no_duplicates(),
                out@.no_duplicates(),
                forall|a: int, b: int| 0 <= a < out@.len() && 0 <= b < pool@.len() ==> out@[a] != pool@[b],
            decreases pool@.len(),
        {
            let k = random_below(pool.len());
            let ghost old_pool = pool@;
            let p = pool.swap_remove(k);
            assert forall|m: int| 0 <= m < pool@.len() implies from_eligible(#[trigger] pool@[m], self@, exclude, nets@) by {
                if m == k {
                    assert(pool@[m] == old_pool[old_pool.len() - 1]);
                } else {
                    assert(pool@[m] == old_pool[m]);
                }
            }
            let ghost old_out = out@;
            out.push(p);
            assert(out@[out@.len() - 1] == old_pool[k as int]);
            let ghost last: int = old_pool.len() - 1;
            assert forall|m: int| 0 <= m < pool@.len() implies
                (m != k ==> pool@[m] == old_pool[m]) && (m == k ==> pool@[m] == old_pool[last]) by {}
            assert forall|a: int, b: int| 0 <= a < pool@.len() && 0 <= b < pool@.len() && a != b
                implies pool@[a] != pool@[b] by {
                let ia: int = if a == k { last } else { a };
                let ib: int = if b == k { last } else { b };
                assert(pool@[a] == old_pool[ia] && pool@[b] == old_pool[ib]);
            }
            assert forall|a: int, b: int| 0 <= a < out@.len() && 0 <= b < out@.len() && a != b
                implies out@[a] != out@[b] by {
                if a < old_out.len() && b < old_out.len() {
                    assert(out@[a] == old_out[a] && out@[b] == old_out[b]);
                } else if a < old_out.len() {
                    assert(out@[a] == old_out[a]);
                    assert(old_out[a] != old_pool[k as int]);
                } else {
                    assert(out@[b] == old_out[b]);
                    assert(old_out[b] != old_pool[k as int]);
                }
            }
            assert forall|a: int, b: int| 0 <= a < out@.len() && 0 <= b < pool@.len() implies out@[a] != pool@[b] by {
                let ib: int = if b == k { last } else { b };
                assert(pool@[b] == old_pool[ib]);
                assert(ib != k);
                if a < old_out.len() {
                    assert(out@[a] == old_out[a]);
                }
            }
        }
        out
    }
}

/// `p` is the peer of an entry of `s` that may be handed out.
pub open spec fn from_eligible(p: P2PPeer, s: Seq<(P2PPeer, Seq<u16>)>, exclude: u64, nets: Seq<u16>) -> bool {
    exists|j: int| 0 <= j < s.len() && s[j].0 == p && eligible(s[j], exclude, nets)
}

/// How many entries of `s` fall in bucket `b` of a node with ID `own`.
pub open spec fn bucket_count(s: Seq<(P2PPeer, Seq<u16>)>, own: u64, b: nat) -> nat
    decreases s.len(),
{
    if s.len() == 0 {
        0
    } else {
        bucket_count(s.drop_last(), own, b) + if bucket_of(own ^ s.last().0.id) == b { 1nat } else { 0 }
    }
}

/// The same peer: same ID and same address.
pub open spec fn same_peer(a: P2PPeer, b: P2PPeer) -> bool {
    a.id == b.id && a.addr == b.addr
}

/// Where the entry for `peer`'s ID and address stands, if any.
pub open spec fn position_of(s: Seq<(P2PPeer, Seq<u16>)>, peer: P2PPeer) -> Option<int>
    decreases s.len(),
{
    if s.len() == 0 {
        None
    } else {
        match position_of(s.drop_last(), peer) {
            Some(i) => Some(i),
            None => if same_peer(s.last().0, peer) {
                Some(s.len() - 1)
            } else {
                None
            },
        }
    }
}

proof fn lemma_first_position(s: Seq<(P2PPeer, Seq<u16>)>, peer: P2PPeer, i: int)
    requires
        0 <= i < s.len(),
        same_peer(s[i].0, peer),
        forall|j: int| 0 <= j < i ==> !same_peer(#[trigger] s[j].0, peer),
    ensures
        position_of(s, peer) == Some(i),
    decreases s.len(),
{
    if i < s.len() - 1 {
        lemma_first_position(s.drop_last(), peer, i);
    } else {
        lemma_no_position(s.drop_last(), peer);
    }
}

proof fn lemma_no_position(s: Seq<(P2PPeer, Seq<u16>)>, peer: P2PPeer)
    requires
        forall|j: int| 0 <= j < s.len() ==> !same_peer(#[trigger] s[j].0, peer),
    ensures
        position_of(s, peer) is None,
    decreases s.len(),
{
    if s.len() > 0 {
        lemma_no_position(s.drop_last(), peer);
    }
}


/// How many entries may be handed out for `exclude` and `nets`.
pub open spec fn eligible_count(s: Seq<(P2PPeer, Seq<u16>)>, exclude: u64, nets: Seq<u16>) -> int
    decreases s.len(),
{
    if s.len() == 0 {
        0
    } else {
        eligible_count(s.drop_last(), exclude, nets) + if eligible(s.last(), exclude, nets) { 1int } else { 0 }
    }
}

/// Random peer selection never hands out the excluded peer, never more than asked for,
/// and only peers that share a network with the request.
pub proof fn lemma_random_nodes_sound(s: Seq<(P2PPeer, Seq<u16>)>, exclude: u64, count: usize, nets: Seq<u16>,
    r: Seq<P2PPeer>)
    requires
        r.len() == if count < eligible_count(s, exclude, nets) { count as int } else { eligible_count(s, exclude, nets) },
        forall|i: int| 0 <= i < r.len() ==> from_eligible(#[trigger] r[i], s, exclude, nets),
    ensures
        r.len() <= count,
        forall|i: int| 0 <= i < r.len() ==> (#[trigger] r[i]).id != exclude,
        forall|i: int| 0 <= i < r.len() ==> exists|j: int|
            0 <= j < s.len() && s[j].0 == #[trigger] r[i] && intersects(s[j].1, nets),
{
    assert forall|i: int| 0 <= i < r.len() implies (#[trigger] r[i]).id != exclude && exists|j: int|
            0 <= j < s.len() && s[j].0 == r[i] && intersects(s[j].1, nets) by {
        assert(from_eligible(r[i], s, exclude, nets));
        let j = choose|j: int| 0 <= j < s.len() && s[j].0 == r[i] && eligible(s[j], exclude, nets);
    }
}

} // verus!
