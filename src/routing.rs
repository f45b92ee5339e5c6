use vstd::prelude::*;
use crate::peer::{PeerAddr, PeerType};
use crate::dedup::{DedupRing, ring_step, ring_run, fingerprint, lemma_repeat_within_capacity_dropped};
use crate::hashing::xxhash64_of;
use crate::buckets::contains_network;

verus! {

/// What the node knows of one of its connections when it routes a message.
#[derive(Debug, Clone)]
pub struct ConnSummary {
    /// The remote node's ID, once the handshake is done.
    pub remote_id: Option<u64>,
    pub addr: PeerAddr,
    pub peer_type: PeerType,
    pub established: bool,
    pub networks: Vec<u16>,
}

pub struct ConnModel {
    pub remote_id: Option<u64>,
    pub addr: PeerAddr,
    pub peer_type: PeerType,
    pub established: bool,
    pub networks: Seq<u16>,
}

impl View for ConnSummary {
    type V = ConnModel;

    open spec fn view(&self) -> ConnModel {
        ConnModel {
            remote_id: self.remote_id,
            addr: self.addr,
            peer_type: self.peer_type,
            established: self.established,
            networks: self.networks@,
        }
    }
}

pub open spec fn conns_view(cs: Seq<ConnSummary>) -> Seq<ConnModel> {
    cs.map_values(|c: ConnSummary| c@)
}

/// A connection a broadcast on `net` goes to: an established node that joined `net`
/// and is not where the broadcast came from.
pub open spec fn receives_broadcast(c: ConnModel, net: u16, origin: Option<u64>) -> bool {
    &&& c.established
    &&& c.peer_type == PeerType::Node
    &&& c.networks.contains(net)
    &&& (c.remote_id is None || origin is None || c.remote_id != origin)
}

/// The indices of the connections a broadcast goes to, in order.
pub open spec fn broadcast_targets(cs: Seq<ConnModel>, net: u16, origin: Option<u64>) -> Seq<int>
    decreases cs.len(),
{
    if cs.len() == 0 {
        Seq::empty()
    } else {
        let init = broadcast_targets(cs.drop_last(), net, origin);
        if receives_broadcast(cs.last(), net, origin) {
            init.push(cs.len() - 1)
        } else {
            init
        }
    }
}

proof fn lemma_targets_shape(cs: Seq<ConnModel>, net: u16, origin: Option<u64>)
    ensures
        forall|k: int| 0 <= k < broadcast_targets(cs, net, origin).len() ==>
            0 <= #[trigger] broadcast_targets(cs, net, origin)[k] < cs.len(),
        forall|k: int, l: int| 0 <= k < l < broadcast_targets(cs, net, origin).len() ==>
            broadcast_targets(cs, net, origin)[k] < broadcast_targets(cs, net, origin)[l],
        forall|i: int| 0 <= i < cs.len() ==> (broadcast_targets(cs, net, origin).contains(i)
            <==> receives_broadcast(#[trigger] cs[i], net, origin)),
    decreases cs.len(),
{
    if cs.len() > 0 {
        let init = cs.drop_last();
        lemma_targets_shape(init, net, origin);
        let t0 = broadcast_targets(init, net, origin);
        let t = broadcast_targets(cs, net, origin);
        assert forall|i: int| 0 <= i < cs.len() implies (t.contains(i) <==> receives_broadcast(#[trigger] cs[i], net, origin)) by {
            if i < cs.len() - 1 {
                assert(cs[i] == init[i]);
                if t.contains(i) {
                    let k = choose|k: int| 0 <= k < t.len() && t[k] == i;
                    if k < t0.len() {
                        assert(t0[k] == i);
                    }
                } else if t0.contains(i) {
                    let k = choose|k: int| 0 <= k < t0.len() && t0[k] == i;
                    assert(t[k] == i);
                }
            } else {
                if t.contains(i) {
                    let k = choose|k: int| 0 <= k < t.len() && t[k] == i;
                    if k < t0.len() {
                        assert(t0[k] < init.len());
                    }
                }
                if receives_broadcast(cs[i], net, origin) {
                    assert(t[t.len() - 1] == i);
                }
            }
        }
    }
}

/// A broadcast reaches every established node on its network except its origin, each
/// exactly once, and no other connection.
pub proof fn lemma_broadcast_exactly_once(cs: Seq<ConnModel>, net: u16, origin: Option<u64>)
    ensures
        broadcast_targets(cs, net, origin).no_duplicates(),
        forall|i: int| 0 <= i < cs.len() ==> (broadcast_targets(cs, net, origin).contains(i)
            <==> receives_broadcast(#[trigger] cs[i], net, origin)),
        forall|k: int| 0 <= k < broadcast_targets(cs, net, origin).len() ==>
            0 <= #[trigger] broadcast_targets(cs, net, origin)[k] < cs.len(),
{
    lemma_targets_shape(cs, net, origin);
    let t = broadcast_targets(cs, net, origin);
    assert forall|k: int, l: int| 0 <= k < t.len() && 0 <= l < t.len() && k != l implies t[k] != t[l] by {
        if k < l {
            assert(t[k] < t[l]);
        } else {
            assert(t[l] < t[k]);
        }
    }
}

/// The connections a broadcast on `net` from `origin` goes to.
pub fn select_broadcast_targets(cs: &Vec<ConnSummary>, net: u16, origin: Option<u64>) -> (r: Vec<usize>)
    ensures
        r@.map_values(|i: usize| i as int) == broadcast_targets(conns_view(cs@), net, origin),
{
    let mut r: Vec<usize> = Vec::new();
    let mut i: usize = 0;
    while i < cs.len()
        invariant
            i <= cs@.len(),
            r@.map_values(|j: usize| j as int) == broadcast_targets(conns_view(cs@).take(i as int), net, origin),
        decreases cs@.len() - i,
    {
        let c = &cs[i];
        let ghost before = r@.map_values(|j: usize| j as int);
        proof {
            assert(conns_view(cs@).take(i + 1).drop_last() =~= conns_view(cs@).take(i as int));
            assert(conns_view(cs@).take(i + 1).last() == c@);
        }
        let not_origin = match (c.remote_id, origin) {
            (Some(a), Some(b)) => a != b,
            _ => true,
        };
        if c.established && c.peer_type == PeerType::Node && contains_network(c.networks.as_slice(), net) && not_origin {
            r.push(i);
            assert(r@.map_values(|j: usize| j as int) =~= before.push(i as int));
        }
        i = i + 1;
    }
    assert(conns_view(cs@).take(cs@.len() as int) =~= conns_view(cs@));
    r
}

/// How the node sends a message.
#[derive(Debug, Clone)]
pub enum SendPlan {
    /// To the connection at this index.
    Direct(usize),
    /// To each connection at these indices.
    Broadcast(Vec<usize>),
    /// A broadcast seen before: dropped.
    Duplicate,
    /// No established connection to the target.
    NoRoute,
}

/// The index of the first established connection to node `id`.
pub open spec fn direct_route(cs: Seq<ConnModel>, id: u64) -> Option<int>
    decreases cs.len(),
{
    if cs.len() == 0 {
        None
    } else {
        match direct_route(cs.drop_last(), id) {
            Some(i) => Some(i),
            None => if cs.last().established && cs.last().remote_id == Some(id) {
                Some(cs.len() - 1)
            } else {
                None
            },
        }
    }
}

pub fn find_direct_route(cs: &Vec<ConnSummary>, id: u64) -> (r: Option<usize>)
    ensures
        r matches Some(i) ==> direct_route(conns_view(cs@), id) == Some(i as int),
        r is None ==> direct_route(conns_view(cs@), id) is None,
{
    let mut i: usize = 0;
    while i < cs.len()
        invariant
            i <= cs@.len(),
            direct_route(conns_view(cs@).take(i as int), id) is None,
        decreases cs@.len() - i,
    {
        proof {
            assert(conns_view(cs@).take(i + 1).drop_last() =~= conns_view(cs@).take(i as int));
        }
        if cs[i].established && cs[i].remote_id == Some(id) {
            proof {
                lemma_route_prefix(conns_view(cs@), id, i as int);
            }
            return Some(i);
        }
        i = i + 1;
    }
    assert(conns_view(cs@).take(cs@.len() as int) =~= conns_view(cs@));
    None
}

proof fn lemma_route_prefix(cs: Seq<ConnModel>, id: u64, i: int)
    requires
        0 <= i < cs.len(),
        direct_route(cs.take(i + 1), id) == Some(i),
    ensures
        direct_route(cs, id) == Some(i),
    decreases cs.len(),
{
    if cs.len() > i + 1 {
        assert(cs.drop_last().take(i + 1) =~= cs.take(i + 1));
        lemma_route_prefix(cs.drop_last(), id, i);
    } else {
        assert(cs.take(i + 1) =~= cs);
    }
}

/// Plans `send_message`: a direct message goes to the connection of its target; a
/// broadcast goes, unless its fingerprint was seen, to every connection that
/// `broadcast_targets` names.
pub fn plan_send(ring: &mut DedupRing, cs: &Vec<ConnSummary>, target: Option<u64>, net: u16, payload: &[u8],
    broadcast: bool, origin: Option<u64>) -> (r: SendPlan)
    requires
        old(ring).wf(),
    ensures
        final(ring).wf(),
        final(ring).capacity() == old(ring).capacity(),
        match (target, broadcast) {
            (Some(id), false) => {
                &&& final(ring)@ == old(ring)@
                &&& match direct_route(conns_view(cs@), id) {
                    Some(i) => r == SendPlan::Direct(i as usize),
                    None => r is NoRoute,
                }
            },
            _ => {
                let (seen, q) = ring_step(old(ring)@, old(ring).capacity(), xxhash64_of(payload@));
                &&& final(ring)@ == q
                &&& seen ==> r is Duplicate
                &&& !seen ==> (r matches SendPlan::Broadcast(ts)
                    && ts@.map_values(|i: usize| i as int) == broadcast_targets(conns_view(cs@), net, origin))
            },
        },
{
    match (target, broadcast) {
        (Some(id), false) => match find_direct_route(cs, id) {
            Some(i) => SendPlan::Direct(i),
            None => SendPlan::NoRoute,
        },
        _ => {
            let fp = fingerprint(payload);
            if ring.seen_or_insert(fp) {
                SendPlan::Duplicate
            } else {
                SendPlan::Broadcast(select_broadcast_targets(cs, net, origin))
            }
        },
    }
}


/// The IDs of banned nodes.
pub struct BanList {
    ids: Vec<u64>,
}

impl View for BanList {
    type V = Set<u64>;

    closed spec fn view(&self) -> Set<u64> {
        Set::new(|x: u64| self.ids@.contains(x))
    }
}

impl BanList {
    pub fn new() -> (r: BanList)
        ensures
            r@ == Set::<u64>::empty(),
    {
        let r = BanList { ids: Vec::new() };
        assert(r@ =~= Set::<u64>::empty());
        r
    }

    pub fn is_banned(&self, id: u64) -> (r: bool)
        ensures
            r == self@.contains(id),
    {
        let mut i: usize = 0;
        while i < self.ids.len()
            invariant
                i <= self.ids@.len(),
                forall|j: int| 0 <= j < i ==> self.ids@[j] != id,
            decreases self.ids@.len() - i,
        {
            if self.ids[i] == id {
                assert(self.ids@.contains(id));
                return true;
            }
            i = i + 1;
        }
        false
    }

    pub fn ban(&mut self, id: u64)
        ensures
            final(self)@ == old(self)@.insert(id),
    {
        if !self.is_banned(id) {
            self.ids.push(id);
        }
        assert forall|x: u64| final(self)@.contains(x) <==> old(self)@.insert(id).contains(x) by {
            if x != id && self.ids@.contains(x) {
                let j = choose|j: int| 0 <= j < self.ids@.len() && self.ids@[j] == x;
                if j < old(self).ids@.len() {
                    assert(old(self).ids@[j] == x);
                }
            }
            if old(self).ids@.contains(x) {
                let j = choose|j: int| 0 <= j < old(self).ids@.len() && old(self).ids@[j] == x;
                assert(self.ids@[j] == x);
            }
            if x == id {
                if !old(self).ids@.contains(id) {
                    assert(self.ids@[self.ids@.len() - 1] == id);
                }
            }
        }
        assert(final(self)@ =~= old(self)@.insert(id));
    }

    pub fn unban(&mut self, id: u64)
        ensures
            final(self)@ == old(self)@.remove(id),
    {
        let mut kept: Vec<u64> = Vec::new();
        let mut i: usize = 0;
        while i < self.ids.len()
            invariant
                i <= self.ids@.len(),
                self.ids@ == old(self).ids@,
                forall|x: u64| kept@.contains(x) <==> (x != id && exists|j: int| 0 <= j < i && self.ids@[j] == x),
            decreases self.ids@.len() - i,
        {
            let x = self.ids[i];
            let ghost k0 = kept@;
            if x != id {
                kept.push(x);
            }
            proof {
                assert forall|y: u64| kept@.contains(y) <==> (y != id && exists|j: int| 0 <= j < i + 1 && self.ids@[j] == y) by {
                    if kept@.contains(y) {
                        let k = choose|k: int| 0 <= k < kept@.len() && kept@[k] == y;
                        if k < k0.len() {
                            assert(k0[k] == y);
                            assert(k0.contains(y));
                            let j = choose|j: int| 0 <= j < i && self.ids@[j] == y;
                            assert(0 <= j < i + 1 && self.ids@[j] == y);
                        } else {
                            assert(self.ids@[i as int] == y);
                        }
                    }
                    if y != id && exists|j: int| 0 <= j < i + 1 && self.ids@[j] == y {
                        let j = choose|j: int| 0 <= j < i + 1 && self.ids@[j] == y;
                        if j < i {
                            assert(k0.contains(y));
                            let k = choose|k: int| 0 <= k < k0.len() && k0[k] == y;
                            assert(kept@[k] == y);
                        } else {
                            assert(kept@[kept@.len() - 1] == y);
                        }
                    }
                }
            }
            i = i + 1;
        }
        self.ids = kept;
        assert(final(self)@ =~= old(self)@.remove(id));
    }
}

/// What banning a node leads to.
#[derive(Debug, Clone)]
pub struct BanPlan {
    /// The connections to the banned node, to close.
    pub close: Vec<usize>,
    /// The established connections that are told of the ban.
    pub notify: Vec<usize>,
}

/// Bans node `id`: records it, closes every connection to it, and, where bans are
/// trusted, tells every other established peer.
pub fn ban_node(bans: &mut BanList, cs: &Vec<ConnSummary>, id: u64, trust_bans: bool) -> (r: BanPlan)
    ensures
        final(bans)@ == old(bans)@.insert(id),
        forall|i: int| 0 <= i < cs@.len() ==> (r.close@.contains(i as usize) <==> (#[trigger] cs@[i]).remote_id == Some(id)),
        forall|k: int| 0 <= k < r.close@.len() ==> (#[trigger] r.close@[k]) < cs@.len(),
        !trust_bans ==> r.notify@.len() == 0,
        trust_bans ==> forall|i: int| 0 <= i < cs@.len() ==> (r.notify@.contains(i as usize)
            <==> ((#[trigger] cs@[i]).established && cs@[i].remote_id != Some(id))),
        forall|k: int| 0 <= k < r.notify@.len() ==> (#[trigger] r.notify@[k]) < cs@.len(),
        r.close@.no_duplicates(),
        r.notify@.no_duplicates(),
{
    bans.ban(id);
    let mut close: Vec<usize> = Vec::new();
    let mut notify: Vec<usize> = Vec::new();
    let mut i: usize = 0;
    while i < cs.len()
        invariant
            i <= cs@.len(),
            forall|j: int| 0 <= j < cs@.len() ==> (close@.contains(j as usize) <==> (j < i && (#[trigger] cs@[j]).remote_id == Some(id))),
            forall|k: int| 0 <= k < close@.len() ==> (#[trigger] close@[k]) < i,
            !trust_bans ==> notify@.len() == 0,
            trust_bans ==> forall|j: int| 0 <= j < cs@.len() ==> (notify@.contains(j as usize)
                <==> (j < i && (#[trigger] cs@[j]).established && cs@[j].remote_id != Some(id))),
            forall|k: int| 0 <= k < notify@.len() ==> (#[trigger] notify@[k]) < i,
            close@.no_duplicates(),
            notify@.no_duplicates(),
        decreases cs@.len() - i,
    {
        let ghost c0 = close@;
        let ghost n0 = notify@;
        if cs[i].remote_id == Some(id) {
            close.push(i);
        } else if trust_bans && cs[i].established {
            notify.push(i);
        }
        assert forall|a: int, b: int| 0 <= a < close@.len() && 0 <= b < close@.len() && a != b
            implies close@[a] != close@[b] by {
            if a < c0.len() && b < c0.len() {
                assert(close@[a] == c0[a] && close@[b] == c0[b]);
            } else if a < c0.len() {
                assert(close@[a] == c0[a] && c0[a] < i);
            } else {
                assert(close@[b] == c0[b] && c0[b] < i);
            }
        }
        assert forall|a: int, b: int| 0 <= a < notify@.len() && 0 <= b < notify@.len() && a != b
            implies notify@[a] != notify@[b] by {
            if a < n0.len() && b < n0.len() {
                assert(notify@[a] == n0[a] && notify@[b] == n0[b]);
            } else if a < n0.len() {
                assert(notify@[a] == n0[a] && n0[a] < i);
            } else {
                assert(notify@[b] == n0[b] && n0[b] < i);
            }
        }
        proof {
            assert forall|j: int| 0 <= j < cs@.len() implies (close@.contains(j as usize)
                <==> (j < i + 1 && (#[trigger] cs@[j]).remote_id == Some(id))) by {
                if close@.contains(j as usize) && j != i {
                    let k = choose|k: int| 0 <= k < close@.len() && close@[k] == j as usize;
                    if k < c0.len() {
                        assert(c0.contains(j as usize));
                    }
                }
                if j < i && cs@[j].remote_id == Some(id) {
                    let k = choose|k: int| 0 <= k < c0.len() && c0[k] == j as usize;
                    assert(close@[k] == j as usize);
                }
                if j == i && cs@[j].remote_id == Some(id) {
                    assert(close@[close@.len() - 1] == i);
                }
            }
            if trust_bans {
                assert forall|j: int| 0 <= j < cs@.len() implies (notify@.contains(j as usize)
                    <==> (j < i + 1 && (#[trigger] cs@[j]).established && cs@[j].remote_id != Some(id))) by {
                    if notify@.contains(j as usize) && j != i {
                        let k = choose|k: int| 0 <= k < notify@.len() && notify@[k] == j as usize;
                        if k < n0.len() {
                            assert(n0.contains(j as usize));
                        }
                    }
                    if j < i && cs@[j].established && cs@[j].remote_id != Some(id) {
                        let k = choose|k: int| 0 <= k < n0.len() && n0[k] == j as usize;
                        assert(notify@[k] == j as usize);
                    }
                    if j == i && cs@[j].established && cs@[j].remote_id != Some(id) {
                        assert(notify@[notify@.len() - 1] == i);
                    }
                }
            }
        }
        i = i + 1;
    }
    BanPlan { close, notify }
}


/// Why an outgoing connection is not opened.
#[derive(Debug, Clone, Copy, PartialEq, Eq, Structural)]
pub enum ConnectRefusal {
    /// The node expected there is banned.
    Banned,
    /// A connection to the same address, and the same node if one is expected, exists.
    Duplicate,
}

/// An existing connection that a new one to `addr`, expecting node `id`, would duplicate.
pub open spec fn duplicates(c: ConnModel, addr: PeerAddr, id: Option<u64>) -> bool {
    c.addr == addr && (id is None || c.remote_id is None || c.remote_id == id)
}

/// The node expected is known and banned.
pub open spec fn banned_target(bans: Set<u64>, id: Option<u64>) -> bool {
    match id {
        Some(i) => bans.contains(i),
        None => false,
    }
}

/// Decides whether to open a connection to `addr`, expecting node `expected_id`.
pub fn may_connect(bans: &BanList, cs: &Vec<ConnSummary>, addr: PeerAddr, expected_id: Option<u64>) -> (r: Result<(), ConnectRefusal>)
    ensures
        banned_target(bans@, expected_id) ==> r == Err::<(), ConnectRefusal>(ConnectRefusal::Banned),
        !banned_target(bans@, expected_id) ==> (r == Err::<(), ConnectRefusal>(ConnectRefusal::Duplicate)
            <==> exists|i: int| 0 <= i < cs@.len() && duplicates(#[trigger] cs@[i]@, addr, expected_id)),
        r is Ok <==> !banned_target(bans@, expected_id)
            && !exists|i: int| 0 <= i < cs@.len() && duplicates(#[trigger] cs@[i]@, addr, expected_id),
{
    match expected_id {
        Some(id) => {
            if bans.is_banned(id) {
                return Err(ConnectRefusal::Banned);
            }
        },
        None => {},
    }
    let mut i: usize = 0;
    while i < cs.len()
        invariant
            i <= cs@.len(),
            forall|j: int| 0 <= j < i ==> !duplicates(#[trigger] cs@[j]@, addr, expected_id),
            !banned_target(bans@, expected_id),
        decreases cs@.len() - i,
    {
        let c = &cs[i];
        let same_node = match (expected_id, c.remote_id) {
            (Some(a), Some(b)) => a == b,
            _ => true,
        };
        if c.addr == addr && same_node {
            assert(duplicates(cs@[i as int]@, addr, expected_id));
            return Err(ConnectRefusal::Duplicate);
        }
        i = i + 1;
    }
    Ok(())
}


/// A broadcast payload new to the ring, sent again after fewer than `cap` other
/// broadcasts, goes out once: `plan_send` plans the first and drops the second.
pub proof fn lemma_broadcast_sent_once(q: Seq<u64>, cap: nat, payload: Seq<u8>, others: Seq<Seq<u8>>)
    requires
        q.len() <= cap,
        others.len() < cap,
        !q.contains(xxhash64_of(payload)),
    ensures
        !ring_step(q, cap, xxhash64_of(payload)).0,
        ring_step(
            ring_run(ring_step(q, cap, xxhash64_of(payload)).1, cap, others.map_values(|o: Seq<u8>| xxhash64_of(o))),
            cap,
            xxhash64_of(payload),
        ).0,
{
    lemma_repeat_within_capacity_dropped(q, cap, xxhash64_of(payload), others.map_values(|o: Seq<u8>| xxhash64_of(o)));
}


/// How many peers from a received peer list to connect to: as many as are listed, but
/// no more than bring the node up to `desired` node peers.
pub fn peers_to_connect(listed: usize, node_peers: usize, desired: u8) -> (r: usize)
    ensures
        node_peers < desired ==> r == if listed < desired - node_peers { listed as int } else { desired - node_peers },
        node_peers >= desired ==> r == 0,
{
    if node_peers >= desired as usize {
        0
    } else {
        let room = desired as usize - node_peers;
        if listed < room {
            listed
        } else {
            room
        }
    }
}

} // verus!
