use vstd::prelude::*;
use crate::wire::{ProtocolError, be32, push_u32, append_range};
use crate::framing::{Framer, MAX_FRAME_SIZE, frames, pending};
use crate::peer::{P2PPeer, PeerType, RemotePeer};
use crate::buckets::{Buckets, BOOTSTRAP_PEER_COUNT, BUCKET_SIZE, bucket_count, bucket_of, eligible_count, from_eligible, position_of};
use crate::message::{NetworkMessage, NetworkRequest, NetworkResponse, MessageModel, ProtocolMessageType,
    ser_message, parse_message, frame_type, read_frame_type, lemma_ping_size, lemma_handshake_size, lemma_peer_list_size};
use crate::fails::{HandlerError, UnwantedMessageError};

verus! {

/// Where a connection stands in its handshake.
#[derive(Debug, Clone, Copy, PartialEq, Eq, Structural)]
pub enum ConnectionStatus {
    Untrusted,
    Established,
}

/// Something the node's event log is told.
#[derive(Debug, Clone, Copy, PartialEq, Eq, Structural)]
pub enum P2PEvent {
    JoinedNetwork(P2PPeer, u16),
    LeftNetwork(P2PPeer, u16),
}

/// Counters the node keeps over all its connections.
#[derive(Debug, Clone, Copy, PartialEq, Eq, Structural)]
pub struct NodeStats {
    pub peers: u64,
    pub packets_sent: u64,
    pub packets_received: u64,
    pub invalid_packets_received: u64,
    pub unknown_packets_received: u64,
}

impl NodeStats {
    pub fn new() -> (r: NodeStats)
        ensures
            r == (NodeStats {
                peers: 0,
                packets_sent: 0,
                packets_received: 0,
                invalid_packets_received: 0,
                unknown_packets_received: 0,
            }),
    {
        NodeStats { peers: 0, packets_sent: 0, packets_received: 0, invalid_packets_received: 0, unknown_packets_received: 0 }
    }
}

/// What a connection needs from the node that owns it.
pub struct NodeCtx {
    pub self_peer: P2PPeer,
    pub own_networks: Vec<u16>,
    pub buckets: Buckets,
    pub stats: NodeStats,
}

/// A frame on the wire: `u32 length | bytes`.
pub open spec fn frame_of(pkt: Seq<u8>) -> Seq<u8> {
    be32(pkt.len() as u32) + pkt
}

/// Appends `pkt` as one frame; a packet over 256 MiB is refused and nothing is written.
pub fn serialize_bytes(outbox: &mut Vec<u8>, pkt: &[u8]) -> (r: Result<(), HandlerError>)
    ensures
        r is Ok <==> pkt@.len() <= MAX_FRAME_SIZE,
        r is Ok ==> final(outbox)@ == old(outbox)@ + frame_of(pkt@),
        r is Err ==> final(outbox)@ == old(outbox)@ && r == Err::<(), HandlerError>(HandlerError::FrameTooLarge),
{
    if pkt.len() > MAX_FRAME_SIZE as usize {
        return Err(HandlerError::FrameTooLarge);
    }
    let ghost start = outbox@;
    push_u32(outbox, pkt.len() as u32);
    append_range(outbox, pkt, 0, pkt.len());
    assert(pkt@.subrange(0, pkt@.len() as int) =~= pkt@);
    assert(outbox@ =~= start + frame_of(pkt@));
    Ok(())
}

pub open spec fn joined_events(peer: P2PPeer, ns: Seq<u16>) -> Seq<P2PEvent> {
    Seq::new(ns.len(), |i: int| P2PEvent::JoinedNetwork(peer, ns[i]))
}

/// Tells the event log, if there is one, that `peer` joined each of `networks`.
pub fn log_as_joined_network(event_log: &mut Option<Vec<P2PEvent>>, peer: &P2PPeer, networks: &[u16])
    ensures
        match *old(event_log) {
            None => (*final(event_log)) is None,
            Some(v) => (*final(event_log)) is Some && (*final(event_log))->Some_0@ == v@ + joined_events(*peer, networks@),
        },
{
    match event_log {
        Some(log) => {
            let ghost start = log@;
            let mut i: usize = 0;
            while i < networks.len()
                invariant
                    i <= networks@.len(),
                    log@ == start + joined_events(*peer, networks@.take(i as int)),
                decreases networks@.len() - i,
            {
                log.push(P2PEvent::JoinedNetwork(*peer, networks[i]));
                i = i + 1;
                assert(log@ =~= start + joined_events(*peer, networks@.take(i as int)));
            }
            assert(networks@.take(i as int) =~= networks@);
        },
        None => {},
    }
}

/// Tells the event log, if there is one, that `sender` left `network`.
pub fn log_as_leave_network(event_log: &mut Option<Vec<P2PEvent>>, sender: &P2PPeer, network: u16)
    ensures
        match *old(event_log) {
            None => (*final(event_log)) is None,
            Some(v) => (*final(event_log)) is Some
                && (*final(event_log))->Some_0@ == v@.push(P2PEvent::LeftNetwork(*sender, network)),
        },
{
    match event_log {
        Some(log) => log.push(P2PEvent::LeftNetwork(*sender, network)),
        None => {},
    }
}

/// A copy of a list of network IDs.
pub fn copy_networks(ns: &[u16]) -> (r: Vec<u16>)
    ensures
        r@ == ns@,
{
    let mut r: Vec<u16> = Vec::new();
    let mut i: usize = 0;
    while i < ns.len()
        invariant
            i <= ns@.len(),
            r@ == ns@.take(i as int),
        decreases ns@.len() - i,
    {
        r.push(ns[i]);
        i = i + 1;
        assert(r@ =~= ns@.take(i as int));
    }
    assert(ns@.take(i as int) =~= ns@);
    r
}

/// How `insert_into_bucket` changes the known peers `before` of a node with ID `owner`.
pub open spec fn bucket_update(before: Seq<(P2PPeer, Seq<u16>)>, owner: u64, p: P2PPeer, ns: Seq<u16>,
    after: Seq<(P2PPeer, Seq<u16>)>) -> bool {
    match position_of(before, p) {
        Some(i) => after == before.update(i, (p, ns)),
        None => if bucket_count(before, owner, bucket_of(owner ^ p.id)) < BUCKET_SIZE {
            after == before.push((p, ns))
        } else {
            after == before
        },
    }
}

/// Records a peer that completed a handshake in the buckets, and counts it.
pub fn update_buckets(ctx: &mut NodeCtx, sender: &P2PPeer, nets: &[u16]) -> (r: Result<(), HandlerError>)
    requires
        old(ctx).buckets.wf(),
    ensures
        final(ctx).buckets.wf(),
        r is Ok,
        final(ctx).self_peer == old(ctx).self_peer,
        final(ctx).own_networks@ == old(ctx).own_networks@,
        final(ctx).buckets.owner() == old(ctx).buckets.owner(),
        bucket_update(old(ctx).buckets@, old(ctx).buckets.owner(), *sender, nets@, final(ctx).buckets@),
        final(ctx).stats == (NodeStats {
            peers: old(ctx).stats.peers.saturating_add(1),
            packets_sent: old(ctx).stats.packets_sent.saturating_add(2),
            ..old(ctx).stats
        }),
{
    ctx.buckets.insert_into_bucket(sender, copy_networks(nets));
    ctx.stats.peers = ctx.stats.peers.saturating_add(1);
    ctx.stats.packets_sent = ctx.stats.packets_sent.saturating_add(2);
    Ok(())
}

/// One connection's state: its role, handshake status, framing and counters.
pub struct Connection {
    pub local_peer: P2PPeer,
    pub remote_peer: RemotePeer,
    pub status: ConnectionStatus,
    pub closing: bool,
    pub closed: bool,
    pub framer: Framer,
    /// Plaintext waiting to go into the encrypted session.
    pub outbox: Vec<u8>,
    pub messages_sent: u64,
    pub messages_received: u64,
    pub failed_pkts: u32,
    pub last_seen: u64,
    pub last_ping_sent: u64,
    pub sent_handshake: u64,
    pub sent_ping: u64,
    /// `u64::MAX` until a pong has been timed.
    pub last_latency_measured: u64,
    pub remote_end_networks: Vec<u16>,
    pub blind_trusted_broadcast: bool,
}

pub open spec fn handshake_reply(ctx_peer: P2PPeer, nets: Seq<u16>) -> MessageModel {
    MessageModel::HandshakeResponse(ctx_peer, nets, Seq::empty())
}

/// Sends our handshake response and a ping, as two frames.
pub fn send_handshake_and_ping(conn: &mut Connection, ctx: &NodeCtx) -> (r: Result<(), HandlerError>)
    requires
        ctx.own_networks@.len() <= u16::MAX,
    ensures
        r is Ok,
        r is Ok ==> final(conn).outbox@ == old(conn).outbox@ + frame_of(ser_message(handshake_reply(ctx.self_peer, ctx.own_networks@)))
            + frame_of(ser_message(MessageModel::Ping(ctx.self_peer))),
        r is Ok ==> final(conn).messages_sent == old(conn).messages_sent.saturating_add(2),
        r is Err ==> final(conn).outbox@ == old(conn).outbox@ && final(conn).messages_sent == old(conn).messages_sent,
        final(conn).framer == old(conn).framer,
        final(conn).status == old(conn).status,
        final(conn).closing == old(conn).closing,
        final(conn).local_peer == old(conn).local_peer,
        final(conn).remote_peer == old(conn).remote_peer,
        final(conn).messages_received == old(conn).messages_received,
        final(conn).remote_end_networks@ == old(conn).remote_end_networks@,
{
    let trailer: Vec<u8> = Vec::new();
    assert(trailer@ =~= Seq::<u8>::empty());
    let hs = NetworkMessage::NetworkResponse(NetworkResponse::Handshake(ctx.self_peer, copy_networks(ctx.own_networks.as_slice()), trailer));
    assert(hs@ == handshake_reply(ctx.self_peer, ctx.own_networks@));
    let hs_bytes = hs.serialize();
    let ping = NetworkMessage::NetworkRequest(NetworkRequest::Ping(ctx.self_peer));
    let ping_bytes = ping.serialize();
    proof {
        lemma_ping_size(ctx.self_peer);
        lemma_handshake_size(ctx.self_peer, ctx.own_networks@);
    }
    let _ = serialize_bytes(&mut conn.outbox, hs_bytes.as_slice());
    let _ = serialize_bytes(&mut conn.outbox, ping_bytes.as_slice());
    conn.messages_sent = conn.messages_sent.saturating_add(2);
    Ok(())
}


/// The peers handed out for a peer list: what `get_random_nodes` may return.
pub open spec fn valid_peer_selection(ps: Seq<P2PPeer>, known: Seq<(P2PPeer, Seq<u16>)>, exclude: u64, nets: Seq<u16>,
    count: nat) -> bool {
    &&& ps.len() == if count < eligible_count(known, exclude, nets) { count as int } else { eligible_count(known, exclude, nets) }
    &&& forall|i: int| 0 <= i < ps.len() ==> from_eligible(#[trigger] ps[i], known, exclude, nets)
    &&& ps.no_duplicates()
}

/// Sends `sender` a list of up to 100 random known peers that share a network with `nets`.
pub fn send_peer_list(conn: &mut Connection, ctx: &mut NodeCtx, sender: &P2PPeer, nets: &[u16]) -> (r: Result<(), HandlerError>)
    requires
        old(ctx).buckets.wf(),
    ensures
        final(ctx).buckets.wf(),
        r is Ok,
        exists|ps: Seq<P2PPeer>|
            valid_peer_selection(ps, old(ctx).buckets@, sender.id, nets@, BOOTSTRAP_PEER_COUNT as nat)
            && final(conn).outbox@ == old(conn).outbox@ + frame_of(ser_message(MessageModel::PeerList(old(ctx).self_peer, ps))),
        final(conn).messages_sent == old(conn).messages_sent.saturating_add(1),
        final(ctx).stats == (NodeStats { packets_sent: old(ctx).stats.packets_sent.saturating_add(1), ..old(ctx).stats }),
        final(ctx).buckets@ == old(ctx).buckets@,
        final(ctx).buckets.owner() == old(ctx).buckets.owner(),
        final(ctx).self_peer == old(ctx).self_peer,
        final(ctx).own_networks@ == old(ctx).own_networks@,
        final(conn).framer == old(conn).framer,
        final(conn).status == old(conn).status,
        final(conn).closing == old(conn).closing,
        final(conn).local_peer == old(conn).local_peer,
        final(conn).remote_peer == old(conn).remote_peer,
        final(conn).messages_received == old(conn).messages_received,
        final(conn).remote_end_networks@ == old(conn).remote_end_networks@,
{
    let nodes = ctx.buckets.get_random_nodes(sender.id, BOOTSTRAP_PEER_COUNT, nets);
    let ghost ps = nodes@;
    let msg = NetworkMessage::NetworkResponse(NetworkResponse::PeerList(ctx.self_peer, nodes));
    let bytes = msg.serialize();
    proof {
        lemma_peer_list_size(ctx.self_peer, ps);
    }
    let _ = serialize_bytes(&mut conn.outbox, bytes.as_slice());
    ctx.stats.packets_sent = ctx.stats.packets_sent.saturating_add(1);
    conn.messages_sent = conn.messages_sent.saturating_add(1);
    assert(valid_peer_selection(ps, old(ctx).buckets@, sender.id, nets@, BOOTSTRAP_PEER_COUNT as nat));
    Ok(())
}


/// A frame that a node in role `local_type` refuses outright: a bootstrapper only does
/// peer discovery and takes no data packets.
pub open spec fn refused_by_role(local_type: PeerType, frame: Seq<u8>) -> bool {
    local_type == PeerType::Bootstrapper && (frame_type(frame) == Some(ProtocolMessageType::DirectMessage)
        || frame_type(frame) == Some(ProtocolMessageType::BroadcastedMessage))
}

pub open spec fn is_handshake(m: MessageModel) -> bool {
    m is Handshake || m is HandshakeResponse
}

/// What the connection decides about a complete frame.
pub enum Gate {
    /// Forbidden by role or by handshake state: the connection closes.
    Refuse,
    /// Malformed: counted, and the connection stays.
    Invalid(ProtocolError),
    Accept(MessageModel),
}

pub open spec fn gate(status: ConnectionStatus, local_type: PeerType, frame: Seq<u8>) -> Gate {
    if refused_by_role(local_type, frame) {
        Gate::Refuse
    } else {
        match parse_message(frame) {
            Err(e) => Gate::Invalid(e),
            Ok(m) => if status == ConnectionStatus::Untrusted && !is_handshake(m) {
                Gate::Refuse
            } else {
                Gate::Accept(m)
            },
        }
    }
}

/// Before the handshake, a valid message that is not a handshake closes the connection;
/// a handshake does not.
pub proof fn lemma_handshake_gate(local_type: PeerType, frame: Seq<u8>)
    requires
        parse_message(frame) is Ok,
    ensures
        is_handshake(parse_message(frame)->Ok_0) ==> gate(ConnectionStatus::Untrusted, local_type, frame)
            == Gate::Accept(parse_message(frame)->Ok_0),
        !is_handshake(parse_message(frame)->Ok_0) ==> gate(ConnectionStatus::Untrusted, local_type, frame) is Refuse,
{
}


/// A response or a packet: these refresh when the peer was last seen.
pub open spec fn refreshes_last_seen(m: MessageModel) -> bool {
    match m {
        MessageModel::Pong(..) | MessageModel::FindNodeResponse(..) | MessageModel::PeerList(..)
        | MessageModel::HandshakeResponse(..) | MessageModel::DirectMessage(..)
        | MessageModel::BroadcastedMessage(..) => true,
        _ => false,
    }
}

/// What handling one complete frame does: connection `pre` and node `cpre` become
/// `post` and `cpost`, and the frame's outcome is `r`.
pub open spec fn frame_effect(pre: Connection, cpre: NodeCtx, frame: Seq<u8>, now: u64, post: Connection,
    cpost: NodeCtx, r: Inbound) -> bool {
    &&& cpost.own_networks@ == cpre.own_networks@
    &&& cpost.self_peer == cpre.self_peer
    &&& cpost.buckets.wf()
    &&& cpost.buckets.owner() == cpre.buckets.owner()
    &&& post.framer == pre.framer
    &&& post.local_peer == pre.local_peer
    &&& post.closing == (pre.closing || r is Unwanted)
    &&& match gate(pre.status, pre.local_peer.peer_type, frame) {
        Gate::Refuse => {
            &&& r is Unwanted
            &&& post.status == pre.status
            &&& post.outbox@ == pre.outbox@
            &&& cpost.buckets@ == cpre.buckets@
            &&& cpost.stats.invalid_packets_received == cpre.stats.invalid_packets_received.saturating_add(1)
        },
        Gate::Invalid(e) => {
            &&& r == Inbound::Invalid(e)
            &&& post.status == pre.status
            &&& post.outbox@ == pre.outbox@
            &&& cpost.buckets@ == cpre.buckets@
            &&& post.failed_pkts == pre.failed_pkts.saturating_add(1)
            &&& e == ProtocolError::UnknownVariant ==> cpost.stats.unknown_packets_received
                == cpre.stats.unknown_packets_received.saturating_add(1)
            &&& e != ProtocolError::UnknownVariant ==> cpost.stats.invalid_packets_received
                == cpre.stats.invalid_packets_received.saturating_add(1)
        },
        Gate::Accept(m) => {
            &&& post.status == ConnectionStatus::Established
            &&& post.messages_received == pre.messages_received.saturating_add(1)
            &&& refreshes_last_seen(m) ==> post.last_seen == now
            &&& match m {
                MessageModel::Handshake(p, ns, _) => {
                    let replies = pre.outbox@ + frame_of(ser_message(handshake_reply(cpre.self_peer, cpre.own_networks@)))
                        + frame_of(ser_message(MessageModel::Ping(cpre.self_peer)));
                    &&& r is Handled
                    &&& post.remote_peer == RemotePeer::PostHandshake(p)
                    &&& post.remote_end_networks@ == ns
                    &&& bucket_update(cpre.buckets@, cpre.buckets.owner(), p, ns, cpost.buckets@)
                    &&& pre.local_peer.peer_type == PeerType::Node ==> post.outbox@ == replies
                    &&& pre.local_peer.peer_type == PeerType::Bootstrapper ==> exists|ps: Seq<P2PPeer>|
                        valid_peer_selection(ps, cpost.buckets@, p.id, ns, BOOTSTRAP_PEER_COUNT as nat)
                        && post.outbox@ == replies + frame_of(ser_message(MessageModel::PeerList(cpre.self_peer, ps)))
                },
                MessageModel::HandshakeResponse(p, ns, _) => {
                    &&& r matches Inbound::Delivered(d) && d@ == m
                    &&& post.remote_peer == RemotePeer::PostHandshake(p)
                    &&& post.remote_end_networks@ == ns
                    &&& bucket_update(cpre.buckets@, cpre.buckets.owner(), p, ns, cpost.buckets@)
                    &&& post.outbox@ == pre.outbox@
                },
                MessageModel::Ping(_) => {
                    &&& r is Handled
                    &&& cpost.buckets@ == cpre.buckets@
                    &&& post.outbox@ == pre.outbox@ + frame_of(ser_message(MessageModel::Pong(cpre.self_peer)))
                },
                MessageModel::Pong(_) => {
                    &&& r is Handled
                    &&& cpost.buckets@ == cpre.buckets@
                    &&& post.outbox@ == pre.outbox@
                    &&& post.last_latency_measured == if now >= pre.sent_ping {
                        (now - pre.sent_ping) as u64
                    } else {
                        0
                    }
                },
                _ => {
                    &&& r matches Inbound::Delivered(d) && d@ == m
                    &&& cpost.buckets@ == cpre.buckets@
                    &&& post.outbox@ == pre.outbox@
                },
            }
        },
    }
}

/// A run of `rs.len()` frames of `fs` through a connection: `cs[i]`, `xs[i]` are the
/// connection and node before frame `i`; each frame is handled only while the connection
/// is not closing, and the run stops early only once it is.
pub open spec fn frame_run(cs: Seq<Connection>, xs: Seq<NodeCtx>, fs: Seq<Seq<u8>>, rs: Seq<Inbound>, now: u64) -> bool {
    &&& cs.len() == rs.len() + 1
    &&& xs.len() == rs.len() + 1
    &&& rs.len() <= fs.len()
    &&& forall|i: int| 0 <= i < rs.len() ==> !cs[i].closing
        && frame_effect(cs[i], xs[i], fs[i], now, cs[i + 1], xs[i + 1], #[trigger] rs[i])
    &&& rs.len() < fs.len() ==> cs[rs.len() as int].closing
}

/// Some outcome closed the connection, or it was closing already.
pub open spec fn closed_by_frames(closing_before: bool, rs: Seq<Inbound>) -> bool {
    closing_before || exists|i: int| 0 <= i < rs.len() && #[trigger] rs[i] is Unwanted
}

/// The bytes held of an incomplete frame show a type that `local_type` refuses: a
/// bootstrapper holding at least the type tag of a data packet.
pub open spec fn refused_partial(local_type: PeerType, held: Seq<u8>) -> bool {
    held.len() >= 4 && refused_by_role(local_type, held.skip(4))
}

/// An open connection drops an incomplete frame whose type it refuses.
pub open spec fn cuts_partial(closing_after_frames: bool, local_type: PeerType, held: Seq<u8>) -> bool {
    !closing_after_frames && refused_partial(local_type, held)
}

/// Refuses a data packet on a bootstrapper, as an unwanted message.
pub fn validate_packet_type(local_type: PeerType, frame: &[u8]) -> (r: Result<(), HandlerError>)
    ensures
        r is Err <==> refused_by_role(local_type, frame@),
        r is Err ==> r->Err_0 is Unwanted,
{
    if local_type == PeerType::Bootstrapper {
        match read_frame_type(frame) {
            Some(ProtocolMessageType::DirectMessage) | Some(ProtocolMessageType::BroadcastedMessage) => {
                let message = "Wrong data type message received for node".to_owned();
                return Err(HandlerError::Unwanted(UnwantedMessageError { message }));
            },
            _ => {},
        }
    }
    Ok(())
}

/// What became of a complete frame.
#[derive(Debug, Clone)]
pub enum Inbound {
    /// Handed on to the node, which routes it.
    Delivered(NetworkMessage),
    /// Answered here.
    Handled,
    /// Could not be decoded; counted.
    Invalid(ProtocolError),
    /// Forbidden; the connection closes.
    Unwanted,
}

impl Connection {
    pub fn new(local_peer: P2PPeer, remote_peer: RemotePeer, blind_trusted_broadcast: bool, now: u64) -> (r: Connection)
        ensures
            r.local_peer == local_peer,
            r.remote_peer == remote_peer,
            r.status == ConnectionStatus::Untrusted,
            !r.closing,
            !r.closed,
            r.framer.wf(),
            r.framer@ == Seq::<u8>::empty(),
            r.outbox@ == Seq::<u8>::empty(),
            r.messages_sent == 0,
            r.messages_received == 0,
            r.failed_pkts == 0,
            r.last_seen == now,
            r.last_ping_sent == now,
            r.sent_handshake == 0,
            r.sent_ping == 0,
            r.last_latency_measured == u64::MAX,
            r.remote_end_networks@ == Seq::<u16>::empty(),
            r.blind_trusted_broadcast == blind_trusted_broadcast,
    {
        Connection {
            local_peer,
            remote_peer,
            status: ConnectionStatus::Untrusted,
            closing: false,
            closed: false,
            framer: Framer::new(),
            outbox: Vec::new(),
            messages_sent: 0,
            messages_received: 0,
            failed_pkts: 0,
            last_seen: now,
            last_ping_sent: now,
            sent_handshake: 0,
            sent_ping: 0,
            last_latency_measured: u64::MAX,
            remote_end_networks: Vec::new(),
            blind_trusted_broadcast,
        }
    }

    /// The round trip of the last ping answered, if any was.
    pub fn get_last_latency_measured(&self) -> (r: Option<u64>)
        ensures
            r == if self.last_latency_measured == u64::MAX { None } else { Some(self.last_latency_measured) },
    {
        if self.last_latency_measured != u64::MAX {
            Some(self.last_latency_measured)
        } else {
            None
        }
    }

    pub fn set_measured_handshake_sent(&mut self, now: u64)
        ensures
            *final(self) == (Connection { sent_handshake: now, ..*old(self) }),
    {
        self.sent_handshake = now;
    }

    pub fn set_measured_ping_sent(&mut self, now: u64)
        ensures
            *final(self) == (Connection { sent_ping: now, ..*old(self) }),
    {
        self.sent_ping = now;
    }

    pub fn get_last_ping_sent(&self) -> (r: u64)
        ensures
            r == self.last_ping_sent,
    {
        self.last_ping_sent
    }

    pub fn set_last_ping_sent(&mut self, now: u64)
        ensures
            *final(self) == (Connection { last_ping_sent: now, ..*old(self) }),
    {
        self.last_ping_sent = now;
    }

    pub fn local_id(&self) -> (r: u64)
        ensures
            r == self.local_peer.id,
    {
        self.local_peer.id
    }

    /// The remote node's ID, known once the handshake is done.
    pub fn remote_id(&self) -> (r: Option<u64>)
        ensures
            r == match self.remote_peer {
                RemotePeer::PostHandshake(p) => Some(p.id),
                RemotePeer::PreHandshake(..) => None::<u64>,
            },
    {
        match self.remote_peer {
            RemotePeer::PostHandshake(p) => Some(p.id),
            RemotePeer::PreHandshake(..) => None,
        }
    }

    pub fn is_post_handshake(&self) -> (r: bool)
        ensures
            r == (self.remote_peer is PostHandshake),
    {
        self.remote_peer.is_post_handshake()
    }

    pub fn local_peer_type(&self) -> (r: PeerType)
        ensures
            r == self.local_peer.peer_type,
    {
        self.local_peer.peer_type
    }

    pub fn is_closed(&self) -> (r: bool)
        ensures
            r == self.closed,
    {
        self.closed
    }

    /// Asks for the connection to close once pending reads are drained.
    pub fn close(&mut self)
        ensures
            *final(self) == (Connection { closing: true, ..*old(self) }),
    {
        self.closing = true;
    }

    /// Decides about one complete frame and runs the handlers that belong here.
    #[verifier::rlimit(80)]
    pub fn process_frame(&mut self, ctx: &mut NodeCtx, frame: &[u8], now: u64) -> (r: Inbound)
        requires
            old(ctx).buckets.wf(),
            old(ctx).own_networks@.len() <= u16::MAX,
        ensures
            frame_effect(*old(self), *old(ctx), frame@, now, *final(self), *final(ctx), r),
    {
        if validate_packet_type(self.local_peer.peer_type, frame).is_err() {
            ctx.stats.invalid_packets_received = ctx.stats.invalid_packets_received.saturating_add(1);
            self.closing = true;
            return Inbound::Unwanted;
        }
        let msg = match NetworkMessage::deserialize(frame) {
            Ok(m) => m,
            Err(e) => {
                self.failed_pkts = self.failed_pkts.saturating_add(1);
                if e == ProtocolError::UnknownVariant {
                    ctx.stats.unknown_packets_received = ctx.stats.unknown_packets_received.saturating_add(1);
                } else {
                    ctx.stats.invalid_packets_received = ctx.stats.invalid_packets_received.saturating_add(1);
                }
                return Inbound::Invalid(e);
            },
        };
        let is_hs = match &msg {
            NetworkMessage::NetworkRequest(NetworkRequest::Handshake(..)) => true,
            NetworkMessage::NetworkResponse(NetworkResponse::Handshake(..)) => true,
            _ => false,
        };
        if self.status == ConnectionStatus::Untrusted && !is_hs {
            ctx.stats.invalid_packets_received = ctx.stats.invalid_packets_received.saturating_add(1);
            self.closing = true;
            return Inbound::Unwanted;
        }
        self.messages_received = self.messages_received.saturating_add(1);
        ctx.stats.packets_received = ctx.stats.packets_received.saturating_add(1);
        let r = match msg {
            NetworkMessage::NetworkRequest(NetworkRequest::Handshake(p, ns, tr)) => {
                self.remote_peer = RemotePeer::PostHandshake(p);
                self.remote_end_networks = copy_networks(ns.as_slice());
                let _ = update_buckets(ctx, &p, ns.as_slice());
                let _ = send_handshake_and_ping(self, ctx);
                if self.local_peer.peer_type == PeerType::Bootstrapper {
                    let _ = send_peer_list(self, ctx, &p, ns.as_slice());
                }
                Inbound::Handled
            },
            NetworkMessage::NetworkResponse(NetworkResponse::Handshake(p, ns, tr)) => {
                self.remote_peer = RemotePeer::PostHandshake(p);
                self.remote_end_networks = copy_networks(ns.as_slice());
                let _ = update_buckets(ctx, &p, ns.as_slice());
                self.last_seen = now;
                Inbound::Delivered(NetworkMessage::NetworkResponse(NetworkResponse::Handshake(p, ns, tr)))
            },
            NetworkMessage::NetworkRequest(NetworkRequest::Ping(_)) => {
                let pong = NetworkMessage::NetworkResponse(NetworkResponse::Pong(ctx.self_peer));
                let bytes = pong.serialize();
                proof {
                    lemma_ping_size(ctx.self_peer);
                }
                let _ = serialize_bytes(&mut self.outbox, bytes.as_slice());
                self.messages_sent = self.messages_sent.saturating_add(1);
                Inbound::Handled
            },
            NetworkMessage::NetworkResponse(NetworkResponse::Pong(_)) => {
                self.last_latency_measured = if now >= self.sent_ping { now - self.sent_ping } else { 0 };
                self.last_seen = now;
                Inbound::Handled
            },
            NetworkMessage::NetworkRequest(req) => Inbound::Delivered(NetworkMessage::NetworkRequest(req)),
            NetworkMessage::NetworkResponse(res) => {
                self.last_seen = now;
                Inbound::Delivered(NetworkMessage::NetworkResponse(res))
            },
            NetworkMessage::NetworkPacket(pk) => {
                self.last_seen = now;
                Inbound::Delivered(NetworkMessage::NetworkPacket(pk))
            },
        };
        self.status = ConnectionStatus::Established;
        r
    }

    /// Feeds decrypted bytes to the framer and processes each frame they complete, in
    /// order; once the connection is closing the remaining frames are dropped. On a
    /// bootstrapper, a data packet whose type tag has come in closes the connection at
    /// once, before the rest of its frame arrives.
    pub fn incoming_plaintext(&mut self, ctx: &mut NodeCtx, chunk: &[u8], now: u64) -> (r: Vec<Inbound>)
        requires
            old(ctx).buckets.wf(),
            old(self).framer.wf(),
            old(ctx).own_networks@.len() <= u16::MAX,
        ensures
            final(self).framer.wf(),
            final(self).framer@ == if cuts_partial(closed_by_frames(old(self).closing, r@), old(self).local_peer.peer_type,
                pending(old(self).framer@ + chunk@)) {
                Seq::<u8>::empty()
            } else {
                pending(old(self).framer@ + chunk@)
            },
            final(self).closing == (closed_by_frames(old(self).closing, r@)
                || refused_partial(old(self).local_peer.peer_type, pending(old(self).framer@ + chunk@))),
            final(ctx).buckets.wf(),
            final(ctx).own_networks@ == old(ctx).own_networks@,
            r@.len() <= frames(old(self).framer@ + chunk@).len(),
            r@.len() < frames(old(self).framer@ + chunk@).len() ==> (old(self).closing && r@.len() == 0)
                || (r@.len() > 0 && r@.last() is Unwanted),
            exists|cs: Seq<Connection>, xs: Seq<NodeCtx>|
                #[trigger] frame_run(cs, xs, frames(old(self).framer@ + chunk@), r@, now)
                && cs[0] == (Connection { framer: cs[0].framer, ..*old(self) })
                && cs[0].framer@ == pending(old(self).framer@ + chunk@)
                && xs[0] == *old(ctx)
                && (cuts_partial(closed_by_frames(old(self).closing, r@), old(self).local_peer.peer_type,
                    pending(old(self).framer@ + chunk@)) ==> {
                    &&& *final(self) == (Connection { closing: true, framer: final(self).framer, ..cs.last() })
                    &&& *final(ctx) == (NodeCtx {
                        stats: NodeStats {
                            invalid_packets_received: xs.last().stats.invalid_packets_received.saturating_add(1),
                            ..xs.last().stats
                        },
                        ..xs.last()
                    })
                })
                && (!cuts_partial(closed_by_frames(old(self).closing, r@), old(self).local_peer.peer_type,
                    pending(old(self).framer@ + chunk@)) ==> cs.last() == *final(self) && xs.last() == *final(ctx)),
    {
        let fs = self.framer.feed(chunk);
        let ghost fr = self.framer;
        let ghost fsv = fs@.map_values(|f: Vec<u8>| f@);
        let ghost mut cs: Seq<Connection> = seq![*self];
        let ghost mut xs: Seq<NodeCtx> = seq![*ctx];
        assert(*self == (Connection { framer: fr, ..*old(self) }));
        let mut out: Vec<Inbound> = Vec::new();
        let mut i: usize = 0;
        while i < fs.len()
            invariant
                i <= fs@.len(),
                fsv == fs@.map_values(|f: Vec<u8>| f@),
                out@.len() == i,
                cs.len() == i + 1,
                xs.len() == i + 1,
                cs[0] == (Connection { framer: fr, ..*old(self) }),
                xs[0] == *old(ctx),
                cs[i as int] == *self,
                xs[i as int] == *ctx,
                forall|j: int| 0 <= j < i ==> !cs[j].closing
                    && frame_effect(cs[j], xs[j], fsv[j], now, cs[j + 1], xs[j + 1], #[trigger] out@[j]),
                self.closing == (old(self).closing || exists|j: int| 0 <= j < i && #[trigger] out@[j] is Unwanted),
                old(self).closing ==> i == 0,
                self.framer == fr,
                self.local_peer == old(self).local_peer,
                ctx.buckets.wf(),
                ctx.own_networks@ == old(ctx).own_networks@,
                ctx.own_networks@.len() <= u16::MAX,
            ensures
                out@.len() == i,
                i == fs@.len() || self.closing,
                i <= fs@.len(),
                cs.len() == i + 1,
                xs.len() == i + 1,
                cs[0] == (Connection { framer: fr, ..*old(self) }),
                xs[0] == *old(ctx),
                cs[i as int] == *self,
                xs[i as int] == *ctx,
                forall|j: int| 0 <= j < i ==> !cs[j].closing
                    && frame_effect(cs[j], xs[j], fsv[j], now, cs[j + 1], xs[j + 1], #[trigger] out@[j]),
                self.closing == (old(self).closing || exists|j: int| 0 <= j < i && #[trigger] out@[j] is Unwanted),
                old(self).closing ==> i == 0,
                self.framer == fr,
                self.local_peer == old(self).local_peer,
                ctx.buckets.wf(),
                ctx.own_networks@ == old(ctx).own_networks@,
            decreases fs@.len() - i,
        {
            if self.closing {
                break;
            }
            let ghost out0 = out@;
            let r = self.process_frame(ctx, fs[i].as_slice(), now);
            out.push(r);
            proof {
                cs = cs.push(*self);
                xs = xs.push(*ctx);
                assert(out@[i as int] == r);
                assert forall|j: int| 0 <= j < i + 1 implies !cs[j].closing
                    && frame_effect(cs[j], xs[j], fsv[j], now, cs[j + 1], xs[j + 1], #[trigger] out@[j]) by {
                    if j < i {
                        assert(out@[j] == out0[j]);
                    }
                }
                if r is Unwanted {
                    assert(out@[i as int] is Unwanted);
                }
                if exists|j: int| 0 <= j < i && #[trigger] out0[j] is Unwanted {
                    let j = choose|j: int| 0 <= j < i && #[trigger] out0[j] is Unwanted;
                    assert(out@[j] == out0[j]);
                }
                if exists|j: int| 0 <= j < i + 1 && #[trigger] out@[j] is Unwanted {
                    let j = choose|j: int| 0 <= j < i + 1 && #[trigger] out@[j] is Unwanted;
                    if j < i {
                        assert(out0[j] == out@[j]);
                    }
                }
            }
            i = i + 1;
        }
        proof {
            assert(fsv.len() == fs@.len());
            if i < fs@.len() && !old(self).closing {
                let j = choose|j: int| 0 <= j < i && #[trigger] out@[j] is Unwanted;
                if j < i - 1 {
                    assert(cs[j + 1].closing);
                }
                assert(out@.last() == out@[i - 1]);
            }
            assert(frame_run(cs, xs, fsv, out@, now));
        }
        if !self.closing && self.local_peer.peer_type == PeerType::Bootstrapper {
            let refused = validate_packet_type(PeerType::Bootstrapper, self.framer.held_body()).is_err();
            if refused {
                ctx.stats.invalid_packets_received = ctx.stats.invalid_packets_received.saturating_add(1);
                self.closing = true;
                self.framer.clear();
            }
        }
        out
    }
}


/// How a socket or session operation failed, as far as the connection cares.
#[derive(Debug, Clone, Copy, PartialEq, Eq, Structural)]
pub enum IoFailure {
    WouldBlock,
    WriteZero,
    Interrupted,
    Other,
}

impl Connection {
    /// A write that failed: retried on the next writable edge when the failure is
    /// transient, otherwise the connection closes. Says whether it closes.
    pub fn on_write_failure(&mut self, failure: IoFailure) -> (r: bool)
        ensures
            r == (failure == IoFailure::Other),
            final(self).closing == (old(self).closing || r),
            final(self).status == old(self).status,
            final(self).closed == old(self).closed,
    {
        match failure {
            IoFailure::WouldBlock | IoFailure::WriteZero | IoFailure::Interrupted => false,
            IoFailure::Other => {
                self.closing = true;
                true
            },
        }
    }

    /// A read that failed: nothing to read yet on `WouldBlock`, otherwise the
    /// connection closes. Says whether it closes.
    pub fn on_read_failure(&mut self, failure: IoFailure) -> (r: bool)
        ensures
            r == (failure != IoFailure::WouldBlock),
            final(self).closing == (old(self).closing || r),
            final(self).status == old(self).status,
            final(self).closed == old(self).closed,
    {
        if failure == IoFailure::WouldBlock {
            false
        } else {
            self.closing = true;
            true
        }
    }

    /// Whether there is anything to flush: the session has output and the connection
    /// is neither closing nor closed.
    pub fn wants_flush(&self, session_wants_write: bool) -> (r: bool)
        ensures
            r == (session_wants_write && !self.closed && !self.closing),
    {
        session_wants_write && !self.closed && !self.closing
    }

    /// After a readiness event: a closing connection whose session has nothing more to
    /// read is shut down and marked closed. Says whether to shut the socket down.
    pub fn finish_ready(&mut self, session_wants_read: bool) -> (r: bool)
        ensures
            r == (old(self).closing && !session_wants_read),
            final(self).closed == (old(self).closed || r),
            final(self).closing == old(self).closing,
            final(self).status == old(self).status,
    {
        if self.closing && !session_wants_read {
            self.closed = true;
            true
        } else {
            false
        }
    }
}


/// What the periodic sweep does with a connection.
#[derive(Debug, Clone, Copy, PartialEq, Eq, Structural)]
pub enum TickAction {
    Nothing,
    SendPing,
    Close,
}

impl Connection {
    /// The periodic sweep: a connection silent for longer than `idle_timeout` closes;
    /// otherwise one whose last ping is `ping_interval` old sends a ping now.
    pub fn on_tick(&mut self, now: u64, ping_interval: u64, idle_timeout: u64) -> (r: TickAction)
        ensures
            now >= old(self).last_seen && now - old(self).last_seen > idle_timeout ==> r == TickAction::Close
                && final(self).closing,
            !(now >= old(self).last_seen && now - old(self).last_seen > idle_timeout)
                && now >= old(self).last_ping_sent && now - old(self).last_ping_sent >= ping_interval ==> r
                == TickAction::SendPing && final(self).last_ping_sent == now && final(self).sent_ping == now
                && final(self).closing == old(self).closing,
            r == TickAction::Nothing ==> final(self).last_ping_sent == old(self).last_ping_sent
                && final(self).closing == old(self).closing,
            r == TickAction::Nothing <==> !(now >= old(self).last_seen && now - old(self).last_seen > idle_timeout)
                && !(now >= old(self).last_ping_sent && now - old(self).last_ping_sent >= ping_interval),
            final(self).status == old(self).status,
    {
        if now >= self.last_seen && now - self.last_seen > idle_timeout {
            self.closing = true;
            TickAction::Close
        } else if now >= self.last_ping_sent && now - self.last_ping_sent >= ping_interval {
            self.last_ping_sent = now;
            self.sent_ping = now;
            TickAction::SendPing
        } else {
            TickAction::Nothing
        }
    }
}

} // verus!
