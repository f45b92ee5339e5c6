use concordium_node::block::{BakedBlock, Block, BlockData, BlockFields};
use concordium_node::buckets::Buckets;
use concordium_node::connection::{
    log_as_joined_network, log_as_leave_network, send_handshake_and_ping, send_peer_list, update_buckets,
    validate_packet_type, Connection, ConnectionStatus, Inbound, IoFailure, NodeCtx, NodeStats, P2PEvent,
    TickAction,
};
use concordium_node::consensus::{demux, tag_payload, ConsensusInput, PacketType};
use concordium_node::fails::HandlerError;
use concordium_node::framing::Framer;
use concordium_node::message::{
    NetworkMessage, NetworkPacket, NetworkPacketType, NetworkRequest, NetworkResponse, ProtocolMessageType,
};
use concordium_node::peer::{IpAddr, P2PPeer, PeerAddr, PeerType, RemotePeer};
use concordium_node::transaction::{SchemeId, Transaction, TransactionHeader, TransactionPayload};
use concordium_node::wire::ProtocolError;

fn peer(id: u64, peer_type: PeerType) -> P2PPeer {
    P2PPeer { id, addr: PeerAddr { ip: IpAddr::V4(0x7F000001), port: 8000 + id as u16 }, peer_type }
}

fn frame(pkt: &[u8]) -> Vec<u8> {
    let mut out = (pkt.len() as u32).to_be_bytes().to_vec();
    out.extend_from_slice(pkt);
    out
}

fn ctx(me: P2PPeer, nets: Vec<u16>) -> NodeCtx {
    NodeCtx { self_peer: me, own_networks: nets, buckets: Buckets::new(me.id), stats: NodeStats::new() }
}

fn connection(me: P2PPeer, remote: P2PPeer) -> Connection {
    Connection::new(me, RemotePeer::PreHandshake(remote.peer_type, remote.addr), false, 1000)
}

/// Splits `outbox` into the messages it frames.
fn sent_messages(outbox: &[u8]) -> Vec<NetworkMessage> {
    let mut f = Framer::new();
    f.feed(outbox).iter().map(|b| NetworkMessage::deserialize(b).unwrap()).collect()
}

fn feed_in_chunks(stream: &[u8], sizes: &[usize]) -> Vec<Vec<u8>> {
    let mut f = Framer::new();
    let mut out = Vec::new();
    let mut at = 0;
    let mut k = 0;
    while at < stream.len() {
        let n = sizes[k % sizes.len()].max(1).min(stream.len() - at);
        out.extend(f.feed(&stream[at..at + n]));
        at += n;
        k += 1;
    }
    out
}

#[test]
fn framer_same_frames_for_any_split() {
    let mut stream = frame(&[1, 2, 3]);
    stream.extend(frame(&[4]));
    stream.extend(frame(&vec![9u8; 300]));
    let whole = Framer::new().feed(&stream);
    assert_eq!(whole, vec![vec![1, 2, 3], vec![4], vec![9u8; 300]]);
    for sizes in [vec![1], vec![2], vec![3, 7], vec![5, 1, 100], vec![4]] {
        assert_eq!(feed_in_chunks(&stream, &sizes), whole);
    }
}

#[test]
fn framer_keeps_partial_header() {
    let mut f = Framer::new();
    assert!(f.feed(&[0, 0]).is_empty());
    assert!(f.feed(&[0, 2, 7]).is_empty());
    assert_eq!(f.expected_size(), 2);
    assert_eq!(f.feed(&[8, 0, 0]), vec![vec![7, 8]]);
    assert_eq!(f.expected_size(), 0);
}

#[test]
fn framer_skips_oversized_header() {
    let mut stream = (268_435_457u32).to_be_bytes().to_vec();
    stream.extend(frame(&[5, 6]));
    assert_eq!(Framer::new().feed(&stream), vec![vec![5, 6]]);
    let mut stream = (268_435_456u32).to_be_bytes().to_vec();
    stream.extend(frame(&[5, 6]));
    assert!(Framer::new().feed(&stream).is_empty());
}

#[test]
fn framer_drops_empty_frame() {
    let mut stream = frame(&[]);
    stream.extend(frame(&[1]));
    assert_eq!(Framer::new().feed(&stream), vec![vec![1]]);
}

#[test]
fn message_round_trips() {
    let p = peer(1, PeerType::Node);
    let msgs = vec![
        NetworkMessage::NetworkRequest(NetworkRequest::Ping(p)),
        NetworkMessage::NetworkRequest(NetworkRequest::FindNode(p, 77)),
        NetworkMessage::NetworkRequest(NetworkRequest::GetPeers(p, vec![100, 200])),
        NetworkMessage::NetworkRequest(NetworkRequest::JoinNetwork(p, 100)),
        NetworkMessage::NetworkRequest(NetworkRequest::LeaveNetwork(p, 100)),
        NetworkMessage::NetworkRequest(NetworkRequest::Handshake(p, vec![100], vec![0, 0])),
        NetworkMessage::NetworkRequest(NetworkRequest::BanNode(p, peer(9, PeerType::Node))),
        NetworkMessage::NetworkRequest(NetworkRequest::UnbanNode(p, peer(9, PeerType::Bootstrapper))),
        NetworkMessage::NetworkRequest(NetworkRequest::Retransmit(p, 5, 100)),
        NetworkMessage::NetworkResponse(NetworkResponse::Pong(p)),
        NetworkMessage::NetworkResponse(NetworkResponse::FindNode(p, vec![peer(2, PeerType::Node)])),
        NetworkMessage::NetworkResponse(NetworkResponse::PeerList(p, vec![peer(2, PeerType::Node), peer(3, PeerType::Node)])),
        NetworkMessage::NetworkResponse(NetworkResponse::Handshake(p, vec![], vec![])),
        NetworkMessage::NetworkPacket(NetworkPacket {
            packet_type: NetworkPacketType::DirectMessage(2),
            peer: P2PPeer { id: 1, addr: PeerAddr { ip: IpAddr::V6(1, 2), port: 1 }, peer_type: PeerType::Node },
            message_id: 3,
            network_id: 100,
            message: vec![1, 2, 3],
        }),
        NetworkMessage::NetworkPacket(NetworkPacket {
            packet_type: NetworkPacketType::BroadcastedMessage,
            peer: p,
            message_id: 4,
            network_id: 100,
            message: vec![0xDE, 0xAD, 0xBE, 0xEF],
        }),
    ];
    for m in msgs {
        let bytes = m.serialize();
        assert_eq!(&bytes[..16], b"CONCORDIUMP2P001");
        let back = NetworkMessage::deserialize(&bytes).unwrap();
        assert_eq!(back.message_type(), m.message_type());
        assert_eq!(back.sender(), m.sender());
        assert_eq!(back.serialize(), bytes);
    }
}

#[test]
fn message_decode_errors() {
    let p = peer(1, PeerType::Node);
    let mut bytes = NetworkMessage::NetworkRequest(NetworkRequest::Ping(p)).serialize();
    assert_eq!(NetworkMessage::deserialize(&bytes[..10]).unwrap_err(), ProtocolError::Truncated);
    bytes[16] = b'9';
    bytes[17] = b'9';
    assert_eq!(NetworkMessage::deserialize(&bytes).unwrap_err(), ProtocolError::UnknownVariant);
    bytes[0] = b'X';
    assert_eq!(NetworkMessage::deserialize(&bytes).unwrap_err(), ProtocolError::Malformed);
    let mut ping = NetworkMessage::NetworkRequest(NetworkRequest::Ping(p)).serialize();
    ping.push(0);
    assert_eq!(NetworkMessage::deserialize(&ping).unwrap_err(), ProtocolError::Malformed);
    assert_eq!(ProtocolMessageType::try_from(b'0', b'8'), Some(ProtocolMessageType::Handshake));
}

#[test]
fn non_handshake_before_handshake_closes() {
    let me = peer(1, PeerType::Node);
    let remote = peer(2, PeerType::Node);
    let mut c = ctx(me, vec![100]);
    let mut conn = connection(me, remote);
    let ping = NetworkMessage::NetworkRequest(NetworkRequest::Ping(remote)).serialize();
    let r = conn.process_frame(&mut c, &ping, 1000);
    assert!(matches!(r, Inbound::Unwanted));
    assert!(conn.closing);
    assert_eq!(conn.status, ConnectionStatus::Untrusted);
    assert_eq!(c.stats.invalid_packets_received, 1);
}

#[test]
fn handshake_before_handshake_is_accepted() {
    let me = peer(1, PeerType::Node);
    let remote = peer(2, PeerType::Node);
    let mut c = ctx(me, vec![100]);
    let mut conn = connection(me, remote);
    let hs = NetworkMessage::NetworkRequest(NetworkRequest::Handshake(remote, vec![100], vec![])).serialize();
    let r = conn.process_frame(&mut c, &hs, 1000);
    assert!(matches!(r, Inbound::Handled));
    assert!(!conn.closing);
    assert_eq!(conn.status, ConnectionStatus::Established);
    assert_eq!(conn.remote_id(), Some(2));
    assert_eq!(conn.remote_end_networks, vec![100]);
    assert_eq!(c.buckets.len(), 1);
    let sent = sent_messages(&conn.outbox);
    assert_eq!(sent.len(), 2);
    assert_eq!(sent[0].message_type(), ProtocolMessageType::HandshakeResponse);
    assert_eq!(sent[1].message_type(), ProtocolMessageType::Ping);
}

#[test]
fn handshake_then_ping() {
    let a = peer(0x01, PeerType::Node);
    let b = peer(0x02, PeerType::Node);
    let mut ctx_a = ctx(a, vec![100]);
    let mut ctx_b = ctx(b, vec![100]);
    let mut conn_a = connection(a, b);
    let mut conn_b = connection(b, a);

    // A sends its handshake; B answers with its own and a ping.
    let hs = NetworkMessage::NetworkRequest(NetworkRequest::Handshake(a, vec![100], vec![])).serialize();
    let stream = frame(&hs);
    let r = conn_b.incoming_plaintext(&mut ctx_b, &stream, 1000);
    assert!(matches!(r[0], Inbound::Handled));
    assert_eq!(conn_b.status, ConnectionStatus::Established);

    // A reads B's handshake response and ping, and answers the ping.
    conn_a.set_measured_ping_sent(1000);
    let to_a = std::mem::take(&mut conn_b.outbox);
    let r = conn_a.incoming_plaintext(&mut ctx_a, &to_a, 1005);
    assert_eq!(r.len(), 2);
    assert!(matches!(r[0], Inbound::Delivered(_)));
    assert!(matches!(r[1], Inbound::Handled));
    assert_eq!(conn_a.status, ConnectionStatus::Established);
    assert_eq!(conn_a.remote_id(), Some(0x02));

    // A pings B; B's pong lets A measure latency.
    let ping = NetworkMessage::NetworkRequest(NetworkRequest::Ping(a)).serialize();
    conn_a.set_measured_ping_sent(2000);
    let r = conn_b.incoming_plaintext(&mut ctx_b, &frame(&ping), 2001);
    assert!(matches!(r[0], Inbound::Handled));
    let pong = std::mem::take(&mut conn_b.outbox);
    assert_eq!(sent_messages(&pong)[0].message_type(), ProtocolMessageType::Pong);
    let r = conn_a.incoming_plaintext(&mut ctx_a, &pong, 2007);
    assert!(matches!(r[0], Inbound::Handled));
    assert_eq!(conn_a.get_last_latency_measured(), Some(7));
}

#[test]
fn bootstrapper_refuses_data() {
    let boot = peer(1, PeerType::Bootstrapper);
    let node = peer(2, PeerType::Node);
    let mut c = ctx(boot, vec![100]);
    let mut conn = connection(boot, node);
    conn.status = ConnectionStatus::Established;
    let pkt = NetworkMessage::NetworkPacket(NetworkPacket {
        packet_type: NetworkPacketType::DirectMessage(1),
        peer: node,
        message_id: 1,
        network_id: 100,
        message: vec![1],
    })
    .serialize();
    assert!(matches!(validate_packet_type(PeerType::Bootstrapper, &pkt), Err(HandlerError::Unwanted(_))));
    assert!(validate_packet_type(PeerType::Node, &pkt).is_ok());
    let r = conn.process_frame(&mut c, &pkt, 1000);
    assert!(matches!(r, Inbound::Unwanted));
    assert!(conn.closing);
    assert_eq!(c.stats.invalid_packets_received, 1);
}

#[test]
fn invalid_frame_counted_and_kept() {
    let me = peer(1, PeerType::Node);
    let mut c = ctx(me, vec![100]);
    let mut conn = connection(me, peer(2, PeerType::Node));
    let r = conn.process_frame(&mut c, &[1, 2, 3], 1000);
    assert!(matches!(r, Inbound::Invalid(ProtocolError::Truncated)));
    assert!(!conn.closing);
    assert_eq!(conn.failed_pkts, 1);
    assert_eq!(c.stats.invalid_packets_received, 1);
}

#[test]
fn handshake_and_ping_frames() {
    let me = peer(1, PeerType::Node);
    let c = ctx(me, vec![100, 101]);
    let mut conn = connection(me, peer(2, PeerType::Node));
    send_handshake_and_ping(&mut conn, &c).unwrap();
    assert_eq!(conn.messages_sent, 2);
    let sent = sent_messages(&conn.outbox);
    match &sent[0] {
        NetworkMessage::NetworkResponse(NetworkResponse::Handshake(p, nets, trailer)) => {
            assert_eq!(*p, me);
            assert_eq!(nets, &vec![100, 101]);
            assert!(trailer.is_empty());
        }
        _ => panic!("expected a handshake"),
    }
    assert_eq!(sent[1].message_type(), ProtocolMessageType::Ping);
}

#[test]
fn bootstrapper_sends_peer_list() {
    let boot = peer(1, PeerType::Bootstrapper);
    let mut c = ctx(boot, vec![100]);
    let asker = peer(2, PeerType::Node);
    update_buckets(&mut c, &asker, &[100]).unwrap();
    update_buckets(&mut c, &peer(3, PeerType::Node), &[100]).unwrap();
    update_buckets(&mut c, &peer(4, PeerType::Node), &[200]).unwrap();
    assert_eq!(c.stats.peers, 3);
    assert_eq!(c.stats.packets_sent, 6);
    let mut conn = connection(boot, asker);
    send_peer_list(&mut conn, &mut c, &asker, &[100]).unwrap();
    assert_eq!(c.stats.packets_sent, 7);
    match &sent_messages(&conn.outbox)[0] {
        NetworkMessage::NetworkResponse(NetworkResponse::PeerList(p, peers)) => {
            assert_eq!(*p, boot);
            assert_eq!(peers, &vec![peer(3, PeerType::Node)]);
        }
        _ => panic!("expected a peer list"),
    }
}

#[test]
fn event_log_records_networks() {
    let p = peer(5, PeerType::Node);
    let mut log = Some(Vec::new());
    log_as_joined_network(&mut log, &p, &[1, 2]);
    log_as_leave_network(&mut log, &p, 1);
    assert_eq!(
        log.unwrap(),
        vec![P2PEvent::JoinedNetwork(p, 1), P2PEvent::JoinedNetwork(p, 2), P2PEvent::LeftNetwork(p, 1)]
    );
    let mut none: Option<Vec<P2PEvent>> = None;
    log_as_joined_network(&mut none, &p, &[1]);
    assert!(none.is_none());
}

fn big_block(target: usize) -> Block {
    let tx = |module: Vec<u8>| Transaction {
        signature: vec![1; 64],
        header: TransactionHeader {
            scheme_id: SchemeId::Ed25519,
            sender_key: vec![2; 32],
            nonce: 1,
            gas_amount: 10,
            finalized_ptr: vec![3; 32],
        },
        payload: TransactionPayload::DeployModule(module),
        hash: Vec::new(),
    };
    let make = |module: Vec<u8>| Block {
        slot: 7,
        data: BlockData::Regular(BakedBlock {
            fields: BlockFields {
                pointer: vec![1; 32],
                baker_id: 2,
                proof: vec![3; 80],
                nonce: vec![4; 80],
                last_finalized: vec![5; 32],
            },
            transactions: vec![tx(module)],
            signature: vec![6; 64],
        }),
    };
    let base = make(Vec::new()).serialize().len();
    make(vec![0xAB; target - base])
}

#[test]
fn frame_split_delivers_one_block() {
    let block = big_block(131_072);
    let block_bytes = block.serialize();
    assert_eq!(block_bytes.len(), 131_072);
    let a = peer(1, PeerType::Node);
    let b = peer(2, PeerType::Node);
    let pkt = NetworkMessage::NetworkPacket(NetworkPacket {
        packet_type: NetworkPacketType::DirectMessage(2),
        peer: a,
        message_id: 1,
        network_id: 100,
        message: tag_payload(PacketType::ConsensusBlock, &block_bytes),
    })
    .serialize();
    let stream = frame(&pkt);
    let mut c = ctx(b, vec![100]);
    let mut conn = connection(b, a);
    conn.status = ConnectionStatus::Established;
    let chunk = stream.len() / 37 + 1;
    let mut delivered = Vec::new();
    let mut pieces = 0;
    for part in stream.chunks(chunk) {
        pieces += 1;
        delivered.extend(conn.incoming_plaintext(&mut c, part, 1000));
    }
    assert_eq!(pieces, 37);
    assert_eq!(delivered.len(), 1);
    match &delivered[0] {
        Inbound::Delivered(NetworkMessage::NetworkPacket(p)) => match demux(&p.message).unwrap() {
            ConsensusInput::Block(got) => assert_eq!(got.serialize(), block_bytes),
            _ => panic!("expected a block"),
        },
        _ => panic!("expected a packet"),
    }
}

#[test]
fn transient_write_failures_keep_connection() {
    let me = peer(1, PeerType::Node);
    let mut conn = connection(me, peer(2, PeerType::Node));
    assert!(conn.wants_flush(true));
    assert!(!conn.on_write_failure(IoFailure::WouldBlock));
    assert!(!conn.on_write_failure(IoFailure::WriteZero));
    assert!(!conn.on_write_failure(IoFailure::Interrupted));
    assert!(!conn.on_read_failure(IoFailure::WouldBlock));
    assert!(!conn.closing);
    assert!(!conn.finish_ready(false));
    assert!(conn.on_write_failure(IoFailure::Other));
    assert!(conn.closing);
    assert!(!conn.wants_flush(true));
    assert!(!conn.finish_ready(true));
    assert!(!conn.is_closed());
    assert!(conn.finish_ready(false));
    assert!(conn.is_closed());
}

#[test]
fn sweep_pings_then_closes_idle() {
    let me = peer(1, PeerType::Node);
    let mut conn = connection(me, peer(2, PeerType::Node));
    assert_eq!(conn.on_tick(1010, 30, 120), TickAction::Nothing);
    assert_eq!(conn.on_tick(1030, 30, 120), TickAction::SendPing);
    assert_eq!(conn.get_last_ping_sent(), 1030);
    assert_eq!(conn.on_tick(1040, 30, 120), TickAction::Nothing);
    assert!(!conn.closing);
    assert_eq!(conn.on_tick(1121, 30, 120), TickAction::Close);
    assert!(conn.closing);
}

#[test]
fn frames_after_refusal_are_dropped() {
    let me = peer(1, PeerType::Node);
    let remote = peer(2, PeerType::Node);
    let mut c = ctx(me, vec![100]);
    let mut conn = connection(me, remote);
    let ping = NetworkMessage::NetworkRequest(NetworkRequest::Ping(remote)).serialize();
    let hs = NetworkMessage::NetworkRequest(NetworkRequest::Handshake(remote, vec![100], vec![])).serialize();
    let mut stream = frame(&ping);
    stream.extend(frame(&hs));
    let r = conn.incoming_plaintext(&mut c, &stream, 1000);
    assert_eq!(r.len(), 1);
    assert!(matches!(r[0], Inbound::Unwanted));
    assert!(conn.closing);
    assert_eq!(conn.status, ConnectionStatus::Untrusted);
    assert!(conn.outbox.is_empty());
}

#[test]
fn bootstrapper_closes_on_partial_data_frame() {
    let boot = peer(1, PeerType::Bootstrapper);
    let node = peer(2, PeerType::Node);
    let mut c = ctx(boot, vec![100]);
    let mut conn = connection(boot, node);
    conn.status = ConnectionStatus::Established;
    let pkt = NetworkMessage::NetworkPacket(NetworkPacket {
        packet_type: NetworkPacketType::BroadcastedMessage,
        peer: node,
        message_id: 1,
        network_id: 100,
        message: vec![7; 1000],
    })
    .serialize();
    let stream = frame(&pkt);
    // the length header and the first 17 bytes: the type tag is not complete yet
    let r = conn.incoming_plaintext(&mut c, &stream[..4 + 17], 1000);
    assert!(r.is_empty());
    assert!(!conn.closing);
    // one more byte completes the tag: the connection closes and the bytes are dropped
    let r = conn.incoming_plaintext(&mut c, &stream[21..22], 1000);
    assert!(r.is_empty());
    assert!(conn.closing);
    assert_eq!(conn.framer.expected_size(), 0);
    assert_eq!(c.stats.invalid_packets_received, 1);
}

#[test]
fn node_keeps_partial_data_frame() {
    let me = peer(1, PeerType::Node);
    let other = peer(2, PeerType::Node);
    let mut c = ctx(me, vec![100]);
    let mut conn = connection(me, other);
    conn.status = ConnectionStatus::Established;
    let pkt = NetworkMessage::NetworkPacket(NetworkPacket {
        packet_type: NetworkPacketType::BroadcastedMessage,
        peer: other,
        message_id: 1,
        network_id: 100,
        message: vec![7; 100],
    })
    .serialize();
    let stream = frame(&pkt);
    assert!(conn.incoming_plaintext(&mut c, &stream[..50], 1000).is_empty());
    assert!(!conn.closing);
    let r = conn.incoming_plaintext(&mut c, &stream[50..], 1000);
    assert_eq!(r.len(), 1);
    assert!(matches!(r[0], Inbound::Delivered(_)));
}
