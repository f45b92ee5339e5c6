use concordium_node::buckets::{bucket_index, Buckets};
use concordium_node::consensus::{
    catchup_reply, catchup_request_by_hash, catchup_request_by_index, demux, finalization_catchup_replies, finalization_point_request, tag_payload, BridgeError,
    ConsensusInput, PacketType,
};
use concordium_node::dedup::{fingerprint, DedupRing};
use concordium_node::peer::{IpAddr, P2PPeer, PeerAddr, PeerType};
use concordium_node::routing::{
    ban_node, find_direct_route, may_connect, peers_to_connect, plan_send, select_broadcast_targets, BanList, ConnSummary,
    ConnectRefusal, SendPlan,
};
use concordium_node::wire::ProtocolError;

fn peer(id: u64) -> P2PPeer {
    P2PPeer { id, addr: PeerAddr { ip: IpAddr::V4(0x0A000001), port: 9000 + id as u16 }, peer_type: PeerType::Node }
}

fn conn(id: u64, established: bool, peer_type: PeerType, nets: Vec<u16>) -> ConnSummary {
    ConnSummary { remote_id: Some(id), addr: peer(id).addr, peer_type, established, networks: nets }
}

#[test]
fn ring_drops_repeat_within_capacity() {
    let mut ring = DedupRing::new(3);
    assert!(!ring.seen_or_insert(10));
    assert!(!ring.seen_or_insert(11));
    assert!(!ring.seen_or_insert(12));
    assert!(ring.seen_or_insert(10));
    assert_eq!(ring.len(), 3);
}

#[test]
fn ring_forgets_oldest_after_capacity() {
    let mut ring = DedupRing::new(3);
    for h in [1u64, 2, 3, 4] {
        assert!(!ring.seen_or_insert(h));
    }
    assert!(!ring.contains(1));
    assert!(ring.contains(4));
    assert!(!ring.seen_or_insert(1));
    assert!(!ring.contains(2));
}

#[test]
fn fingerprint_is_xxhash64() {
    assert_eq!(fingerprint(&[]), 0xef46db3751d8e999);
    assert_eq!(fingerprint(b"abc"), 0x44bc2cf5ad770999);
    assert_eq!(fingerprint(&[0xDE, 0xAD, 0xBE, 0xEF]), 0x2ff5cfb6af9aaf68);
}

#[test]
fn broadcast_reaches_each_eligible_peer_once() {
    let cs = vec![
        conn(2, true, PeerType::Node, vec![100]),
        conn(3, true, PeerType::Node, vec![100, 200]),
        conn(4, false, PeerType::Node, vec![100]),
        conn(5, true, PeerType::Bootstrapper, vec![100]),
        conn(6, true, PeerType::Node, vec![200]),
        conn(7, true, PeerType::Node, vec![100]),
    ];
    assert_eq!(select_broadcast_targets(&cs, 100, Some(7)), vec![0, 1]);
    assert_eq!(select_broadcast_targets(&cs, 100, None), vec![0, 1, 5]);
    assert_eq!(select_broadcast_targets(&cs, 200, Some(2)), vec![1, 4]);
}

#[test]
fn broadcast_deduplicated_across_nodes() {
    // A, B and C on network 100; A broadcasts, B forwards the same bytes again.
    let bytes = [0xDE, 0xAD, 0xBE, 0xEF];
    let mut ring_a = DedupRing::new(1024);
    let a_conns = vec![conn(2, true, PeerType::Node, vec![100]), conn(3, true, PeerType::Node, vec![100])];
    match plan_send(&mut ring_a, &a_conns, None, 100, &bytes, true, Some(1)) {
        SendPlan::Broadcast(ts) => assert_eq!(ts, vec![0, 1]),
        _ => panic!("expected a broadcast"),
    }
    let mut ring_b = DedupRing::new(1024);
    let b_conns = vec![conn(1, true, PeerType::Node, vec![100]), conn(3, true, PeerType::Node, vec![100])];
    // B receives the broadcast from A and forwards it, excluding A.
    match plan_send(&mut ring_b, &b_conns, None, 100, &bytes, true, Some(1)) {
        SendPlan::Broadcast(ts) => assert_eq!(ts, vec![1]),
        _ => panic!("expected a broadcast"),
    }
    // Re-broadcasting the same payload goes nowhere.
    assert!(matches!(plan_send(&mut ring_b, &b_conns, None, 100, &bytes, true, None), SendPlan::Duplicate));
    assert!(matches!(plan_send(&mut ring_a, &a_conns, None, 100, &bytes, true, None), SendPlan::Duplicate));
}

#[test]
fn direct_send_routes_by_id() {
    let cs = vec![conn(2, false, PeerType::Node, vec![]), conn(2, true, PeerType::Node, vec![]), conn(3, true, PeerType::Node, vec![])];
    assert_eq!(find_direct_route(&cs, 2), Some(1));
    let mut ring = DedupRing::new(4);
    assert!(matches!(plan_send(&mut ring, &cs, Some(3), 100, &[1], false, None), SendPlan::Direct(2)));
    assert!(matches!(plan_send(&mut ring, &cs, Some(9), 100, &[1], false, None), SendPlan::NoRoute));
    assert_eq!(ring.len(), 0);
}

#[test]
fn ban_closes_and_notifies() {
    let mut bans = BanList::new();
    let cs = vec![
        conn(8, true, PeerType::Node, vec![100]),
        conn(2, true, PeerType::Node, vec![100]),
        conn(3, false, PeerType::Node, vec![100]),
        conn(8, false, PeerType::Node, vec![100]),
    ];
    let plan = ban_node(&mut bans, &cs, 8, true);
    assert_eq!(plan.close, vec![0, 3]);
    assert_eq!(plan.notify, vec![1]);
    assert!(bans.is_banned(8));
    let plan = ban_node(&mut bans, &cs, 2, false);
    assert_eq!(plan.close, vec![1]);
    assert!(plan.notify.is_empty());
    bans.unban(8);
    assert!(!bans.is_banned(8));
    assert!(bans.is_banned(2));
}

#[test]
fn random_nodes_respect_exclusion_count_and_networks() {
    let mut b = Buckets::new(0);
    for id in 1..=30u64 {
        let nets = if id % 3 == 0 { vec![200] } else { vec![100, 300] };
        b.insert_into_bucket(&peer(id), nets);
    }
    for _ in 0..20 {
        let got = b.get_random_nodes(5, 4, &[100]);
        assert_eq!(got.len(), 4);
        for (i, p) in got.iter().enumerate() {
            assert!(!got[i + 1..].contains(p));
        }
        for p in &got {
            assert_ne!(p.id, 5);
            assert_ne!(p.id % 3, 0);
        }
    }
    let all = b.get_random_nodes(5, 100, &[100]);
    assert_eq!(all.len(), 19);
    assert!(b.get_random_nodes(5, 10, &[999]).is_empty());
}

#[test]
fn bucket_insert_is_idempotent() {
    let mut b = Buckets::new(0);
    b.insert_into_bucket(&peer(1), vec![100]);
    b.insert_into_bucket(&peer(1), vec![200]);
    assert_eq!(b.len(), 1);
    assert_eq!(b.get_random_nodes(0, 5, &[200]), vec![peer(1)]);
    assert!(b.get_random_nodes(0, 5, &[100]).is_empty());
}

#[test]
fn bucket_of_distance() {
    assert_eq!(bucket_index(0, 0), 0);
    assert_eq!(bucket_index(0, 1), 0);
    assert_eq!(bucket_index(0, 2), 1);
    assert_eq!(bucket_index(0b1000, 0b0001), 3);
    assert_eq!(bucket_index(u64::MAX, 0), 63);
}

#[test]
fn full_bucket_refuses_newcomer() {
    let mut b = Buckets::new(0);
    // IDs 64..128 all fall in bucket 6.
    for id in 64..84u64 {
        b.insert_into_bucket(&peer(id), vec![1]);
    }
    assert_eq!(b.len(), 20);
    b.insert_into_bucket(&peer(100), vec![1]);
    assert_eq!(b.len(), 20);
    b.insert_into_bucket(&peer(1), vec![1]);
    assert_eq!(b.len(), 21);
}

#[test]
fn catch_up_by_point() {
    let fp = [0x00, 0x01, 0x02];
    let req = finalization_point_request(&fp);
    assert_eq!(req, vec![0, 7, 0x00, 0x01, 0x02]);
    match demux(&req).unwrap() {
        ConsensusInput::FinalizationMessagesByPoint(p) => assert_eq!(p, fp.to_vec()),
        _ => panic!("expected a request by point"),
    }
    let replies = finalization_catchup_replies(&vec![vec![0xA1], vec![0xB2, 0xB3]]);
    assert_eq!(replies, vec![vec![0, 2, 0xA1], vec![0, 2, 0xB2, 0xB3]]);
}

#[test]
fn bridge_demux_kinds_and_errors() {
    assert_eq!(demux(&[0]).unwrap_err(), BridgeError::Truncated);
    assert_eq!(demux(&[0, 9, 1]).unwrap_err(), BridgeError::UnknownType(9));
    assert_eq!(demux(&[0, 6, 1, 2]).unwrap_err(), BridgeError::BadBody(ProtocolError::Truncated));
    match demux(&[0, 6, 0, 0, 0, 0, 0, 0, 1, 2]).unwrap() {
        ConsensusInput::FinalizationRecordByIndex(i) => assert_eq!(i, 258),
        _ => panic!("expected an index"),
    }
    match demux(&tag_payload(PacketType::ConsensusTransaction, &[5, 6])).unwrap() {
        ConsensusInput::Transaction(t) => assert_eq!(t, vec![5, 6]),
        _ => panic!("expected a transaction"),
    }
    assert_eq!(demux(&[0, 0, 1, 2]).unwrap_err(), BridgeError::BadBody(ProtocolError::Truncated));
}

#[test]
fn catch_up_reply_only_when_found() {
    assert_eq!(catchup_reply(PacketType::ConsensusBlock, &[0; 8]), None);
    assert_eq!(catchup_reply(PacketType::ConsensusBlock, &[1, 2]), None);
    let found = [0, 0, 0, 0, 0, 0, 0, 1, 9];
    assert_eq!(
        catchup_reply(PacketType::ConsensusFinalizationRecord, &found),
        Some(vec![0, 3, 0, 0, 0, 0, 0, 0, 0, 1, 9])
    );
}


#[test]
fn connect_refuses_banned_and_duplicate() {
    let mut bans = BanList::new();
    bans.ban(9);
    let cs = vec![conn(2, true, PeerType::Node, vec![100])];
    assert_eq!(may_connect(&bans, &cs, peer(9).addr, Some(9)), Err(ConnectRefusal::Banned));
    assert_eq!(may_connect(&bans, &cs, peer(2).addr, Some(2)), Err(ConnectRefusal::Duplicate));
    assert_eq!(may_connect(&bans, &cs, peer(2).addr, None), Err(ConnectRefusal::Duplicate));
    assert_eq!(may_connect(&bans, &cs, peer(2).addr, Some(3)), Ok(()));
    assert_eq!(may_connect(&bans, &cs, peer(4).addr, Some(4)), Ok(()));
}

#[test]
fn peer_list_connects_up_to_desired() {
    assert_eq!(peers_to_connect(10, 3, 5), 2);
    assert_eq!(peers_to_connect(1, 3, 5), 1);
    assert_eq!(peers_to_connect(10, 5, 5), 0);
    assert_eq!(peers_to_connect(10, 9, 5), 0);
}

#[test]
fn catch_up_requests_from_consensus() {
    assert_eq!(
        catchup_request_by_hash(PacketType::CatchupRequestBlockByHash, &[0xAA; 3]),
        vec![0, 4, 0xAA, 0xAA, 0xAA]
    );
    assert_eq!(
        catchup_request_by_hash(PacketType::CatchupRequestFinalizationRecordByHash, &[1]),
        vec![0, 5, 1]
    );
    assert_eq!(catchup_request_by_index(258), vec![0, 6, 0, 0, 0, 0, 0, 0, 1, 2]);
}
