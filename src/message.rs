use vstd::prelude::*;
use crate::wire::{ProtocolError, be16, be64, u16_at, u64_at, ser_bytes, parse_bytes, lemma_pow256_values,
    lemma_u16_at, lemma_u64_at, lemma_u16_canonical, lemma_u64_canonical, lemma_bytes_round_trip,
    lemma_bytes_canonical, read_u16, read_u64, read_bytes, copy_range, append_range, push_bytes, push_u16,
    push_u64, be32, u32_at, lemma_u32_at, lemma_u32_canonical, read_u32, push_u32};
use crate::peer::{P2PPeer, ser_peer, parse_peer, lemma_peer_round_trip, lemma_peer_canonical};

verus! {

/// The ASCII header every protocol message starts with: name and version.
pub open spec fn protocol_header() -> Seq<u8> {
    seq![67u8, 79, 78, 67, 79, 82, 68, 73, 85, 77, 80, 50, 80, 48, 48, 49]
}

/// Length of the protocol header.
pub const PROTOCOL_HEADER_LENGTH: usize = 16;

/// Length of the message-type code after the header.
pub const PROTOCOL_MESSAGE_TYPE_LENGTH: usize = 2;

/// Header and type code together.
pub const PROTOCOL_MESSAGE_LENGTH: usize = 18;

/// Longest handshake trailer, as a medium byte string: 4 KiB.
pub const MEDIUM_BYTES_CAP: u64 = 4096;

/// The kinds of protocol message.
#[derive(Debug, Clone, Copy, PartialEq, Eq, Structural)]
pub enum ProtocolMessageType {
    Ping,
    Pong,
    FindNode,
    FindNodeResponse,
    GetPeers,
    PeerList,
    JoinNetwork,
    LeaveNetwork,
    Handshake,
    HandshakeResponse,
    BanNode,
    UnbanNode,
    DirectMessage,
    BroadcastedMessage,
    Retransmit,
}

/// The number behind a type's two ASCII digits.
pub open spec fn type_number(t: ProtocolMessageType) -> u8 {
    match t {
        ProtocolMessageType::Ping => 0,
        ProtocolMessageType::Pong => 1,
        ProtocolMessageType::FindNode => 2,
        ProtocolMessageType::FindNodeResponse => 3,
        ProtocolMessageType::GetPeers => 4,
        ProtocolMessageType::PeerList => 5,
        ProtocolMessageType::JoinNetwork => 6,
        ProtocolMessageType::LeaveNetwork => 7,
        ProtocolMessageType::Handshake => 8,
        ProtocolMessageType::HandshakeResponse => 9,
        ProtocolMessageType::BanNode => 10,
        ProtocolMessageType::UnbanNode => 11,
        ProtocolMessageType::DirectMessage => 12,
        ProtocolMessageType::BroadcastedMessage => 13,
        ProtocolMessageType::Retransmit => 14,
    }
}

/// The two ASCII digits of a type.
pub open spec fn type_code(t: ProtocolMessageType) -> Seq<u8> {
    seq![(48 + type_number(t) / 10) as u8, (48 + type_number(t) % 10) as u8]
}

/// The type that two ASCII digits name, if any.
pub open spec fn type_of_code(a: u8, b: u8) -> Option<ProtocolMessageType> {
    if a < 48 || a > 57 || b < 48 || b > 57 {
        None
    } else {
        let n = (a - 48) * 10 + (b - 48);
        if n == 0 { Some(ProtocolMessageType::Ping) }
        else if n == 1 { Some(ProtocolMessageType::Pong) }
        else if n == 2 { Some(ProtocolMessageType::FindNode) }
        else if n == 3 { Some(ProtocolMessageType::FindNodeResponse) }
        else if n == 4 { Some(ProtocolMessageType::GetPeers) }
        else if n == 5 { Some(ProtocolMessageType::PeerList) }
        else if n == 6 { Some(ProtocolMessageType::JoinNetwork) }
        else if n == 7 { Some(ProtocolMessageType::LeaveNetwork) }
        else if n == 8 { Some(ProtocolMessageType::Handshake) }
        else if n == 9 { Some(ProtocolMessageType::HandshakeResponse) }
        else if n == 10 { Some(ProtocolMessageType::BanNode) }
        else if n == 11 { Some(ProtocolMessageType::UnbanNode) }
        else if n == 12 { Some(ProtocolMessageType::DirectMessage) }
        else if n == 13 { Some(ProtocolMessageType::BroadcastedMessage) }
        else if n == 14 { Some(ProtocolMessageType::Retransmit) }
        else { None }
    }
}

pub proof fn lemma_type_code_round_trip(t: ProtocolMessageType)
    ensures
        type_of_code(type_code(t)[0], type_code(t)[1]) == Some(t),
{
}

impl ProtocolMessageType {
    /// The type that a two-byte code names.
    pub fn try_from(a: u8, b: u8) -> (r: Option<ProtocolMessageType>)
        ensures
            r == type_of_code(a, b),
    {
        if a < 48 || a > 57 || b < 48 || b > 57 {
            return None;
        }
        let n = (a - 48) * 10 + (b - 48);
        match n {
            0 => Some(ProtocolMessageType::Ping),
            1 => Some(ProtocolMessageType::Pong),
            2 => Some(ProtocolMessageType::FindNode),
            3 => Some(ProtocolMessageType::FindNodeResponse),
            4 => Some(ProtocolMessageType::GetPeers),
            5 => Some(ProtocolMessageType::PeerList),
            6 => Some(ProtocolMessageType::JoinNetwork),
            7 => Some(ProtocolMessageType::LeaveNetwork),
            8 => Some(ProtocolMessageType::Handshake),
            9 => Some(ProtocolMessageType::HandshakeResponse),
            10 => Some(ProtocolMessageType::BanNode),
            11 => Some(ProtocolMessageType::UnbanNode),
            12 => Some(ProtocolMessageType::DirectMessage),
            13 => Some(ProtocolMessageType::BroadcastedMessage),
            14 => Some(ProtocolMessageType::Retransmit),
            _ => None,
        }
    }

    pub fn number(&self) -> (r: u8)
        ensures
            r == type_number(*self),
    {
        match self {
            ProtocolMessageType::Ping => 0,
            ProtocolMessageType::Pong => 1,
            ProtocolMessageType::FindNode => 2,
            ProtocolMessageType::FindNodeResponse => 3,
            ProtocolMessageType::GetPeers => 4,
            ProtocolMessageType::PeerList => 5,
            ProtocolMessageType::JoinNetwork => 6,
            ProtocolMessageType::LeaveNetwork => 7,
            ProtocolMessageType::Handshake => 8,
            ProtocolMessageType::HandshakeResponse => 9,
            ProtocolMessageType::BanNode => 10,
            ProtocolMessageType::UnbanNode => 11,
            ProtocolMessageType::DirectMessage => 12,
            ProtocolMessageType::BroadcastedMessage => 13,
            ProtocolMessageType::Retransmit => 14,
        }
    }
}

/// Appends the protocol header and the code of `t`.
pub fn push_header(out: &mut Vec<u8>, t: ProtocolMessageType)
    ensures
        final(out)@ == old(out)@ + protocol_header() + type_code(t),
{
    let ghost start = out@;
    out.push(67u8);
    out.push(79u8);
    out.push(78u8);
    out.push(67u8);
    out.push(79u8);
    out.push(82u8);
    out.push(68u8);
    out.push(73u8);
    out.push(85u8);
    out.push(77u8);
    out.push(80u8);
    out.push(50u8);
    out.push(80u8);
    out.push(48u8);
    out.push(48u8);
    out.push(49u8);
    let n = t.number();
    out.push(48 + n / 10);
    out.push(48 + n % 10);
    assert(out@ =~= start + protocol_header() + type_code(t));
}

/// Whether the frame starts with the protocol header.
pub fn has_protocol_header(s: &[u8]) -> (r: bool)
    requires
        s@.len() >= 16,
    ensures
        r == (s@.take(16) == protocol_header()),
{
    let r = s[0] == 67 && s[1] == 79 && s[2] == 78 && s[3] == 67 && s[4] == 79 && s[5] == 82 && s[6] == 68
        && s[7] == 73 && s[8] == 85 && s[9] == 77 && s[10] == 80 && s[11] == 50 && s[12] == 80 && s[13] == 48
        && s[14] == 48 && s[15] == 49;
    if r {
        assert(s@.take(16) =~= protocol_header());
    } else {
        assert(s@.take(16) != protocol_header()) by {
            if s@.take(16) == protocol_header() {
                assert(s@.take(16)[0] == protocol_header()[0]);
                assert(s@.take(16)[1] == protocol_header()[1]);
                assert(s@.take(16)[2] == protocol_header()[2]);
                assert(s@.take(16)[3] == protocol_header()[3]);
                assert(s@.take(16)[4] == protocol_header()[4]);
                assert(s@.take(16)[5] == protocol_header()[5]);
                assert(s@.take(16)[6] == protocol_header()[6]);
                assert(s@.take(16)[7] == protocol_header()[7]);
                assert(s@.take(16)[8] == protocol_header()[8]);
                assert(s@.take(16)[9] == protocol_header()[9]);
                assert(s@.take(16)[10] == protocol_header()[10]);
                assert(s@.take(16)[11] == protocol_header()[11]);
                assert(s@.take(16)[12] == protocol_header()[12]);
                assert(s@.take(16)[13] == protocol_header()[13]);
                assert(s@.take(16)[14] == protocol_header()[14]);
                assert(s@.take(16)[15] == protocol_header()[15]);
            }
        }
    }
    r
}

/// The type a frame announces, if it is long enough and the code is known.
pub open spec fn frame_type(s: Seq<u8>) -> Option<ProtocolMessageType> {
    if s.len() < PROTOCOL_MESSAGE_LENGTH {
        None
    } else {
        type_of_code(s[16], s[17])
    }
}

pub fn read_frame_type(s: &[u8]) -> (r: Option<ProtocolMessageType>)
    ensures
        r == frame_type(s@),
{
    if s.len() < PROTOCOL_MESSAGE_LENGTH {
        None
    } else {
        ProtocolMessageType::try_from(s[16], s[17])
    }
}


pub open spec fn nets_body(ns: Seq<u16>) -> Seq<u8>
    decreases ns.len(),
{
    if ns.len() == 0 {
        Seq::empty()
    } else {
        be16(ns[0]) + nets_body(ns.skip(1))
    }
}

/// A list of network IDs: `count:u16` then each ID.
pub open spec fn ser_nets(ns: Seq<u16>) -> Seq<u8> {
    be16(ns.len() as u16) + nets_body(ns)
}

pub open spec fn parse_nets_body(s: Seq<u8>, k: nat) -> Result<(Seq<u16>, int), ProtocolError>
    decreases k,
{
    if k == 0 {
        Ok((Seq::empty(), 0))
    } else if s.len() < 2 {
        Err(ProtocolError::Truncated)
    } else {
        match parse_nets_body(s.skip(2), (k - 1) as nat) {
            Err(e) => Err(e),
            Ok((ns, m)) => Ok((seq![u16_at(s, 0)] + ns, 2 + m)),
        }
    }
}

pub open spec fn parse_nets(s: Seq<u8>) -> Result<(Seq<u16>, int), ProtocolError> {
    if s.len() < 2 {
        Err(ProtocolError::Truncated)
    } else {
        match parse_nets_body(s.skip(2), u16_at(s, 0) as nat) {
            Err(e) => Err(e),
            Ok((ns, m)) => Ok((ns, 2 + m)),
        }
    }
}

proof fn lemma_nets_body_round_trip(ns: Seq<u16>, rest: Seq<u8>)
    ensures
        parse_nets_body(nets_body(ns) + rest, ns.len()) == Ok::<(Seq<u16>, int), ProtocolError>((ns, nets_body(ns).len() as int)),
    decreases ns.len(),
{
    if ns.len() > 0 {
        let s = nets_body(ns) + rest;
        lemma_pow256_values();
        assert(s.subrange(0, 2) =~= be16(ns[0]));
        lemma_u16_at(s, 0, ns[0]);
        assert(s.skip(2) =~= nets_body(ns.skip(1)) + rest);
        lemma_nets_body_round_trip(ns.skip(1), rest);
        assert(seq![ns[0]] + ns.skip(1) =~= ns);
    } else {
        assert(ns =~= Seq::<u16>::empty());
    }
}

proof fn lemma_nets_body_canonical(s: Seq<u8>, k: nat)
    requires
        parse_nets_body(s, k) is Ok,
    ensures
        ({
            let (ns, m) = parse_nets_body(s, k)->Ok_0;
            &&& ns.len() == k
            &&& 0 <= m <= s.len()
            &&& s.take(m) == nets_body(ns)
        }),
    decreases k,
{
    if k > 0 {
        lemma_nets_body_canonical(s.skip(2), (k - 1) as nat);
        lemma_u16_canonical(s, 0);
        let (ns, m) = parse_nets_body(s.skip(2), (k - 1) as nat)->Ok_0;
        let all = seq![u16_at(s, 0)] + ns;
        assert(all.skip(1) =~= ns);
        assert(s.take(2 + m) =~= s.subrange(0, 2) + s.skip(2).take(m));
    } else {
        assert(s.take(0) =~= Seq::<u8>::empty());
    }
}

pub proof fn lemma_nets_round_trip(ns: Seq<u16>, rest: Seq<u8>)
    requires
        ns.len() <= u16::MAX,
    ensures
        parse_nets(ser_nets(ns) + rest) == Ok::<(Seq<u16>, int), ProtocolError>((ns, ser_nets(ns).len() as int)),
{
    let s = ser_nets(ns) + rest;
    lemma_pow256_values();
    assert(s.subrange(0, 2) =~= be16(ns.len() as u16));
    lemma_u16_at(s, 0, ns.len() as u16);
    assert(s.skip(2) =~= nets_body(ns) + rest);
    lemma_nets_body_round_trip(ns, rest);
}

pub proof fn lemma_nets_canonical(s: Seq<u8>)
    requires
        parse_nets(s) is Ok,
    ensures
        ({
            let (ns, m) = parse_nets(s)->Ok_0;
            &&& ns.len() <= u16::MAX
            &&& 0 < m <= s.len()
            &&& s.take(m) == ser_nets(ns)
        }),
{
    lemma_nets_body_canonical(s.skip(2), u16_at(s, 0) as nat);
    lemma_u16_canonical(s, 0);
    let (ns, m) = parse_nets_body(s.skip(2), u16_at(s, 0) as nat)->Ok_0;
    assert(s.take(2 + m) =~= s.subrange(0, 2) + s.skip(2).take(m));
}

/// Appends a list of network IDs.
pub fn push_nets(out: &mut Vec<u8>, ns: &[u16])
    requires
        ns@.len() <= u16::MAX,
    ensures
        final(out)@ == old(out)@ + ser_nets(ns@),
{
    let ghost start = out@;
    push_u16(out, ns.len() as u16);
    let ghost mid = out@;
    let mut i: usize = 0;
    assert(ns@.skip(0) =~= ns@);
    while i < ns.len()
        invariant
            i <= ns@.len(),
            out@ + nets_body(ns@.skip(i as int)) == mid + nets_body(ns@),
        decreases ns@.len() - i,
    {
        let ghost before = out@;
        proof {
            assert(ns@.skip(i as int).skip(1) =~= ns@.skip(i + 1));
        }
        push_u16(out, ns[i]);
        i = i + 1;
        assert(out@ + nets_body(ns@.skip(i as int)) =~= before + nets_body(ns@.skip(i - 1)));
    }
    assert(ns@.skip(i as int) =~= Seq::<u16>::empty());
    assert(out@ + Seq::<u8>::empty() =~= out@);
    assert(out@ =~= start + ser_nets(ns@));
}

/// Reads a list of network IDs at `pos`; gives it and the position after it.
pub fn read_nets(s: &[u8], pos: usize) -> (r: Result<(Vec<u16>, usize), ProtocolError>)
    requires
        pos <= s@.len(),
    ensures
        match (r, parse_nets(s@.skip(pos as int))) {
            (Ok((ns, end)), Ok((sn, m))) => ns@ == sn && end == pos + m,
            (Err(e), Err(se)) => e == se,
            _ => false,
        },
{
    let ghost t = s@.skip(pos as int);
    if s.len() - pos < 2 {
        return Err(ProtocolError::Truncated);
    }
    let k = read_u16(s, pos);
    assert(s@.subrange(pos as int, pos + 2) =~= t.subrange(0, 2));
    let mut ns: Vec<u16> = Vec::new();
    let mut p: usize = pos + 2;
    let mut i: u16 = 0;
    assert(t.skip(2) =~= s@.skip(p as int));
    while i < k
        invariant
            pos + 2 <= p <= s@.len(),
            i <= k,
            t == s@.skip(pos as int),
            k == u16_at(t, 0),
            parse_nets_body(t.skip(2), k as nat) == (match parse_nets_body(s@.skip(p as int), (k - i) as nat) {
                Ok((rest, m)) => Ok((ns@ + rest, (p - pos - 2) + m)),
                Err(e) => Err(e),
            }),
        decreases k - i,
    {
        if s.len() - p < 2 {
            return Err(ProtocolError::Truncated);
        }
        let v = read_u16(s, p);
        proof {
            let u = s@.skip(p as int);
            assert(s@.subrange(p as int, p + 2) =~= u.subrange(0, 2));
            assert(u.skip(2) =~= s@.skip(p + 2));
            match parse_nets_body(s@.skip(p + 2), (k - i - 1) as nat) {
                Ok((rest, m)) => {
                    assert(ns@.push(v) + rest =~= ns@ + (seq![v] + rest));
                },
                Err(_) => {},
            }
        }
        ns.push(v);
        p = p + 2;
        i = i + 1;
    }
    assert(ns@ + Seq::<u16>::empty() =~= ns@);
    Ok((ns, p))
}


pub open spec fn peers_body(ps: Seq<P2PPeer>) -> Seq<u8>
    decreases ps.len(),
{
    if ps.len() == 0 {
        Seq::empty()
    } else {
        ser_peer(ps[0]) + peers_body(ps.skip(1))
    }
}

/// A list of peer records: `count:u32` then each record.
pub open spec fn ser_peers(ps: Seq<P2PPeer>) -> Seq<u8> {
    be32(ps.len() as u32) + peers_body(ps)
}

pub open spec fn parse_peers_body(s: Seq<u8>, k: nat) -> Result<(Seq<P2PPeer>, int), ProtocolError>
    decreases k,
{
    if k == 0 {
        Ok((Seq::empty(), 0))
    } else {
        match parse_peer(s) {
            Err(e) => Err(e),
            Ok((p, n)) => match parse_peers_body(s.skip(n), (k - 1) as nat) {
                Err(e) => Err(e),
                Ok((ps, m)) => Ok((seq![p] + ps, n + m)),
            },
        }
    }
}

pub open spec fn parse_peers(s: Seq<u8>) -> Result<(Seq<P2PPeer>, int), ProtocolError> {
    if s.len() < 4 {
        Err(ProtocolError::Truncated)
    } else {
        match parse_peers_body(s.skip(4), u32_at(s, 0) as nat) {
            Err(e) => Err(e),
            Ok((ps, m)) => Ok((ps, 4 + m)),
        }
    }
}

proof fn lemma_peers_body_round_trip(ps: Seq<P2PPeer>, rest: Seq<u8>)
    ensures
        parse_peers_body(peers_body(ps) + rest, ps.len()) == Ok::<(Seq<P2PPeer>, int), ProtocolError>((ps, peers_body(ps).len() as int)),
    decreases ps.len(),
{
    if ps.len() > 0 {
        let tail = peers_body(ps.skip(1)) + rest;
        assert(peers_body(ps) + rest =~= ser_peer(ps[0]) + tail);
        lemma_peer_round_trip(ps[0], tail);
        assert((peers_body(ps) + rest).skip(ser_peer(ps[0]).len() as int) =~= tail);
        lemma_peers_body_round_trip(ps.skip(1), rest);
        assert(seq![ps[0]] + ps.skip(1) =~= ps);
    } else {
        assert(ps =~= Seq::<P2PPeer>::empty());
    }
}

proof fn lemma_peers_body_canonical(s: Seq<u8>, k: nat)
    requires
        parse_peers_body(s, k) is Ok,
    ensures
        ({
            let (ps, m) = parse_peers_body(s, k)->Ok_0;
            &&& ps.len() == k
            &&& 0 <= m <= s.len()
            &&& s.take(m) == peers_body(ps)
        }),
    decreases k,
{
    if k > 0 {
        let (p, n) = parse_peer(s)->Ok_0;
        lemma_peer_canonical(s);
        lemma_peers_body_canonical(s.skip(n), (k - 1) as nat);
        let (ps, m) = parse_peers_body(s.skip(n), (k - 1) as nat)->Ok_0;
        let all = seq![p] + ps;
        assert(all.skip(1) =~= ps);
        assert(s.take(n + m) =~= s.take(n) + s.skip(n).take(m));
    } else {
        assert(s.take(0) =~= Seq::<u8>::empty());
    }
}

pub proof fn lemma_peers_round_trip(ps: Seq<P2PPeer>, rest: Seq<u8>)
    requires
        ps.len() <= u32::MAX,
    ensures
        parse_peers(ser_peers(ps) + rest) == Ok::<(Seq<P2PPeer>, int), ProtocolError>((ps, ser_peers(ps).len() as int)),
{
    let s = ser_peers(ps) + rest;
    lemma_pow256_values();
    assert(s.subrange(0, 4) =~= be32(ps.len() as u32));
    lemma_u32_at(s, 0, ps.len() as u32);
    assert(s.skip(4) =~= peers_body(ps) + rest);
    lemma_peers_body_round_trip(ps, rest);
}

pub proof fn lemma_peers_canonical(s: Seq<u8>)
    requires
        parse_peers(s) is Ok,
    ensures
        ({
            let (ps, m) = parse_peers(s)->Ok_0;
            &&& ps.len() <= u32::MAX
            &&& 0 < m <= s.len()
            &&& s.take(m) == ser_peers(ps)
        }),
{
    lemma_peers_body_canonical(s.skip(4), u32_at(s, 0) as nat);
    lemma_u32_canonical(s, 0);
    let (ps, m) = parse_peers_body(s.skip(4), u32_at(s, 0) as nat)->Ok_0;
    assert(s.take(4 + m) =~= s.subrange(0, 4) + s.skip(4).take(m));
}

/// Appends a list of peer records.
pub fn push_peers(out: &mut Vec<u8>, ps: &[P2PPeer])
    requires
        ps@.len() <= u32::MAX,
    ensures
        final(out)@ == old(out)@ + ser_peers(ps@),
{
    let ghost start = out@;
    push_u32(out, ps.len() as u32);
    let ghost mid = out@;
    let mut i: usize = 0;
    assert(ps@.skip(0) =~= ps@);
    while i < ps.len()
        invariant
            i <= ps@.len(),
            out@ + peers_body(ps@.skip(i as int)) == mid + peers_body(ps@),
        decreases ps@.len() - i,
    {
        let ghost before = out@;
        proof {
            assert(ps@.skip(i as int).skip(1) =~= ps@.skip(i + 1));
        }
        ps[i].serial(out);
        i = i + 1;
        assert(out@ + peers_body(ps@.skip(i as int)) =~= before + peers_body(ps@.skip(i - 1)));
    }
    assert(ps@.skip(i as int) =~= Seq::<P2PPeer>::empty());
    assert(out@ + Seq::<u8>::empty() =~= out@);
    assert(out@ =~= start + ser_peers(ps@));
}

/// Reads a list of peer records at `pos`; gives it and the position after it.
pub fn read_peers(s: &[u8], pos: usize) -> (r: Result<(Vec<P2PPeer>, usize), ProtocolError>)
    requires
        pos <= s@.len(),
    ensures
        match (r, parse_peers(s@.skip(pos as int))) {
            (Ok((ps, end)), Ok((sp, m))) => ps@ == sp && end == pos + m,
            (Err(e), Err(se)) => e == se,
            _ => false,
        },
{
    let ghost t = s@.skip(pos as int);
    if s.len() - pos < 4 {
        return Err(ProtocolError::Truncated);
    }
    let k = read_u32(s, pos);
    assert(s@.subrange(pos as int, pos + 4) =~= t.subrange(0, 4));
    let mut ps: Vec<P2PPeer> = Vec::new();
    let mut p: usize = pos + 4;
    let mut i: u32 = 0;
    assert(t.skip(4) =~= s@.skip(p as int));
    while i < k
        invariant
            pos + 4 <= p <= s@.len(),
            i <= k,
            t == s@.skip(pos as int),
            k == u32_at(t, 0),
            parse_peers_body(t.skip(4), k as nat) == (match parse_peers_body(s@.skip(p as int), (k - i) as nat) {
                Ok((rest, m)) => Ok((ps@ + rest, (p - pos - 4) + m)),
                Err(e) => Err(e),
            }),
        decreases k - i,
    {
        let (peer, end) = match P2PPeer::deserialize(s, p) {
            Ok(x) => x,
            Err(e) => return Err(e),
        };
        proof {
            lemma_peer_canonical(s@.skip(p as int));
            assert(s@.skip(p as int).skip(end - p) =~= s@.skip(end as int));
            match parse_peers_body(s@.skip(end as int), (k - i - 1) as nat) {
                Ok((rest, m)) => {
                    assert(ps@.push(peer) + rest =~= ps@ + (seq![peer] + rest));
                },
                Err(_) => {},
            }
        }
        ps.push(peer);
        p = end;
        i = i + 1;
    }
    assert(ps@ + Seq::<P2PPeer>::empty() =~= ps@);
    Ok((ps, p))
}


/// A request from a peer.
#[derive(Debug, Clone)]
pub enum NetworkRequest {
    Ping(P2PPeer),
    FindNode(P2PPeer, u64),
    GetPeers(P2PPeer, Vec<u16>),
    JoinNetwork(P2PPeer, u16),
    LeaveNetwork(P2PPeer, u16),
    /// The sender, its networks, and a trailer.
    Handshake(P2PPeer, Vec<u16>, Vec<u8>),
    BanNode(P2PPeer, P2PPeer),
    UnbanNode(P2PPeer, P2PPeer),
    /// The sender, a time stamp to resend from, and a network.
    Retransmit(P2PPeer, u64, u16),
}

/// A response from a peer.
#[derive(Debug, Clone)]
pub enum NetworkResponse {
    Pong(P2PPeer),
    FindNode(P2PPeer, Vec<P2PPeer>),
    PeerList(P2PPeer, Vec<P2PPeer>),
    Handshake(P2PPeer, Vec<u16>, Vec<u8>),
}

/// Whether a packet goes to one peer (named by ID) or to all.
#[derive(Debug, Clone, Copy, PartialEq, Eq, Structural)]
pub enum NetworkPacketType {
    DirectMessage(u64),
    BroadcastedMessage,
}

/// An application payload on its way through the network.
#[derive(Debug, Clone)]
pub struct NetworkPacket {
    pub packet_type: NetworkPacketType,
    pub peer: P2PPeer,
    pub message_id: u64,
    pub network_id: u16,
    pub message: Vec<u8>,
}

#[derive(Debug, Clone)]
pub enum NetworkMessage {
    NetworkRequest(NetworkRequest),
    NetworkResponse(NetworkResponse),
    NetworkPacket(NetworkPacket),
}

/// The mathematical value of a protocol message.
pub enum MessageModel {
    Ping(P2PPeer),
    Pong(P2PPeer),
    FindNode(P2PPeer, u64),
    FindNodeResponse(P2PPeer, Seq<P2PPeer>),
    GetPeers(P2PPeer, Seq<u16>),
    PeerList(P2PPeer, Seq<P2PPeer>),
    JoinNetwork(P2PPeer, u16),
    LeaveNetwork(P2PPeer, u16),
    Handshake(P2PPeer, Seq<u16>, Seq<u8>),
    HandshakeResponse(P2PPeer, Seq<u16>, Seq<u8>),
    BanNode(P2PPeer, P2PPeer),
    UnbanNode(P2PPeer, P2PPeer),
    DirectMessage(P2PPeer, u64, u64, u16, Seq<u8>),
    BroadcastedMessage(P2PPeer, u64, u16, Seq<u8>),
    Retransmit(P2PPeer, u64, u16),
}

impl View for NetworkMessage {
    type V = MessageModel;

    open spec fn view(&self) -> MessageModel {
        match self {
            NetworkMessage::NetworkRequest(r) => match r {
                NetworkRequest::Ping(p) => MessageModel::Ping(*p),
                NetworkRequest::FindNode(p, id) => MessageModel::FindNode(*p, *id),
                NetworkRequest::GetPeers(p, ns) => MessageModel::GetPeers(*p, ns@),
                NetworkRequest::JoinNetwork(p, n) => MessageModel::JoinNetwork(*p, *n),
                NetworkRequest::LeaveNetwork(p, n) => MessageModel::LeaveNetwork(*p, *n),
                NetworkRequest::Handshake(p, ns, t) => MessageModel::Handshake(*p, ns@, t@),
                NetworkRequest::BanNode(p, b) => MessageModel::BanNode(*p, *b),
                NetworkRequest::UnbanNode(p, b) => MessageModel::UnbanNode(*p, *b),
                NetworkRequest::Retransmit(p, since, n) => MessageModel::Retransmit(*p, *since, *n),
            },
            NetworkMessage::NetworkResponse(r) => match r {
                NetworkResponse::Pong(p) => MessageModel::Pong(*p),
                NetworkResponse::FindNode(p, ps) => MessageModel::FindNodeResponse(*p, ps@),
                NetworkResponse::PeerList(p, ps) => MessageModel::PeerList(*p, ps@),
                NetworkResponse::Handshake(p, ns, t) => MessageModel::HandshakeResponse(*p, ns@, t@),
            },
            NetworkMessage::NetworkPacket(pk) => match pk.packet_type {
                NetworkPacketType::DirectMessage(to) =>
                    MessageModel::DirectMessage(pk.peer, to, pk.message_id, pk.network_id, pk.message@),
                NetworkPacketType::BroadcastedMessage =>
                    MessageModel::BroadcastedMessage(pk.peer, pk.message_id, pk.network_id, pk.message@),
            },
        }
    }
}

pub open spec fn msg_type(m: MessageModel) -> ProtocolMessageType {
    match m {
        MessageModel::Ping(..) => ProtocolMessageType::Ping,
        MessageModel::Pong(..) => ProtocolMessageType::Pong,
        MessageModel::FindNode(..) => ProtocolMessageType::FindNode,
        MessageModel::FindNodeResponse(..) => ProtocolMessageType::FindNodeResponse,
        MessageModel::GetPeers(..) => ProtocolMessageType::GetPeers,
        MessageModel::PeerList(..) => ProtocolMessageType::PeerList,
        MessageModel::JoinNetwork(..) => ProtocolMessageType::JoinNetwork,
        MessageModel::LeaveNetwork(..) => ProtocolMessageType::LeaveNetwork,
        MessageModel::Handshake(..) => ProtocolMessageType::Handshake,
        MessageModel::HandshakeResponse(..) => ProtocolMessageType::HandshakeResponse,
        MessageModel::BanNode(..) => ProtocolMessageType::BanNode,
        MessageModel::UnbanNode(..) => ProtocolMessageType::UnbanNode,
        MessageModel::DirectMessage(..) => ProtocolMessageType::DirectMessage,
        MessageModel::BroadcastedMessage(..) => ProtocolMessageType::BroadcastedMessage,
        MessageModel::Retransmit(..) => ProtocolMessageType::Retransmit,
    }
}

pub open spec fn msg_sender(m: MessageModel) -> P2PPeer {
    match m {
        MessageModel::Ping(p) => p,
        MessageModel::Pong(p) => p,
        MessageModel::FindNode(p, _) => p,
        MessageModel::FindNodeResponse(p, _) => p,
        MessageModel::GetPeers(p, _) => p,
        MessageModel::PeerList(p, _) => p,
        MessageModel::JoinNetwork(p, _) => p,
        MessageModel::LeaveNetwork(p, _) => p,
        MessageModel::Handshake(p, _, _) => p,
        MessageModel::HandshakeResponse(p, _, _) => p,
        MessageModel::BanNode(p, _) => p,
        MessageModel::UnbanNode(p, _) => p,
        MessageModel::DirectMessage(p, _, _, _, _) => p,
        MessageModel::BroadcastedMessage(p, _, _, _) => p,
        MessageModel::Retransmit(p, _, _) => p,
    }
}

/// Lists fit their length prefixes and trailers their cap.
pub open spec fn msg_wf(m: MessageModel) -> bool {
    match m {
        MessageModel::FindNodeResponse(_, ps) => ps.len() <= u32::MAX,
        MessageModel::PeerList(_, ps) => ps.len() <= u32::MAX,
        MessageModel::GetPeers(_, ns) => ns.len() <= u16::MAX,
        MessageModel::Handshake(_, ns, t) => ns.len() <= u16::MAX && t.len() <= MEDIUM_BYTES_CAP,
        MessageModel::HandshakeResponse(_, ns, t) => ns.len() <= u16::MAX && t.len() <= MEDIUM_BYTES_CAP,
        _ => true,
    }
}

/// What follows the sender's record.
pub open spec fn ser_tail(m: MessageModel) -> Seq<u8> {
    match m {
        MessageModel::Ping(_) => Seq::empty(),
        MessageModel::Pong(_) => Seq::empty(),
        MessageModel::FindNode(_, id) => be64(id),
        MessageModel::FindNodeResponse(_, ps) => ser_peers(ps),
        MessageModel::GetPeers(_, ns) => ser_nets(ns),
        MessageModel::PeerList(_, ps) => ser_peers(ps),
        MessageModel::JoinNetwork(_, n) => be16(n),
        MessageModel::LeaveNetwork(_, n) => be16(n),
        MessageModel::Handshake(_, ns, t) => ser_nets(ns) + ser_bytes(t, 4),
        MessageModel::HandshakeResponse(_, ns, t) => ser_nets(ns) + ser_bytes(t, 4),
        MessageModel::BanNode(_, b) => ser_peer(b),
        MessageModel::UnbanNode(_, b) => ser_peer(b),
        MessageModel::DirectMessage(_, to, id, n, msg) => be64(to) + be64(id) + be16(n) + msg,
        MessageModel::BroadcastedMessage(_, id, n, msg) => be64(id) + be16(n) + msg,
        MessageModel::Retransmit(_, since, n) => be64(since) + be16(n),
    }
}

/// The wire form of a message: header, type code, sender, then the rest.
pub open spec fn ser_message(m: MessageModel) -> Seq<u8> {
    protocol_header() + type_code(msg_type(m)) + ser_peer(msg_sender(m)) + ser_tail(m)
}

/// Reads a fixed-size tail of `len` bytes.
pub open spec fn fixed_tail(r: Seq<u8>, len: nat, m: MessageModel) -> Result<MessageModel, ProtocolError> {
    if r.len() < len {
        Err(ProtocolError::Truncated)
    } else if r.len() != len {
        Err(ProtocolError::Malformed)
    } else {
        Ok(m)
    }
}

pub open spec fn handshake_tail(r: Seq<u8>) -> Result<(Seq<u16>, Seq<u8>), ProtocolError> {
    match parse_nets(r) {
        Err(e) => Err(e),
        Ok((ns, n)) => match parse_bytes(r.skip(n), 4, MEDIUM_BYTES_CAP as nat) {
            Err(e) => Err(e),
            Ok((t, m)) => if n + m != r.len() {
                Err(ProtocolError::Malformed)
            } else {
                Ok((ns, t))
            },
        },
    }
}

pub open spec fn peers_tail(r: Seq<u8>) -> Result<Seq<P2PPeer>, ProtocolError> {
    match parse_peers(r) {
        Err(e) => Err(e),
        Ok((ps, n)) => if n != r.len() {
            Err(ProtocolError::Malformed)
        } else {
            Ok(ps)
        },
    }
}

pub open spec fn peer_tail(r: Seq<u8>) -> Result<P2PPeer, ProtocolError> {
    match parse_peer(r) {
        Err(e) => Err(e),
        Ok((p, n)) => if n != r.len() {
            Err(ProtocolError::Malformed)
        } else {
            Ok(p)
        },
    }
}

/// Reads what follows the sender's record of a message of type `t`; it must fill `r`.
pub open spec fn parse_tail(t: ProtocolMessageType, p: P2PPeer, r: Seq<u8>) -> Result<MessageModel, ProtocolError> {
    match t {
        ProtocolMessageType::Ping => fixed_tail(r, 0, MessageModel::Ping(p)),
        ProtocolMessageType::Pong => fixed_tail(r, 0, MessageModel::Pong(p)),
        ProtocolMessageType::FindNode => fixed_tail(r, 8, MessageModel::FindNode(p, u64_at(r, 0))),
        ProtocolMessageType::JoinNetwork => fixed_tail(r, 2, MessageModel::JoinNetwork(p, u16_at(r, 0))),
        ProtocolMessageType::LeaveNetwork => fixed_tail(r, 2, MessageModel::LeaveNetwork(p, u16_at(r, 0))),
        ProtocolMessageType::Retransmit => fixed_tail(r, 10, MessageModel::Retransmit(p, u64_at(r, 0), u16_at(r, 8))),
        ProtocolMessageType::GetPeers => match parse_nets(r) {
            Err(e) => Err(e),
            Ok((ns, n)) => if n != r.len() { Err(ProtocolError::Malformed) } else { Ok(MessageModel::GetPeers(p, ns)) },
        },
        ProtocolMessageType::FindNodeResponse => match peers_tail(r) {
            Err(e) => Err(e),
            Ok(ps) => Ok(MessageModel::FindNodeResponse(p, ps)),
        },
        ProtocolMessageType::PeerList => match peers_tail(r) {
            Err(e) => Err(e),
            Ok(ps) => Ok(MessageModel::PeerList(p, ps)),
        },
        ProtocolMessageType::Handshake => match handshake_tail(r) {
            Err(e) => Err(e),
            Ok((ns, tr)) => Ok(MessageModel::Handshake(p, ns, tr)),
        },
        ProtocolMessageType::HandshakeResponse => match handshake_tail(r) {
            Err(e) => Err(e),
            Ok((ns, tr)) => Ok(MessageModel::HandshakeResponse(p, ns, tr)),
        },
        ProtocolMessageType::BanNode => match peer_tail(r) {
            Err(e) => Err(e),
            Ok(b) => Ok(MessageModel::BanNode(p, b)),
        },
        ProtocolMessageType::UnbanNode => match peer_tail(r) {
            Err(e) => Err(e),
            Ok(b) => Ok(MessageModel::UnbanNode(p, b)),
        },
        ProtocolMessageType::DirectMessage => if r.len() < 18 {
            Err(ProtocolError::Truncated)
        } else {
            Ok(MessageModel::DirectMessage(p, u64_at(r, 0), u64_at(r, 8), u16_at(r, 16), r.skip(18)))
        },
        ProtocolMessageType::BroadcastedMessage => if r.len() < 10 {
            Err(ProtocolError::Truncated)
        } else {
            Ok(MessageModel::BroadcastedMessage(p, u64_at(r, 0), u16_at(r, 8), r.skip(10)))
        },
    }
}

/// Reads one whole frame as a protocol message.
pub open spec fn parse_message(s: Seq<u8>) -> Result<MessageModel, ProtocolError> {
    if s.len() < PROTOCOL_MESSAGE_LENGTH {
        Err(ProtocolError::Truncated)
    } else if s.take(16) != protocol_header() {
        Err(ProtocolError::Malformed)
    } else {
        match type_of_code(s[16], s[17]) {
            None => Err(ProtocolError::UnknownVariant),
            Some(t) => match parse_peer(s.skip(18)) {
                Err(e) => Err(e),
                Ok((p, n)) => parse_tail(t, p, s.skip(18 + n)),
            },
        }
    }
}

proof fn lemma_tail_round_trip(m: MessageModel)
    requires
        msg_wf(m),
    ensures
        parse_tail(msg_type(m), msg_sender(m), ser_tail(m)) == Ok::<MessageModel, ProtocolError>(m),
{
    let r = ser_tail(m);
    lemma_pow256_values();
    match m {
        MessageModel::FindNode(_, id) => {
            assert(r.subrange(0, 8) =~= be64(id));
            lemma_u64_at(r, 0, id);
        },
        MessageModel::JoinNetwork(_, n) => {
            assert(r.subrange(0, 2) =~= be16(n));
            lemma_u16_at(r, 0, n);
        },
        MessageModel::LeaveNetwork(_, n) => {
            assert(r.subrange(0, 2) =~= be16(n));
            lemma_u16_at(r, 0, n);
        },
        MessageModel::Retransmit(_, since, n) => {
            assert(r.subrange(0, 8) =~= be64(since));
            assert(r.subrange(8, 10) =~= be16(n));
            lemma_u64_at(r, 0, since);
            lemma_u16_at(r, 8, n);
        },
        MessageModel::GetPeers(_, ns) => {
            lemma_nets_round_trip(ns, Seq::empty());
            assert(r + Seq::<u8>::empty() =~= r);
        },
        MessageModel::FindNodeResponse(_, ps) => {
            lemma_peers_round_trip(ps, Seq::empty());
            assert(r + Seq::<u8>::empty() =~= r);
        },
        MessageModel::PeerList(_, ps) => {
            lemma_peers_round_trip(ps, Seq::empty());
            assert(r + Seq::<u8>::empty() =~= r);
        },
        MessageModel::Handshake(_, ns, t) => {
            lemma_handshake_tail_round_trip(ns, t);
        },
        MessageModel::HandshakeResponse(_, ns, t) => {
            lemma_handshake_tail_round_trip(ns, t);
        },
        MessageModel::BanNode(_, b) => {
            lemma_peer_round_trip(b, Seq::empty());
            assert(r + Seq::<u8>::empty() =~= r);
        },
        MessageModel::UnbanNode(_, b) => {
            lemma_peer_round_trip(b, Seq::empty());
            assert(r + Seq::<u8>::empty() =~= r);
        },
        MessageModel::DirectMessage(_, to, id, n, msg) => {
            assert(r.subrange(0, 8) =~= be64(to));
            assert(r.subrange(8, 16) =~= be64(id));
            assert(r.subrange(16, 18) =~= be16(n));
            assert(r.skip(18) =~= msg);
            lemma_u64_at(r, 0, to);
            lemma_u64_at(r, 8, id);
            lemma_u16_at(r, 16, n);
        },
        MessageModel::BroadcastedMessage(_, id, n, msg) => {
            assert(r.subrange(0, 8) =~= be64(id));
            assert(r.subrange(8, 10) =~= be16(n));
            assert(r.skip(10) =~= msg);
            lemma_u64_at(r, 0, id);
            lemma_u16_at(r, 8, n);
        },
        _ => {},
    }
}

proof fn lemma_handshake_tail_round_trip(ns: Seq<u16>, t: Seq<u8>)
    requires
        ns.len() <= u16::MAX,
        t.len() <= MEDIUM_BYTES_CAP,
    ensures
        handshake_tail(ser_nets(ns) + ser_bytes(t, 4)) == Ok::<(Seq<u16>, Seq<u8>), ProtocolError>((ns, t)),
{
    let r = ser_nets(ns) + ser_bytes(t, 4);
    lemma_pow256_values();
    lemma_nets_round_trip(ns, ser_bytes(t, 4));
    assert(r.skip(ser_nets(ns).len() as int) =~= ser_bytes(t, 4) + Seq::<u8>::empty());
    lemma_bytes_round_trip(t, 4, MEDIUM_BYTES_CAP as nat, Seq::empty());
}

proof fn lemma_nets_body_len(ns: Seq<u16>)
    ensures
        nets_body(ns).len() == 2 * ns.len(),
    decreases ns.len(),
{
    if ns.len() > 0 {
        lemma_nets_body_len(ns.skip(1));
    }
}

proof fn lemma_peers_body_len(ps: Seq<P2PPeer>)
    ensures
        peers_body(ps).len() <= 28 * ps.len(),
    decreases ps.len(),
{
    if ps.len() > 0 {
        lemma_peers_body_len(ps.skip(1));
    }
}

/// A handshake with no trailer fits in a small frame.
pub proof fn lemma_handshake_size(p: P2PPeer, ns: Seq<u16>)
    requires
        ns.len() <= u16::MAX,
    ensures
        ser_message(MessageModel::HandshakeResponse(p, ns, Seq::empty())).len() <= 200000,
        ser_message(MessageModel::Handshake(p, ns, Seq::empty())).len() <= 200000,
{
    lemma_nets_body_len(ns);
}

/// A peer list of at most 100 peers fits in a small frame.
pub proof fn lemma_peer_list_size(p: P2PPeer, ps: Seq<P2PPeer>)
    requires
        ps.len() <= 100,
    ensures
        ser_message(MessageModel::PeerList(p, ps)).len() <= 4000,
{
    lemma_peers_body_len(ps);
}

/// A ping is a small frame.
pub proof fn lemma_ping_size(p: P2PPeer)
    ensures
        ser_message(MessageModel::Ping(p)).len() <= 64,
        ser_message(MessageModel::Pong(p)).len() <= 64,
{
}

/// Decoding the wire form of a valid message gives it back.
pub proof fn lemma_message_round_trip(m: MessageModel)
    requires
        msg_wf(m),
    ensures
        parse_message(ser_message(m)) == Ok::<MessageModel, ProtocolError>(m),
{
    let s = ser_message(m);
    let p = msg_sender(m);
    assert(s.take(16) =~= protocol_header());
    assert(s[16] == type_code(msg_type(m))[0]);
    assert(s[17] == type_code(msg_type(m))[1]);
    lemma_type_code_round_trip(msg_type(m));
    assert(s.skip(18) =~= ser_peer(p) + ser_tail(m));
    lemma_peer_round_trip(p, ser_tail(m));
    assert(s.skip(18 + ser_peer(p).len() as int) =~= ser_tail(m));
    lemma_tail_round_trip(m);
}

proof fn lemma_handshake_tail_canonical(r: Seq<u8>)
    requires
        handshake_tail(r) is Ok,
    ensures
        ({
            let (ns, t) = handshake_tail(r)->Ok_0;
            ns.len() <= u16::MAX && t.len() <= MEDIUM_BYTES_CAP && ser_nets(ns) + ser_bytes(t, 4) == r
        }),
{
    lemma_nets_canonical(r);
    let (ns, n) = parse_nets(r)->Ok_0;
    lemma_bytes_canonical(r.skip(n), 4, MEDIUM_BYTES_CAP as nat);
    let (tr, k) = parse_bytes(r.skip(n), 4, MEDIUM_BYTES_CAP as nat)->Ok_0;
    assert(r.skip(n).take(k) =~= r.skip(n));
    assert(r =~= r.take(n) + r.skip(n));
}

proof fn lemma_tail_canonical_ping(p: P2PPeer, r: Seq<u8>)
    requires
        parse_tail(ProtocolMessageType::Ping, p, r) is Ok,
    ensures
        ({
            let m = parse_tail(ProtocolMessageType::Ping, p, r)->Ok_0;
            msg_wf(m) && msg_type(m) == ProtocolMessageType::Ping && msg_sender(m) == p && ser_tail(m) == r
        }),
{
        assert(r =~= Seq::<u8>::empty());
}

proof fn lemma_tail_canonical_pong(p: P2PPeer, r: Seq<u8>)
    requires
        parse_tail(ProtocolMessageType::Pong, p, r) is Ok,
    ensures
        ({
            let m = parse_tail(ProtocolMessageType::Pong, p, r)->Ok_0;
            msg_wf(m) && msg_type(m) == ProtocolMessageType::Pong && msg_sender(m) == p && ser_tail(m) == r
        }),
{
        assert(r =~= Seq::<u8>::empty());
}

proof fn lemma_tail_canonical_findnode(p: P2PPeer, r: Seq<u8>)
    requires
        parse_tail(ProtocolMessageType::FindNode, p, r) is Ok,
    ensures
        ({
            let m = parse_tail(ProtocolMessageType::FindNode, p, r)->Ok_0;
            msg_wf(m) && msg_type(m) == ProtocolMessageType::FindNode && msg_sender(m) == p && ser_tail(m) == r
        }),
{
        lemma_u64_canonical(r, 0);
        assert(r =~= r.subrange(0, 8));
}

proof fn lemma_tail_canonical_joinnetwork(p: P2PPeer, r: Seq<u8>)
    requires
        parse_tail(ProtocolMessageType::JoinNetwork, p, r) is Ok,
    ensures
        ({
            let m = parse_tail(ProtocolMessageType::JoinNetwork, p, r)->Ok_0;
            msg_wf(m) && msg_type(m) == ProtocolMessageType::JoinNetwork && msg_sender(m) == p && ser_tail(m) == r
        }),
{
        lemma_u16_canonical(r, 0);
        assert(r =~= r.subrange(0, 2));
}

proof fn lemma_tail_canonical_leavenetwork(p: P2PPeer, r: Seq<u8>)
    requires
        parse_tail(ProtocolMessageType::LeaveNetwork, p, r) is Ok,
    ensures
        ({
            let m = parse_tail(ProtocolMessageType::LeaveNetwork, p, r)->Ok_0;
            msg_wf(m) && msg_type(m) == ProtocolMessageType::LeaveNetwork && msg_sender(m) == p && ser_tail(m) == r
        }),
{
        lemma_u16_canonical(r, 0);
        assert(r =~= r.subrange(0, 2));
}

proof fn lemma_tail_canonical_retransmit(p: P2PPeer, r: Seq<u8>)
    requires
        parse_tail(ProtocolMessageType::Retransmit, p, r) is Ok,
    ensures
        ({
            let m = parse_tail(ProtocolMessageType::Retransmit, p, r)->Ok_0;
            msg_wf(m) && msg_type(m) == ProtocolMessageType::Retransmit && msg_sender(m) == p && ser_tail(m) == r
        }),
{
        lemma_u64_canonical(r, 0);
        lemma_u16_canonical(r, 8);
        assert(r =~= r.subrange(0, 8) + r.subrange(8, 10));
}

proof fn lemma_tail_canonical_getpeers(p: P2PPeer, r: Seq<u8>)
    requires
        parse_tail(ProtocolMessageType::GetPeers, p, r) is Ok,
    ensures
        ({
            let m = parse_tail(ProtocolMessageType::GetPeers, p, r)->Ok_0;
            msg_wf(m) && msg_type(m) == ProtocolMessageType::GetPeers && msg_sender(m) == p && ser_tail(m) == r
        }),
{
        lemma_nets_canonical(r);
        assert(r.take(r.len() as int) =~= r);
}

proof fn lemma_tail_canonical_findnoderesponse(p: P2PPeer, r: Seq<u8>)
    requires
        parse_tail(ProtocolMessageType::FindNodeResponse, p, r) is Ok,
    ensures
        ({
            let m = parse_tail(ProtocolMessageType::FindNodeResponse, p, r)->Ok_0;
            msg_wf(m) && msg_type(m) == ProtocolMessageType::FindNodeResponse && msg_sender(m) == p && ser_tail(m) == r
        }),
{
        lemma_peers_canonical(r);
        assert(r.take(r.len() as int) =~= r);
}

proof fn lemma_tail_canonical_peerlist(p: P2PPeer, r: Seq<u8>)
    requires
        parse_tail(ProtocolMessageType::PeerList, p, r) is Ok,
    ensures
        ({
            let m = parse_tail(ProtocolMessageType::PeerList, p, r)->Ok_0;
            msg_wf(m) && msg_type(m) == ProtocolMessageType::PeerList && msg_sender(m) == p && ser_tail(m) == r
        }),
{
        lemma_peers_canonical(r);
        assert(r.take(r.len() as int) =~= r);
}

proof fn lemma_tail_canonical_handshake(p: P2PPeer, r: Seq<u8>)
    requires
        parse_tail(ProtocolMessageType::Handshake, p, r) is Ok,
    ensures
        ({
            let m = parse_tail(ProtocolMessageType::Handshake, p, r)->Ok_0;
            msg_wf(m) && msg_type(m) == ProtocolMessageType::Handshake && msg_sender(m) == p && ser_tail(m) == r
        }),
{
        lemma_handshake_tail_canonical(r);
}

proof fn lemma_tail_canonical_handshakeresponse(p: P2PPeer, r: Seq<u8>)
    requires
        parse_tail(ProtocolMessageType::HandshakeResponse, p, r) is Ok,
    ensures
        ({
            let m = parse_tail(ProtocolMessageType::HandshakeResponse, p, r)->Ok_0;
            msg_wf(m) && msg_type(m) == ProtocolMessageType::HandshakeResponse && msg_sender(m) == p && ser_tail(m) == r
        }),
{
        lemma_handshake_tail_canonical(r);
}

proof fn lemma_tail_canonical_bannode(p: P2PPeer, r: Seq<u8>)
    requires
        parse_tail(ProtocolMessageType::BanNode, p, r) is Ok,
    ensures
        ({
            let m = parse_tail(ProtocolMessageType::BanNode, p, r)->Ok_0;
            msg_wf(m) && msg_type(m) == ProtocolMessageType::BanNode && msg_sender(m) == p && ser_tail(m) == r
        }),
{
        lemma_peer_canonical(r);
        assert(r.take(r.len() as int) =~= r);
}

proof fn lemma_tail_canonical_unbannode(p: P2PPeer, r: Seq<u8>)
    requires
        parse_tail(ProtocolMessageType::UnbanNode, p, r) is Ok,
    ensures
        ({
            let m = parse_tail(ProtocolMessageType::UnbanNode, p, r)->Ok_0;
            msg_wf(m) && msg_type(m) == ProtocolMessageType::UnbanNode && msg_sender(m) == p && ser_tail(m) == r
        }),
{
        lemma_peer_canonical(r);
        assert(r.take(r.len() as int) =~= r);
}

proof fn lemma_tail_canonical_directmessage(p: P2PPeer, r: Seq<u8>)
    requires
        parse_tail(ProtocolMessageType::DirectMessage, p, r) is Ok,
    ensures
        ({
            let m = parse_tail(ProtocolMessageType::DirectMessage, p, r)->Ok_0;
            msg_wf(m) && msg_type(m) == ProtocolMessageType::DirectMessage && msg_sender(m) == p && ser_tail(m) == r
        }),
{
        lemma_u64_canonical(r, 0);
        lemma_u64_canonical(r, 8);
        lemma_u16_canonical(r, 16);
        assert(r =~= r.subrange(0, 8) + r.subrange(8, 16) + r.subrange(16, 18) + r.skip(18));
}

proof fn lemma_tail_canonical_broadcastedmessage(p: P2PPeer, r: Seq<u8>)
    requires
        parse_tail(ProtocolMessageType::BroadcastedMessage, p, r) is Ok,
    ensures
        ({
            let m = parse_tail(ProtocolMessageType::BroadcastedMessage, p, r)->Ok_0;
            msg_wf(m) && msg_type(m) == ProtocolMessageType::BroadcastedMessage && msg_sender(m) == p && ser_tail(m) == r
        }),
{
        lemma_u64_canonical(r, 0);
        lemma_u16_canonical(r, 8);
        assert(r =~= r.subrange(0, 8) + r.subrange(8, 10) + r.skip(10));
}

proof fn lemma_tail_canonical(t: ProtocolMessageType, p: P2PPeer, r: Seq<u8>)
    requires
        parse_tail(t, p, r) is Ok,
    ensures
        ({
            let m = parse_tail(t, p, r)->Ok_0;
            &&& msg_wf(m)
            &&& msg_type(m) == t
            &&& msg_sender(m) == p
            &&& ser_tail(m) == r
        }),
{
    match t {
        ProtocolMessageType::Ping => lemma_tail_canonical_ping(p, r),
        ProtocolMessageType::Pong => lemma_tail_canonical_pong(p, r),
        ProtocolMessageType::FindNode => lemma_tail_canonical_findnode(p, r),
        ProtocolMessageType::JoinNetwork => lemma_tail_canonical_joinnetwork(p, r),
        ProtocolMessageType::LeaveNetwork => lemma_tail_canonical_leavenetwork(p, r),
        ProtocolMessageType::Retransmit => lemma_tail_canonical_retransmit(p, r),
        ProtocolMessageType::GetPeers => lemma_tail_canonical_getpeers(p, r),
        ProtocolMessageType::FindNodeResponse => lemma_tail_canonical_findnoderesponse(p, r),
        ProtocolMessageType::PeerList => lemma_tail_canonical_peerlist(p, r),
        ProtocolMessageType::Handshake => lemma_tail_canonical_handshake(p, r),
        ProtocolMessageType::HandshakeResponse => lemma_tail_canonical_handshakeresponse(p, r),
        ProtocolMessageType::BanNode => lemma_tail_canonical_bannode(p, r),
        ProtocolMessageType::UnbanNode => lemma_tail_canonical_unbannode(p, r),
        ProtocolMessageType::DirectMessage => lemma_tail_canonical_directmessage(p, r),
        ProtocolMessageType::BroadcastedMessage => lemma_tail_canonical_broadcastedmessage(p, r),
    }
}

/// A decoded message is valid and its wire form is exactly the frame.
pub proof fn lemma_message_canonical(s: Seq<u8>)
    requires
        parse_message(s) is Ok,
    ensures
        msg_wf(parse_message(s)->Ok_0),
        ser_message(parse_message(s)->Ok_0) == s,
{
    let t = type_of_code(s[16], s[17])->Some_0;
    lemma_peer_canonical(s.skip(18));
    let (p, n) = parse_peer(s.skip(18))->Ok_0;
    lemma_tail_canonical(t, p, s.skip(18 + n));
    let m = parse_message(s)->Ok_0;
    assert(type_code(t) =~= s.subrange(16, 18)) by {
        assert(48 <= s[16] <= 57 && 48 <= s[17] <= 57);
    }
    assert(s =~= s.take(16) + s.subrange(16, 18) + s.skip(18).take(n) + s.skip(18 + n));
}


fn read_nets_tail(r: &[u8]) -> (res: Result<Vec<u16>, ProtocolError>)
    ensures
        match (res, parse_nets(r@)) {
            (Ok(ns), Ok((sn, m))) => ns@ == sn && m == r@.len(),
            (Err(e), Err(se)) => e == se,
            (Err(e), Ok((_, m))) => e == ProtocolError::Malformed && m != r@.len(),
            _ => false,
        },
{
    assert(r@.skip(0) =~= r@);
    let (ns, end) = match read_nets(r, 0) {
        Ok(x) => x,
        Err(e) => return Err(e),
    };
    if end != r.len() {
        return Err(ProtocolError::Malformed);
    }
    Ok(ns)
}

fn read_peers_tail(r: &[u8]) -> (res: Result<Vec<P2PPeer>, ProtocolError>)
    ensures
        match (res, peers_tail(r@)) {
            (Ok(ps), Ok(sp)) => ps@ == sp,
            (Err(e), Err(se)) => e == se,
            _ => false,
        },
{
    assert(r@.skip(0) =~= r@);
    let (ps, end) = match read_peers(r, 0) {
        Ok(x) => x,
        Err(e) => return Err(e),
    };
    if end != r.len() {
        return Err(ProtocolError::Malformed);
    }
    Ok(ps)
}

fn read_peer_tail(r: &[u8]) -> (res: Result<P2PPeer, ProtocolError>)
    ensures
        match (res, peer_tail(r@)) {
            (Ok(p), Ok(sp)) => p == sp,
            (Err(e), Err(se)) => e == se,
            _ => false,
        },
{
    assert(r@.skip(0) =~= r@);
    let (p, end) = match P2PPeer::deserialize(r, 0) {
        Ok(x) => x,
        Err(e) => return Err(e),
    };
    if end != r.len() {
        return Err(ProtocolError::Malformed);
    }
    Ok(p)
}

fn read_handshake_tail(r: &[u8]) -> (res: Result<(Vec<u16>, Vec<u8>), ProtocolError>)
    ensures
        match (res, handshake_tail(r@)) {
            (Ok((ns, t)), Ok((sn, st))) => ns@ == sn && t@ == st,
            (Err(e), Err(se)) => e == se,
            _ => false,
        },
{
    assert(r@.skip(0) =~= r@);
    let (ns, end) = match read_nets(r, 0) {
        Ok(x) => x,
        Err(e) => return Err(e),
    };
    proof {
        lemma_nets_canonical(r@);
    }
    let (tr, end2) = match read_bytes(r, end, 4, MEDIUM_BYTES_CAP) {
        Ok(x) => x,
        Err(e) => return Err(e),
    };
    if end2 != r.len() {
        return Err(ProtocolError::Malformed);
    }
    Ok((ns, tr))
}

impl NetworkMessage {
    pub fn message_type(&self) -> (r: ProtocolMessageType)
        ensures
            r == msg_type(self@),
    {
        match self {
            NetworkMessage::NetworkRequest(r) => match r {
                NetworkRequest::Ping(..) => ProtocolMessageType::Ping,
                NetworkRequest::FindNode(..) => ProtocolMessageType::FindNode,
                NetworkRequest::GetPeers(..) => ProtocolMessageType::GetPeers,
                NetworkRequest::JoinNetwork(..) => ProtocolMessageType::JoinNetwork,
                NetworkRequest::LeaveNetwork(..) => ProtocolMessageType::LeaveNetwork,
                NetworkRequest::Handshake(..) => ProtocolMessageType::Handshake,
                NetworkRequest::BanNode(..) => ProtocolMessageType::BanNode,
                NetworkRequest::UnbanNode(..) => ProtocolMessageType::UnbanNode,
                NetworkRequest::Retransmit(..) => ProtocolMessageType::Retransmit,
            },
            NetworkMessage::NetworkResponse(r) => match r {
                NetworkResponse::Pong(..) => ProtocolMessageType::Pong,
                NetworkResponse::FindNode(..) => ProtocolMessageType::FindNodeResponse,
                NetworkResponse::PeerList(..) => ProtocolMessageType::PeerList,
                NetworkResponse::Handshake(..) => ProtocolMessageType::HandshakeResponse,
            },
            NetworkMessage::NetworkPacket(pk) => match pk.packet_type {
                NetworkPacketType::DirectMessage(_) => ProtocolMessageType::DirectMessage,
                NetworkPacketType::BroadcastedMessage => ProtocolMessageType::BroadcastedMessage,
            },
        }
    }

    pub fn sender(&self) -> (r: P2PPeer)
        ensures
            r == msg_sender(self@),
    {
        match self {
            NetworkMessage::NetworkRequest(r) => match r {
                NetworkRequest::Ping(p) => *p,
                NetworkRequest::FindNode(p, _) => *p,
                NetworkRequest::GetPeers(p, _) => *p,
                NetworkRequest::JoinNetwork(p, _) => *p,
                NetworkRequest::LeaveNetwork(p, _) => *p,
                NetworkRequest::Handshake(p, _, _) => *p,
                NetworkRequest::BanNode(p, _) => *p,
                NetworkRequest::UnbanNode(p, _) => *p,
                NetworkRequest::Retransmit(p, _, _) => *p,
            },
            NetworkMessage::NetworkResponse(r) => match r {
                NetworkResponse::Pong(p) => *p,
                NetworkResponse::FindNode(p, _) => *p,
                NetworkResponse::PeerList(p, _) => *p,
                NetworkResponse::Handshake(p, _, _) => *p,
            },
            NetworkMessage::NetworkPacket(pk) => pk.peer,
        }
    }

    fn serial_tail(&self, out: &mut Vec<u8>)
        requires
            msg_wf(self@),
        ensures
            final(out)@ == old(out)@ + ser_tail(self@),
    {
        let ghost start = out@;
        proof {
            lemma_pow256_values();
        }
        match self {
            NetworkMessage::NetworkRequest(r) => match r {
                NetworkRequest::Ping(_) => {},
                NetworkRequest::FindNode(_, id) => push_u64(out, *id),
                NetworkRequest::GetPeers(_, ns) => push_nets(out, ns.as_slice()),
                NetworkRequest::JoinNetwork(_, n) => push_u16(out, *n),
                NetworkRequest::LeaveNetwork(_, n) => push_u16(out, *n),
                NetworkRequest::Handshake(_, ns, t) => {
                    push_nets(out, ns.as_slice());
                    push_bytes(out, t.as_slice(), 4);
                },
                NetworkRequest::BanNode(_, b) => b.serial(out),
                NetworkRequest::UnbanNode(_, b) => b.serial(out),
                NetworkRequest::Retransmit(_, since, n) => {
                    push_u64(out, *since);
                    push_u16(out, *n);
                },
            },
            NetworkMessage::NetworkResponse(r) => match r {
                NetworkResponse::Pong(_) => {},
                NetworkResponse::FindNode(_, ps) => push_peers(out, ps.as_slice()),
                NetworkResponse::PeerList(_, ps) => push_peers(out, ps.as_slice()),
                NetworkResponse::Handshake(_, ns, t) => {
                    push_nets(out, ns.as_slice());
                    push_bytes(out, t.as_slice(), 4);
                },
            },
            NetworkMessage::NetworkPacket(pk) => {
                match pk.packet_type {
                    NetworkPacketType::DirectMessage(to) => push_u64(out, to),
                    NetworkPacketType::BroadcastedMessage => {},
                }
                push_u64(out, pk.message_id);
                push_u16(out, pk.network_id);
                append_range(out, pk.message.as_slice(), 0, pk.message.len());
                assert(pk.message@.subrange(0, pk.message@.len() as int) =~= pk.message@);
            },
        }
        assert(out@ =~= start + ser_tail(self@));
    }

    /// The wire form of the message, to be sent as one frame.
    pub fn serialize(&self) -> (r: Vec<u8>)
        requires
            msg_wf(self@),
        ensures
            r@ == ser_message(self@),
    {
        let mut out: Vec<u8> = Vec::new();
        push_header(&mut out, self.message_type());
        self.sender().serial(&mut out);
        self.serial_tail(&mut out);
        assert(out@ =~= ser_message(self@));
        out
    }

    /// Reads the rest of a message of type `t` from `sender`; `r` must hold exactly it.
    #[verifier::rlimit(60)]
    fn deserialize_tail(t: ProtocolMessageType, p: P2PPeer, r: &[u8]) -> (res: Result<NetworkMessage, ProtocolError>)
        ensures
            match (res, parse_tail(t, p, r@)) {
                (Ok(m), Ok(sm)) => m@ == sm,
                (Err(e), Err(se)) => e == se,
                _ => false,
            },
    {
        let n = r.len();
        match t {
            ProtocolMessageType::Ping => {
                if n != 0 {
                    return Err(ProtocolError::Malformed);
                }
                Ok(NetworkMessage::NetworkRequest(NetworkRequest::Ping(p)))
            },
            ProtocolMessageType::Pong => {
                if n != 0 {
                    return Err(ProtocolError::Malformed);
                }
                Ok(NetworkMessage::NetworkResponse(NetworkResponse::Pong(p)))
            },
            ProtocolMessageType::FindNode => {
                if n < 8 {
                    return Err(ProtocolError::Truncated);
                }
                if n != 8 {
                    return Err(ProtocolError::Malformed);
                }
                Ok(NetworkMessage::NetworkRequest(NetworkRequest::FindNode(p, read_u64(r, 0))))
            },
            ProtocolMessageType::JoinNetwork => {
                if n < 2 {
                    return Err(ProtocolError::Truncated);
                }
                if n != 2 {
                    return Err(ProtocolError::Malformed);
                }
                Ok(NetworkMessage::NetworkRequest(NetworkRequest::JoinNetwork(p, read_u16(r, 0))))
            },
            ProtocolMessageType::LeaveNetwork => {
                if n < 2 {
                    return Err(ProtocolError::Truncated);
                }
                if n != 2 {
                    return Err(ProtocolError::Malformed);
                }
                Ok(NetworkMessage::NetworkRequest(NetworkRequest::LeaveNetwork(p, read_u16(r, 0))))
            },
            ProtocolMessageType::Retransmit => {
                if n < 10 {
                    return Err(ProtocolError::Truncated);
                }
                if n != 10 {
                    return Err(ProtocolError::Malformed);
                }
                Ok(NetworkMessage::NetworkRequest(NetworkRequest::Retransmit(p, read_u64(r, 0), read_u16(r, 8))))
            },
            ProtocolMessageType::GetPeers => match read_nets_tail(r) {
                Ok(ns) => Ok(NetworkMessage::NetworkRequest(NetworkRequest::GetPeers(p, ns))),
                Err(e) => Err(e),
            },
            ProtocolMessageType::FindNodeResponse => match read_peers_tail(r) {
                Ok(ps) => Ok(NetworkMessage::NetworkResponse(NetworkResponse::FindNode(p, ps))),
                Err(e) => Err(e),
            },
            ProtocolMessageType::PeerList => match read_peers_tail(r) {
                Ok(ps) => Ok(NetworkMessage::NetworkResponse(NetworkResponse::PeerList(p, ps))),
                Err(e) => Err(e),
            },
            ProtocolMessageType::Handshake => match read_handshake_tail(r) {
                Ok((ns, tr)) => Ok(NetworkMessage::NetworkRequest(NetworkRequest::Handshake(p, ns, tr))),
                Err(e) => Err(e),
            },
            ProtocolMessageType::HandshakeResponse => match read_handshake_tail(r) {
                Ok((ns, tr)) => Ok(NetworkMessage::NetworkResponse(NetworkResponse::Handshake(p, ns, tr))),
                Err(e) => Err(e),
            },
            ProtocolMessageType::BanNode => match read_peer_tail(r) {
                Ok(b) => Ok(NetworkMessage::NetworkRequest(NetworkRequest::BanNode(p, b))),
                Err(e) => Err(e),
            },
            ProtocolMessageType::UnbanNode => match read_peer_tail(r) {
                Ok(b) => Ok(NetworkMessage::NetworkRequest(NetworkRequest::UnbanNode(p, b))),
                Err(e) => Err(e),
            },
            ProtocolMessageType::DirectMessage => {
                if n < 18 {
                    return Err(ProtocolError::Truncated);
                }
                let to = read_u64(r, 0);
                let message_id = read_u64(r, 8);
                let network_id = read_u16(r, 16);
                let message = copy_range(r, 18, n);
                Ok(NetworkMessage::NetworkPacket(NetworkPacket {
                    packet_type: NetworkPacketType::DirectMessage(to),
                    peer: p,
                    message_id,
                    network_id,
                    message,
                }))
            },
            ProtocolMessageType::BroadcastedMessage => {
                if n < 10 {
                    return Err(ProtocolError::Truncated);
                }
                let message_id = read_u64(r, 0);
                let network_id = read_u16(r, 8);
                let message = copy_range(r, 10, n);
                Ok(NetworkMessage::NetworkPacket(NetworkPacket {
                    packet_type: NetworkPacketType::BroadcastedMessage,
                    peer: p,
                    message_id,
                    network_id,
                    message,
                }))
            },
        }
    }

    /// Reads one whole frame as a protocol message.
    pub fn deserialize(s: &[u8]) -> (r: Result<NetworkMessage, ProtocolError>)
        ensures
            match (r, parse_message(s@)) {
                (Ok(m), Ok(sm)) => m@ == sm,
                (Err(e), Err(se)) => e == se,
                _ => false,
            },
    {
        if s.len() < PROTOCOL_MESSAGE_LENGTH {
            return Err(ProtocolError::Truncated);
        }
        if !has_protocol_header(s) {
            return Err(ProtocolError::Malformed);
        }
        let t = match ProtocolMessageType::try_from(s[16], s[17]) {
            Some(t) => t,
            None => return Err(ProtocolError::UnknownVariant),
        };
        let (p, end) = match P2PPeer::deserialize(s, 18) {
            Ok(x) => x,
            Err(e) => return Err(e),
        };
        proof {
            lemma_peer_canonical(s@.skip(18));
            assert(s@.skip(end as int) =~= s@.skip(18).skip(end - 18));
        }
        let rest = vstd::slice::slice_subrange(s, end, s.len());
        Self::deserialize_tail(t, p, rest)
    }
}

} // verus!
