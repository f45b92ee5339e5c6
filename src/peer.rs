use vstd::prelude::*;
use crate::wire::{ProtocolError, be16, be32, be64, u16_at, u32_at, u64_at, lemma_pow256_values, lemma_u16_at,
    lemma_u32_at, lemma_u64_at, lemma_u16_canonical, lemma_u32_canonical, lemma_u64_canonical, read_u16, read_u32,
    read_u64, push_u16, push_u32, push_u64};

verus! {

/// What a peer does on the network.
#[derive(Debug, Clone, Copy, PartialEq, Eq, Structural)]
pub enum PeerType {
    Node,
    Bootstrapper,
}

/// An IP address: version 4, or version 6 as its high and low 64 bits.
#[derive(Debug, Clone, Copy, PartialEq, Eq, Structural)]
pub enum IpAddr {
    V4(u32),
    V6(u64, u64),
}

/// Where a peer listens.
#[derive(Debug, Clone, Copy, PartialEq, Eq, Structural)]
pub struct PeerAddr {
    pub ip: IpAddr,
    pub port: u16,
}

/// A peer's identity: its node ID, address and role.
#[derive(Debug, Clone, Copy, PartialEq, Eq, Structural)]
pub struct P2PPeer {
    pub id: u64,
    pub addr: PeerAddr,
    pub peer_type: PeerType,
}

impl P2PPeer {
    pub fn id(&self) -> (r: u64)
        ensures
            r == self.id,
    {
        self.id
    }

    pub fn peer_type(&self) -> (r: PeerType)
        ensures
            r == self.peer_type,
    {
        self.peer_type
    }

    pub fn addr(&self) -> (r: PeerAddr)
        ensures
            r == self.addr,
    {
        self.addr
    }
}

/// A remote end before the handshake (its address only) or after it.
#[derive(Debug, Clone, Copy, PartialEq, Eq, Structural)]
pub enum RemotePeer {
    PreHandshake(PeerType, PeerAddr),
    PostHandshake(P2PPeer),
}

impl RemotePeer {
    pub fn is_post_handshake(&self) -> (r: bool)
        ensures
            r == (*self is PostHandshake),
    {
        match self {
            RemotePeer::PreHandshake(..) => false,
            RemotePeer::PostHandshake(_) => true,
        }
    }

    pub fn addr(&self) -> (r: PeerAddr)
        ensures
            r == match *self {
                RemotePeer::PreHandshake(_, a) => a,
                RemotePeer::PostHandshake(p) => p.addr,
            },
    {
        match self {
            RemotePeer::PreHandshake(_, a) => *a,
            RemotePeer::PostHandshake(p) => p.addr,
        }
    }

    pub fn peer_type(&self) -> (r: PeerType)
        ensures
            r == match *self {
                RemotePeer::PreHandshake(t, _) => t,
                RemotePeer::PostHandshake(p) => p.peer_type,
            },
    {
        match self {
            RemotePeer::PreHandshake(t, _) => *t,
            RemotePeer::PostHandshake(p) => p.peer_type,
        }
    }
}

pub open spec fn peer_type_code(t: PeerType) -> u8 {
    match t {
        PeerType::Node => 0,
        PeerType::Bootstrapper => 1,
    }
}

pub open spec fn ser_ip(ip: IpAddr) -> Seq<u8> {
    match ip {
        IpAddr::V4(a) => seq![4u8] + be32(a),
        IpAddr::V6(hi, lo) => seq![6u8] + be64(hi) + be64(lo),
    }
}

/// A peer record: `id:u64 | ip_version:u8 | ip | port:u16 | peer_type:u8`.
pub open spec fn ser_peer(p: P2PPeer) -> Seq<u8> {
    be64(p.id) + ser_ip(p.addr.ip) + be16(p.addr.port) + seq![peer_type_code(p.peer_type)]
}

pub open spec fn parse_peer(s: Seq<u8>) -> Result<(P2PPeer, int), ProtocolError> {
    if s.len() < 9 {
        Err(ProtocolError::Truncated)
    } else if s[8] != 4 && s[8] != 6 {
        Err(ProtocolError::UnknownVariant)
    } else {
        let ip_len: int = if s[8] == 4 { 4 } else { 16 };
        let p = 9 + ip_len;
        if s.len() < p + 3 {
            Err(ProtocolError::Truncated)
        } else if s[p + 2] > 1 {
            Err(ProtocolError::UnknownVariant)
        } else {
            let ip = if s[8] == 4 { IpAddr::V4(u32_at(s, 9)) } else { IpAddr::V6(u64_at(s, 9), u64_at(s, 17)) };
            Ok((P2PPeer {
                id: u64_at(s, 0),
                addr: PeerAddr { ip, port: u16_at(s, p) },
                peer_type: if s[p + 2] == 0 { PeerType::Node } else { PeerType::Bootstrapper },
            }, p + 3))
        }
    }
}

pub proof fn lemma_peer_round_trip(p: P2PPeer, rest: Seq<u8>)
    ensures
        parse_peer(ser_peer(p) + rest) == Ok::<(P2PPeer, int), ProtocolError>((p, ser_peer(p).len() as int)),
{
    let s = ser_peer(p) + rest;
    lemma_pow256_values();
    assert(s.subrange(0, 8) =~= be64(p.id));
    lemma_u64_at(s, 0, p.id);
    let ip_len: int = match p.addr.ip { IpAddr::V4(_) => 4, IpAddr::V6(..) => 16 };
    match p.addr.ip {
        IpAddr::V4(a) => {
            assert(s.subrange(9, 13) =~= be32(a));
            lemma_u32_at(s, 9, a);
        },
        IpAddr::V6(hi, lo) => {
            assert(s.subrange(9, 17) =~= be64(hi));
            assert(s.subrange(17, 25) =~= be64(lo));
            lemma_u64_at(s, 9, hi);
            lemma_u64_at(s, 17, lo);
        },
    }
    assert(s.subrange(9 + ip_len, 11 + ip_len) =~= be16(p.addr.port));
    lemma_u16_at(s, 9 + ip_len, p.addr.port);
}

pub proof fn lemma_peer_canonical(s: Seq<u8>)
    requires
        parse_peer(s) is Ok,
    ensures
        ({
            let (p, n) = parse_peer(s)->Ok_0;
            0 < n <= s.len() && s.take(n) == ser_peer(p)
        }),
{
    let (p, n) = parse_peer(s)->Ok_0;
    lemma_u64_canonical(s, 0);
    let ip_len: int = if s[8] == 4 { 4 } else { 16 };
    if s[8] == 4 {
        lemma_u32_canonical(s, 9);
    } else {
        lemma_u64_canonical(s, 9);
        lemma_u64_canonical(s, 17);
    }
    lemma_u16_canonical(s, 9 + ip_len);
    assert(s.take(n) =~= ser_peer(p));
}

impl P2PPeer {
    /// Appends the peer record.
    pub fn serial(&self, out: &mut Vec<u8>)
        ensures
            final(out)@ == old(out)@ + ser_peer(*self),
    {
        let ghost start = out@;
        push_u64(out, self.id);
        match self.addr.ip {
            IpAddr::V4(a) => {
                out.push(4u8);
                push_u32(out, a);
            },
            IpAddr::V6(hi, lo) => {
                out.push(6u8);
                push_u64(out, hi);
                push_u64(out, lo);
            },
        }
        push_u16(out, self.addr.port);
        out.push(match self.peer_type {
            PeerType::Node => 0u8,
            PeerType::Bootstrapper => 1u8,
        });
        assert(out@ =~= start + ser_peer(*self));
    }

    /// Reads a peer record from `pos`; gives it and the position after it.
    pub fn deserialize(s: &[u8], pos: usize) -> (r: Result<(P2PPeer, usize), ProtocolError>)
        requires
            pos <= s@.len(),
        ensures
            match (r, parse_peer(s@.skip(pos as int))) {
                (Ok((p, end)), Ok((sp, n))) => p == sp && end == pos + n,
                (Err(e), Err(se)) => e == se,
                _ => false,
            },
    {
        let ghost t = s@.skip(pos as int);
        if s.len() - pos < 9 {
            return Err(ProtocolError::Truncated);
        }
        let v = s[pos + 8];
        if v != 4 && v != 6 {
            return Err(ProtocolError::UnknownVariant);
        }
        let ip_len: usize = if v == 4 { 4 } else { 16 };
        if s.len() - pos < 9 + ip_len + 3 {
            return Err(ProtocolError::Truncated);
        }
        let p = pos + 9 + ip_len;
        if s[p + 2] > 1 {
            return Err(ProtocolError::UnknownVariant);
        }
        let id = read_u64(s, pos);
        assert(s@.subrange(pos as int, pos + 8) =~= t.subrange(0, 8));
        let ip = if v == 4 {
            let a = read_u32(s, pos + 9);
            assert(s@.subrange(pos + 9, pos + 13) =~= t.subrange(9, 13));
            IpAddr::V4(a)
        } else {
            let hi = read_u64(s, pos + 9);
            let lo = read_u64(s, pos + 17);
            assert(s@.subrange(pos + 9, pos + 17) =~= t.subrange(9, 17));
            assert(s@.subrange(pos + 17, pos + 25) =~= t.subrange(17, 25));
            IpAddr::V6(hi, lo)
        };
        let port = read_u16(s, p);
        assert(s@.subrange(p as int, p + 2) =~= t.subrange(p - pos, p - pos + 2));
        let peer_type = if s[p + 2] == 0 { PeerType::Node } else { PeerType::Bootstrapper };
        Ok((P2PPeer { id, addr: PeerAddr { ip, port }, peer_type }, p + 3))
    }
}

} // verus!
