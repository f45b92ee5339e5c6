use vstd::prelude::*;
use crate::wire::{ProtocolError, be16, be64, push_u64, u16_at, u64_at, lemma_pow256_values, lemma_u16_at, read_u16, read_u64,
    push_u16, append_range, copy_range};
use crate::block::{Block, BlockModel, parse_block, ser_block, block_wf, lemma_block_round_trip};

verus! {

/// The kind of a consensus payload, as its first two bytes give it.
#[derive(Debug, Clone, Copy, PartialEq, Eq, Structural)]
pub enum PacketType {
    ConsensusBlock,
    ConsensusTransaction,
    ConsensusFinalization,
    ConsensusFinalizationRecord,
    CatchupRequestBlockByHash,
    CatchupRequestFinalizationRecordByHash,
    CatchupRequestFinalizationRecordByIndex,
    CatchupRequestFinalizationByPoint,
}

pub open spec fn packet_code(t: PacketType) -> u16 {
    match t {
        PacketType::ConsensusBlock => 0,
        PacketType::ConsensusTransaction => 1,
        PacketType::ConsensusFinalization => 2,
        PacketType::ConsensusFinalizationRecord => 3,
        PacketType::CatchupRequestBlockByHash => 4,
        PacketType::CatchupRequestFinalizationRecordByHash => 5,
        PacketType::CatchupRequestFinalizationRecordByIndex => 6,
        PacketType::CatchupRequestFinalizationByPoint => 7,
    }
}

pub open spec fn packet_of_code(c: u16) -> Option<PacketType> {
    if c == 0 { Some(PacketType::ConsensusBlock) }
    else if c == 1 { Some(PacketType::ConsensusTransaction) }
    else if c == 2 { Some(PacketType::ConsensusFinalization) }
    else if c == 3 { Some(PacketType::ConsensusFinalizationRecord) }
    else if c == 4 { Some(PacketType::CatchupRequestBlockByHash) }
    else if c == 5 { Some(PacketType::CatchupRequestFinalizationRecordByHash) }
    else if c == 6 { Some(PacketType::CatchupRequestFinalizationRecordByIndex) }
    else if c == 7 { Some(PacketType::CatchupRequestFinalizationByPoint) }
    else { None }
}

impl PacketType {
    pub fn code(&self) -> (r: u16)
        ensures
            r == packet_code(*self),
            packet_of_code(r) == Some(*self),
    {
        match self {
            PacketType::ConsensusBlock => 0,
            PacketType::ConsensusTransaction => 1,
            PacketType::ConsensusFinalization => 2,
            PacketType::ConsensusFinalizationRecord => 3,
            PacketType::CatchupRequestBlockByHash => 4,
            PacketType::CatchupRequestFinalizationRecordByHash => 5,
            PacketType::CatchupRequestFinalizationRecordByIndex => 6,
            PacketType::CatchupRequestFinalizationByPoint => 7,
        }
    }

    pub fn try_from(c: u16) -> (r: Option<PacketType>)
        ensures
            r == packet_of_code(c),
    {
        match c {
            0 => Some(PacketType::ConsensusBlock),
            1 => Some(PacketType::ConsensusTransaction),
            2 => Some(PacketType::ConsensusFinalization),
            3 => Some(PacketType::ConsensusFinalizationRecord),
            4 => Some(PacketType::CatchupRequestBlockByHash),
            5 => Some(PacketType::CatchupRequestFinalizationRecordByHash),
            6 => Some(PacketType::CatchupRequestFinalizationRecordByIndex),
            7 => Some(PacketType::CatchupRequestFinalizationByPoint),
            _ => None,
        }
    }
}

/// A consensus payload: its type's code, then its body.
pub open spec fn tagged(t: PacketType, body: Seq<u8>) -> Seq<u8> {
    be16(packet_code(t)) + body
}

/// Puts the type code of `t` in front of `body`.
pub fn tag_payload(t: PacketType, body: &[u8]) -> (r: Vec<u8>)
    ensures
        r@ == tagged(t, body@),
{
    let mut out: Vec<u8> = Vec::new();
    push_u16(&mut out, t.code());
    append_range(&mut out, body, 0, body.len());
    assert(body@.subrange(0, body@.len() as int) =~= body@);
    assert(out@ =~= tagged(t, body@));
    out
}

/// Why a consensus payload was dropped. None of these closes the connection.
#[derive(Debug, Clone, Copy, PartialEq, Eq, Structural)]
pub enum BridgeError {
    /// Shorter than its type code.
    Truncated,
    /// A type code outside the known set.
    UnknownType(u16),
    /// The body does not decode as its type requires.
    BadBody(ProtocolError),
}

/// What an inbound consensus payload asks of the consensus engine.
#[derive(Debug, Clone)]
pub enum ConsensusInput {
    Block(Block),
    Transaction(Vec<u8>),
    Finalization(Vec<u8>),
    FinalizationRecord(Vec<u8>),
    BlockByHash(Vec<u8>),
    FinalizationRecordByHash(Vec<u8>),
    FinalizationRecordByIndex(u64),
    FinalizationMessagesByPoint(Vec<u8>),
}

pub enum InputModel {
    Block(BlockModel),
    Transaction(Seq<u8>),
    Finalization(Seq<u8>),
    FinalizationRecord(Seq<u8>),
    BlockByHash(Seq<u8>),
    FinalizationRecordByHash(Seq<u8>),
    FinalizationRecordByIndex(u64),
    FinalizationMessagesByPoint(Seq<u8>),
}

impl View for ConsensusInput {
    type V = InputModel;

    open spec fn view(&self) -> InputModel {
        match self {
            ConsensusInput::Block(b) => InputModel::Block(b@),
            ConsensusInput::Transaction(v) => InputModel::Transaction(v@),
            ConsensusInput::Finalization(v) => InputModel::Finalization(v@),
            ConsensusInput::FinalizationRecord(v) => InputModel::FinalizationRecord(v@),
            ConsensusInput::BlockByHash(v) => InputModel::BlockByHash(v@),
            ConsensusInput::FinalizationRecordByHash(v) => InputModel::FinalizationRecordByHash(v@),
            ConsensusInput::FinalizationRecordByIndex(i) => InputModel::FinalizationRecordByIndex(*i),
            ConsensusInput::FinalizationMessagesByPoint(v) => InputModel::FinalizationMessagesByPoint(v@),
        }
    }
}

/// Reads the body of a payload of type `t`.
pub open spec fn demux_body(t: PacketType, body: Seq<u8>) -> Result<InputModel, BridgeError> {
    match t {
        PacketType::ConsensusBlock => match parse_block(body) {
            Ok(b) => Ok(InputModel::Block(b)),
            Err(e) => Err(BridgeError::BadBody(e)),
        },
        PacketType::ConsensusTransaction => Ok(InputModel::Transaction(body)),
        PacketType::ConsensusFinalization => Ok(InputModel::Finalization(body)),
        PacketType::ConsensusFinalizationRecord => Ok(InputModel::FinalizationRecord(body)),
        PacketType::CatchupRequestBlockByHash => Ok(InputModel::BlockByHash(body)),
        PacketType::CatchupRequestFinalizationRecordByHash => Ok(InputModel::FinalizationRecordByHash(body)),
        PacketType::CatchupRequestFinalizationRecordByIndex => if body.len() < 8 {
            Err(BridgeError::BadBody(ProtocolError::Truncated))
        } else {
            Ok(InputModel::FinalizationRecordByIndex(u64_at(body, 0)))
        },
        PacketType::CatchupRequestFinalizationByPoint => Ok(InputModel::FinalizationMessagesByPoint(body)),
    }
}

/// Reads an inbound consensus payload.
pub open spec fn demux_spec(payload: Seq<u8>) -> Result<InputModel, BridgeError> {
    if payload.len() < 2 {
        Err(BridgeError::Truncated)
    } else {
        match packet_of_code(u16_at(payload, 0)) {
            None => Err(BridgeError::UnknownType(u16_at(payload, 0))),
            Some(t) => demux_body(t, payload.skip(2)),
        }
    }
}

/// Splits an inbound payload into what it asks of the consensus engine.
pub fn demux(payload: &[u8]) -> (r: Result<ConsensusInput, BridgeError>)
    ensures
        match (r, demux_spec(payload@)) {
            (Ok(i), Ok(si)) => i@ == si,
            (Err(e), Err(se)) => e == se,
            _ => false,
        },
{
    if payload.len() < 2 {
        return Err(BridgeError::Truncated);
    }
    let code = read_u16(payload, 0);
    let t = match PacketType::try_from(code) {
        Some(t) => t,
        None => return Err(BridgeError::UnknownType(code)),
    };
    let body = vstd::slice::slice_subrange(payload, 2, payload.len());
    assert(body@.subrange(0, body@.len() as int) =~= body@);
    match t {
        PacketType::ConsensusBlock => match Block::deserialize(body) {
            Ok(b) => Ok(ConsensusInput::Block(b)),
            Err(e) => Err(BridgeError::BadBody(e)),
        },
        PacketType::ConsensusTransaction => Ok(ConsensusInput::Transaction(copy_range(body, 0, body.len()))),
        PacketType::ConsensusFinalization => Ok(ConsensusInput::Finalization(copy_range(body, 0, body.len()))),
        PacketType::ConsensusFinalizationRecord => Ok(ConsensusInput::FinalizationRecord(copy_range(body, 0, body.len()))),
        PacketType::CatchupRequestBlockByHash => Ok(ConsensusInput::BlockByHash(copy_range(body, 0, body.len()))),
        PacketType::CatchupRequestFinalizationRecordByHash =>
            Ok(ConsensusInput::FinalizationRecordByHash(copy_range(body, 0, body.len()))),
        PacketType::CatchupRequestFinalizationRecordByIndex => {
            if body.len() < 8 {
                return Err(BridgeError::BadBody(ProtocolError::Truncated));
            }
            Ok(ConsensusInput::FinalizationRecordByIndex(read_u64(body, 0)))
        },
        PacketType::CatchupRequestFinalizationByPoint =>
            Ok(ConsensusInput::FinalizationMessagesByPoint(copy_range(body, 0, body.len()))),
    }
}

/// An outbound block, tagged, decodes back to the same block.
pub proof fn lemma_block_through_bridge(b: BlockModel)
    requires
        block_wf(b),
    ensures
        demux_spec(tagged(PacketType::ConsensusBlock, ser_block(b))) == Ok::<InputModel, BridgeError>(InputModel::Block(b)),
{
    let s = tagged(PacketType::ConsensusBlock, ser_block(b));
    lemma_pow256_values();
    assert(s.subrange(0, 2) =~= be16(0));
    lemma_u16_at(s, 0, 0);
    assert(s.skip(2) =~= ser_block(b));
    lemma_block_round_trip(b);
}

/// Tagged opaque bodies come back as they went.
pub proof fn lemma_opaque_through_bridge(t: PacketType, body: Seq<u8>)
    requires
        t != PacketType::ConsensusBlock,
        t != PacketType::CatchupRequestFinalizationRecordByIndex,
    ensures
        demux_spec(tagged(t, body)) == demux_body(t, body),
        demux_spec(tagged(t, body)) is Ok,
{
    let s = tagged(t, body);
    lemma_pow256_values();
    assert(s.subrange(0, 2) =~= be16(packet_code(t)));
    lemma_u16_at(s, 0, packet_code(t));
    assert(s.skip(2) =~= body);
}

/// The answer to a catch-up request: the engine's result, tagged with `t`, when it
/// holds something (its first eight bytes, read as a count, are not zero); nothing
/// otherwise.
pub fn catchup_reply(t: PacketType, result: &[u8]) -> (r: Option<Vec<u8>>)
    ensures
        match r {
            Some(v) => result@.len() >= 8 && u64_at(result@, 0) > 0 && v@ == tagged(t, result@),
            None => result@.len() < 8 || u64_at(result@, 0) == 0,
        },
{
    if result.len() < 8 {
        return None;
    }
    if read_u64(result, 0) == 0 {
        return None;
    }
    Some(tag_payload(t, result))
}

/// The catch-up request sent to a peer right after its handshake response: our
/// finalization point.
pub fn finalization_point_request(point: &[u8]) -> (r: Vec<u8>)
    ensures
        r@ == tagged(PacketType::CatchupRequestFinalizationByPoint, point@),
{
    tag_payload(PacketType::CatchupRequestFinalizationByPoint, point)
}

/// The finalization messages the engine produced for a catch-up by point, each tagged
/// to go back to the requesting peer.
pub fn finalization_catchup_replies(msgs: &Vec<Vec<u8>>) -> (r: Vec<Vec<u8>>)
    ensures
        r@.len() == msgs@.len(),
        forall|i: int| 0 <= i < r@.len() ==> (#[trigger] r@[i])@ == tagged(PacketType::ConsensusFinalization, msgs@[i]@),
{
    let mut out: Vec<Vec<u8>> = Vec::new();
    let mut i: usize = 0;
    while i < msgs.len()
        invariant
            i <= msgs@.len(),
            out@.len() == i,
            forall|k: int| 0 <= k < i ==> (#[trigger] out@[k])@ == tagged(PacketType::ConsensusFinalization, msgs@[k]@),
        decreases msgs@.len() - i,
    {
        out.push(tag_payload(PacketType::ConsensusFinalization, msgs[i].as_slice()));
        i = i + 1;
    }
    out
}


/// A catch-up request by hash that consensus sends to one peer: the request's type
/// code, then the hash.
pub fn catchup_request_by_hash(kind: PacketType, hash: &[u8]) -> (r: Vec<u8>)
    requires
        kind == PacketType::CatchupRequestBlockByHash || kind == PacketType::CatchupRequestFinalizationRecordByHash,
    ensures
        r@ == tagged(kind, hash@),
{
    tag_payload(kind, hash)
}

/// A catch-up request for the finalization record at `index`: the request's type code,
/// then the index as eight big-endian bytes.
pub fn catchup_request_by_index(index: u64) -> (r: Vec<u8>)
    ensures
        r@ == tagged(PacketType::CatchupRequestFinalizationRecordByIndex, be64(index)),
{
    let mut body: Vec<u8> = Vec::new();
    push_u64(&mut body, index);
    assert(body@ =~= be64(index));
    tag_payload(PacketType::CatchupRequestFinalizationRecordByIndex, body.as_slice())
}

} // verus!
