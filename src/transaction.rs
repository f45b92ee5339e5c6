use vstd::prelude::*;
use crate::wire::{ProtocolError, be32, be64, u32_at, u64_at, ser_bytes, parse_bytes, lemma_pow256_values, lemma_u64_at, lemma_u32_at, lemma_u64_canonical, lemma_u32_canonical, lemma_bytes_round_trip, lemma_bytes_canonical, read_u32, read_u64, read_bytes, copy_range, append_range, push_bytes, push_u32, push_u64};
use crate::hashing::{sha256, sha256_of};

verus! {

/// Largest payload a transaction may declare: 512 MiB.
pub const PAYLOAD_MAX_LEN: u32 = 536870912;

/// Largest signature or sender key, as a long byte string: 64 KiB.
pub const LONG_BYTES_CAP: u64 = 65536;

/// Length of an account address on the wire.
pub const ACCOUNT_ADDRESS_LEN: usize = 21;

/// Length of a SHA-256 digest (block hashes, module references).
pub const HASH_LEN: usize = 32;

/// The signature scheme of a key.
#[derive(Debug, Clone, Copy, PartialEq, Eq, Structural)]
pub enum SchemeId {
    Cl,
    Ed25519,
}

pub open spec fn scheme_code(s: SchemeId) -> u8 {
    match s {
        SchemeId::Cl => 0,
        SchemeId::Ed25519 => 1,
    }
}

pub open spec fn scheme_valid(b: u8) -> bool {
    b <= 1
}

pub open spec fn scheme_of(b: u8) -> SchemeId {
    if b == 0 {
        SchemeId::Cl
    } else {
        SchemeId::Ed25519
    }
}

impl SchemeId {
    /// The scheme that a wire byte names.
    pub fn from_code(b: u8) -> (r: Result<SchemeId, ProtocolError>)
        ensures
            match r {
                Ok(s) => scheme_valid(b) && s == scheme_of(b),
                Err(e) => !scheme_valid(b) && e == ProtocolError::UnknownVariant,
            },
    {
        if b == 0 {
            Ok(SchemeId::Cl)
        } else if b == 1 {
            Ok(SchemeId::Ed25519)
        } else {
            Err(ProtocolError::UnknownVariant)
        }
    }

    pub fn code(&self) -> (r: u8)
        ensures
            r == scheme_code(*self),
            scheme_valid(r),
            scheme_of(r) == *self,
    {
        match self {
            SchemeId::Cl => 0,
            SchemeId::Ed25519 => 1,
        }
    }
}

/// The kind of a transaction, as its payload's first byte gives it.
#[derive(Debug, Clone, Copy, PartialEq, Eq, Structural)]
pub enum TransactionType {
    DeployModule,
    InitContract,
    Update,
    Transfer,
    DeployCredentials,
    DeployEncryptionKey,
    AddBaker,
    RemoveBaker,
    UpdateBakerAccount,
    UpdateBakerSignKey,
}

pub open spec fn type_code(t: TransactionType) -> u8 {
    match t {
        TransactionType::DeployModule => 0,
        TransactionType::InitContract => 1,
        TransactionType::Update => 2,
        TransactionType::Transfer => 3,
        TransactionType::DeployCredentials => 4,
        TransactionType::DeployEncryptionKey => 5,
        TransactionType::AddBaker => 6,
        TransactionType::RemoveBaker => 7,
        TransactionType::UpdateBakerAccount => 8,
        TransactionType::UpdateBakerSignKey => 9,
    }
}

impl TransactionType {
    /// The type that a tag byte names; tags above 9 name none.
    pub fn try_from(id: u8) -> (r: Result<TransactionType, ProtocolError>)
        ensures
            match r {
                Ok(t) => id <= 9 && type_code(t) == id,
                Err(e) => id > 9 && e == ProtocolError::UnknownVariant,
            },
    {
        match id {
            0 => Ok(TransactionType::DeployModule),
            1 => Ok(TransactionType::InitContract),
            2 => Ok(TransactionType::Update),
            3 => Ok(TransactionType::Transfer),
            4 => Ok(TransactionType::DeployCredentials),
            5 => Ok(TransactionType::DeployEncryptionKey),
            6 => Ok(TransactionType::AddBaker),
            7 => Ok(TransactionType::RemoveBaker),
            8 => Ok(TransactionType::UpdateBakerAccount),
            9 => Ok(TransactionType::UpdateBakerSignKey),
            _ => Err(ProtocolError::UnknownVariant),
        }
    }

    pub fn code(&self) -> (r: u8)
        ensures
            r == type_code(*self),
    {
        match self {
            TransactionType::DeployModule => 0,
            TransactionType::InitContract => 1,
            TransactionType::Update => 2,
            TransactionType::Transfer => 3,
            TransactionType::DeployCredentials => 4,
            TransactionType::DeployEncryptionKey => 5,
            TransactionType::AddBaker => 6,
            TransactionType::RemoveBaker => 7,
            TransactionType::UpdateBakerAccount => 8,
            TransactionType::UpdateBakerSignKey => 9,
        }
    }
}

/// The address of a contract instance.
#[derive(Debug, Clone, Copy, PartialEq, Eq, Structural)]
pub struct ContractAddress {
    pub index: u64,
    pub subindex: u64,
}

/// What a transaction asks to be done. Only these kinds travel on the wire.
#[derive(Debug, Clone)]
pub enum TransactionPayload {
    DeployModule(Vec<u8>),
    InitContract { amount: u64, module: Vec<u8>, contract: u32, param: Vec<u8> },
    Update { amount: u64, address: ContractAddress, message: Vec<u8> },
    Transfer { target_scheme: SchemeId, target_address: Vec<u8>, amount: u64 },
}

/// The mathematical value of a payload.
pub enum PayloadModel {
    DeployModule { module: Seq<u8> },
    InitContract { amount: u64, module: Seq<u8>, contract: u32, param: Seq<u8> },
    Update { amount: u64, address: ContractAddress, message: Seq<u8> },
    Transfer { target_scheme: SchemeId, target_address: Seq<u8>, amount: u64 },
}

impl View for TransactionPayload {
    type V = PayloadModel;

    open spec fn view(&self) -> PayloadModel {
        match self {
            TransactionPayload::DeployModule(m) => PayloadModel::DeployModule { module: m@ },
            TransactionPayload::InitContract { amount, module, contract, param } =>
                PayloadModel::InitContract { amount: *amount, module: module@, contract: *contract, param: param@ },
            TransactionPayload::Update { amount, address, message } =>
                PayloadModel::Update { amount: *amount, address: *address, message: message@ },
            TransactionPayload::Transfer { target_scheme, target_address, amount } =>
                PayloadModel::Transfer { target_scheme: *target_scheme, target_address: target_address@, amount: *amount },
        }
    }
}

/// Fixed-size fields have their sizes.
pub open spec fn payload_wf(p: PayloadModel) -> bool {
    match p {
        PayloadModel::InitContract { module, .. } => module.len() == HASH_LEN,
        PayloadModel::Transfer { target_address, .. } => target_address.len() == ACCOUNT_ADDRESS_LEN,
        _ => true,
    }
}

pub open spec fn payload_type(p: PayloadModel) -> TransactionType {
    match p {
        PayloadModel::DeployModule { .. } => TransactionType::DeployModule,
        PayloadModel::InitContract { .. } => TransactionType::InitContract,
        PayloadModel::Update { .. } => TransactionType::Update,
        PayloadModel::Transfer { .. } => TransactionType::Transfer,
    }
}

pub open spec fn ser_payload(p: PayloadModel) -> Seq<u8> {
    match p {
        PayloadModel::DeployModule { module } => seq![0u8] + module,
        PayloadModel::InitContract { amount, module, contract, param } =>
            seq![1u8] + be64(amount) + module + be32(contract) + param,
        PayloadModel::Update { amount, address, message } =>
            seq![2u8] + be64(amount) + be64(address.index) + be64(address.subindex) + message,
        PayloadModel::Transfer { target_scheme, target_address, amount } =>
            seq![3u8, scheme_code(target_scheme)] + target_address + be64(amount),
    }
}

/// Reads a payload that the transaction declares to be `len` bytes long.
/// Tags 4 to 9 name transaction kinds that have no wire form.
pub open spec fn parse_payload(s: Seq<u8>, len: nat) -> Result<(PayloadModel, int), ProtocolError> {
    if s.len() < 1 {
        Err(ProtocolError::Truncated)
    } else if s[0] > 3 {
        Err(ProtocolError::UnknownVariant)
    } else if len < 1 {
        Err(ProtocolError::Malformed)
    } else if s[0] == 0 {
        if s.len() < len {
            Err(ProtocolError::Truncated)
        } else {
            Ok((PayloadModel::DeployModule { module: s.subrange(1, len as int) }, len as int))
        }
    } else if s[0] == 1 {
        if s.len() < 45 {
            Err(ProtocolError::Truncated)
        } else if len < 45 {
            Err(ProtocolError::Malformed)
        } else if s.len() < len {
            Err(ProtocolError::Truncated)
        } else {
            Ok((PayloadModel::InitContract {
                amount: u64_at(s, 1),
                module: s.subrange(9, 41),
                contract: u32_at(s, 41),
                param: s.subrange(45, len as int),
            }, len as int))
        }
    } else if s[0] == 2 {
        if s.len() < 25 {
            Err(ProtocolError::Truncated)
        } else if len < 25 {
            Err(ProtocolError::Malformed)
        } else if s.len() < len {
            Err(ProtocolError::Truncated)
        } else {
            Ok((PayloadModel::Update {
                amount: u64_at(s, 1),
                address: ContractAddress { index: u64_at(s, 9), subindex: u64_at(s, 17) },
                message: s.subrange(25, len as int),
            }, len as int))
        }
    } else {
        if s.len() < 2 {
            Err(ProtocolError::Truncated)
        } else if !scheme_valid(s[1]) {
            Err(ProtocolError::UnknownVariant)
        } else if s.len() < 31 {
            Err(ProtocolError::Truncated)
        } else if len != 31 {
            Err(ProtocolError::Malformed)
        } else {
            Ok((PayloadModel::Transfer {
                target_scheme: scheme_of(s[1]),
                target_address: s.subrange(2, 23),
                amount: u64_at(s, 23),
            }, 31))
        }
    }
}

proof fn lemma_payload_round_trip(p: PayloadModel, rest: Seq<u8>)
    requires
        payload_wf(p),
    ensures
        parse_payload(ser_payload(p) + rest, ser_payload(p).len())
            == Ok::<(PayloadModel, int), ProtocolError>((p, ser_payload(p).len() as int)),
{
    let e = ser_payload(p);
    let s = e + rest;
    lemma_pow256_values();
    match p {
        PayloadModel::DeployModule { module } => {
            assert(s.subrange(1, e.len() as int) =~= module);
        },
        PayloadModel::InitContract { amount, module, contract, param } => {
            assert(s.subrange(1, 9) =~= be64(amount));
            assert(s.subrange(9, 41) =~= module);
            assert(s.subrange(41, 45) =~= be32(contract));
            assert(s.subrange(45, e.len() as int) =~= param);
            lemma_u64_at(s, 1, amount);
            lemma_u32_at(s, 41, contract);
        },
        PayloadModel::Update { amount, address, message } => {
            assert(s.subrange(1, 9) =~= be64(amount));
            assert(s.subrange(9, 17) =~= be64(address.index));
            assert(s.subrange(17, 25) =~= be64(address.subindex));
            assert(s.subrange(25, e.len() as int) =~= message);
            lemma_u64_at(s, 1, amount);
            lemma_u64_at(s, 9, address.index);
            lemma_u64_at(s, 17, address.subindex);
        },
        PayloadModel::Transfer { target_scheme, target_address, amount } => {
            assert(s.subrange(2, 23) =~= target_address);
            assert(s.subrange(23, 31) =~= be64(amount));
            lemma_u64_at(s, 23, amount);
        },
    }
}

proof fn lemma_payload_canonical(s: Seq<u8>, len: nat)
    requires
        parse_payload(s, len) is Ok,
    ensures
        ({
            let (p, n) = parse_payload(s, len)->Ok_0;
            &&& n == len
            &&& payload_wf(p)
            &&& s.take(n) == ser_payload(p)
        }),
{
    let (p, n) = parse_payload(s, len)->Ok_0;
    if s[0] == 0 {
        assert(s.take(n) =~= ser_payload(p));
    } else if s[0] == 1 {
        lemma_u64_canonical(s, 1);
        lemma_u32_canonical(s, 41);
        assert(s.take(n) =~= ser_payload(p));
    } else if s[0] == 2 {
        lemma_u64_canonical(s, 1);
        lemma_u64_canonical(s, 9);
        lemma_u64_canonical(s, 17);
        assert(s.take(n) =~= ser_payload(p));
    } else {
        lemma_u64_canonical(s, 23);
        assert(s.take(n) =~= ser_payload(p));
    }
}


impl TransactionPayload {
    /// The kind of this payload.
    pub fn transaction_type(&self) -> (r: TransactionType)
        ensures
            r == payload_type(self@),
    {
        match self {
            TransactionPayload::DeployModule(_) => TransactionType::DeployModule,
            TransactionPayload::InitContract { .. } => TransactionType::InitContract,
            TransactionPayload::Update { .. } => TransactionType::Update,
            TransactionPayload::Transfer { .. } => TransactionType::Transfer,
        }
    }

    /// Appends the wire form of the payload.
    pub fn serial(&self, out: &mut Vec<u8>)
        ensures
            final(out)@ == old(out)@ + ser_payload(self@),
    {
        let ghost start = out@;
        match self {
            TransactionPayload::DeployModule(module) => {
                out.push(0u8);
                append_range(out, module.as_slice(), 0, module.len());
                assert(module@.subrange(0, module@.len() as int) =~= module@);
            },
            TransactionPayload::InitContract { amount, module, contract, param } => {
                out.push(1u8);
                push_u64(out, *amount);
                append_range(out, module.as_slice(), 0, module.len());
                push_u32(out, *contract);
                append_range(out, param.as_slice(), 0, param.len());
                assert(module@.subrange(0, module@.len() as int) =~= module@);
                assert(param@.subrange(0, param@.len() as int) =~= param@);
            },
            TransactionPayload::Update { amount, address, message } => {
                out.push(2u8);
                push_u64(out, *amount);
                push_u64(out, address.index);
                push_u64(out, address.subindex);
                append_range(out, message.as_slice(), 0, message.len());
                assert(message@.subrange(0, message@.len() as int) =~= message@);
            },
            TransactionPayload::Transfer { target_scheme, target_address, amount } => {
                out.push(3u8);
                out.push(target_scheme.code());
                append_range(out, target_address.as_slice(), 0, target_address.len());
                push_u64(out, *amount);
                assert(target_address@.subrange(0, target_address@.len() as int) =~= target_address@);
            },
        }
        assert(out@ =~= start + ser_payload(self@));
    }

    /// Reads a payload declared to be `len` bytes long from the start of `s`.
    pub fn deserialize(s: &[u8], len: u32) -> (r: Result<(TransactionPayload, usize), ProtocolError>)
        ensures
            match (r, parse_payload(s@, len as nat)) {
                (Ok((p, n)), Ok((sp, sn))) => p@ == sp && n == sn,
                (Err(e), Err(se)) => e == se,
                _ => false,
            },
    {
        let l = len as usize;
        if s.len() < 1 {
            return Err(ProtocolError::Truncated);
        }
        let tag = s[0];
        if tag > 3 {
            return Err(ProtocolError::UnknownVariant);
        }
        if l < 1 {
            return Err(ProtocolError::Malformed);
        }
        if tag == 0 {
            if s.len() < l {
                return Err(ProtocolError::Truncated);
            }
            Ok((TransactionPayload::DeployModule(copy_range(s, 1, l)), l))
        } else if tag == 1 {
            if s.len() < 45 {
                return Err(ProtocolError::Truncated);
            }
            if l < 45 {
                return Err(ProtocolError::Malformed);
            }
            if s.len() < l {
                return Err(ProtocolError::Truncated);
            }
            let amount = read_u64(s, 1);
            let module = copy_range(s, 9, 41);
            let contract = read_u32(s, 41);
            let param = copy_range(s, 45, l);
            Ok((TransactionPayload::InitContract { amount, module, contract, param }, l))
        } else if tag == 2 {
            if s.len() < 25 {
                return Err(ProtocolError::Truncated);
            }
            if l < 25 {
                return Err(ProtocolError::Malformed);
            }
            if s.len() < l {
                return Err(ProtocolError::Truncated);
            }
            let amount = read_u64(s, 1);
            let index = read_u64(s, 9);
            let subindex = read_u64(s, 17);
            let message = copy_range(s, 25, l);
            Ok((TransactionPayload::Update { amount, address: ContractAddress { index, subindex }, message }, l))
        } else {
            if s.len() < 2 {
                return Err(ProtocolError::Truncated);
            }
            let target_scheme = match SchemeId::from_code(s[1]) {
                Ok(sc) => sc,
                Err(e) => return Err(e),
            };
            if s.len() < 31 {
                return Err(ProtocolError::Truncated);
            }
            if l != 31 {
                return Err(ProtocolError::Malformed);
            }
            let target_address = copy_range(s, 2, 23);
            let amount = read_u64(s, 23);
            Ok((TransactionPayload::Transfer { target_scheme, target_address, amount }, 31))
        }
    }
}

/// Who sent a transaction and what it may spend.
#[derive(Debug, Clone)]
pub struct TransactionHeader {
    pub scheme_id: SchemeId,
    pub sender_key: Vec<u8>,
    pub nonce: u64,
    pub gas_amount: u64,
    pub finalized_ptr: Vec<u8>,
}

pub struct HeaderModel {
    pub scheme_id: SchemeId,
    pub sender_key: Seq<u8>,
    pub nonce: u64,
    pub gas_amount: u64,
    pub finalized_ptr: Seq<u8>,
}

impl View for TransactionHeader {
    type V = HeaderModel;

    open spec fn view(&self) -> HeaderModel {
        HeaderModel {
            scheme_id: self.scheme_id,
            sender_key: self.sender_key@,
            nonce: self.nonce,
            gas_amount: self.gas_amount,
            finalized_ptr: self.finalized_ptr@,
        }
    }
}

/// Sizes within bounds, and the nonce is not zero.
pub open spec fn header_wf(h: HeaderModel) -> bool {
    &&& h.sender_key.len() <= LONG_BYTES_CAP
    &&& h.nonce != 0
    &&& h.finalized_ptr.len() == HASH_LEN
}

pub open spec fn ser_header(h: HeaderModel) -> Seq<u8> {
    seq![scheme_code(h.scheme_id)] + ser_bytes(h.sender_key, 8) + be64(h.nonce) + be64(h.gas_amount)
        + h.finalized_ptr
}

pub open spec fn parse_header(s: Seq<u8>) -> Result<(HeaderModel, int), ProtocolError> {
    if s.len() < 1 {
        Err(ProtocolError::Truncated)
    } else if !scheme_valid(s[0]) {
        Err(ProtocolError::UnknownVariant)
    } else {
        match parse_bytes(s.skip(1), 8, LONG_BYTES_CAP as nat) {
            Err(e) => Err(e),
            Ok((key, n)) => {
                let p = 1 + n;
                if s.len() < p + 8 {
                    Err(ProtocolError::Truncated)
                } else if u64_at(s, p) == 0 {
                    Err(ProtocolError::ZeroField)
                } else if s.len() < p + 48 {
                    Err(ProtocolError::Truncated)
                } else {
                    Ok((HeaderModel {
                        scheme_id: scheme_of(s[0]),
                        sender_key: key,
                        nonce: u64_at(s, p),
                        gas_amount: u64_at(s, p + 8),
                        finalized_ptr: s.subrange(p + 16, p + 48),
                    }, p + 48))
                }
            },
        }
    }
}

proof fn lemma_header_round_trip(h: HeaderModel, rest: Seq<u8>)
    requires
        header_wf(h),
    ensures
        parse_header(ser_header(h) + rest) == Ok::<(HeaderModel, int), ProtocolError>((h, ser_header(h).len() as int)),
{
    let e = ser_header(h);
    let s = e + rest;
    let kb = ser_bytes(h.sender_key, 8);
    lemma_pow256_values();
    let p: int = 1 + kb.len() as int;
    assert(s.skip(1) =~= kb + (be64(h.nonce) + be64(h.gas_amount) + h.finalized_ptr + rest));
    lemma_bytes_round_trip(h.sender_key, 8, LONG_BYTES_CAP as nat, be64(h.nonce) + be64(h.gas_amount) + h.finalized_ptr + rest);
    assert(s.subrange(p, p + 8) =~= be64(h.nonce));
    assert(s.subrange(p + 8, p + 16) =~= be64(h.gas_amount));
    assert(s.subrange(p + 16, p + 48) =~= h.finalized_ptr);
    lemma_u64_at(s, p, h.nonce);
    lemma_u64_at(s, p + 8, h.gas_amount);
}

proof fn lemma_header_canonical(s: Seq<u8>)
    requires
        parse_header(s) is Ok,
    ensures
        ({
            let (h, n) = parse_header(s)->Ok_0;
            &&& header_wf(h)
            &&& 0 < n <= s.len()
            &&& s.take(n) == ser_header(h)
        }),
{
    let (h, n) = parse_header(s)->Ok_0;
    lemma_bytes_canonical(s.skip(1), 8, LONG_BYTES_CAP as nat);
    let (key, kn) = parse_bytes(s.skip(1), 8, LONG_BYTES_CAP as nat)->Ok_0;
    let p = 1 + kn;
    lemma_u64_canonical(s, p);
    lemma_u64_canonical(s, p + 8);
    assert(s.subrange(1, p) =~= s.skip(1).take(kn));
    assert(s.take(n) =~= ser_header(h));
}

impl TransactionHeader {
    pub fn serial(&self, out: &mut Vec<u8>)
        requires
            header_wf(self@),
        ensures
            final(out)@ == old(out)@ + ser_header(self@),
    {
        let ghost start = out@;
        proof {
            lemma_pow256_values();
        }
        out.push(self.scheme_id.code());
        push_bytes(out, self.sender_key.as_slice(), 8);
        push_u64(out, self.nonce);
        push_u64(out, self.gas_amount);
        append_range(out, self.finalized_ptr.as_slice(), 0, self.finalized_ptr.len());
        assert(self.finalized_ptr@.subrange(0, self.finalized_ptr@.len() as int) =~= self.finalized_ptr@);
        assert(out@ =~= start + ser_header(self@));
    }

    pub fn deserialize(s: &[u8]) -> (r: Result<(TransactionHeader, usize), ProtocolError>)
        ensures
            match (r, parse_header(s@)) {
                (Ok((h, n)), Ok((sh, sn))) => h@ == sh && n == sn,
                (Err(e), Err(se)) => e == se,
                _ => false,
            },
    {
        if s.len() < 1 {
            return Err(ProtocolError::Truncated);
        }
        let scheme_id = match SchemeId::from_code(s[0]) {
            Ok(sc) => sc,
            Err(e) => return Err(e),
        };
        let (sender_key, p) = match read_bytes(s, 1, 8, LONG_BYTES_CAP) {
            Ok(x) => x,
            Err(e) => return Err(e),
        };
        if s.len() - p < 8 {
            return Err(ProtocolError::Truncated);
        }
        let nonce = read_u64(s, p);
        if nonce == 0 {
            return Err(ProtocolError::ZeroField);
        }
        if s.len() - p < 48 {
            return Err(ProtocolError::Truncated);
        }
        let gas_amount = read_u64(s, p + 8);
        let finalized_ptr = copy_range(s, p + 16, p + 48);
        Ok((TransactionHeader { scheme_id, sender_key, nonce, gas_amount, finalized_ptr }, p + 48))
    }
}


/// A signed transaction, with the SHA-256 of its wire form.
#[derive(Debug, Clone)]
pub struct Transaction {
    pub signature: Vec<u8>,
    pub header: TransactionHeader,
    pub payload: TransactionPayload,
    pub hash: Vec<u8>,
}

pub struct TransactionModel {
    pub signature: Seq<u8>,
    pub header: HeaderModel,
    pub payload: PayloadModel,
}

impl View for Transaction {
    type V = TransactionModel;

    open spec fn view(&self) -> TransactionModel {
        TransactionModel { signature: self.signature@, header: self.header@, payload: self.payload@ }
    }
}

pub open spec fn tx_wf(t: TransactionModel) -> bool {
    &&& t.signature.len() <= LONG_BYTES_CAP
    &&& header_wf(t.header)
    &&& payload_wf(t.payload)
    &&& ser_payload(t.payload).len() <= PAYLOAD_MAX_LEN
}

pub open spec fn ser_tx(t: TransactionModel) -> Seq<u8> {
    ser_bytes(t.signature, 8) + ser_header(t.header) + be32(ser_payload(t.payload).len() as u32)
        + ser_payload(t.payload)
}

pub open spec fn parse_tx(s: Seq<u8>) -> Result<(TransactionModel, int), ProtocolError> {
    match parse_bytes(s, 8, LONG_BYTES_CAP as nat) {
        Err(e) => Err(e),
        Ok((sig, n1)) => match parse_header(s.skip(n1)) {
            Err(e) => Err(e),
            Ok((h, n2)) => {
                let p = n1 + n2;
                if s.len() < p + 4 {
                    Err(ProtocolError::Truncated)
                } else if u32_at(s, p) > PAYLOAD_MAX_LEN {
                    Err(ProtocolError::LengthExceeded)
                } else {
                    match parse_payload(s.skip(p + 4), u32_at(s, p) as nat) {
                        Err(e) => Err(e),
                        Ok((pl, n3)) => Ok((TransactionModel { signature: sig, header: h, payload: pl }, p + 4 + n3)),
                    }
                }
            },
        },
    }
}

/// Decoding the wire form of a valid transaction, whatever follows it, gives it back.
pub proof fn lemma_tx_round_trip(t: TransactionModel, rest: Seq<u8>)
    requires
        tx_wf(t),
    ensures
        parse_tx(ser_tx(t) + rest) == Ok::<(TransactionModel, int), ProtocolError>((t, ser_tx(t).len() as int)),
{
    let sb = ser_bytes(t.signature, 8);
    let hb = ser_header(t.header);
    let pb = ser_payload(t.payload);
    let s = ser_tx(t) + rest;
    lemma_pow256_values();
    assert(s =~= sb + (hb + be32(pb.len() as u32) + pb + rest));
    lemma_bytes_round_trip(t.signature, 8, LONG_BYTES_CAP as nat, hb + be32(pb.len() as u32) + pb + rest);
    assert(s.skip(sb.len() as int) =~= hb + (be32(pb.len() as u32) + pb + rest));
    lemma_header_round_trip(t.header, be32(pb.len() as u32) + pb + rest);
    let p: int = sb.len() as int + hb.len() as int;
    assert(s.subrange(p as int, p + 4) =~= be32(pb.len() as u32));
    lemma_u32_at(s, p as int, pb.len() as u32);
    assert(s.skip(p + 4) =~= pb + rest);
    lemma_payload_round_trip(t.payload, rest);
}

/// A decoded transaction is valid, and its wire form is exactly the bytes consumed.
pub proof fn lemma_tx_canonical(s: Seq<u8>)
    requires
        parse_tx(s) is Ok,
    ensures
        ({
            let (t, n) = parse_tx(s)->Ok_0;
            &&& tx_wf(t)
            &&& 0 < n <= s.len()
            &&& s.take(n) == ser_tx(t)
        }),
{
    let (t, n) = parse_tx(s)->Ok_0;
    lemma_bytes_canonical(s, 8, LONG_BYTES_CAP as nat);
    let (sig, n1) = parse_bytes(s, 8, LONG_BYTES_CAP as nat)->Ok_0;
    lemma_header_canonical(s.skip(n1));
    let (h, n2) = parse_header(s.skip(n1))->Ok_0;
    let p = n1 + n2;
    let len = u32_at(s, p);
    lemma_payload_canonical(s.skip(p + 4), len as nat);
    lemma_u32_canonical(s, p);
    assert(s.subrange(n1, p) =~= s.skip(n1).take(n2));
    assert(s.subrange(p + 4, n) =~= s.skip(p + 4).take(len as int));
    assert(s.take(n) =~= s.take(n1) + s.subrange(n1, p) + s.subrange(p, p + 4) + s.subrange(p + 4, n));
}

/// Every proper prefix of a valid transaction's wire form fails to decode.
pub proof fn lemma_tx_truncated(t: TransactionModel, k: int)
    requires
        tx_wf(t),
        0 <= k < ser_tx(t).len(),
    ensures
        parse_tx(ser_tx(t).take(k)) is Err,
{
    let s = ser_tx(t).take(k);
    if parse_tx(s) is Ok {
        let (t2, n2) = parse_tx(s)->Ok_0;
        lemma_tx_canonical(s);
        let rest = ser_tx(t).skip(n2);
        assert(ser_tx(t2) + rest =~= ser_tx(t));
        lemma_tx_round_trip(t2, rest);
        lemma_tx_round_trip(t, Seq::empty());
        assert(ser_tx(t) + Seq::<u8>::empty() =~= ser_tx(t));
    }
}

/// A transaction whose nonce is zero does not decode, whatever else it holds.
pub proof fn lemma_zero_nonce_rejected(t: TransactionModel, rest: Seq<u8>)
    requires
        t.signature.len() <= LONG_BYTES_CAP,
        t.header.sender_key.len() <= LONG_BYTES_CAP,
        t.header.nonce == 0,
    ensures
        parse_tx(ser_tx(t) + rest) == Err::<(TransactionModel, int), ProtocolError>(ProtocolError::ZeroField),
{
    let sb = ser_bytes(t.signature, 8);
    let h = t.header;
    let kb = ser_bytes(h.sender_key, 8);
    let s = ser_tx(t) + rest;
    lemma_pow256_values();
    let tail: Seq<u8> = ser_header(h) + be32(ser_payload(t.payload).len() as u32) + ser_payload(t.payload) + rest;
    assert(s =~= sb + tail);
    lemma_bytes_round_trip(t.signature, 8, LONG_BYTES_CAP as nat, tail);
    let hs = s.skip(sb.len() as int);
    assert(hs =~= tail);
    assert(hs.skip(1) =~= kb + hs.skip(1 + kb.len() as int));
    lemma_bytes_round_trip(h.sender_key, 8, LONG_BYTES_CAP as nat, hs.skip(1 + kb.len() as int));
    let p: int = 1 + kb.len() as int;
    assert(hs.subrange(p, p + 8) =~= be64(0));
    lemma_u64_at(hs, p, 0);
}

/// A transaction that declares a payload over 512 MiB does not decode.
pub proof fn lemma_oversized_payload_rejected(sig: Seq<u8>, h: HeaderModel, len: u32, rest: Seq<u8>)
    requires
        sig.len() <= LONG_BYTES_CAP,
        header_wf(h),
        len > PAYLOAD_MAX_LEN,
    ensures
        parse_tx(ser_bytes(sig, 8) + ser_header(h) + be32(len) + rest)
            == Err::<(TransactionModel, int), ProtocolError>(ProtocolError::LengthExceeded),
{
    let sb = ser_bytes(sig, 8);
    let hb = ser_header(h);
    let s = sb + hb + be32(len) + rest;
    lemma_pow256_values();
    assert(s =~= sb + (hb + be32(len) + rest));
    lemma_bytes_round_trip(sig, 8, LONG_BYTES_CAP as nat, hb + be32(len) + rest);
    assert(s.skip(sb.len() as int) =~= hb + (be32(len) + rest));
    lemma_header_round_trip(h, be32(len) + rest);
    let p: int = sb.len() as int + hb.len() as int;
    assert(s.subrange(p as int, p + 4) =~= be32(len));
    lemma_u32_at(s, p as int, len);
}

impl Transaction {
    /// Appends the wire form of the transaction.
    pub fn serial(&self, out: &mut Vec<u8>)
        requires
            tx_wf(self@),
        ensures
            final(out)@ == old(out)@ + ser_tx(self@),
    {
        let ghost start = out@;
        proof {
            lemma_pow256_values();
        }
        push_bytes(out, self.signature.as_slice(), 8);
        self.header.serial(out);
        let mut pb: Vec<u8> = Vec::new();
        self.payload.serial(&mut pb);
        assert(pb@ =~= ser_payload(self.payload@));
        push_u32(out, pb.len() as u32);
        append_range(out, pb.as_slice(), 0, pb.len());
        assert(pb@.subrange(0, pb@.len() as int) =~= pb@);
        assert(out@ =~= start + ser_tx(self@));
    }

    /// The wire form of the transaction.
    pub fn serialize(&self) -> (r: Vec<u8>)
        requires
            tx_wf(self@),
        ensures
            r@ == ser_tx(self@),
    {
        let mut out: Vec<u8> = Vec::new();
        self.serial(&mut out);
        assert(out@ =~= ser_tx(self@));
        out
    }

    /// Reads a transaction from the start of `s`; gives it and the number of bytes it took.
    /// Its hash is the SHA-256 of those bytes.
    pub fn deserialize(s: &[u8]) -> (r: Result<(Transaction, usize), ProtocolError>)
        ensures
            match (r, parse_tx(s@)) {
                (Ok((t, n)), Ok((st, sn))) => t@ == st && n == sn && t.hash@ == sha256_of(s@.take(n as int)),
                (Err(e), Err(se)) => e == se,
                _ => false,
            },
    {
        assert(s@.skip(0) =~= s@);
        let (signature, n1) = match read_bytes(s, 0, 8, LONG_BYTES_CAP) {
            Ok(x) => x,
            Err(e) => return Err(e),
        };
        let hs = vstd::slice::slice_subrange(s, n1, s.len());
        let (header, n2) = match TransactionHeader::deserialize(hs) {
            Ok(x) => x,
            Err(e) => return Err(e),
        };
        let p = n1 + n2;
        if s.len() - p < 4 {
            return Err(ProtocolError::Truncated);
        }
        let len = read_u32(s, p);
        if len > PAYLOAD_MAX_LEN {
            return Err(ProtocolError::LengthExceeded);
        }
        let ps = vstd::slice::slice_subrange(s, p + 4, s.len());
        let (payload, n3) = match TransactionPayload::deserialize(ps, len) {
            Ok(x) => x,
            Err(e) => return Err(e),
        };
        let n = p + 4 + n3;
        let hash = sha256(vstd::slice::slice_subrange(s, 0, n));
        Ok((Transaction { signature, header, payload, hash }, n))
    }
}

} // verus!
