use vstd::prelude::*;
use crate::wire::{ProtocolError, be64, u64_at, ser_bytes, parse_bytes, lemma_pow256_values, lemma_u64_at,
    lemma_u64_canonical, lemma_bytes_round_trip, lemma_bytes_canonical, read_u64, read_bytes, copy_range,
    append_range, push_bytes, push_u64};
use crate::transaction::{Transaction, TransactionModel, tx_wf, ser_tx, parse_tx, lemma_tx_round_trip,
    lemma_tx_canonical, HASH_LEN};
use crate::hashing::{sha256, sha256_of};

verus! {

/// Length of a block's VRF proof and of its block nonce.
pub const PROOF_LENGTH: usize = 80;

/// Largest block signature, as a short byte string: 1 KiB.
pub const SHORT_BYTES_CAP: u64 = 1024;

/// Bytes of a regular block's body before its transaction count.
pub const REGULAR_FIXED_LEN: usize = 232;

pub open spec fn txs_view(ts: Seq<Transaction>) -> Seq<TransactionModel> {
    ts.map_values(|t: Transaction| t@)
}

/// The wire forms of the transactions, one after another.
pub open spec fn ser_txs(ts: Seq<TransactionModel>) -> Seq<u8>
    decreases ts.len(),
{
    if ts.len() == 0 {
        Seq::empty()
    } else {
        ser_tx(ts[0]) + ser_txs(ts.skip(1))
    }
}

/// Reads `k` transactions one after another.
pub open spec fn parse_txs(s: Seq<u8>, k: nat) -> Result<(Seq<TransactionModel>, int), ProtocolError>
    decreases k,
{
    if k == 0 {
        Ok((Seq::empty(), 0))
    } else {
        match parse_tx(s) {
            Err(e) => Err(e),
            Ok((t, n)) => match parse_txs(s.skip(n), (k - 1) as nat) {
                Err(e) => Err(e),
                Ok((ts, m)) => Ok((seq![t] + ts, n + m)),
            },
        }
    }
}

pub open spec fn all_tx_wf(ts: Seq<TransactionModel>) -> bool {
    forall|i: int| 0 <= i < ts.len() ==> tx_wf(#[trigger] ts[i])
}

proof fn lemma_ser_txs_push(ts: Seq<TransactionModel>, t: TransactionModel)
    ensures
        ser_txs(ts.push(t)) == ser_txs(ts) + ser_tx(t),
    decreases ts.len(),
{
    if ts.len() == 0 {
        assert(ts.push(t).skip(1) =~= Seq::<TransactionModel>::empty());
        assert(ser_txs(ts.push(t)) =~= ser_tx(t) + ser_txs(Seq::empty()));
        assert(ser_txs(ts.push(t)) =~= ser_txs(ts) + ser_tx(t));
    } else {
        assert(ts.push(t).skip(1) =~= ts.skip(1).push(t));
        lemma_ser_txs_push(ts.skip(1), t);
        assert(ser_txs(ts.push(t)) =~= ser_txs(ts) + ser_tx(t));
    }
}

proof fn lemma_txs_round_trip(ts: Seq<TransactionModel>, rest: Seq<u8>)
    requires
        all_tx_wf(ts),
    ensures
        parse_txs(ser_txs(ts) + rest, ts.len()) == Ok::<(Seq<TransactionModel>, int), ProtocolError>((ts, ser_txs(ts).len() as int)),
    decreases ts.len(),
{
    if ts.len() > 0 {
        let tail = ser_txs(ts.skip(1)) + rest;
        assert(ser_txs(ts) + rest =~= ser_tx(ts[0]) + tail);
        lemma_tx_round_trip(ts[0], tail);
        assert((ser_txs(ts) + rest).skip(ser_tx(ts[0]).len() as int) =~= tail);
        lemma_txs_round_trip(ts.skip(1), rest);
        assert(seq![ts[0]] + ts.skip(1) =~= ts);
    } else {
        assert(ts =~= Seq::<TransactionModel>::empty());
    }
}

proof fn lemma_txs_canonical(s: Seq<u8>, k: nat)
    requires
        parse_txs(s, k) is Ok,
    ensures
        ({
            let (ts, m) = parse_txs(s, k)->Ok_0;
            &&& all_tx_wf(ts)
            &&& ts.len() == k
            &&& 0 <= m <= s.len()
            &&& s.take(m) == ser_txs(ts)
        }),
    decreases k,
{
    if k > 0 {
        let (t, n) = parse_tx(s)->Ok_0;
        lemma_tx_canonical(s);
        lemma_txs_canonical(s.skip(n), (k - 1) as nat);
        let (ts, m) = parse_txs(s.skip(n), (k - 1) as nat)->Ok_0;
        let all = seq![t] + ts;
        assert(all.skip(1) =~= ts);
        assert(s.take(n + m) =~= s.take(n) + s.skip(n).take(m));
        assert forall|i: int| 0 <= i < all.len() implies tx_wf(#[trigger] all[i]) by {
            if i > 0 {
                assert(all[i] == ts[i - 1]);
            }
        }
    } else {
        assert(s.take(0) =~= Seq::<u8>::empty());
    }
}

/// The fields of a regular block before its transactions.
#[derive(Debug, Clone)]
pub struct BlockFields {
    pub pointer: Vec<u8>,
    pub baker_id: u64,
    pub proof: Vec<u8>,
    pub nonce: Vec<u8>,
    pub last_finalized: Vec<u8>,
}

/// A block baked in a slot after genesis.
#[derive(Debug, Clone)]
pub struct BakedBlock {
    pub fields: BlockFields,
    pub transactions: Vec<Transaction>,
    pub signature: Vec<u8>,
}

#[derive(Debug, Clone)]
pub enum BlockData {
    /// The genesis block's body, kept as the bytes it came in.
    Genesis(Vec<u8>),
    Regular(BakedBlock),
}

#[derive(Debug, Clone)]
pub struct Block {
    pub slot: u64,
    pub data: BlockData,
}

pub struct RegularModel {
    pub pointer: Seq<u8>,
    pub baker_id: u64,
    pub proof: Seq<u8>,
    pub nonce: Seq<u8>,
    pub last_finalized: Seq<u8>,
    pub transactions: Seq<TransactionModel>,
    pub signature: Seq<u8>,
}

pub enum BlockDataModel {
    Genesis(Seq<u8>),
    Regular(RegularModel),
}

pub struct BlockModel {
    pub slot: u64,
    pub data: BlockDataModel,
}

impl View for Block {
    type V = BlockModel;

    open spec fn view(&self) -> BlockModel {
        BlockModel {
            slot: self.slot,
            data: match &self.data {
                BlockData::Genesis(g) => BlockDataModel::Genesis(g@),
                BlockData::Regular(b) => BlockDataModel::Regular(RegularModel {
                    pointer: b.fields.pointer@,
                    baker_id: b.fields.baker_id,
                    proof: b.fields.proof@,
                    nonce: b.fields.nonce@,
                    last_finalized: b.fields.last_finalized@,
                    transactions: txs_view(b.transactions@),
                    signature: b.signature@,
                }),
            },
        }
    }
}

/// Slot 0 holds the genesis block and no other; fixed-size fields have their sizes.
pub open spec fn block_wf(b: BlockModel) -> bool {
    match b.data {
        BlockDataModel::Genesis(_) => b.slot == 0,
        BlockDataModel::Regular(r) => {
            &&& b.slot != 0
            &&& r.pointer.len() == HASH_LEN
            &&& r.proof.len() == PROOF_LENGTH
            &&& r.nonce.len() == PROOF_LENGTH
            &&& r.last_finalized.len() == HASH_LEN
            &&& all_tx_wf(r.transactions)
            &&& r.transactions.len() <= u64::MAX
            &&& r.signature.len() <= SHORT_BYTES_CAP
        },
    }
}

pub open spec fn ser_regular(r: RegularModel) -> Seq<u8> {
    r.pointer + be64(r.baker_id) + r.proof + r.nonce + r.last_finalized + be64(r.transactions.len() as u64)
        + ser_txs(r.transactions) + ser_bytes(r.signature, 2)
}

/// The canonical wire form of a block: the input of its hash.
pub open spec fn ser_block(b: BlockModel) -> Seq<u8> {
    be64(b.slot) + match b.data {
        BlockDataModel::Genesis(g) => g,
        BlockDataModel::Regular(r) => ser_regular(r),
    }
}

/// Reads a regular block's body, which must fill `r`.
pub open spec fn parse_regular(r: Seq<u8>) -> Result<RegularModel, ProtocolError> {
    if r.len() < REGULAR_FIXED_LEN + 8 {
        Err(ProtocolError::Truncated)
    } else {
        match parse_txs(r.skip(240), u64_at(r, 232) as nat) {
            Err(e) => Err(e),
            Ok((txs, m)) => match parse_bytes(r.skip(240 + m), 2, SHORT_BYTES_CAP as nat) {
                Err(e) => Err(e),
                Ok((sig, n)) => if 240 + m + n != r.len() {
                    Err(ProtocolError::Malformed)
                } else {
                    Ok(RegularModel {
                        pointer: r.subrange(0, 32),
                        baker_id: u64_at(r, 32),
                        proof: r.subrange(40, 120),
                        nonce: r.subrange(120, 200),
                        last_finalized: r.subrange(200, 232),
                        transactions: txs,
                        signature: sig,
                    })
                },
            },
        }
    }
}

/// Reads a whole byte string as one block. A block in slot 0 is the genesis block,
/// whose body is all the bytes after the slot.
pub open spec fn parse_block(s: Seq<u8>) -> Result<BlockModel, ProtocolError> {
    if s.len() < 8 {
        Err(ProtocolError::Truncated)
    } else if u64_at(s, 0) == 0 {
        Ok(BlockModel { slot: 0, data: BlockDataModel::Genesis(s.skip(8)) })
    } else {
        match parse_regular(s.skip(8)) {
            Err(e) => Err(e),
            Ok(r) => Ok(BlockModel { slot: u64_at(s, 0), data: BlockDataModel::Regular(r) }),
        }
    }
}

proof fn lemma_regular_round_trip(r: RegularModel)
    requires
        r.pointer.len() == HASH_LEN,
        r.proof.len() == PROOF_LENGTH,
        r.nonce.len() == PROOF_LENGTH,
        r.last_finalized.len() == HASH_LEN,
        all_tx_wf(r.transactions),
        r.transactions.len() <= u64::MAX,
        r.signature.len() <= SHORT_BYTES_CAP,
    ensures
        parse_regular(ser_regular(r)) == Ok::<RegularModel, ProtocolError>(r),
{
    let body = ser_regular(r);
    let tb = ser_txs(r.transactions);
    let sb = ser_bytes(r.signature, 2);
    lemma_pow256_values();
    assert(body.subrange(0, 32) =~= r.pointer);
    assert(body.subrange(32, 40) =~= be64(r.baker_id));
    assert(body.subrange(40, 120) =~= r.proof);
    assert(body.subrange(120, 200) =~= r.nonce);
    assert(body.subrange(200, 232) =~= r.last_finalized);
    assert(body.subrange(232, 240) =~= be64(r.transactions.len() as u64));
    lemma_u64_at(body, 32, r.baker_id);
    lemma_u64_at(body, 232, r.transactions.len() as u64);
    assert(body.skip(240) =~= tb + sb);
    lemma_txs_round_trip(r.transactions, sb);
    assert(body.skip(240 + tb.len() as int) =~= sb + Seq::<u8>::empty());
    lemma_bytes_round_trip(r.signature, 2, SHORT_BYTES_CAP as nat, Seq::empty());
}

/// Decoding the canonical form of a valid block gives it back.
pub proof fn lemma_block_round_trip(b: BlockModel)
    requires
        block_wf(b),
    ensures
        parse_block(ser_block(b)) == Ok::<BlockModel, ProtocolError>(b),
{
    let s = ser_block(b);
    lemma_pow256_values();
    assert(s.subrange(0, 8) =~= be64(b.slot));
    lemma_u64_at(s, 0, b.slot);
    match b.data {
        BlockDataModel::Genesis(g) => {
            assert(s.skip(8) =~= g);
        },
        BlockDataModel::Regular(r) => {
            assert(s.skip(8) =~= ser_regular(r));
            lemma_regular_round_trip(r);
        },
    }
}

proof fn lemma_regular_canonical(body: Seq<u8>)
    requires
        parse_regular(body) is Ok,
    ensures
        ser_regular(parse_regular(body)->Ok_0) == body,
        ({
            let r = parse_regular(body)->Ok_0;
            &&& r.pointer.len() == HASH_LEN
            &&& r.proof.len() == PROOF_LENGTH
            &&& r.nonce.len() == PROOF_LENGTH
            &&& r.last_finalized.len() == HASH_LEN
            &&& all_tx_wf(r.transactions)
            &&& r.transactions.len() <= u64::MAX
            &&& r.signature.len() <= SHORT_BYTES_CAP
        }),
{
    let count = u64_at(body, 232);
    lemma_txs_canonical(body.skip(240), count as nat);
    let (txs, m) = parse_txs(body.skip(240), count as nat)->Ok_0;
    let rest = body.skip(240 + m);
    lemma_bytes_canonical(rest, 2, SHORT_BYTES_CAP as nat);
    let (sig, n) = parse_bytes(rest, 2, SHORT_BYTES_CAP as nat)->Ok_0;
    lemma_u64_canonical(body, 32);
    lemma_u64_canonical(body, 232);
    let r = parse_regular(body)->Ok_0;
    assert(rest.take(n) =~= rest);
    assert(body.subrange(240, 240 + m) =~= body.skip(240).take(m));
    assert(body =~= body.subrange(0, 32) + body.subrange(32, 40) + body.subrange(40, 120) + body.subrange(120, 200)
        + body.subrange(200, 232) + body.subrange(232, 240) + body.subrange(240, 240 + m) + rest);
    assert(body =~= ser_regular(r));
}

/// A decoded block is valid and its canonical form is exactly the input.
pub proof fn lemma_block_canonical(s: Seq<u8>)
    requires
        parse_block(s) is Ok,
    ensures
        block_wf(parse_block(s)->Ok_0),
        ser_block(parse_block(s)->Ok_0) == s,
{
    lemma_u64_canonical(s, 0);
    assert(s =~= s.subrange(0, 8) + s.skip(8));
    if u64_at(s, 0) != 0 {
        lemma_regular_canonical(s.skip(8));
    }
}


proof fn lemma_txs_prefix(x: Seq<u8>, y: Seq<u8>, c: nat)
    requires
        parse_txs(x, c) is Ok,
        x.len() <= y.len(),
        x == y.take(x.len() as int),
    ensures
        parse_txs(y, c) == parse_txs(x, c),
{
    lemma_txs_canonical(x, c);
    let (t, m) = parse_txs(x, c)->Ok_0;
    let rest = y.skip(m);
    assert(ser_txs(t) + rest =~= y);
    lemma_txs_round_trip(t, rest);
}

proof fn lemma_bytes_prefix(x: Seq<u8>, y: Seq<u8>)
    requires
        parse_bytes(x, 2, SHORT_BYTES_CAP as nat) is Ok,
        x.len() <= y.len(),
        x == y.take(x.len() as int),
    ensures
        parse_bytes(y, 2, SHORT_BYTES_CAP as nat) == parse_bytes(x, 2, SHORT_BYTES_CAP as nat),
{
    lemma_bytes_canonical(x, 2, SHORT_BYTES_CAP as nat);
    let (b, n) = parse_bytes(x, 2, SHORT_BYTES_CAP as nat)->Ok_0;
    let rest = y.skip(n);
    assert(ser_bytes(b, 2) + rest =~= y);
    lemma_bytes_round_trip(b, 2, SHORT_BYTES_CAP as nat, rest);
}

proof fn lemma_regular_prefix_fails(body: Seq<u8>, k: int)
    requires
        parse_regular(body) is Ok,
        0 <= k < body.len(),
    ensures
        parse_regular(body.take(k)) is Err,
{
    let short = body.take(k);
    if parse_regular(short) is Ok {
        let count = u64_at(short, 232);
        assert(short.subrange(232, 240) =~= body.subrange(232, 240));
        assert(short.skip(240) =~= body.skip(240).take(short.skip(240).len() as int));
        lemma_txs_prefix(short.skip(240), body.skip(240), count as nat);
        lemma_txs_canonical(short.skip(240), count as nat);
        let (txs, m) = parse_txs(body.skip(240), count as nat)->Ok_0;
        assert(short.skip(240 + m) =~= body.skip(240 + m).take(short.skip(240 + m).len() as int));
        lemma_bytes_prefix(short.skip(240 + m), body.skip(240 + m));
    }
}

/// Every proper prefix of a baked block's canonical form fails to decode. (A prefix of
/// the genesis block that keeps its slot decodes as another genesis block, whose body
/// is opaque.)
pub proof fn lemma_block_truncated(b: BlockModel, k: int)
    requires
        block_wf(b),
        b.data is Regular,
        0 <= k < ser_block(b).len(),
    ensures
        parse_block(ser_block(b).take(k)) is Err,
{
    let s = ser_block(b);
    let short = s.take(k);
    lemma_pow256_values();
    assert(s.subrange(0, 8) =~= be64(b.slot));
    lemma_u64_at(s, 0, b.slot);
    if k >= 8 {
        assert(short.subrange(0, 8) =~= s.subrange(0, 8));
        let r = b.data->Regular_0;
        assert(s.skip(8) =~= ser_regular(r));
        assert(short.skip(8) =~= ser_regular(r).take(k - 8));
        lemma_regular_round_trip(r);
        lemma_regular_prefix_fails(ser_regular(r), k - 8);
    }
}

/// The identity of a block decoded from `bytes` is the SHA-256 of `bytes` themselves.
pub proof fn lemma_block_identity(bytes: Seq<u8>)
    requires
        parse_block(bytes) is Ok,
    ensures
        sha256_of(ser_block(parse_block(bytes)->Ok_0)) == sha256_of(bytes),
{
    lemma_block_canonical(bytes);
}


/// Reads `count` transactions from the start of `s`; gives them and the bytes they took.
pub fn read_transactions(s: &[u8], count: u64) -> (r: Result<(Vec<Transaction>, usize), ProtocolError>)
    ensures
        match (r, parse_txs(s@, count as nat)) {
            (Ok((ts, m)), Ok((sts, sm))) => txs_view(ts@) == sts && m == sm,
            (Err(e), Err(se)) => e == se,
            _ => false,
        },
{
    let mut acc: Vec<Transaction> = Vec::new();
    let mut c: usize = 0;
    let mut i: u64 = 0;
    assert(s@.skip(0) =~= s@);
    assert(txs_view(acc@) =~= Seq::<TransactionModel>::empty());
    while i < count
        invariant
            c <= s@.len(),
            i <= count,
            parse_txs(s@, count as nat) == (match parse_txs(s@.skip(c as int), (count - i) as nat) {
                Ok((ts, m)) => Ok((txs_view(acc@) + ts, c + m)),
                Err(e) => Err(e),
            }),
        decreases count - i,
    {
        let rest = vstd::slice::slice_subrange(s, c, s.len());
        let (t, n) = match Transaction::deserialize(rest) {
            Ok(x) => x,
            Err(e) => return Err(e),
        };
        proof {
            lemma_tx_canonical(rest@);
            assert(s@.skip(c as int).skip(n as int) =~= s@.skip(c + n));
            let ghost old_view = txs_view(acc@);
            assert(txs_view(acc@.push(t)) =~= old_view.push(t@));
            match parse_txs(s@.skip(c + n), (count - i - 1) as nat) {
                Ok((ts, m)) => {
                    assert(old_view.push(t@) + ts =~= old_view + (seq![t@] + ts));
                },
                Err(_) => {},
            }
        }
        acc.push(t);
        c = c + n;
        i = i + 1;
    }
    proof {
        assert(txs_view(acc@) + Seq::<TransactionModel>::empty() =~= txs_view(acc@));
    }
    Ok((acc, c))
}

/// Appends the wire forms of the transactions, one after another.
pub fn write_transactions(out: &mut Vec<u8>, ts: &Vec<Transaction>)
    requires
        all_tx_wf(txs_view(ts@)),
    ensures
        final(out)@ == old(out)@ + ser_txs(txs_view(ts@)),
{
    let ghost start = out@;
    let mut i: usize = 0;
    while i < ts.len()
        invariant
            i <= ts@.len(),
            all_tx_wf(txs_view(ts@)),
            out@ == start + ser_txs(txs_view(ts@).take(i as int)),
        decreases ts@.len() - i,
    {
        proof {
            assert(txs_view(ts@)[i as int] == ts@[i as int]@);
            assert(txs_view(ts@).take(i + 1) =~= txs_view(ts@).take(i as int).push(ts@[i as int]@));
            lemma_ser_txs_push(txs_view(ts@).take(i as int), ts@[i as int]@);
        }
        ts[i].serial(out);
        i = i + 1;
    }
    assert(txs_view(ts@).take(ts@.len() as int) =~= txs_view(ts@));
}

impl Block {
    /// Reads a whole byte string as one block.
    pub fn deserialize(bytes: &[u8]) -> (r: Result<Block, ProtocolError>)
        ensures
            match (r, parse_block(bytes@)) {
                (Ok(b), Ok(sb)) => b@ == sb,
                (Err(e), Err(se)) => e == se,
                _ => false,
            },
    {
        if bytes.len() < 8 {
            return Err(ProtocolError::Truncated);
        }
        let slot = read_u64(bytes, 0);
        if slot == 0 {
            return Ok(Block { slot, data: BlockData::Genesis(copy_range(bytes, 8, bytes.len())) });
        }
        let body = vstd::slice::slice_subrange(bytes, 8, bytes.len());
        if body.len() < 240 {
            return Err(ProtocolError::Truncated);
        }
        let pointer = copy_range(body, 0, 32);
        let baker_id = read_u64(body, 32);
        let proof = copy_range(body, 40, 120);
        let nonce = copy_range(body, 120, 200);
        let last_finalized = copy_range(body, 200, 232);
        let count = read_u64(body, 232);
        let txs_bytes = vstd::slice::slice_subrange(body, 240, body.len());
        let (transactions, m) = match read_transactions(txs_bytes, count) {
            Ok(x) => x,
            Err(e) => return Err(e),
        };
        proof {
            lemma_txs_canonical(txs_bytes@, count as nat);
        }
        let p = 240 + m;
        assert(body@.skip(p as int) =~= body@.skip(p as int).skip(0));
        let (signature, end) = match read_bytes(body, p, 2, SHORT_BYTES_CAP) {
            Ok(x) => x,
            Err(e) => return Err(e),
        };
        if end != body.len() {
            return Err(ProtocolError::Malformed);
        }
        let fields = BlockFields { pointer, baker_id, proof, nonce, last_finalized };
        Ok(Block { slot, data: BlockData::Regular(BakedBlock { fields, transactions, signature }) })
    }

    /// Appends the canonical form of the block.
    pub fn serial(&self, out: &mut Vec<u8>)
        requires
            block_wf(self@),
        ensures
            final(out)@ == old(out)@ + ser_block(self@),
    {
        let ghost start = out@;
        proof {
            lemma_pow256_values();
        }
        push_u64(out, self.slot);
        match &self.data {
            BlockData::Genesis(g) => {
                append_range(out, g.as_slice(), 0, g.len());
                assert(g@.subrange(0, g@.len() as int) =~= g@);
            },
            BlockData::Regular(b) => {
                let f = &b.fields;
                append_range(out, f.pointer.as_slice(), 0, f.pointer.len());
                push_u64(out, f.baker_id);
                append_range(out, f.proof.as_slice(), 0, f.proof.len());
                append_range(out, f.nonce.as_slice(), 0, f.nonce.len());
                append_range(out, f.last_finalized.as_slice(), 0, f.last_finalized.len());
                push_u64(out, b.transactions.len() as u64);
                write_transactions(out, &b.transactions);
                push_bytes(out, b.signature.as_slice(), 2);
                assert(f.pointer@.subrange(0, f.pointer@.len() as int) =~= f.pointer@);
                assert(f.proof@.subrange(0, f.proof@.len() as int) =~= f.proof@);
                assert(f.nonce@.subrange(0, f.nonce@.len() as int) =~= f.nonce@);
                assert(f.last_finalized@.subrange(0, f.last_finalized@.len() as int) =~= f.last_finalized@);
                assert(txs_view(b.transactions@).len() == b.transactions@.len());
            },
        }
        assert(out@ =~= start + ser_block(self@));
    }

    /// The canonical form of the block.
    pub fn serialize(&self) -> (r: Vec<u8>)
        requires
            block_wf(self@),
        ensures
            r@ == ser_block(self@),
    {
        let mut out: Vec<u8> = Vec::new();
        self.serial(&mut out);
        assert(out@ =~= ser_block(self@));
        out
    }

    /// The block's identity: the SHA-256 of its canonical form.
    pub fn hash(&self) -> (r: Vec<u8>)
        requires
            block_wf(self@),
        ensures
            r@ == sha256_of(ser_block(self@)),
            r@.len() == 32,
    {
        let bytes = self.serialize();
        sha256(bytes.as_slice())
    }

    pub fn slot(&self) -> (r: u64)
        ensures
            r == self.slot,
    {
        self.slot
    }

    pub fn is_genesis(&self) -> (r: bool)
        ensures
            r == (self.slot == 0),
    {
        self.slot == 0
    }

    /// The previous block's hash; the genesis block has none.
    pub fn pointer(&self) -> (r: Option<&Vec<u8>>)
        ensures
            match self.data {
                BlockData::Genesis(_) => r is None,
                BlockData::Regular(b) => r == Some(&b.fields.pointer),
            },
    {
        match &self.data {
            BlockData::Genesis(_) => None,
            BlockData::Regular(b) => Some(&b.fields.pointer),
        }
    }

    /// The last finalized block's hash; the genesis block has none.
    pub fn last_finalized(&self) -> (r: Option<&Vec<u8>>)
        ensures
            match self.data {
                BlockData::Genesis(_) => r is None,
                BlockData::Regular(b) => r == Some(&b.fields.last_finalized),
            },
    {
        match &self.data {
            BlockData::Genesis(_) => None,
            BlockData::Regular(b) => Some(&b.fields.last_finalized),
        }
    }

    pub fn genesis_data(&self) -> (r: &Vec<u8>)
        requires
            self.data is Genesis,
        ensures
            self.data == BlockData::Genesis(*r),
    {
        match &self.data {
            BlockData::Genesis(g) => g,
            BlockData::Regular(_) => {
                vstd::pervasive::unreached()
            },
        }
    }

    pub fn block_data(&self) -> (r: &BakedBlock)
        requires
            self.data is Regular,
        ensures
            self.data == BlockData::Regular(*r),
    {
        match &self.data {
            BlockData::Regular(b) => b,
            BlockData::Genesis(_) => {
                vstd::pervasive::unreached()
            },
        }
    }
}

/// The hash that identifies a pending block: the SHA-256 of its canonical form. Transactions
/// carry no timestamps, so the bare and the full form coincide.
pub fn hash_without_timestamps(block: &Block) -> (r: Result<Vec<u8>, ProtocolError>)
    requires
        block_wf(block@),
    ensures
        match r {
            Ok(h) => block.slot != 0 && h@ == sha256_of(ser_block(block@)) && h@.len() == 32,
            Err(e) => block.slot == 0 && e == ProtocolError::UnexpectedGenesis,
        },
{
    match &block.data {
        BlockData::Genesis(_) => Err(ProtocolError::UnexpectedGenesis),
        BlockData::Regular(_) => Ok(block.hash()),
    }
}

/// A baked block received from the network, with its identity.
#[derive(Debug, Clone)]
pub struct PendingBlock {
    pub hash: Vec<u8>,
    pub block: Block,
}

impl PendingBlock {
    /// Decodes a baked block; its hash is the SHA-256 of `bytes`.
    pub fn new(bytes: &[u8]) -> (r: Result<PendingBlock, ProtocolError>)
        ensures
            match (r, parse_block(bytes@)) {
                (Ok(pb), Ok(b)) => b.slot != 0 && pb.block@ == b && pb.hash@ == sha256_of(bytes@) && pb.hash@.len() == 32,
                (Err(e), Ok(b)) => b.slot == 0 && e == ProtocolError::UnexpectedGenesis,
                (Err(e), Err(se)) => e == se,
                _ => false,
            },
    {
        let block = match Block::deserialize(bytes) {
            Ok(b) => b,
            Err(e) => return Err(e),
        };
        proof {
            lemma_block_canonical(bytes@);
        }
        let hash = match hash_without_timestamps(&block) {
            Ok(h) => h,
            Err(e) => return Err(e),
        };
        Ok(PendingBlock { hash, block })
    }
}

} // verus!
