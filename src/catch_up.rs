use vstd::prelude::*;
use crate::wire::{ProtocolError, be32, be64, u32_at, u64_at, lemma_pow256_values, lemma_u32_at, lemma_u64_at,
    lemma_u32_canonical, lemma_u64_canonical, read_u32, read_u64, push_u32, push_u64, append_range, copy_range};
use crate::transaction::HASH_LEN;

verus! {

/// Where a node stands in finalization, sent to ask a peer for what it lacks.
#[derive(Debug, Clone)]
pub struct CatchUpStatus {
    pub is_request: bool,
    pub last_finalized_block: Vec<u8>,
    pub last_finalized_height: u64,
    pub best_block: Vec<u8>,
    pub finalization_justifiers: Vec<Vec<u8>>,
}

pub struct CatchUpModel {
    pub is_request: bool,
    pub last_finalized_block: Seq<u8>,
    pub last_finalized_height: u64,
    pub best_block: Seq<u8>,
    pub finalization_justifiers: Seq<Seq<u8>>,
}

impl View for CatchUpStatus {
    type V = CatchUpModel;

    open spec fn view(&self) -> CatchUpModel {
        CatchUpModel {
            is_request: self.is_request,
            last_finalized_block: self.last_finalized_block@,
            last_finalized_height: self.last_finalized_height,
            best_block: self.best_block@,
            finalization_justifiers: self.finalization_justifiers@.map_values(|j: Vec<u8>| j@),
        }
    }
}

/// Hashes are 32 bytes and the justifiers fit their `u32` count.
pub open spec fn catch_up_wf(c: CatchUpModel) -> bool {
    &&& c.last_finalized_block.len() == HASH_LEN
    &&& c.best_block.len() == HASH_LEN
    &&& c.finalization_justifiers.len() <= u32::MAX
    &&& forall|i: int| 0 <= i < c.finalization_justifiers.len() ==> (#[trigger] c.finalization_justifiers[i]).len() == HASH_LEN
}

pub open spec fn hashes_body(js: Seq<Seq<u8>>) -> Seq<u8>
    decreases js.len(),
{
    if js.len() == 0 {
        Seq::empty()
    } else {
        js[0] + hashes_body(js.skip(1))
    }
}

pub open spec fn parse_hashes(s: Seq<u8>, k: nat) -> Result<(Seq<Seq<u8>>, int), ProtocolError>
    decreases k,
{
    if k == 0 {
        Ok((Seq::empty(), 0))
    } else if s.len() < 32 {
        Err(ProtocolError::Truncated)
    } else {
        match parse_hashes(s.skip(32), (k - 1) as nat) {
            Err(e) => Err(e),
            Ok((js, m)) => Ok((seq![s.take(32)] + js, 32 + m)),
        }
    }
}

/// `is_request:u8 | last_finalized:32 | last_finalized_height:u64 | best:32 | count:u32 | justifiers`.
pub open spec fn ser_catch_up(c: CatchUpModel) -> Seq<u8> {
    seq![if c.is_request { 1u8 } else { 0u8 }] + c.last_finalized_block + be64(c.last_finalized_height) + c.best_block
        + be32(c.finalization_justifiers.len() as u32) + hashes_body(c.finalization_justifiers)
}

pub open spec fn parse_catch_up(s: Seq<u8>) -> Result<(CatchUpModel, int), ProtocolError> {
    if s.len() < 1 {
        Err(ProtocolError::Truncated)
    } else if s[0] > 1 {
        Err(ProtocolError::UnknownVariant)
    } else if s.len() < 77 {
        Err(ProtocolError::Truncated)
    } else {
        match parse_hashes(s.skip(77), u32_at(s, 73) as nat) {
            Err(e) => Err(e),
            Ok((js, m)) => Ok((CatchUpModel {
                is_request: s[0] == 1,
                last_finalized_block: s.subrange(1, 33),
                last_finalized_height: u64_at(s, 33),
                best_block: s.subrange(41, 73),
                finalization_justifiers: js,
            }, 77 + m)),
        }
    }
}

proof fn lemma_hashes_round_trip(js: Seq<Seq<u8>>, rest: Seq<u8>)
    requires
        forall|i: int| 0 <= i < js.len() ==> (#[trigger] js[i]).len() == HASH_LEN,
    ensures
        parse_hashes(hashes_body(js) + rest, js.len()) == Ok::<(Seq<Seq<u8>>, int), ProtocolError>((js, hashes_body(js).len() as int)),
    decreases js.len(),
{
    if js.len() > 0 {
        let s = hashes_body(js) + rest;
        assert(js[0].len() == 32);
        assert(s.take(32) =~= js[0]);
        assert(s.skip(32) =~= hashes_body(js.skip(1)) + rest);
        assert forall|i: int| 0 <= i < js.skip(1).len() implies (#[trigger] js.skip(1)[i]).len() == HASH_LEN by {
            assert(js.skip(1)[i] == js[i + 1]);
        }
        lemma_hashes_round_trip(js.skip(1), rest);
        assert(seq![js[0]] + js.skip(1) =~= js);
    } else {
        assert(js =~= Seq::<Seq<u8>>::empty());
    }
}

proof fn lemma_hashes_canonical(s: Seq<u8>, k: nat)
    requires
        parse_hashes(s, k) is Ok,
    ensures
        ({
            let (js, m) = parse_hashes(s, k)->Ok_0;
            &&& js.len() == k
            &&& 0 <= m <= s.len()
            &&& s.take(m) == hashes_body(js)
            &&& forall|i: int| 0 <= i < js.len() ==> (#[trigger] js[i]).len() == HASH_LEN
        }),
    decreases k,
{
    if k > 0 {
        lemma_hashes_canonical(s.skip(32), (k - 1) as nat);
        let (js, m) = parse_hashes(s.skip(32), (k - 1) as nat)->Ok_0;
        let all = seq![s.take(32)] + js;
        assert(all.skip(1) =~= js);
        assert(s.take(32 + m) =~= s.take(32) + s.skip(32).take(m));
        assert forall|i: int| 0 <= i < all.len() implies (#[trigger] all[i]).len() == HASH_LEN by {
            if i > 0 {
                assert(all[i] == js[i - 1]);
            }
        }
    } else {
        assert(s.take(0) =~= Seq::<u8>::empty());
    }
}

/// Decoding the wire form of a valid status gives it back, whatever follows it.
pub proof fn lemma_catch_up_round_trip(c: CatchUpModel, rest: Seq<u8>)
    requires
        catch_up_wf(c),
    ensures
        parse_catch_up(ser_catch_up(c) + rest) == Ok::<(CatchUpModel, int), ProtocolError>((c, ser_catch_up(c).len() as int)),
{
    let s = ser_catch_up(c) + rest;
    lemma_pow256_values();
    assert(s.subrange(1, 33) =~= c.last_finalized_block);
    assert(s.subrange(33, 41) =~= be64(c.last_finalized_height));
    assert(s.subrange(41, 73) =~= c.best_block);
    assert(s.subrange(73, 77) =~= be32(c.finalization_justifiers.len() as u32));
    lemma_u64_at(s, 33, c.last_finalized_height);
    lemma_u32_at(s, 73, c.finalization_justifiers.len() as u32);
    assert(s.skip(77) =~= hashes_body(c.finalization_justifiers) + rest);
    lemma_hashes_round_trip(c.finalization_justifiers, rest);
}

/// A decoded status is valid and its wire form is exactly the bytes consumed.
pub proof fn lemma_catch_up_canonical(s: Seq<u8>)
    requires
        parse_catch_up(s) is Ok,
    ensures
        ({
            let (c, n) = parse_catch_up(s)->Ok_0;
            catch_up_wf(c) && 0 < n <= s.len() && s.take(n) == ser_catch_up(c)
        }),
{
    let k = u32_at(s, 73);
    lemma_hashes_canonical(s.skip(77), k as nat);
    lemma_u64_canonical(s, 33);
    lemma_u32_canonical(s, 73);
    let (js, m) = parse_hashes(s.skip(77), k as nat)->Ok_0;
    let (c, n) = parse_catch_up(s)->Ok_0;
    assert(s.take(n) =~= ser_catch_up(c));
}

impl CatchUpStatus {
    /// Appends the wire form of the status.
    pub fn serial(&self, out: &mut Vec<u8>)
        requires
            catch_up_wf(self@),
        ensures
            final(out)@ == old(out)@ + ser_catch_up(self@),
    {
        let ghost start = out@;
        out.push(if self.is_request { 1u8 } else { 0u8 });
        append_range(out, self.last_finalized_block.as_slice(), 0, self.last_finalized_block.len());
        push_u64(out, self.last_finalized_height);
        append_range(out, self.best_block.as_slice(), 0, self.best_block.len());
        push_u32(out, self.finalization_justifiers.len() as u32);
        let ghost mid = out@;
        let ghost js = self@.finalization_justifiers;
        let mut i: usize = 0;
        assert(js.skip(0) =~= js);
        while i < self.finalization_justifiers.len()
            invariant
                i <= js.len(),
                js == self@.finalization_justifiers,
                js.len() == self.finalization_justifiers@.len(),
                out@ + hashes_body(js.skip(i as int)) == mid + hashes_body(js),
            decreases js.len() - i,
        {
            let ghost before = out@;
            let j = &self.finalization_justifiers[i];
            proof {
                assert(js.skip(i as int).skip(1) =~= js.skip(i + 1));
                assert(js[i as int] == j@);
            }
            append_range(out, j.as_slice(), 0, j.len());
            assert(j@.subrange(0, j@.len() as int) =~= j@);
            i = i + 1;
            assert(out@ + hashes_body(js.skip(i as int)) =~= before + hashes_body(js.skip(i - 1)));
        }
        assert(js.skip(i as int) =~= Seq::<Seq<u8>>::empty());
        assert(self.last_finalized_block@.subrange(0, 32) =~= self.last_finalized_block@);
        assert(self.best_block@.subrange(0, 32) =~= self.best_block@);
        assert(out@ =~= start + ser_catch_up(self@));
    }

    pub fn serialize(&self) -> (r: Vec<u8>)
        requires
            catch_up_wf(self@),
        ensures
            r@ == ser_catch_up(self@),
    {
        let mut out: Vec<u8> = Vec::new();
        self.serial(&mut out);
        assert(out@ =~= ser_catch_up(self@));
        out
    }

    /// Reads a status from the start of `s`; gives it and the bytes it took.
    pub fn deserialize(s: &[u8]) -> (r: Result<(CatchUpStatus, usize), ProtocolError>)
        ensures
            match (r, parse_catch_up(s@)) {
                (Ok((c, n)), Ok((sc, sn))) => c@ == sc && n == sn,
                (Err(e), Err(se)) => e == se,
                _ => false,
            },
    {
        if s.len() < 1 {
            return Err(ProtocolError::Truncated);
        }
        if s[0] > 1 {
            return Err(ProtocolError::UnknownVariant);
        }
        if s.len() < 77 {
            return Err(ProtocolError::Truncated);
        }
        let k = read_u32(s, 73);
        let mut js: Vec<Vec<u8>> = Vec::new();
        let mut p: usize = 77;
        let mut i: u32 = 0;
        let ghost t = s@.skip(77);
        assert(js@.map_values(|j: Vec<u8>| j@) =~= Seq::<Seq<u8>>::empty());
        while i < k
            invariant
                77 <= p <= s@.len(),
                s@[0] <= 1,
                i <= k,
                t == s@.skip(77),
                k == u32_at(s@, 73),
                parse_hashes(t, k as nat) == (match parse_hashes(s@.skip(p as int), (k - i) as nat) {
                    Ok((rest, m)) => Ok((js@.map_values(|j: Vec<u8>| j@) + rest, (p - 77) + m)),
                    Err(e) => Err(e),
                }),
            decreases k - i,
        {
            if s.len() - p < 32 {
                assert(parse_hashes(s@.skip(p as int), (k - i) as nat)
                    == Err::<(Seq<Seq<u8>>, int), ProtocolError>(ProtocolError::Truncated));
                return Err(ProtocolError::Truncated);
            }
            let h = copy_range(s, p, p + 32);
            proof {
                let u = s@.skip(p as int);
                assert(u.take(32) =~= h@);
                assert(u.skip(32) =~= s@.skip(p + 32));
                let old_view = js@.map_values(|j: Vec<u8>| j@);
                assert(js@.push(h).map_values(|j: Vec<u8>| j@) =~= old_view.push(h@));
                match parse_hashes(s@.skip(p + 32), (k - i - 1) as nat) {
                    Ok((rest, m)) => {
                        assert(old_view.push(h@) + rest =~= old_view + (seq![h@] + rest));
                    },
                    Err(_) => {},
                }
            }
            js.push(h);
            p = p + 32;
            i = i + 1;
        }
        assert(js@.map_values(|j: Vec<u8>| j@) + Seq::<Seq<u8>>::empty() =~= js@.map_values(|j: Vec<u8>| j@));
        let c = CatchUpStatus {
            is_request: s[0] == 1,
            last_finalized_block: copy_range(s, 1, 33),
            last_finalized_height: read_u64(s, 33),
            best_block: copy_range(s, 41, 73),
            finalization_justifiers: js,
        };
        Ok((c, p))
    }
}


/// Every proper prefix of a valid status's wire form fails to decode.
pub proof fn lemma_catch_up_truncated(c: CatchUpModel, k: int)
    requires
        catch_up_wf(c),
        0 <= k < ser_catch_up(c).len(),
    ensures
        parse_catch_up(ser_catch_up(c).take(k)) is Err,
{
    let s = ser_catch_up(c).take(k);
    if parse_catch_up(s) is Ok {
        let (c2, n2) = parse_catch_up(s)->Ok_0;
        lemma_catch_up_canonical(s);
        let rest = ser_catch_up(c).skip(n2);
        assert(ser_catch_up(c2) + rest =~= ser_catch_up(c));
        lemma_catch_up_round_trip(c2, rest);
        lemma_catch_up_round_trip(c, Seq::empty());
        assert(ser_catch_up(c) + Seq::<u8>::empty() =~= ser_catch_up(c));
    }
}

} // verus!
