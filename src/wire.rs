use vstd::prelude::*;
use vstd::arithmetic::div_mod::{lemma_div_denominator, lemma_mod_breakdown, lemma_fundamental_div_mod_converse};

verus! {

/// Why a byte string could not be decoded.
#[derive(Debug, Clone, Copy, PartialEq, Eq, Structural)]
pub enum ProtocolError {
    /// The input ended before the value did.
    Truncated,
    /// A length prefix is above the protocol's cap for that field.
    LengthExceeded,
    /// A tag names no known variant.
    UnknownVariant,
    /// A field that must be nonzero is zero.
    ZeroField,
    /// Sizes inside the value do not fit together.
    Malformed,
    /// A genesis block stands where only a baked block may.
    UnexpectedGenesis,
}

/// `256^n`.
pub open spec fn pow256(n: nat) -> nat
    decreases n,
{
    if n == 0 {
        1
    } else {
        256 * pow256((n - 1) as nat)
    }
}

/// The unsigned integer that the bytes `s` spell in big-endian order.
pub open spec fn be_nat(s: Seq<u8>) -> nat
    decreases s.len(),
{
    if s.len() == 0 {
        0
    } else {
        be_nat(s.drop_last()) * 256 + s.last() as nat
    }
}

/// Byte `j` of `v`, counted from the least significant one.
pub open spec fn digit(v: nat, j: nat) -> u8 {
    ((v / pow256(j)) % 256) as u8
}

/// The `n` low bytes of `v`, most significant first.
pub open spec fn be_bytes(v: nat, n: nat) -> Seq<u8> {
    Seq::new(n, |i: int| digit(v, (n - 1 - i) as nat))
}

pub open spec fn be16(v: u16) -> Seq<u8> {
    be_bytes(v as nat, 2)
}

pub open spec fn be32(v: u32) -> Seq<u8> {
    be_bytes(v as nat, 4)
}

pub open spec fn be64(v: u64) -> Seq<u8> {
    be_bytes(v as nat, 8)
}

/// A byte string behind a big-endian length prefix of `w` bytes.
pub open spec fn ser_bytes(b: Seq<u8>, w: nat) -> Seq<u8> {
    be_bytes(b.len(), w) + b
}

/// Reads a byte string behind a `w`-byte length prefix whose value may not exceed `cap`.
/// On success gives the string and the number of bytes consumed.
pub open spec fn parse_bytes(s: Seq<u8>, w: nat, cap: nat) -> Result<(Seq<u8>, int), ProtocolError> {
    if s.len() < w {
        Err(ProtocolError::Truncated)
    } else {
        let l = be_nat(s.take(w as int));
        if l > cap {
            Err(ProtocolError::LengthExceeded)
        } else if s.len() < w + l {
            Err(ProtocolError::Truncated)
        } else {
            Ok((s.subrange(w as int, (w + l) as int), (w + l) as int))
        }
    }
}

pub proof fn lemma_pow256_values()
    ensures
        pow256(0) == 1,
        pow256(1) == 256,
        pow256(2) == 0x1_0000,
        pow256(3) == 0x100_0000,
        pow256(4) == 0x1_0000_0000,
        pow256(5) == 0x100_0000_0000,
        pow256(6) == 0x1_0000_0000_0000,
        pow256(7) == 0x100_0000_0000_0000,
        pow256(8) == 0x1_0000_0000_0000_0000,
{
    reveal_with_fuel(pow256, 9);
}

pub proof fn lemma_pow256_pos(n: nat)
    ensures
        pow256(n) > 0,
    decreases n,
{
    if n > 0 {
        lemma_pow256_pos((n - 1) as nat);
    }
}

pub proof fn lemma_be_nat_bound(s: Seq<u8>)
    ensures
        be_nat(s) < pow256(s.len()),
    decreases s.len(),
{
    if s.len() > 0 {
        lemma_be_nat_bound(s.drop_last());
        let a = be_nat(s.drop_last());
        let p = pow256((s.len() - 1) as nat);
        assert(a * 256 + s.last() < p * 256) by (nonlinear_arith)
            requires
                a < p,
                s.last() < 256,
        ;
    }
}

/// Peeling the last byte off `be_bytes`.
pub proof fn lemma_be_bytes_last(v: nat, n: nat)
    requires
        n > 0,
    ensures
        be_bytes(v, n) == be_bytes(v / 256, (n - 1) as nat).push((v % 256) as u8),
{
    let a = be_bytes(v, n);
    let b = be_bytes(v / 256, (n - 1) as nat).push((v % 256) as u8);
    assert forall|i: int| 0 <= i < n implies a[i] == b[i] by {
        let j = (n - 1 - i) as nat;
        if i < n - 1 {
            let j1 = (j - 1) as nat;
            lemma_pow256_pos(j1);
            lemma_div_denominator(v as int, 256, pow256(j1) as int);
            assert(pow256(j) == 256 * pow256(j1));
        } else {
            assert(pow256(0) == 1);
        }
    }
    assert(a =~= b);
}

/// Decoding what was encoded gives the value back, reduced to `n` bytes.
pub proof fn lemma_be_nat_of_bytes(v: nat, n: nat)
    ensures
        be_nat(be_bytes(v, n)) == v % pow256(n),
    decreases n,
{
    if n == 0 {
        assert(v % 1 == 0);
    } else {
        lemma_be_bytes_last(v, n);
        assert(be_bytes(v, n).drop_last() =~= be_bytes(v / 256, (n - 1) as nat));
        lemma_be_nat_of_bytes(v / 256, (n - 1) as nat);
        lemma_pow256_pos((n - 1) as nat);
        lemma_mod_breakdown(v as int, 256, pow256((n - 1) as nat) as int);
    }
}

/// A value below `256^n` survives encoding to `n` bytes.
pub proof fn lemma_be_round_trip(v: nat, n: nat)
    requires
        v < pow256(n),
    ensures
        be_nat(be_bytes(v, n)) == v,
        be_bytes(v, n).len() == n,
{
    lemma_be_nat_of_bytes(v, n);
    lemma_pow256_pos(n);
    vstd::arithmetic::div_mod::lemma_small_mod(v, pow256(n));
}

/// Encoding what was decoded gives the bytes back.
pub proof fn lemma_bytes_of_be_nat(s: Seq<u8>)
    ensures
        be_bytes(be_nat(s), s.len()) == s,
    decreases s.len(),
{
    if s.len() > 0 {
        let t = s.drop_last();
        let x = be_nat(s);
        lemma_bytes_of_be_nat(t);
        lemma_be_bytes_last(x, s.len());
        lemma_fundamental_div_mod_converse(x as int, 256, be_nat(t) as int, s.last() as int);
        assert(s =~= t.push(s.last()));
    }
}

/// Appends the `n` low bytes of `v`, most significant first.
pub fn push_be(out: &mut Vec<u8>, v: u64, n: usize)
    requires
        n <= 8,
        v < pow256(n as nat),
    ensures
        final(out)@ == old(out)@ + be_bytes(v as nat, n as nat),
{
    proof {
        lemma_pow256_values();
    }
    let mut k: usize = 0;
    let mut d: u64 = 1;
    let mut j: usize = 0;
    while j + 1 < n
        invariant
            n <= 8,
            j == 0 || j < n,
            d == pow256(j as nat),
        decreases n - j,
    {
        proof {
            lemma_pow256_values();
        }
        assert(d * 256 == pow256((j + 1) as nat));
        d = d * 256;
        j = j + 1;
    }
    let ghost start = out@;
    while k < n
        invariant
            n <= 8,
            k <= n,
            n > 0 ==> j == n - 1,
            n > 0 && k < n ==> d == pow256((n - 1 - k) as nat),
            out@ == start + be_bytes(v as nat, n as nat).take(k as int),
            start == old(out)@,
        decreases n - k,
    {
        proof {
            lemma_pow256_pos((n - 1 - k) as nat);
        }
        let b = ((v / d) % 256) as u8;
        out.push(b);
        if k + 1 < n {
            proof {
                let p = (n - 2 - k) as nat;
                assert(pow256((n - 1 - k) as nat) == 256 * pow256(p));
            }
            d = d / 256;
        }
        k = k + 1;
        assert(out@ =~= start + be_bytes(v as nat, n as nat).take(k as int));
    }
    assert(be_bytes(v as nat, n as nat).take(n as int) =~= be_bytes(v as nat, n as nat));
}

/// Reads `n` bytes from `pos` as a big-endian integer.
pub fn read_be(buf: &[u8], pos: usize, n: usize) -> (r: u64)
    requires
        n <= 8,
        pos + n <= buf@.len(),
    ensures
        r as nat == be_nat(buf@.subrange(pos as int, pos + n)),
{
    let mut r: u64 = 0;
    let mut i: usize = 0;
    proof {
        lemma_pow256_values();
    }
    while i < n
        invariant
            n <= 8,
            i <= n,
            pos + n <= buf.len(),
            r as nat == be_nat(buf@.subrange(pos as int, pos + i)),
        decreases n - i,
    {
        let ghost s = buf@.subrange(pos as int, pos + i + 1);
        proof {
            lemma_be_nat_bound(buf@.subrange(pos as int, pos + i));
            lemma_pow256_values();
            if i < 7 {
                lemma_pow256_le(i as nat, 7);
            }
            assert(s.drop_last() =~= buf@.subrange(pos as int, pos + i));
            assert(r * 256 + buf@[pos + i] < 0x1_0000_0000_0000_0000) by (nonlinear_arith)
                requires
                    r < pow256(i as nat),
                    pow256(i as nat) <= 0x100_0000_0000_0000,
                    buf@[pos + i] < 256,
            ;
        }
        r = r * 256 + buf[pos + i] as u64;
        i = i + 1;
    }
    r
}

pub proof fn lemma_pow256_le(a: nat, b: nat)
    requires
        a <= b,
    ensures
        pow256(a) <= pow256(b),
    decreases b - a,
{
    if a < b {
        lemma_pow256_le(a, (b - 1) as nat);
        lemma_pow256_pos((b - 1) as nat);
    }
}


/// Appends `src[from..to]` to `out`.
pub fn append_range(out: &mut Vec<u8>, src: &[u8], from: usize, to: usize)
    requires
        from <= to <= src@.len(),
    ensures
        final(out)@ == old(out)@ + src@.subrange(from as int, to as int),
{
    let ghost start = out@;
    let mut i: usize = from;
    while i < to
        invariant
            from <= i <= to <= src@.len(),
            out@ == start + src@.subrange(from as int, i as int),
            start == old(out)@,
        decreases to - i,
    {
        out.push(src[i]);
        i = i + 1;
        assert(out@ =~= start + src@.subrange(from as int, i as int));
    }
}

/// A fresh vector holding `src[from..to]`.
pub fn copy_range(src: &[u8], from: usize, to: usize) -> (r: Vec<u8>)
    requires
        from <= to <= src@.len(),
    ensures
        r@ == src@.subrange(from as int, to as int),
{
    let mut r: Vec<u8> = Vec::new();
    append_range(&mut r, src, from, to);
    assert(r@ =~= src@.subrange(from as int, to as int));
    r
}

/// Appends a byte string behind a `w`-byte length prefix.
pub fn push_bytes(out: &mut Vec<u8>, b: &[u8], w: usize)
    requires
        w <= 8,
        b@.len() < pow256(w as nat),
    ensures
        final(out)@ == old(out)@ + ser_bytes(b@, w as nat),
{
    push_be(out, b.len() as u64, w);
    append_range(out, b, 0, b.len());
    assert(b@.subrange(0, b@.len() as int) =~= b@);
    assert(final(out)@ =~= old(out)@ + ser_bytes(b@, w as nat));
}

/// Reads the byte string at `pos` behind a `w`-byte length prefix, at most `cap` bytes
/// long. On success gives the string and the position after it.
pub fn read_bytes(buf: &[u8], pos: usize, w: usize, cap: u64) -> (r: Result<(Vec<u8>, usize), ProtocolError>)
    requires
        w <= 8,
        pos <= buf@.len(),
    ensures
        match (r, parse_bytes(buf@.skip(pos as int), w as nat, cap as nat)) {
            (Ok((b, end)), Ok((sb, n))) => b@ == sb && end == pos + n,
            (Err(e), Err(se)) => e == se,
            _ => false,
        },
{
    let ghost s = buf@.skip(pos as int);
    if buf.len() - pos < w {
        return Err(ProtocolError::Truncated);
    }
    let l = read_be(buf, pos, w);
    assert(buf@.subrange(pos as int, pos + w) =~= s.take(w as int));
    if l > cap {
        return Err(ProtocolError::LengthExceeded);
    }
    if ((buf.len() - pos - w) as u64) < l {
        return Err(ProtocolError::Truncated);
    }
    let start = pos + w;
    let end = start + l as usize;
    let b = copy_range(buf, start, end);
    assert(b@ =~= s.subrange(w as int, w + l));
    Ok((b, end))
}

/// Reading back a written byte string gives it back, whatever follows.
pub proof fn lemma_bytes_round_trip(b: Seq<u8>, w: nat, cap: nat, rest: Seq<u8>)
    requires
        b.len() <= cap,
        b.len() < pow256(w),
    ensures
        parse_bytes(ser_bytes(b, w) + rest, w, cap) == Ok::<(Seq<u8>, int), ProtocolError>((b, (w + b.len()) as int)),
{
    let s = ser_bytes(b, w) + rest;
    lemma_be_round_trip(b.len(), w);
    assert(s.take(w as int) =~= be_bytes(b.len(), w));
    assert(s.subrange(w as int, (w + b.len()) as int) =~= b);
}

/// What was read is exactly the prefix that writing it produces.
pub proof fn lemma_bytes_canonical(s: Seq<u8>, w: nat, cap: nat)
    requires
        parse_bytes(s, w, cap) is Ok,
    ensures
        ({
            let (b, n) = parse_bytes(s, w, cap)->Ok_0;
            &&& s.take(n) == ser_bytes(b, w)
            &&& b.len() <= cap
            &&& b.len() < pow256(w)
        }),
{
    let (b, n) = parse_bytes(s, w, cap)->Ok_0;
    lemma_bytes_of_be_nat(s.take(w as int));
    lemma_be_nat_bound(s.take(w as int));
    assert(s.take(n) =~= s.take(w as int) + b);
}


/// The big-endian `u16` at offset `p` of `s`.
pub open spec fn u16_at(s: Seq<u8>, p: int) -> u16 {
    be_nat(s.subrange(p, p + 2)) as u16
}

/// The big-endian `u32` at offset `p` of `s`.
pub open spec fn u32_at(s: Seq<u8>, p: int) -> u32 {
    be_nat(s.subrange(p, p + 4)) as u32
}

/// The big-endian `u64` at offset `p` of `s`.
pub open spec fn u64_at(s: Seq<u8>, p: int) -> u64 {
    be_nat(s.subrange(p, p + 8)) as u64
}

pub fn read_u16(buf: &[u8], p: usize) -> (r: u16)
    requires
        p + 2 <= buf@.len(),
    ensures
        r == u16_at(buf@, p as int),
        r as nat == be_nat(buf@.subrange(p as int, p + 2)),
{
    proof {
        lemma_be_nat_bound(buf@.subrange(p as int, p + 2));
        lemma_pow256_values();
    }
    read_be(buf, p, 2) as u16
}

pub fn read_u32(buf: &[u8], p: usize) -> (r: u32)
    requires
        p + 4 <= buf@.len(),
    ensures
        r == u32_at(buf@, p as int),
        r as nat == be_nat(buf@.subrange(p as int, p + 4)),
{
    proof {
        lemma_be_nat_bound(buf@.subrange(p as int, p + 4));
        lemma_pow256_values();
    }
    read_be(buf, p, 4) as u32
}

pub fn read_u64(buf: &[u8], p: usize) -> (r: u64)
    requires
        p + 8 <= buf@.len(),
    ensures
        r == u64_at(buf@, p as int),
        r as nat == be_nat(buf@.subrange(p as int, p + 8)),
{
    read_be(buf, p, 8)
}

pub fn push_u16(out: &mut Vec<u8>, v: u16)
    ensures
        final(out)@ == old(out)@ + be16(v),
{
    proof {
        lemma_pow256_values();
    }
    push_be(out, v as u64, 2);
}

pub fn push_u32(out: &mut Vec<u8>, v: u32)
    ensures
        final(out)@ == old(out)@ + be32(v),
{
    proof {
        lemma_pow256_values();
    }
    push_be(out, v as u64, 4);
}

pub fn push_u64(out: &mut Vec<u8>, v: u64)
    ensures
        final(out)@ == old(out)@ + be64(v),
{
    proof {
        lemma_pow256_values();
    }
    push_be(out, v, 8);
}

/// An encoded `u16` reads back at its offset.
pub proof fn lemma_u16_at(s: Seq<u8>, p: int, v: u16)
    requires
        0 <= p,
        p + 2 <= s.len(),
        s.subrange(p, p + 2) == be16(v),
    ensures
        u16_at(s, p) == v,
{
    lemma_pow256_values();
    lemma_be_round_trip(v as nat, 2);
}

pub proof fn lemma_u32_at(s: Seq<u8>, p: int, v: u32)
    requires
        0 <= p,
        p + 4 <= s.len(),
        s.subrange(p, p + 4) == be32(v),
    ensures
        u32_at(s, p) == v,
{
    lemma_pow256_values();
    lemma_be_round_trip(v as nat, 4);
}

pub proof fn lemma_u64_at(s: Seq<u8>, p: int, v: u64)
    requires
        0 <= p,
        p + 8 <= s.len(),
        s.subrange(p, p + 8) == be64(v),
    ensures
        u64_at(s, p) == v,
{
    lemma_pow256_values();
    lemma_be_round_trip(v as nat, 8);
}

/// Encoding a read integer gives its bytes back.
pub proof fn lemma_u16_canonical(s: Seq<u8>, p: int)
    requires
        0 <= p,
        p + 2 <= s.len(),
    ensures
        be16(u16_at(s, p)) == s.subrange(p, p + 2),
{
    lemma_pow256_values();
    lemma_be_nat_bound(s.subrange(p, p + 2));
    lemma_bytes_of_be_nat(s.subrange(p, p + 2));
}

pub proof fn lemma_u32_canonical(s: Seq<u8>, p: int)
    requires
        0 <= p,
        p + 4 <= s.len(),
    ensures
        be32(u32_at(s, p)) == s.subrange(p, p + 4),
{
    lemma_pow256_values();
    lemma_be_nat_bound(s.subrange(p, p + 4));
    lemma_bytes_of_be_nat(s.subrange(p, p + 4));
}

pub proof fn lemma_u64_canonical(s: Seq<u8>, p: int)
    requires
        0 <= p,
        p + 8 <= s.len(),
    ensures
        be64(u64_at(s, p)) == s.subrange(p, p + 8),
{
    lemma_pow256_values();
    lemma_be_nat_bound(s.subrange(p, p + 8));
    lemma_bytes_of_be_nat(s.subrange(p, p + 8));
}


/// Reads a short byte string (`u16` length, at most 1 KiB) at `pos`.
pub fn read_bytestring_short_length(input: &[u8], pos: usize) -> (r: Result<(Vec<u8>, usize), ProtocolError>)
    requires
        pos <= input@.len(),
    ensures
        match (r, parse_bytes(input@.skip(pos as int), 2, 1024)) {
            (Ok((b, end)), Ok((sb, n))) => b@ == sb && end == pos + n,
            (Err(e), Err(se)) => e == se,
            _ => false,
        },
{
    read_bytes(input, pos, 2, 1024)
}

/// Reads a medium byte string (`u32` length, at most 4 KiB) at `pos`.
pub fn read_bytestring_medium(input: &[u8], pos: usize) -> (r: Result<(Vec<u8>, usize), ProtocolError>)
    requires
        pos <= input@.len(),
    ensures
        match (r, parse_bytes(input@.skip(pos as int), 4, 4096)) {
            (Ok((b, end)), Ok((sb, n))) => b@ == sb && end == pos + n,
            (Err(e), Err(se)) => e == se,
            _ => false,
        },
{
    read_bytes(input, pos, 4, 4096)
}

/// Reads a long byte string (`u64` length, at most 64 KiB) at `pos`.
pub fn read_bytestring(input: &[u8], pos: usize) -> (r: Result<(Vec<u8>, usize), ProtocolError>)
    requires
        pos <= input@.len(),
    ensures
        match (r, parse_bytes(input@.skip(pos as int), 8, 65536)) {
            (Ok((b, end)), Ok((sb, n))) => b@ == sb && end == pos + n,
            (Err(e), Err(se)) => e == se,
            _ => false,
        },
{
    read_bytes(input, pos, 8, 65536)
}

/// Writes a short byte string: its `u16` length, then the bytes.
pub fn write_bytestring_short_length(target: &mut Vec<u8>, bytes: &[u8])
    requires
        bytes@.len() <= u16::MAX,
    ensures
        final(target)@ == old(target)@ + ser_bytes(bytes@, 2),
{
    proof {
        lemma_pow256_values();
    }
    push_bytes(target, bytes, 2);
}

/// Writes a long byte string: its `u64` length, then the bytes.
pub fn write_bytestring(target: &mut Vec<u8>, bytes: &[u8])
    ensures
        final(target)@ == old(target)@ + ser_bytes(bytes@, 8),
{
    proof {
        lemma_pow256_values();
    }
    assert(bytes@.len() == bytes.len());
    push_bytes(target, bytes, 8);
}

} // verus!
