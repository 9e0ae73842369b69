//! Big-endian integers and byte-buffer helpers used by every wire format.

use vstd::prelude::*;

verus! {

/// The two bytes of `x`, most significant first.
pub open spec fn be_u16(x: u16) -> Seq<u8> {
    seq![(x / 0x100) as u8, (x % 0x100) as u8]
}

/// The four bytes of `x`, most significant first.
pub open spec fn be_u32(x: u32) -> Seq<u8> {
    seq![
        (x / 0x100_0000) as u8,
        ((x / 0x1_0000) % 0x100) as u8,
        ((x / 0x100) % 0x100) as u8,
        (x % 0x100) as u8,
    ]
}

/// The eight bytes of `x`, most significant first.
pub open spec fn be_u64(x: u64) -> Seq<u8> {
    be_u32((x / 0x1_0000_0000) as u32) + be_u32((x % 0x1_0000_0000) as u32)
}

/// The number whose big-endian bytes are the first two of `b`.
pub open spec fn u16_from_be(b: Seq<u8>) -> u16
    recommends
        b.len() >= 2,
{
    (b[0] * 0x100 + b[1]) as u16
}

/// The number whose big-endian bytes are the first four of `b`.
pub open spec fn u32_from_be(b: Seq<u8>) -> u32
    recommends
        b.len() >= 4,
{
    (b[0] * 0x100_0000 + b[1] * 0x1_0000 + b[2] * 0x100 + b[3]) as u32
}

/// The number whose big-endian bytes are the first eight of `b`.
pub open spec fn u64_from_be(b: Seq<u8>) -> u64
    recommends
        b.len() >= 8,
{
    (u32_from_be(b.subrange(0, 4)) * 0x1_0000_0000 + u32_from_be(b.subrange(4, 8))) as u64
}

/// Reading back the bytes of a 16-bit number gives the number.
pub proof fn lemma_u16_roundtrip(x: u16)
    ensures
        be_u16(x).len() == 2,
        u16_from_be(be_u16(x)) == x,
{
}

/// Reading back the bytes of a 32-bit number gives the number.
pub proof fn lemma_u32_roundtrip(x: u32)
    ensures
        be_u32(x).len() == 4,
        u32_from_be(be_u32(x)) == x,
{
}

/// Reading back the bytes of a 64-bit number gives the number.
pub proof fn lemma_u64_roundtrip(x: u64)
    ensures
        be_u64(x).len() == 8,
        u64_from_be(be_u64(x)) == x,
{
    let hi = (x / 0x1_0000_0000) as u32;
    let lo = (x % 0x1_0000_0000) as u32;
    lemma_u32_roundtrip(hi);
    lemma_u32_roundtrip(lo);
    assert(be_u64(x).subrange(0, 4) =~= be_u32(hi));
    assert(be_u64(x).subrange(4, 8) =~= be_u32(lo));
}

/// Splitting `hi * m + lo` by `m` gives `hi` and `lo` back.
pub proof fn lemma_div_mod_split(hi: int, lo: int, m: int)
    requires
        0 <= lo < m,
        0 <= hi,
    ensures
        (hi * m + lo) / m == hi,
        (hi * m + lo) % m == lo,
{
    vstd::arithmetic::div_mod::lemma_fundamental_div_mod_converse(hi * m + lo, m, hi, lo);
}

/// Four bytes are the big-endian bytes of the number read from them.
pub proof fn lemma_u32_bytes_roundtrip(b: Seq<u8>)
    requires
        b.len() == 4,
    ensures
        be_u32(u32_from_be(b)) == b,
{
    let b0 = b[0] as int;
    let b1 = b[1] as int;
    let b2 = b[2] as int;
    let b3 = b[3] as int;
    let v = b0 * 0x100_0000 + b1 * 0x1_0000 + b2 * 0x100 + b3;
    assert(u32_from_be(b) == v);
    lemma_div_mod_split(b0, b1 * 0x1_0000 + b2 * 0x100 + b3, 0x100_0000);
    lemma_div_mod_split(b0 * 0x100 + b1, b2 * 0x100 + b3, 0x1_0000);
    lemma_div_mod_split(b0, b1, 0x100);
    assert((b0 * 0x100 + b1) * 0x1_0000 + (b2 * 0x100 + b3) == v);
    assert((v / 0x1_0000) % 0x100 == b1);
    lemma_div_mod_split(b0 * 0x1_0000 + b1 * 0x100 + b2, b3, 0x100);
    lemma_div_mod_split(b0 * 0x100 + b1, b2, 0x100);
    assert((b0 * 0x1_0000 + b1 * 0x100 + b2) * 0x100 + b3 == v);
    assert((b0 * 0x100 + b1) * 0x100 + b2 == b0 * 0x1_0000 + b1 * 0x100 + b2);
    assert((v / 0x100) % 0x100 == b2);
    assert(v % 0x100 == b3);
    assert(v / 0x100_0000 == b0);
    assert(be_u32(u32_from_be(b)) =~= b);
}

/// Appends `other` to `buf`.
pub fn append_bytes(buf: &mut Vec<u8>, other: &[u8])
    ensures
        final(buf)@ == old(buf)@ + other@,
{
    let n = other.len();
    let mut i: usize = 0;
    while i < n
        invariant
            i <= n,
            n == other@.len(),
            buf@ == old(buf)@ + other@.take(i as int),
        decreases n - i,
    {
        buf.push(other[i]);
        proof {
            assert(other@.take(i + 1) =~= other@.take(i as int).push(other@[i as int]));
            assert(buf@ =~= old(buf)@ + other@.take(i + 1));
        }
        i = i + 1;
    }
    proof {
        assert(other@.take(n as int) =~= other@);
    }
}

/// Copies `data[from..to]` into a new vector.
pub fn copy_range(data: &[u8], from: usize, to: usize) -> (out: Vec<u8>)
    requires
        from <= to <= data@.len(),
    ensures
        out@ == data@.subrange(from as int, to as int),
{
    let mut out: Vec<u8> = Vec::new();
    append_bytes(&mut out, vstd::slice::slice_subrange(data, from, to));
    proof {
        assert(out@ =~= data@.subrange(from as int, to as int));
    }
    out
}

/// Whether two byte strings hold the same bytes.
pub fn bytes_equal(a: &[u8], b: &[u8]) -> (same: bool)
    ensures
        same == (a@ == b@),
{
    if a.len() != b.len() {
        return false;
    }
    let n = a.len();
    let mut i: usize = 0;
    while i < n
        invariant
            i <= n,
            n == a@.len(),
            n == b@.len(),
            a@.take(i as int) == b@.take(i as int),
        decreases n - i,
    {
        if a[i] != b[i] {
            return false;
        }
        proof {
            assert(a@.take(i + 1) =~= a@.take(i as int).push(a@[i as int]));
            assert(b@.take(i + 1) =~= b@.take(i as int).push(b@[i as int]));
        }
        i = i + 1;
    }
    proof {
        assert(a@.take(n as int) =~= a@);
        assert(b@.take(n as int) =~= b@);
    }
    true
}

/// Appends the big-endian bytes of `x`.
pub fn put_u16(buf: &mut Vec<u8>, x: u16)
    ensures
        final(buf)@ == old(buf)@ + be_u16(x),
{
    buf.push((x / 0x100) as u8);
    buf.push((x % 0x100) as u8);
    proof {
        assert(buf@ =~= old(buf)@ + be_u16(x));
    }
}

/// Appends the big-endian bytes of `x`.
pub fn put_u32(buf: &mut Vec<u8>, x: u32)
    ensures
        final(buf)@ == old(buf)@ + be_u32(x),
{
    buf.push((x / 0x100_0000) as u8);
    buf.push(((x / 0x1_0000) % 0x100) as u8);
    buf.push(((x / 0x100) % 0x100) as u8);
    buf.push((x % 0x100) as u8);
    proof {
        assert(buf@ =~= old(buf)@ + be_u32(x));
    }
}

/// Appends the big-endian bytes of `x`.
pub fn put_u64(buf: &mut Vec<u8>, x: u64)
    ensures
        final(buf)@ == old(buf)@ + be_u64(x),
{
    put_u32(buf, (x / 0x1_0000_0000) as u32);
    put_u32(buf, (x % 0x1_0000_0000) as u32);
    proof {
        assert(buf@ =~= old(buf)@ + be_u64(x));
    }
}

/// Reads the 16-bit big-endian number at `at`.
pub fn read_u16(data: &[u8], at: usize) -> (x: u16)
    requires
        at + 2 <= data@.len(),
    ensures
        x == u16_from_be(data@.subrange(at as int, at + 2)),
{
    let b0 = data[at] as u16;
    let b1 = data[at + 1] as u16;
    b0 * 0x100 + b1
}

/// Reads the 32-bit big-endian number at `at`.
pub fn read_u32(data: &[u8], at: usize) -> (x: u32)
    requires
        at + 4 <= data@.len(),
    ensures
        x == u32_from_be(data@.subrange(at as int, at + 4)),
{
    let b0 = data[at] as u32;
    let b1 = data[at + 1] as u32;
    let b2 = data[at + 2] as u32;
    let b3 = data[at + 3] as u32;
    b0 * 0x100_0000 + b1 * 0x1_0000 + b2 * 0x100 + b3
}

/// Reads the 64-bit big-endian number at `at`.
pub fn read_u64(data: &[u8], at: usize) -> (x: u64)
    requires
        at + 8 <= data@.len(),
    ensures
        x == u64_from_be(data@.subrange(at as int, at + 8)),
{
    let len = data.len();
    let hi = read_u32(data, at) as u64;
    let lo = read_u32(data, at + 4) as u64;
    proof {
        let b = data@.subrange(at as int, at + 8);
        assert(b.subrange(0, 4) =~= data@.subrange(at as int, at + 4));
        assert(b.subrange(4, 8) =~= data@.subrange(at + 4, at + 8));
    }
    hi * 0x1_0000_0000 + lo
}

/// A payload on the wire: its length in four bytes, then its bytes.
pub open spec fn payload_bytes(body: Seq<u8>) -> Seq<u8> {
    be_u32(body.len() as u32) + body
}

/// The payload at the start of `rest`, or `None` where `rest` is cut short.
pub open spec fn parse_payload(rest: Seq<u8>) -> Option<Seq<u8>> {
    if rest.len() < 4 {
        None
    } else {
        let n = u32_from_be(rest.subrange(0, 4));
        if rest.len() - 4 < n {
            None
        } else {
            Some(rest.subrange(4, 4 + n))
        }
    }
}

/// A payload followed by anything reads back as the payload.
pub proof fn lemma_payload_roundtrip(body: Seq<u8>, rest: Seq<u8>)
    requires
        body.len() <= u32::MAX,
    ensures
        parse_payload(payload_bytes(body) + rest) == Some(body),
        (payload_bytes(body) + rest).skip(4 + body.len() as int) == rest,
{
    let data = payload_bytes(body) + rest;
    lemma_u32_roundtrip(body.len() as u32);
    assert(data.subrange(0, 4) =~= be_u32(body.len() as u32));
    assert(data.subrange(4, 4 + body.len() as int) =~= body);
    assert(data.skip(4 + body.len() as int) =~= rest);
}

/// Appends a payload: its length, then its bytes.
pub fn put_payload(buf: &mut Vec<u8>, body: &[u8])
    requires
        body@.len() <= u32::MAX,
    ensures
        final(buf)@ == old(buf)@ + payload_bytes(body@),
{
    put_u32(buf, body.len() as u32);
    append_bytes(buf, body);
    proof {
        assert(buf@ =~= old(buf)@ + payload_bytes(body@));
    }
}

/// Reads the payload at the start of `rest`.
pub fn read_payload(rest: &[u8]) -> (res: Option<Vec<u8>>)
    ensures
        match res {
            Some(body) => parse_payload(rest@) == Some(body@),
            None => parse_payload(rest@) is None,
        },
{
    let n = rest.len();
    if n < 4 {
        return None;
    }
    let len = read_u32(rest, 0) as usize;
    if n - 4 < len {
        return None;
    }
    Some(copy_range(rest, 4, 4 + len))
}

} // verus!
