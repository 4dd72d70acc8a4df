//! Little-endian integer encodings.
use vstd::prelude::*;

verus! {

/// The value of the two bytes `b[i..i + 2]`, little-endian.
pub open spec fn le16_at(b: Seq<u8>, i: int) -> nat {
    (b[i] as nat) + 256 * (b[i + 1] as nat)
}

/// The value of the four bytes `b[i..i + 4]`, little-endian.
pub open spec fn le32_at(b: Seq<u8>, i: int) -> nat {
    le16_at(b, i) + 65536 * le16_at(b, i + 2)
}

/// The value of the eight bytes `b[i..i + 8]`, little-endian.
pub open spec fn le64_at(b: Seq<u8>, i: int) -> nat {
    le32_at(b, i) + 4294967296 * le32_at(b, i + 4)
}

/// The two little-endian bytes of `x`.
pub open spec fn le16_bytes(x: nat) -> Seq<u8> {
    seq![(x % 256) as u8, ((x / 256) % 256) as u8]
}

/// The four little-endian bytes of `x`.
pub open spec fn le32_bytes(x: nat) -> Seq<u8> {
    le16_bytes(x % 65536) + le16_bytes((x / 65536) % 65536)
}

/// The eight little-endian bytes of `x`.
pub open spec fn le64_bytes(x: nat) -> Seq<u8> {
    le32_bytes(x % 4294967296) + le32_bytes((x / 4294967296) % 4294967296)
}

/// Reading back the bytes of a value below 2^16 gives the value.
pub proof fn lemma_le16_roundtrip(x: nat)
    requires
        x < 65536,
    ensures
        le16_at(le16_bytes(x), 0) == x,
{
}

/// Reading back the bytes of a value below 2^32 gives the value.
pub proof fn lemma_le32_roundtrip(x: nat)
    requires
        x < 4294967296,
    ensures
        le32_at(le32_bytes(x), 0) == x,
{
    let b = le32_bytes(x);
    lemma_le16_roundtrip(x % 65536);
    lemma_le16_roundtrip((x / 65536) % 65536);
    assert(le16_at(b, 0) == x % 65536);
    assert(le16_at(b, 2) == (x / 65536) % 65536);
}

/// Reading back the bytes of a value below 2^64 gives the value.
pub proof fn lemma_le64_roundtrip(x: nat)
    requires
        x < 18446744073709551616,
    ensures
        le64_at(le64_bytes(x), 0) == x,
{
    let b = le64_bytes(x);
    lemma_le32_roundtrip(x % 4294967296);
    lemma_le32_roundtrip((x / 4294967296) % 4294967296);
    let lo = le32_bytes(x % 4294967296);
    let hi = le32_bytes((x / 4294967296) % 4294967296);
    assert(le32_at(b, 0) == le32_at(lo, 0));
    assert(le32_at(b, 4) == le32_at(hi, 0));
}

/// Appends the two little-endian bytes of `x`.
pub fn push_le16(out: &mut Vec<u8>, x: u16)
    ensures
        final(out)@ == old(out)@ + le16_bytes(x as nat),
{
    out.push((x % 256) as u8);
    out.push((x / 256) as u8);
    assert(final(out)@ =~= old(out)@ + le16_bytes(x as nat));
}

/// Appends the four little-endian bytes of `x`.
pub fn push_le32(out: &mut Vec<u8>, x: u32)
    ensures
        final(out)@ == old(out)@ + le32_bytes(x as nat),
{
    push_le16(out, (x % 65536) as u16);
    push_le16(out, (x / 65536) as u16);
    assert(final(out)@ =~= old(out)@ + le32_bytes(x as nat));
}

/// Appends the eight little-endian bytes of `x`.
pub fn push_le64(out: &mut Vec<u8>, x: u64)
    ensures
        final(out)@ == old(out)@ + le64_bytes(x as nat),
{
    push_le32(out, (x % 4294967296) as u32);
    push_le32(out, (x / 4294967296) as u32);
    assert(final(out)@ =~= old(out)@ + le64_bytes(x as nat));
}

/// The little-endian value of `b[i..i + 2]`.
pub fn read_le16(b: &[u8], i: usize) -> (r: u16)
    requires
        i + 2 <= b.len(),
    ensures
        r as nat == le16_at(b@, i as int),
{
    (b[i] as u16) + 256 * (b[i + 1] as u16)
}

/// The little-endian value of `b[i..i + 4]`.
pub fn read_le32(b: &[u8], i: usize) -> (r: u32)
    requires
        i + 4 <= b.len(),
    ensures
        r as nat == le32_at(b@, i as int),
{
    (read_le16(b, i) as u32) + 65536 * (read_le16(b, i + 2) as u32)
}

/// The little-endian value of `b[i..i + 8]`.
pub fn read_le64(b: &[u8], i: usize) -> (r: u64)
    requires
        i + 8 <= b.len(),
    ensures
        r as nat == le64_at(b@, i as int),
{
    (read_le32(b, i) as u64) + 4294967296 * (read_le32(b, i + 4) as u64)
}

/// Appends `src` to `out`.
pub fn push_bytes(out: &mut Vec<u8>, src: &[u8])
    ensures
        final(out)@ == old(out)@ + src@,
{
    let ghost start = out@;
    for i in 0..src.len()
        invariant
            out@ == start + src@.take(i as int),
    {
        out.push(src[i]);
        assert(src@.take(i + 1) == src@.take(i as int).push(src@[i as int]));
    }
    assert(src@.take(src.len() as int) == src@);
}

/// The bytes `b[lo..hi]`.
pub fn sub_bytes(b: &[u8], lo: usize, hi: usize) -> (r: Vec<u8>)
    requires
        lo <= hi <= b.len(),
    ensures
        r@ == b@.subrange(lo as int, hi as int),
{
    let mut r: Vec<u8> = Vec::new();
    let mut i = lo;
    while i < hi
        invariant
            lo <= i <= hi <= b.len(),
            r@ == b@.subrange(lo as int, i as int),
        decreases hi - i,
    {
        r.push(b[i]);
        i = i + 1;
    }
    r
}

/// Equal bytes read as equal 64-bit values.
pub proof fn lemma_le64_at_same(s: Seq<u8>, i: int, t: Seq<u8>, j: int)
    requires
        0 <= i,
        i + 8 <= s.len(),
        0 <= j,
        j + 8 <= t.len(),
        s.subrange(i, i + 8) == t.subrange(j, j + 8),
    ensures
        le64_at(s, i) == le64_at(t, j),
{
    assert(s.subrange(i, i + 8)[0] == s[i]);
    assert(t.subrange(j, j + 8)[0] == t[j]);
    assert(s.subrange(i, i + 8)[0] == t.subrange(j, j + 8)[0]);
    assert(s[i] == t[j]);
    assert(s.subrange(i, i + 8)[1] == s[i + 1]);
    assert(t.subrange(j, j + 8)[1] == t[j + 1]);
    assert(s.subrange(i, i + 8)[1] == t.subrange(j, j + 8)[1]);
    assert(s[i + 1] == t[j + 1]);
    assert(s.subrange(i, i + 8)[2] == s[i + 2]);
    assert(t.subrange(j, j + 8)[2] == t[j + 2]);
    assert(s.subrange(i, i + 8)[2] == t.subrange(j, j + 8)[2]);
    assert(s[i + 2] == t[j + 2]);
    assert(s.subrange(i, i + 8)[3] == s[i + 3]);
    assert(t.subrange(j, j + 8)[3] == t[j + 3]);
    assert(s.subrange(i, i + 8)[3] == t.subrange(j, j + 8)[3]);
    assert(s[i + 3] == t[j + 3]);
    assert(s.subrange(i, i + 8)[4] == s[i + 4]);
    assert(t.subrange(j, j + 8)[4] == t[j + 4]);
    assert(s.subrange(i, i + 8)[4] == t.subrange(j, j + 8)[4]);
    assert(s[i + 4] == t[j + 4]);
    assert(s.subrange(i, i + 8)[5] == s[i + 5]);
    assert(t.subrange(j, j + 8)[5] == t[j + 5]);
    assert(s.subrange(i, i + 8)[5] == t.subrange(j, j + 8)[5]);
    assert(s[i + 5] == t[j + 5]);
    assert(s.subrange(i, i + 8)[6] == s[i + 6]);
    assert(t.subrange(j, j + 8)[6] == t[j + 6]);
    assert(s.subrange(i, i + 8)[6] == t.subrange(j, j + 8)[6]);
    assert(s[i + 6] == t[j + 6]);
    assert(s.subrange(i, i + 8)[7] == s[i + 7]);
    assert(t.subrange(j, j + 8)[7] == t[j + 7]);
    assert(s.subrange(i, i + 8)[7] == t.subrange(j, j + 8)[7]);
    assert(s[i + 7] == t[j + 7]);
}

/// Equal bytes read as equal 32-bit values.
pub proof fn lemma_le32_at_same(s: Seq<u8>, i: int, t: Seq<u8>, j: int)
    requires
        0 <= i,
        i + 4 <= s.len(),
        0 <= j,
        j + 4 <= t.len(),
        s.subrange(i, i + 4) == t.subrange(j, j + 4),
    ensures
        le32_at(s, i) == le32_at(t, j),
{
    assert(s.subrange(i, i + 4)[0] == s[i]);
    assert(t.subrange(j, j + 4)[0] == t[j]);
    assert(s.subrange(i, i + 4)[0] == t.subrange(j, j + 4)[0]);
    assert(s[i] == t[j]);
    assert(s.subrange(i, i + 4)[1] == s[i + 1]);
    assert(t.subrange(j, j + 4)[1] == t[j + 1]);
    assert(s.subrange(i, i + 4)[1] == t.subrange(j, j + 4)[1]);
    assert(s[i + 1] == t[j + 1]);
    assert(s.subrange(i, i + 4)[2] == s[i + 2]);
    assert(t.subrange(j, j + 4)[2] == t[j + 2]);
    assert(s.subrange(i, i + 4)[2] == t.subrange(j, j + 4)[2]);
    assert(s[i + 2] == t[j + 2]);
    assert(s.subrange(i, i + 4)[3] == s[i + 3]);
    assert(t.subrange(j, j + 4)[3] == t[j + 3]);
    assert(s.subrange(i, i + 4)[3] == t.subrange(j, j + 4)[3]);
    assert(s[i + 3] == t[j + 3]);
}

/// A range inside the left part of a concatenation.
pub proof fn lemma_concat_left(a: Seq<u8>, b: Seq<u8>, i: int, j: int)
    requires
        0 <= i <= j <= a.len(),
    ensures
        (a + b).subrange(i, j) == a.subrange(i, j),
{
    assert((a + b).subrange(i, j) =~= a.subrange(i, j));
}

/// A range inside the right part of a concatenation.
pub proof fn lemma_concat_right(a: Seq<u8>, b: Seq<u8>, i: int, j: int)
    requires
        0 <= i <= j <= b.len(),
    ensures
        (a + b).subrange(a.len() + i, a.len() + j) == b.subrange(i, j),
{
    assert((a + b).subrange(a.len() + i, a.len() + j) =~= b.subrange(i, j));
}

} // verus!
