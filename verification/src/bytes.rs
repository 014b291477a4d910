//! Little-endian integers in byte sequences.
use vstd::prelude::*;

verus! {

/// The two bytes of `v`, least significant first.
pub open spec fn le16(v: u16) -> Seq<u8> {
    seq![(v & 0xff) as u8, ((v >> 8) & 0xff) as u8]
}

/// The eight bytes of `v`, least significant first.
pub open spec fn le64(v: u64) -> Seq<u8> {
    seq![
        (v & 0xff) as u8,
        ((v >> 8) & 0xff) as u8,
        ((v >> 16) & 0xff) as u8,
        ((v >> 24) & 0xff) as u8,
        ((v >> 32) & 0xff) as u8,
        ((v >> 40) & 0xff) as u8,
        ((v >> 48) & 0xff) as u8,
        ((v >> 56) & 0xff) as u8,
    ]
}

/// The value of two bytes read least significant first.
pub open spec fn u16_of_le(b: Seq<u8>) -> u16
    recommends
        b.len() == 2,
{
    (b[0] as u16) | ((b[1] as u16) << 8)
}

/// The value of eight bytes read least significant first.
pub open spec fn u64_of_le(b: Seq<u8>) -> u64
    recommends
        b.len() == 8,
{
    (b[0] as u64) | ((b[1] as u64) << 8) | ((b[2] as u64) << 16) | ((b[3] as u64) << 24) | ((
    b[4] as u64) << 32) | ((b[5] as u64) << 40) | ((b[6] as u64) << 48) | ((b[7] as u64) << 56)
}

/// Reading back the two bytes written for a value gives the value.
pub proof fn lemma_u16_le_roundtrip(v: u16)
    ensures
        le16(v).len() == 2,
        u16_of_le(le16(v)) == v,
{
    let b0 = (v & 0xff) as u8;
    let b1 = ((v >> 8) & 0xff) as u8;
    assert((b0 as u16) | ((b1 as u16) << 8) == v) by (bit_vector)
        requires
            b0 == (v & 0xff) as u8,
            b1 == ((v >> 8) & 0xff) as u8,
    ;
}

/// Reading back the eight bytes written for a value gives the value.
pub proof fn lemma_u64_le_roundtrip(v: u64)
    ensures
        le64(v).len() == 8,
        u64_of_le(le64(v)) == v,
{
    let b = le64(v);
    let b0 = b[0];
    let b1 = b[1];
    let b2 = b[2];
    let b3 = b[3];
    let b4 = b[4];
    let b5 = b[5];
    let b6 = b[6];
    let b7 = b[7];
    assert((b0 as u64) | ((b1 as u64) << 8) | ((b2 as u64) << 16) | ((b3 as u64) << 24) | ((
    b4 as u64) << 32) | ((b5 as u64) << 40) | ((b6 as u64) << 48) | ((b7 as u64) << 56) == v)
        by (bit_vector)
        requires
            b0 == (v & 0xff) as u8,
            b1 == ((v >> 8) & 0xff) as u8,
            b2 == ((v >> 16) & 0xff) as u8,
            b3 == ((v >> 24) & 0xff) as u8,
            b4 == ((v >> 32) & 0xff) as u8,
            b5 == ((v >> 40) & 0xff) as u8,
            b6 == ((v >> 48) & 0xff) as u8,
            b7 == ((v >> 56) & 0xff) as u8,
    ;
}

/// Appends the two little-endian bytes of `v`.
pub fn push_u16_le(out: &mut Vec<u8>, v: u16)
    ensures
        final(out)@ == old(out)@ + le16(v),
{
    out.push((v & 0xff) as u8);
    out.push(((v >> 8) & 0xff) as u8);
    assert(final(out)@ =~= old(out)@ + le16(v));
}

/// Appends the eight little-endian bytes of `v`.
pub fn push_u64_le(out: &mut Vec<u8>, v: u64)
    ensures
        final(out)@ == old(out)@ + le64(v),
{
    out.push((v & 0xff) as u8);
    out.push(((v >> 8) & 0xff) as u8);
    out.push(((v >> 16) & 0xff) as u8);
    out.push(((v >> 24) & 0xff) as u8);
    out.push(((v >> 32) & 0xff) as u8);
    out.push(((v >> 40) & 0xff) as u8);
    out.push(((v >> 48) & 0xff) as u8);
    out.push(((v >> 56) & 0xff) as u8);
    assert(final(out)@ =~= old(out)@ + le64(v));
}

/// Appends the bytes of a slice.
pub fn push_all(out: &mut Vec<u8>, b: &[u8])
    ensures
        final(out)@ == old(out)@ + b@,
{
    let ghost start = out@;
    for i in 0..b.len()
        invariant
            out@ == start + b@.take(i as int),
    {
        out.push(b[i]);
        assert(b@.take(i + 1) =~= b@.take(i as int).push(b@[i as int]));
    }
    assert(b@.take(b@.len() as int) =~= b@);
}

/// Reads two little-endian bytes starting at `pos`.
pub fn read_u16_le(b: &[u8], pos: usize) -> (r: u16)
    requires
        pos + 2 <= b@.len(),
    ensures
        r == u16_of_le(b@.subrange(pos as int, pos + 2)),
{
    (b[pos] as u16) | ((b[pos + 1] as u16) << 8)
}

/// Reads eight little-endian bytes starting at `pos`.
pub fn read_u64_le(b: &[u8], pos: usize) -> (r: u64)
    requires
        pos + 8 <= b@.len(),
    ensures
        r == u64_of_le(b@.subrange(pos as int, pos + 8)),
{
    (b[pos] as u64) | ((b[pos + 1] as u64) << 8) | ((b[pos + 2] as u64) << 16) | ((b[pos
        + 3] as u64) << 24) | ((b[pos + 4] as u64) << 32) | ((b[pos + 5] as u64) << 40) | ((b[pos
        + 6] as u64) << 48) | ((b[pos + 7] as u64) << 56)
}

} // verus!

verus! {

/// The first position, within the shorter of two byte strings, where they
/// differ; `None` when one is a prefix of the other.
pub fn first_difference(a: &[u8], b: &[u8]) -> (r: Option<usize>)
    ensures
        match r {
            Some(i) => i < a@.len() && i < b@.len() && a@[i as int] != b@[i as int] && forall|j: int|
                0 <= j < i ==> a@[j] == b@[j],
            None => forall|j: int| 0 <= j < a@.len() && j < b@.len() ==> a@[j] == b@[j],
        },
{
    let mut i: usize = 0;
    while i < a.len() && i < b.len()
        invariant
            i <= a@.len(),
            i <= b@.len(),
            forall|j: int| 0 <= j < i ==> a@[j] == b@[j],
        decreases a.len() - i,
    {
        if a[i] != b[i] {
            return Some(i);
        }
        i = i + 1;
    }
    None
}

} // verus!
