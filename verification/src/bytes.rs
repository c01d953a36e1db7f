//! Fixed-width integers as bytes, and byte strings.
use vstd::prelude::*;

verus! {

/// The four bytes of `x`, least significant first.
pub open spec fn u32_le(x: u32) -> Seq<u8> {
    seq![
        (x % 256) as u8,
        ((x / 256) % 256) as u8,
        ((x / 65536) % 256) as u8,
        (x / 16777216) as u8,
    ]
}

/// The number whose bytes, least significant first, are `s[0..4]`.
pub open spec fn u32_of_le(s: Seq<u8>) -> u32 {
    (s[0] + 256 * s[1] + 65536 * s[2] + 16777216 * s[3]) as u32
}

/// The four bytes of `x`, most significant first.
pub open spec fn u32_be(x: u32) -> Seq<u8> {
    seq![
        (x / 16777216) as u8,
        ((x / 65536) % 256) as u8,
        ((x / 256) % 256) as u8,
        (x % 256) as u8,
    ]
}

/// The number whose bytes, most significant first, are `s[0..4]`.
pub open spec fn u32_of_be(s: Seq<u8>) -> u32 {
    (16777216 * s[0] + 65536 * s[1] + 256 * s[2] + s[3]) as u32
}

/// The eight bytes of `x`, most significant first.
pub open spec fn u64_be(x: u64) -> Seq<u8> {
    u32_be((x / 4294967296) as u32) + u32_be((x % 4294967296) as u32)
}

/// The number whose bytes, most significant first, are `s[0..8]`.
pub open spec fn u64_of_be(s: Seq<u8>) -> u64 {
    (u32_of_be(s) * 4294967296 + u32_of_be(s.skip(4))) as u64
}

/// The number whose bytes, least significant first, are `s[0..8]`.
pub open spec fn u64_of_le(s: Seq<u8>) -> u64 {
    (u32_of_le(s.skip(4)) * 4294967296 + u32_of_le(s)) as u64
}

/// A 32-bit number is the sum of its four digits to base 256.
proof fn lemma_u32_digits(x: u32)
    ensures
        x == 16777216 * (x / 16777216) + 65536 * ((x / 65536) % 256) + 256 * ((x / 256) % 256) + x % 256,
        x / 16777216 < 256,
{
    let q1 = x / 256;
    let q2 = x / 65536;
    let q3 = x / 16777216;
    assert(q2 == q1 / 256);
    assert(q3 == q2 / 256);
    assert(x == 256 * q1 + x % 256);
    assert(q1 == 256 * q2 + q1 % 256);
    assert(q2 == 256 * q3 + q2 % 256);
}

pub proof fn lemma_u32_le_inverse(x: u32)
    ensures
        u32_le(x).len() == 4,
        u32_of_le(u32_le(x)) == x,
{
    lemma_u32_digits(x);
}

pub proof fn lemma_u32_of_le_inverse(s: Seq<u8>)
    requires
        s.len() == 4,
    ensures
        u32_le(u32_of_le(s)) == s,
{
    let x = u32_of_le(s);
    let q1 = x / 256;
    let q2 = x / 65536;
    assert(q1 == s[1] + 256 * s[2] + 65536 * s[3]);
    assert(q2 == q1 / 256);
    assert(q2 == s[2] + 256 * s[3]);
    assert(x / 16777216 == q2 / 256);
    assert(u32_le(x) =~= s);
}

pub proof fn lemma_u32_be_inverse(x: u32)
    ensures
        u32_be(x).len() == 4,
        u32_of_be(u32_be(x)) == x,
{
    lemma_u32_digits(x);
}

pub proof fn lemma_u64_be_inverse(x: u64)
    ensures
        u64_be(x).len() == 8,
        u64_of_be(u64_be(x)) == x,
{
    let high = (x / 4294967296) as u32;
    let low = (x % 4294967296) as u32;
    lemma_u32_be_inverse(high);
    lemma_u32_be_inverse(low);
    assert(u64_be(x).skip(4) =~= u32_be(low));
    assert(u32_of_be(u64_be(x)) == u32_of_be(u32_be(high)));
}

pub fn get_u32_le(bytes: &[u8], at: usize) -> (r: u32)
    requires
        at + 4 <= bytes@.len(),
    ensures
        r == u32_of_le(bytes@.subrange(at as int, at + 4)),
{
    bytes[at] as u32 + 256 * bytes[at + 1] as u32 + 65536 * bytes[at + 2] as u32 + 16777216
        * bytes[at + 3] as u32
}

pub fn get_u32_be(bytes: &[u8], at: usize) -> (r: u32)
    requires
        at + 4 <= bytes@.len(),
    ensures
        r == u32_of_be(bytes@.subrange(at as int, at + 4)),
{
    16777216 * bytes[at] as u32 + 65536 * bytes[at + 1] as u32 + 256 * bytes[at + 2] as u32
        + bytes[at + 3] as u32
}

pub fn get_u64_be(bytes: &[u8], at: usize) -> (r: u64)
    requires
        at + 8 <= bytes@.len(),
    ensures
        r == u64_of_be(bytes@.subrange(at as int, at + 8)),
{
    assert(at + 8 <= bytes.len());
    let high: u32 = get_u32_be(bytes, at);
    let low: u32 = get_u32_be(bytes, at + 4);
    assert(bytes@.subrange(at as int, at + 8).skip(4) =~= bytes@.subrange(at + 4, at + 8));
    high as u64 * 4294967296 + low as u64
}

pub fn get_u64_le(bytes: &[u8], at: usize) -> (r: u64)
    requires
        at + 8 <= bytes@.len(),
    ensures
        r == u64_of_le(bytes@.subrange(at as int, at + 8)),
{
    assert(at + 8 <= bytes.len());
    let low: u32 = get_u32_le(bytes, at);
    let high: u32 = get_u32_le(bytes, at + 4);
    assert(bytes@.subrange(at as int, at + 8).skip(4) =~= bytes@.subrange(at + 4, at + 8));
    high as u64 * 4294967296 + low as u64
}

pub fn put_u32_le(out: &mut Vec<u8>, x: u32)
    ensures
        final(out)@ == old(out)@ + u32_le(x),
{
    let ghost before = out@;
    out.push((x % 256) as u8);
    out.push(((x / 256) % 256) as u8);
    out.push(((x / 65536) % 256) as u8);
    out.push((x / 16777216) as u8);
    assert(out@ =~= before + u32_le(x));
}

pub fn put_u32_be(out: &mut Vec<u8>, x: u32)
    ensures
        final(out)@ == old(out)@ + u32_be(x),
{
    let ghost before = out@;
    out.push((x / 16777216) as u8);
    out.push(((x / 65536) % 256) as u8);
    out.push(((x / 256) % 256) as u8);
    out.push((x % 256) as u8);
    assert(out@ =~= before + u32_be(x));
}

pub fn put_u64_be(out: &mut Vec<u8>, x: u64)
    ensures
        final(out)@ == old(out)@ + u64_be(x),
{
    let ghost before = out@;
    put_u32_be(out, (x / 4294967296) as u32);
    put_u32_be(out, (x % 4294967296) as u32);
    assert(out@ =~= before + u64_be(x));
}

pub fn put_bytes(out: &mut Vec<u8>, bytes: &[u8])
    ensures
        final(out)@ == old(out)@ + bytes@,
{
    let ghost before = out@;
    out.extend_from_slice(bytes);
    assert(out@ =~= before + bytes@);
}

pub fn copy_bytes(bytes: &Vec<u8>) -> (r: Vec<u8>)
    ensures
        r@ == bytes@,
{
    let r = bytes.clone();
    assert(r@ =~= bytes@);
    r
}

pub fn same_bytes(a: &[u8], b: &[u8]) -> (r: bool)
    ensures
        r == (a@ == b@),
{
    if a.len() != b.len() {
        return false;
    }
    let mut i: usize = 0;
    while i < a.len()
        invariant
            i <= a@.len(),
            a@.len() == b@.len(),
            forall|j: int| 0 <= j < i ==> a@[j] == b@[j],
        decreases a@.len() - i,
    {
        if a[i] != b[i] {
            return false;
        }
        i += 1;
    }
    assert(a@ =~= b@);
    true
}

/// The slice as a key, if it has the length of one.
pub fn to_key(bytes: &[u8]) -> (r: Option<[u8; 32]>)
    ensures
        bytes@.len() == 32 ==> (r matches Some(key) && key@ == bytes@),
        bytes@.len() != 32 ==> r is None,
{
    if bytes.len() != 32 {
        return None;
    }
    let mut key: [u8; 32] = [0u8; 32];
    let mut i: usize = 0;
    while i < 32
        invariant
            i <= 32,
            bytes@.len() == 32,
            forall|j: int| 0 <= j < i ==> key@[j] == bytes@[j],
        decreases 32 - i,
    {
        key[i] = bytes[i];
        i += 1;
    }
    assert(key@ =~= bytes@);
    Some(key)
}

/// The slice as an array of 16 bytes.
pub fn to_tag(bytes: &[u8]) -> (r: [u8; 16])
    requires
        bytes@.len() == 16,
    ensures
        r@ == bytes@,
{
    let mut tag: [u8; 16] = [0u8; 16];
    let mut i: usize = 0;
    while i < 16
        invariant
            i <= 16,
            bytes@.len() == 16,
            forall|j: int| 0 <= j < i ==> tag@[j] == bytes@[j],
        decreases 16 - i,
    {
        tag[i] = bytes[i];
        i += 1;
    }
    assert(tag@ =~= bytes@);
    tag
}

/// The slice as an array of 12 bytes.
pub fn to_nonce(bytes: &[u8]) -> (r: [u8; 12])
    requires
        bytes@.len() == 12,
    ensures
        r@ == bytes@,
{
    let mut nonce: [u8; 12] = [0u8; 12];
    let mut i: usize = 0;
    while i < 12
        invariant
            i <= 12,
            bytes@.len() == 12,
            forall|j: int| 0 <= j < i ==> nonce@[j] == bytes@[j],
        decreases 12 - i,
    {
        nonce[i] = bytes[i];
        i += 1;
    }
    assert(nonce@ =~= bytes@);
    nonce
}

} // verus!
