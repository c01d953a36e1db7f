//! Bits of byte strings, counted from the least significant bit of the first byte.
use vstd::prelude::*;

verus! {

/// Bit `i` of a byte.
pub open spec fn byte_bit(byte: u8, i: int) -> bool {
    (byte >> (i as u8)) & 1u8 == 1u8
}

/// Bit `k` of a byte string.
pub open spec fn bit(bytes: Seq<u8>, k: int) -> bool {
    byte_bit(bytes[k / 8], k % 8)
}

pub proof fn lemma_byte_bit_set(byte: u8, i: u8)
    requires
        i < 8,
    ensures
        forall|j: int| 0 <= j < 8 ==> #[trigger] byte_bit(byte | (1u8 << i), j) == (j == i || byte_bit(byte, j)),
{
    assert forall|j: int| 0 <= j < 8 implies #[trigger] byte_bit(byte | (1u8 << i), j) == (j == i || byte_bit(byte, j)) by {
        let n = j as u8;
        assert(n == i ==> ((byte | (1u8 << i)) >> n) & 1u8 == 1u8) by (bit_vector)
            requires
                n < 8,
        ;
        assert(n != i ==> ((byte | (1u8 << i)) >> n) & 1u8 == (byte >> n) & 1u8) by (bit_vector)
            requires
                n < 8,
                i < 8,
        ;
    }
}

/// The byte zero has no bit.
pub proof fn lemma_byte_bit_zero()
    ensures
        forall|j: int| 0 <= j < 8 ==> !#[trigger] byte_bit(0u8, j),
{
    assert forall|j: int| 0 <= j < 8 implies !#[trigger] byte_bit(0u8, j) by {
        let n = j as u8;
        assert((0u8 >> n) & 1u8 == 0u8) by (bit_vector);
    }
}

/// Bytes with the same bits are equal.
pub proof fn lemma_byte_bits_equal(a: u8, b: u8)
    requires
        forall|j: int| 0 <= j < 8 ==> #[trigger] byte_bit(a, j) == byte_bit(b, j),
    ensures
        a == b,
{
    assert(byte_bit(a, 0) == byte_bit(b, 0));
    assert(byte_bit(a, 1) == byte_bit(b, 1));
    assert(byte_bit(a, 2) == byte_bit(b, 2));
    assert(byte_bit(a, 3) == byte_bit(b, 3));
    assert(byte_bit(a, 4) == byte_bit(b, 4));
    assert(byte_bit(a, 5) == byte_bit(b, 5));
    assert(byte_bit(a, 6) == byte_bit(b, 6));
    assert(byte_bit(a, 7) == byte_bit(b, 7));
    assert(a == b) by (bit_vector)
        requires
            ((a >> 0u8) & 1u8 == 1u8) == ((b >> 0u8) & 1u8 == 1u8),
            ((a >> 1u8) & 1u8 == 1u8) == ((b >> 1u8) & 1u8 == 1u8),
            ((a >> 2u8) & 1u8 == 1u8) == ((b >> 2u8) & 1u8 == 1u8),
            ((a >> 3u8) & 1u8 == 1u8) == ((b >> 3u8) & 1u8 == 1u8),
            ((a >> 4u8) & 1u8 == 1u8) == ((b >> 4u8) & 1u8 == 1u8),
            ((a >> 5u8) & 1u8 == 1u8) == ((b >> 5u8) & 1u8 == 1u8),
            ((a >> 6u8) & 1u8 == 1u8) == ((b >> 6u8) & 1u8 == 1u8),
            ((a >> 7u8) & 1u8 == 1u8) == ((b >> 7u8) & 1u8 == 1u8),
    ;
}

/// Byte strings of one length with the same bits are equal.
pub proof fn lemma_bits_equal(a: Seq<u8>, b: Seq<u8>)
    requires
        a.len() == b.len(),
        forall|k: int| 0 <= k < 8 * a.len() ==> #[trigger] bit(a, k) == bit(b, k),
    ensures
        a == b,
{
    assert forall|i: int| 0 <= i < a.len() implies a[i] == b[i] by {
        assert forall|j: int| 0 <= j < 8 implies #[trigger] byte_bit(a[i], j) == byte_bit(b[i], j) by {
            let k = 8 * i + j;
            assert(k / 8 == i && k % 8 == j);
            assert(bit(a, k) == bit(b, k));
        }
        lemma_byte_bits_equal(a[i], b[i]);
    }
    assert(a =~= b);
}

/// The byte string of `size` bytes whose bits are those numbers that satisfy `f`.
pub open spec fn bit_string(size: nat, f: spec_fn(int) -> bool) -> Seq<u8> {
    choose|bytes: Seq<u8>|
        bytes.len() == size && forall|k: int| 0 <= k < 8 * size ==> #[trigger] bit(bytes, k) == f(k)
}

/// The byte with the given bits.
spec fn byte_of(b0: bool, b1: bool, b2: bool, b3: bool, b4: bool, b5: bool, b6: bool, b7: bool) -> u8 {
    (if b0 { 1u8 } else { 0u8 }) | (if b1 { 2u8 } else { 0u8 }) | (if b2 { 4u8 } else { 0u8 }) | (if b3 { 8u8 } else { 0u8 })
        | (if b4 { 16u8 } else { 0u8 }) | (if b5 { 32u8 } else { 0u8 }) | (if b6 { 64u8 } else { 0u8 }) | (if b7 {
        128u8
    } else {
        0u8
    })
}

proof fn lemma_byte_of(b0: bool, b1: bool, b2: bool, b3: bool, b4: bool, b5: bool, b6: bool, b7: bool)
    ensures
        ({
            let byte = byte_of(b0, b1, b2, b3, b4, b5, b6, b7);
            &&& byte_bit(byte, 0) == b0 && byte_bit(byte, 1) == b1
            &&& byte_bit(byte, 2) == b2 && byte_bit(byte, 3) == b3
            &&& byte_bit(byte, 4) == b4 && byte_bit(byte, 5) == b5
            &&& byte_bit(byte, 6) == b6 && byte_bit(byte, 7) == b7
        }),
{
    assert((byte_of(b0, b1, b2, b3, b4, b5, b6, b7) >> 0u8) & 1u8 == 1u8 <==> b0) by (bit_vector);
    assert((byte_of(b0, b1, b2, b3, b4, b5, b6, b7) >> 1u8) & 1u8 == 1u8 <==> b1) by (bit_vector);
    assert((byte_of(b0, b1, b2, b3, b4, b5, b6, b7) >> 2u8) & 1u8 == 1u8 <==> b2) by (bit_vector);
    assert((byte_of(b0, b1, b2, b3, b4, b5, b6, b7) >> 3u8) & 1u8 == 1u8 <==> b3) by (bit_vector);
    assert((byte_of(b0, b1, b2, b3, b4, b5, b6, b7) >> 4u8) & 1u8 == 1u8 <==> b4) by (bit_vector);
    assert((byte_of(b0, b1, b2, b3, b4, b5, b6, b7) >> 5u8) & 1u8 == 1u8 <==> b5) by (bit_vector);
    assert((byte_of(b0, b1, b2, b3, b4, b5, b6, b7) >> 6u8) & 1u8 == 1u8 <==> b6) by (bit_vector);
    assert((byte_of(b0, b1, b2, b3, b4, b5, b6, b7) >> 7u8) & 1u8 == 1u8 <==> b7) by (bit_vector);
}

/// Any bits make a byte string.
pub proof fn lemma_bit_string_bits(size: nat, f: spec_fn(int) -> bool)
    ensures
        bit_string(size, f).len() == size,
        forall|k: int| 0 <= k < 8 * size ==> #[trigger] bit(bit_string(size, f), k) == f(k),
{
    let bytes = Seq::new(
        size,
        |i: int|
            byte_of(
                f(8 * i),
                f(8 * i + 1),
                f(8 * i + 2),
                f(8 * i + 3),
                f(8 * i + 4),
                f(8 * i + 5),
                f(8 * i + 6),
                f(8 * i + 7),
            ),
    );
    assert forall|k: int| 0 <= k < 8 * size implies #[trigger] bit(bytes, k) == f(k) by {
        let i = k / 8;
        lemma_byte_of(
            f(8 * i),
            f(8 * i + 1),
            f(8 * i + 2),
            f(8 * i + 3),
            f(8 * i + 4),
            f(8 * i + 5),
            f(8 * i + 6),
            f(8 * i + 7),
        );
        assert(k == 8 * i + k % 8);
    }
    lemma_bit_string(bytes, f);
}

pub proof fn lemma_bit_string(bytes: Seq<u8>, f: spec_fn(int) -> bool)
    requires
        forall|k: int| 0 <= k < 8 * bytes.len() ==> #[trigger] bit(bytes, k) == f(k),
    ensures
        bit_string(bytes.len(), f) == bytes,
{
    lemma_bits_equal(bit_string(bytes.len(), f), bytes);
}

/// All bits zero.
pub fn zero_bits(size: usize) -> (r: Vec<u8>)
    ensures
        r@.len() == size,
        forall|k: int| 0 <= k < 8 * size ==> !#[trigger] bit(r@, k),
{
    let mut r: Vec<u8> = Vec::new();
    let mut i: usize = 0;
    while i < size
        invariant
            i <= size,
            r@.len() == i,
            forall|j: int| 0 <= j < i ==> #[trigger] r@[j] == 0,
        decreases size - i,
    {
        r.push(0);
        i += 1;
    }
    proof {
        lemma_byte_bit_zero();
        assert forall|k: int| 0 <= k < 8 * size implies !#[trigger] bit(r@, k) by {
            assert(r@[k / 8] == 0);
        }
    }
    r
}

pub fn set_bit(bytes: &mut Vec<u8>, k: usize)
    requires
        k < 8 * old(bytes)@.len(),
    ensures
        final(bytes)@.len() == old(bytes)@.len(),
        forall|j: int| 0 <= j < 8 * old(bytes)@.len() ==> #[trigger] bit(final(bytes)@, j) == (j == k || bit(old(bytes)@, j)),
{
    let at: usize = k / 8;
    let low: u8 = (k % 8) as u8;
    let ghost before = bytes@;
    let byte: u8 = bytes[at];
    bytes.set(at, byte | (1u8 << low));
    proof {
        lemma_byte_bit_set(byte, low);
        assert forall|j: int| 0 <= j < 8 * before.len() implies #[trigger] bit(bytes@, j) == (j == k || bit(before, j)) by {
            if j / 8 == at {
                assert(byte_bit(bytes@[at as int], j % 8) == (j % 8 == low || byte_bit(before[at as int], j % 8)));
            }
        }
    }
}

} // verus!
