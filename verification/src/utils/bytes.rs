//! Big-endian integers and length-prefixed fields.

use vstd::prelude::*;

verus! {

/// The four bytes of `x`, most significant first.
#[verifier::opaque]
pub open spec fn spec_u32_be(x: u32) -> Seq<u8> {
    seq![
        (x / 0x100_0000) as u8,
        (x / 0x1_0000 % 0x100) as u8,
        (x / 0x100 % 0x100) as u8,
        (x % 0x100) as u8,
    ]
}

/// The number whose big-endian bytes are the first four of `bytes`.
#[verifier::opaque]
pub open spec fn spec_u32_from_be(bytes: Seq<u8>) -> int
    recommends
        bytes.len() >= 4,
{
    bytes[0] * 0x100_0000 + bytes[1] * 0x1_0000 + bytes[2] * 0x100 + bytes[3]
}

/// The eight bytes of `x`, most significant first.
pub open spec fn spec_u64_be(x: u64) -> Seq<u8> {
    seq![
        (x >> 56) as u8,
        (x >> 48) as u8,
        (x >> 40) as u8,
        (x >> 32) as u8,
        (x >> 24) as u8,
        (x >> 16) as u8,
        (x >> 8) as u8,
        x as u8,
    ]
}

/// Decoding undoes encoding, whatever follows the four bytes.
pub proof fn lemma_u32_be_round_trip(x: u32, rest: Seq<u8>)
    ensures
        spec_u32_be(x).len() == 4,
        spec_u32_from_be(spec_u32_be(x) + rest) == x,
{
    reveal(spec_u32_be);
    reveal(spec_u32_from_be);
    let bytes = spec_u32_be(x) + rest;
    assert(bytes[0] == spec_u32_be(x)[0]);
    assert(bytes[1] == spec_u32_be(x)[1]);
    assert(bytes[2] == spec_u32_be(x)[2]);
    assert(bytes[3] == spec_u32_be(x)[3]);
}

/// A decoded number fits in 32 bits and depends on the first four bytes
/// only.
pub proof fn lemma_u32_from_be_bounds(bytes: Seq<u8>, other: Seq<u8>)
    requires
        bytes.len() >= 4,
        other.len() >= 4,
        bytes.take(4) == other.take(4),
    ensures
        0 <= spec_u32_from_be(bytes) <= u32::MAX,
        spec_u32_from_be(bytes) == spec_u32_from_be(other),
{
    reveal(spec_u32_from_be);
    assert(bytes[0] == bytes.take(4)[0] && other[0] == other.take(4)[0]);
    assert(bytes[1] == bytes.take(4)[1] && other[1] == other.take(4)[1]);
    assert(bytes[2] == bytes.take(4)[2] && other[2] == other.take(4)[2]);
    assert(bytes[3] == bytes.take(4)[3] && other[3] == other.take(4)[3]);
}

proof fn lemma_u64_from_its_bytes(x: u64, y: u64)
    by (bit_vector)
    requires
        (x >> 56) as u8 == (y >> 56) as u8,
        (x >> 48) as u8 == (y >> 48) as u8,
        (x >> 40) as u8 == (y >> 40) as u8,
        (x >> 32) as u8 == (y >> 32) as u8,
        (x >> 24) as u8 == (y >> 24) as u8,
        (x >> 16) as u8 == (y >> 16) as u8,
        (x >> 8) as u8 == (y >> 8) as u8,
        x as u8 == y as u8,
    ensures
        x == y,
{
}

/// Two numbers with the same big-endian bytes are the same number.
pub proof fn lemma_u64_be_injective(x: u64, y: u64)
    requires
        spec_u64_be(x) == spec_u64_be(y),
    ensures
        x == y,
{
    let a = spec_u64_be(x);
    let b = spec_u64_be(y);
    assert(a[0] == b[0] && a[1] == b[1] && a[2] == b[2] && a[3] == b[3]);
    assert(a[4] == b[4] && a[5] == b[5] && a[6] == b[6] && a[7] == b[7]);
    lemma_u64_from_its_bytes(x, y);
}

/// `x` as four bytes, most significant first.
pub fn u32_to_be_bytes(x: u32) -> (bytes: [u8; 4])
    ensures
        bytes@ == spec_u32_be(x),
{
    let bytes: [u8; 4] = [
        (x / 0x100_0000) as u8,
        (x / 0x1_0000 % 0x100) as u8,
        (x / 0x100 % 0x100) as u8,
        (x % 0x100) as u8,
    ];
    reveal(spec_u32_be);
    assert(bytes@ =~= spec_u32_be(x));
    bytes
}

/// The number whose big-endian bytes are the first four of `bytes`.
pub(crate) fn u32_from_be_bytes(bytes: &[u8]) -> (x: u32)
    requires
        bytes@.len() >= 4,
    ensures
        x == spec_u32_from_be(bytes@),
{
    reveal(spec_u32_from_be);
    let b0: u32 = bytes[0] as u32;
    let b1: u32 = bytes[1] as u32;
    let b2: u32 = bytes[2] as u32;
    let b3: u32 = bytes[3] as u32;
    b0 * 0x100_0000 + b1 * 0x1_0000 + b2 * 0x100 + b3
}

/// `x` as eight bytes, most significant first.
pub fn u64_to_be_bytes(x: u64) -> (bytes: [u8; 8])
    ensures
        bytes@ == spec_u64_be(x),
{
    let bytes: [u8; 8] = [
        (x >> 56) as u8,
        (x >> 48) as u8,
        (x >> 40) as u8,
        (x >> 32) as u8,
        (x >> 24) as u8,
        (x >> 16) as u8,
        (x >> 8) as u8,
        x as u8,
    ];
    assert(bytes@ =~= spec_u64_be(x));
    bytes
}

/// A field on the wire: its length as a big-endian `u32`, then its bytes.
pub open spec fn length_prefixed(data: Seq<u8>) -> Seq<u8>
    recommends
        data.len() <= u32::MAX,
{
    spec_u32_be(data.len() as u32) + data
}

/// The field that `payload` starts with, when `payload` holds the four
/// length bytes and as many bytes as they announce. Bytes after the field
/// are ignored.
pub open spec fn spec_read_length_prefixed(payload: Seq<u8>) -> Option<Seq<u8>> {
    if payload.len() < 4 {
        None
    } else if payload.len() < 4 + spec_u32_from_be(payload) {
        None
    } else {
        Some(payload.subrange(4, 4 + spec_u32_from_be(payload)))
    }
}

/// A field on the wire is four bytes longer than its content.
pub proof fn lemma_length_prefixed_len(data: Seq<u8>)
    ensures
        length_prefixed(data).len() == 4 + data.len(),
{
    lemma_u32_be_round_trip(data.len() as u32, Seq::empty());
}

/// A field that was read lies within the payload, after the four length
/// bytes.
pub proof fn lemma_read_length_prefixed(payload: Seq<u8>)
    ensures
        spec_read_length_prefixed(payload) matches Some(field) ==> {
            &&& 4 + field.len() <= payload.len()
            &&& field.len() <= u32::MAX
            &&& field == payload.subrange(4, 4 + field.len() as int)
        },
{
    if payload.len() >= 4 {
        lemma_u32_from_be_bounds(payload, payload);
    }
}

/// Reading a written field gives the field back, whatever follows it.
pub proof fn lemma_length_prefixed_round_trip(data: Seq<u8>, rest: Seq<u8>)
    requires
        data.len() <= u32::MAX,
    ensures
        spec_read_length_prefixed(length_prefixed(data) + rest) == Some(data),
{
    let wire = length_prefixed(data) + rest;
    lemma_u32_be_round_trip(data.len() as u32, data + rest);
    assert(wire == spec_u32_be(data.len() as u32) + (data + rest));
    assert(wire.subrange(4, 4 + data.len() as int) =~= data);
}

/// Puts the length of `data` in front of it. `None` when the length does not
/// fit in 32 bits.
pub fn encode_length_prefixed(data: &[u8]) -> (field: Option<Vec<u8>>)
    ensures
        match field {
            Some(bytes) => data@.len() <= u32::MAX && bytes@ == length_prefixed(data@),
            None => data@.len() > u32::MAX,
        },
{
    if data.len() > u32::MAX as usize {
        return None;
    }
    let prefix: [u8; 4] = u32_to_be_bytes(data.len() as u32);
    let mut bytes: Vec<u8> = Vec::new();
    bytes.extend_from_slice(&prefix);
    bytes.extend_from_slice(data);
    Some(bytes)
}

/// Copies `bytes[from..to]`.
pub(crate) fn copy_range(bytes: &[u8], from: usize, to: usize) -> (out: Vec<u8>)
    requires
        from <= to <= bytes@.len(),
    ensures
        out@ == bytes@.subrange(from as int, to as int),
{
    let mut out: Vec<u8> = Vec::new();
    let mut i: usize = from;
    while i < to
        invariant
            from <= i <= to <= bytes@.len(),
            out@ == bytes@.subrange(from as int, i as int),
        decreases to - i,
    {
        out.push(bytes[i]);
        i = i + 1;
        assert(out@ == bytes@.subrange(from as int, i as int));
    }
    out
}

/// The first `N` bytes of `bytes` as an array.
pub(crate) fn to_array<const N: usize>(bytes: &[u8]) -> (array: [u8; N])
    requires
        bytes@.len() >= N,
    ensures
        array@ == bytes@.take(N as int),
{
    let mut array: [u8; N] = [0u8; N];
    let mut i: usize = 0;
    while i < N
        invariant
            i <= N <= bytes@.len(),
            array@.len() == N,
            array@.take(i as int) == bytes@.take(i as int),
        decreases N - i,
    {
        array[i] = bytes[i];
        i = i + 1;
        assert(array@.take(i as int) == bytes@.take(i as int));
    }
    assert(array@.take(N as int) == array@);
    array
}

/// A copy of `bytes`.
pub fn to_vec(bytes: &[u8]) -> (out: Vec<u8>)
    ensures
        out@ == bytes@,
{
    let mut out: Vec<u8> = Vec::new();
    out.extend_from_slice(bytes);
    out
}

/// Whether the two hold the same bytes.
pub fn bytes_equal(a: &[u8], b: &[u8]) -> (same: bool)
    ensures
        same == (a@ == b@),
{
    if a.len() != b.len() {
        return false;
    }
    let mut i: usize = 0;
    while i < a.len()
        invariant
            i <= a@.len(),
            a@.len() == b@.len(),
            a@.take(i as int) == b@.take(i as int),
        decreases a@.len() - i,
    {
        if a[i] != b[i] {
            return false;
        }
        i = i + 1;
        assert(a@.take(i as int) == a@.take(i - 1).push(a@[i - 1]));
        assert(b@.take(i as int) == b@.take(i - 1).push(b@[i - 1]));
    }
    assert(a@.take(i as int) == a@);
    assert(b@.take(i as int) == b@);
    true
}

/// A field cut short cannot be read.
pub proof fn lemma_length_prefixed_cut_short(data: Seq<u8>, k: int)
    requires
        data.len() <= u32::MAX,
        0 <= k < 4 + data.len(),
    ensures
        spec_read_length_prefixed(length_prefixed(data).take(k)) is None,
{
    let cut = length_prefixed(data).take(k);
    if k >= 4 {
        lemma_u32_be_round_trip(data.len() as u32, data.take(k - 4));
        assert(cut == spec_u32_be(data.len() as u32) + data.take(k - 4));
    } else {
        lemma_length_prefixed_len(data);
    }
}

/// Reads the field that `payload` starts with.
pub fn decode_length_prefixed(payload: &[u8]) -> (field: Option<Vec<u8>>)
    ensures
        match field {
            Some(bytes) => spec_read_length_prefixed(payload@) == Some(bytes@) && 4 + bytes@.len()
                <= payload@.len(),
            None => spec_read_length_prefixed(payload@) is None,
        },
{
    proof {
        lemma_read_length_prefixed(payload@);
    }
    if payload.len() < 4 {
        return None;
    }
    let announced: u32 = u32_from_be_bytes(payload);
    if payload.len() - 4 < announced as usize {
        return None;
    }
    Some(copy_range(payload, 4, 4 + announced as usize))
}

} // verus!
