//! Byte buffers of the `bytes` crate, as the protocol code sees them.
use bytes::{Buf, BufMut, Bytes, BytesMut};
use vstd::prelude::*;

verus! {

#[verifier::external_type_specification]
#[verifier::external_body]
pub struct ExBytes(Bytes);

#[verifier::external_type_specification]
#[verifier::external_body]
pub struct ExBytesMut(BytesMut);

/// The bytes that a `Bytes` value still holds, front first.
pub uninterp spec fn bytes_view(b: Bytes) -> Seq<u8>;

/// The bytes written so far into a `BytesMut`, front first.
pub uninterp spec fn bytes_mut_view(b: BytesMut) -> Seq<u8>;

/// The `n` low bytes of `v` in big-endian order.
pub open spec fn be_bytes(v: nat, n: nat) -> Seq<u8>
    decreases n,
{
    if n == 0 {
        Seq::empty()
    } else {
        be_bytes(v / 256, (n - 1) as nat).push((v % 256) as u8)
    }
}

/// The number that a byte sequence denotes when read in big-endian order.
pub open spec fn be_value(s: Seq<u8>) -> nat
    decreases s.len(),
{
    if s.len() == 0 {
        0
    } else {
        be_value(s.drop_last()) * 256 + s.last() as nat
    }
}

/// Two big-endian bytes read back as the 16-bit number they were written from.
pub proof fn lemma_be_u16(v: u16)
    ensures
        be_value(be_bytes(v as nat, 2)) == v,
        be_bytes(v as nat, 2).len() == 2,
{
    reveal_with_fuel(be_bytes, 3);
    reveal_with_fuel(be_value, 3);
    let b = be_bytes(v as nat, 2);
    assert(b.drop_last().drop_last() =~= Seq::<u8>::empty());
    assert(b.drop_last() =~= seq![((v as nat / 256) % 256) as u8]);
    assert(be_value(b.drop_last()) == (v as nat / 256) % 256);
    assert((v as nat / 256) % 256 == v as nat / 256);
    assert(v as nat == (v as nat / 256) * 256 + v as nat % 256);
}

/// The largest buffer that `BytesMut` can hold (its allocation limit).
pub open spec fn max_buffer_len() -> int {
    isize::MAX as int
}

/// A read that found fewer bytes than it needed: the two numbers that
/// `bytes::TryGetError` carries.
#[derive(Debug, Clone, Copy, PartialEq, Eq)]
pub struct ShortRead {
    pub requested: usize,
    pub available: usize,
}

/// The decimal text of a natural number, as `Display` writes it.
pub open spec fn decimal_text(n: nat) -> Seq<char>
    decreases n,
{
    if n < 10 {
        seq![digit_char(n)]
    } else {
        decimal_text(n / 10).push(digit_char(n % 10))
    }
}

/// The ASCII digit for a number below ten.
pub open spec fn digit_char(d: nat) -> char {
    if d == 0 { '0' }
    else if d == 1 { '1' }
    else if d == 2 { '2' }
    else if d == 3 { '3' }
    else if d == 4 { '4' }
    else if d == 5 { '5' }
    else if d == 6 { '6' }
    else if d == 7 { '7' }
    else if d == 8 { '8' }
    else { '9' }
}

/// The text that `bytes::TryGetError` displays.
pub open spec fn short_read_text(requested: nat, available: nat) -> Seq<char> {
    "Not enough bytes remaining in buffer to read value (requested "@
        + decimal_text(requested)
        + " but only "@
        + decimal_text(available)
        + " available)"@
}

/// `BytesMut::with_capacity`: an empty buffer (the capacity is only a hint).
#[verifier::external_body]
pub(crate) fn bytes_mut_with_capacity(capacity: usize) -> (b: BytesMut)
    requires
        capacity <= isize::MAX,
    ensures
        bytes_mut_view(b) == Seq::<u8>::empty(),
{
    BytesMut::with_capacity(capacity)
}

/// `BytesMut::len`: the number of bytes written.
#[verifier::external_body]
pub(crate) fn bytes_mut_len(b: &BytesMut) -> (n: usize)
    ensures
        n == bytes_mut_view(*b).len(),
{
    b.len()
}

/// `BufMut::put_u8` on `BytesMut`: appends one byte.
#[verifier::external_body]
pub(crate) fn put_u8(b: &mut BytesMut, v: u8)
    requires
        bytes_mut_view(*old(b)).len() + 1 <= max_buffer_len(),
    ensures
        bytes_mut_view(*final(b)) == bytes_mut_view(*old(b)).push(v),
{
    b.put_u8(v)
}

/// `BufMut::put_u16` on `BytesMut`: appends the value in big-endian order.
#[verifier::external_body]
pub(crate) fn put_u16(b: &mut BytesMut, v: u16)
    requires
        bytes_mut_view(*old(b)).len() + 2 <= max_buffer_len(),
    ensures
        bytes_mut_view(*final(b)) == bytes_mut_view(*old(b)) + be_bytes(v as nat, 2),
{
    b.put_u16(v)
}

/// `BufMut::put_u64` on `BytesMut`: appends the value in big-endian order.
#[verifier::external_body]
pub(crate) fn put_u64(b: &mut BytesMut, v: u64)
    requires
        bytes_mut_view(*old(b)).len() + 8 <= max_buffer_len(),
    ensures
        bytes_mut_view(*final(b)) == bytes_mut_view(*old(b)) + be_bytes(v as nat, 8),
{
    b.put_u64(v)
}

/// `BufMut::put_u128` on `BytesMut`: appends the value in big-endian order.
#[verifier::external_body]
pub(crate) fn put_u128(b: &mut BytesMut, v: u128)
    requires
        bytes_mut_view(*old(b)).len() + 16 <= max_buffer_len(),
    ensures
        bytes_mut_view(*final(b)) == bytes_mut_view(*old(b)) + be_bytes(v as nat, 16),
{
    b.put_u128(v)
}

/// `BufMut::put_slice` on `BytesMut`: appends the slice.
#[verifier::external_body]
pub(crate) fn put_slice(b: &mut BytesMut, s: &[u8])
    requires
        bytes_mut_view(*old(b)).len() + s@.len() <= max_buffer_len(),
    ensures
        bytes_mut_view(*final(b)) == bytes_mut_view(*old(b)) + s@,
{
    b.put_slice(s)
}

/// `BufMut::put` on `BytesMut` with a `Bytes` source: appends its bytes.
#[verifier::external_body]
pub(crate) fn put_bytes(b: &mut BytesMut, src: Bytes)
    requires
        bytes_mut_view(*old(b)).len() + bytes_view(src).len() <= max_buffer_len(),
    ensures
        bytes_mut_view(*final(b)) == bytes_mut_view(*old(b)) + bytes_view(src),
{
    b.put(src)
}

/// `BytesMut::freeze`: the same bytes, now read-only.
#[verifier::external_body]
pub(crate) fn freeze(b: BytesMut) -> (r: Bytes)
    ensures
        bytes_view(r) == bytes_mut_view(b),
{
    b.freeze()
}

/// `Bytes::len`: the number of bytes held.
#[verifier::external_body]
pub(crate) fn bytes_len(b: &Bytes) -> (n: usize)
    ensures
        n == bytes_view(*b).len(),
{
    b.len()
}

/// `Buf::remaining` on `Bytes`: the number of bytes left to read.
#[verifier::external_body]
pub(crate) fn bytes_remaining(b: &Bytes) -> (n: usize)
    ensures
        n == bytes_view(*b).len(),
{
    b.remaining()
}

/// `Buf::try_get_u8` on `Bytes`: takes the first byte, or reports a short read
/// and leaves the buffer as it was.
#[verifier::external_body]
pub(crate) fn try_get_u8(b: &mut Bytes) -> (r: Result<u8, ShortRead>)
    ensures
        match r {
            Ok(v) => bytes_view(*old(b)).len() >= 1 && v == bytes_view(*old(b))[0]
                && bytes_view(*final(b)) == bytes_view(*old(b)).skip(1),
            Err(e) => bytes_view(*old(b)).len() < 1 && bytes_view(*final(b)) == bytes_view(*old(b))
                && e.requested == 1 && e.available == bytes_view(*old(b)).len(),
        },
{
    b.try_get_u8().map_err(|e| ShortRead { requested: e.requested, available: e.available })
}

/// `Buf::try_get_u16` on `Bytes`: takes two bytes as a big-endian number, or
/// reports a short read and leaves the buffer as it was.
#[verifier::external_body]
pub(crate) fn try_get_u16(b: &mut Bytes) -> (r: Result<u16, ShortRead>)
    ensures
        match r {
            Ok(v) => bytes_view(*old(b)).len() >= 2 && v == be_value(bytes_view(*old(b)).take(2))
                && bytes_view(*final(b)) == bytes_view(*old(b)).skip(2),
            Err(e) => bytes_view(*old(b)).len() < 2 && bytes_view(*final(b)) == bytes_view(*old(b))
                && e.requested == 2 && e.available == bytes_view(*old(b)).len(),
        },
{
    b.try_get_u16().map_err(|e| ShortRead { requested: e.requested, available: e.available })
}

/// `Buf::try_get_u64` on `Bytes`: takes eight bytes as a big-endian number, or
/// reports a short read and leaves the buffer as it was.
#[verifier::external_body]
pub(crate) fn try_get_u64(b: &mut Bytes) -> (r: Result<u64, ShortRead>)
    ensures
        match r {
            Ok(v) => bytes_view(*old(b)).len() >= 8 && v == be_value(bytes_view(*old(b)).take(8))
                && bytes_view(*final(b)) == bytes_view(*old(b)).skip(8),
            Err(e) => bytes_view(*old(b)).len() < 8 && bytes_view(*final(b)) == bytes_view(*old(b))
                && e.requested == 8 && e.available == bytes_view(*old(b)).len(),
        },
{
    b.try_get_u64().map_err(|e| ShortRead { requested: e.requested, available: e.available })
}

/// `Buf::try_get_u128` on `Bytes`: takes sixteen bytes as a big-endian number,
/// or reports a short read and leaves the buffer as it was.
#[verifier::external_body]
pub(crate) fn try_get_u128(b: &mut Bytes) -> (r: Result<u128, ShortRead>)
    ensures
        match r {
            Ok(v) => bytes_view(*old(b)).len() >= 16 && v == be_value(bytes_view(*old(b)).take(16))
                && bytes_view(*final(b)) == bytes_view(*old(b)).skip(16),
            Err(e) => bytes_view(*old(b)).len() < 16 && bytes_view(*final(b)) == bytes_view(*old(b))
                && e.requested == 16 && e.available == bytes_view(*old(b)).len(),
        },
{
    b.try_get_u128().map_err(|e| ShortRead { requested: e.requested, available: e.available })
}

/// `Bytes::split_to`: takes the first `at` bytes; the buffer keeps the rest.
#[verifier::external_body]
pub(crate) fn bytes_split_to(b: &mut Bytes, at: usize) -> (front: Bytes)
    requires
        at <= bytes_view(*old(b)).len(),
    ensures
        bytes_view(front) == bytes_view(*old(b)).take(at as int),
        bytes_view(*final(b)) == bytes_view(*old(b)).skip(at as int),
{
    b.split_to(at)
}

/// `Bytes::from(Vec<u8>)`: the same bytes.
#[verifier::external_body]
pub(crate) fn bytes_from_vec(v: Vec<u8>) -> (b: Bytes)
    ensures
        bytes_view(b) == v@,
{
    Bytes::from(v)
}

/// `Vec::<u8>::from(Bytes)`: the same bytes.
#[verifier::external_body]
pub(crate) fn bytes_into_vec(b: Bytes) -> (v: Vec<u8>)
    ensures
        v@ == bytes_view(b),
{
    Vec::from(b)
}

/// The `Display` text of `bytes::TryGetError` with the given numbers.
#[verifier::external_body]
pub(crate) fn short_read_message(e: ShortRead) -> (s: String)
    ensures
        s@ == short_read_text(e.requested as nat, e.available as nat),
{
    bytes::TryGetError { requested: e.requested, available: e.available }.to_string()
}

} // verus!
