//! VarInts and length-prefixed strings of the Minecraft protocol.
use crate::buffers::{
    bytes_into_vec, bytes_mut_view, bytes_remaining, bytes_split_to, bytes_view, max_buffer_len,
    put_slice, put_u8, short_read_message, short_read_text, try_get_u8,
};
use crate::text::string_from_utf8;
use vstd::utf8::{decode_utf8, encode_utf8, encode_utf8_decode_utf8, encode_utf8_valid_utf8, valid_utf8};
use crate::error::PingError;
use bytes::{Bytes, BytesMut};
use vstd::prelude::*;

verus! {

pub const NEXT_BYTE_MASK: u32 = 0xFFFFFF80;

pub const CONTINUATION_BIT: u8 = 0x80;

pub const DATA_MASK: u8 = 0x7F;

/// The VarInt encoding of `u`: seven bits per byte, lowest group first, with
/// the high bit set on every byte but the last.
pub open spec fn var_int_encoding(u: u32) -> Seq<u8>
    decreases u,
{
    if u < 128 {
        seq![u as u8]
    } else {
        seq![(u % 128 + 128) as u8] + var_int_encoding(u / 128)
    }
}

/// How a VarInt at the front of a byte sequence ends.
#[derive(PartialEq, Eq, Structural, Debug, Clone, Copy)]
pub enum VarIntScan {
    /// It ends after this many bytes.
    Complete(usize),
    /// The bytes run out while every byte so far asks for another.
    Incomplete,
    /// Five bytes all ask for another: longer than any 32-bit VarInt.
    TooLong,
}

/// How the VarInt at the front of `s` ends when at most `budget` bytes may
/// belong to it.
pub open spec fn var_int_scan_within(s: Seq<u8>, budget: nat) -> VarIntScan
    decreases s.len(),
{
    if budget == 0 {
        VarIntScan::TooLong
    } else if s.len() == 0 {
        VarIntScan::Incomplete
    } else if s[0] < 128 {
        VarIntScan::Complete(1)
    } else {
        match var_int_scan_within(s.drop_first(), (budget - 1) as nat) {
            VarIntScan::Complete(n) => VarIntScan::Complete((n + 1) as usize),
            other => other,
        }
    }
}

/// How the VarInt at the front of `s` ends: a VarInt has at most five bytes.
pub open spec fn var_int_scan(s: Seq<u8>) -> VarIntScan {
    var_int_scan_within(s, 5)
}

/// The number that base-128 digits denote, lowest digit first; the high bit of
/// each byte is not part of its digit.
pub open spec fn base128_value(s: Seq<u8>) -> nat
    decreases s.len(),
{
    if s.len() == 0 {
        0
    } else {
        (s[0] % 128) as nat + 128 * base128_value(s.drop_first())
    }
}

/// The `i32` that the first `n` bytes of `s` decode to: their base-128 value,
/// cut to 32 bits.
pub open spec fn var_int_value(s: Seq<u8>, n: nat) -> i32 {
    ((base128_value(s.take(n as int)) % 0x1_0000_0000) as u32) as i32
}

/// `128` to the power `k`.
pub open spec fn pow128(k: nat) -> nat
    decreases k,
{
    if k == 0 {
        1
    } else {
        128 * pow128((k - 1) as nat)
    }
}

/// What one more byte does to a VarInt being read.
#[derive(PartialEq, Eq, Structural, Debug, Clone, Copy)]
pub enum VarIntStep {
    /// The VarInt goes on past this byte.
    NeedMore,
    /// The VarInt ended with this byte and has this value.
    Done(i32),
    /// This was the fifth byte and it still asks for another.
    TooLong,
}

/// What feeding the bytes `s` to a fresh VarInt reader yields at the last of them.
pub open spec fn var_int_step_of(s: Seq<u8>) -> VarIntStep {
    match var_int_scan(s) {
        VarIntScan::Complete(n) => VarIntStep::Done(var_int_value(s, n as nat)),
        VarIntScan::Incomplete => VarIntStep::NeedMore,
        VarIntScan::TooLong => VarIntStep::TooLong,
    }
}

proof fn lemma_pow128_small()
    ensures
        pow128(0) == 1,
        pow128(1) == 128,
        pow128(2) == 16384,
        pow128(3) == 2097152,
        pow128(4) == 268435456,
        pow128(5) == 34359738368,
{
    reveal_with_fuel(pow128, 6);
}

/// Appending a byte adds its digit at the next power of 128.
proof fn lemma_base128_push(s: Seq<u8>, b: u8)
    ensures
        base128_value(s.push(b)) == base128_value(s) + (b % 128) as nat * pow128(s.len()),
    decreases s.len(),
{
    let t = s.push(b);
    if s.len() == 0 {
        assert(t.drop_first() =~= Seq::<u8>::empty());
        assert(t[0] == b);
        assert(base128_value(t.drop_first()) == 0);
        assert(pow128(0) == 1);
    } else {
        assert(t.drop_first() =~= s.drop_first().push(b));
        assert(t[0] == s[0]);
        lemma_base128_push(s.drop_first(), b);
        let d = (b % 128) as nat;
        let p = pow128((s.len() - 1) as nat);
        let r = base128_value(s.drop_first());
        assert(pow128(s.len()) == 128 * p);
        assert(128 * (r + d * p) == 128 * r + d * (128 * p)) by (nonlinear_arith);
    }
}

/// Scanning a sequence that is still incomplete, then one more byte.
proof fn lemma_scan_push(s: Seq<u8>, budget: nat, b: u8)
    requires
        budget <= 5,
        var_int_scan_within(s, budget) == VarIntScan::Incomplete,
    ensures
        s.len() < budget,
        var_int_scan_within(s.push(b), budget) == (if b < 128 {
            VarIntScan::Complete((s.len() + 1) as usize)
        } else if s.len() + 1 >= budget {
            VarIntScan::TooLong
        } else {
            VarIntScan::Incomplete
        }),
    decreases s.len(),
{
    let t = s.push(b);
    if s.len() == 0 {
        assert(t.drop_first() =~= Seq::<u8>::empty());
        assert(t[0] == b);
    } else {
        assert(t.drop_first() =~= s.drop_first().push(b));
        assert(t[0] == s[0]);
        lemma_scan_push(s.drop_first(), (budget - 1) as nat, b);
    }
}

/// Once the end of a VarInt is known, later bytes do not change it.
proof fn lemma_scan_extend(s: Seq<u8>, budget: nat, t: Seq<u8>)
    requires
        var_int_scan_within(s, budget) != VarIntScan::Incomplete,
    ensures
        var_int_scan_within(s + t, budget) == var_int_scan_within(s, budget),
    decreases s.len(),
{
    if budget == 0 {
    } else if s.len() == 0 {
    } else {
        assert((s + t)[0] == s[0]);
        if s[0] >= 128 {
            assert((s + t).drop_first() =~= s.drop_first() + t);
            lemma_scan_extend(s.drop_first(), (budget - 1) as nat, t);
        }
    }
}

/// A VarInt encoding takes one to five bytes.
proof fn lemma_var_int_encoding_len(u: u32)
    ensures
        1 <= var_int_encoding(u).len() <= 5,
        u < 2097152 ==> var_int_encoding(u).len() <= 3,
        u < 16384 ==> var_int_encoding(u).len() <= 2,
        u < 268435456 ==> var_int_encoding(u).len() <= 4,
    decreases u,
{
    if u >= 128 {
        lemma_var_int_encoding_len(u / 128);
    }
}

/// A complete scan never claims more bytes than there are.
proof fn lemma_scan_complete_len(s: Seq<u8>, budget: nat)
    requires
        budget <= 5,
    ensures
        var_int_scan_within(s, budget) matches VarIntScan::Complete(n) ==> 1 <= n <= s.len() && n
            <= budget,
        var_int_scan_within(s, budget) is TooLong ==> budget <= s.len(),
    decreases s.len(),
{
    if budget > 0 && s.len() > 0 && s[0] >= 128 {
        lemma_scan_complete_len(s.drop_first(), (budget - 1) as nat);
    }
}

/// Where a VarInt ends depends only on the bytes up to that end.
proof fn lemma_scan_end(s: Seq<u8>, budget: nat)
    requires
        budget <= 5,
    ensures
        var_int_scan_within(s, budget) matches VarIntScan::Complete(n) ==> var_int_scan_within(
            s.take(n as int),
            budget,
        ) == VarIntScan::Complete(n),
        var_int_scan_within(s, budget) is TooLong ==> budget <= s.len() && var_int_scan_within(
            s.take(budget as int),
            budget,
        ) is TooLong,
    decreases s.len(),
{
    lemma_scan_complete_len(s, budget);
    if budget == 0 {
    } else if s.len() == 0 {
    } else if s[0] < 128 {
        assert(s.take(1)[0] == s[0]);
    } else {
        let t = s.drop_first();
        lemma_scan_end(t, (budget - 1) as nat);
        lemma_scan_complete_len(t, (budget - 1) as nat);
        match var_int_scan_within(t, (budget - 1) as nat) {
            VarIntScan::Complete(m) => {
                let n = m + 1;
                assert(s.take(n as int).drop_first() =~= t.take(m as int));
                assert(s.take(n as int)[0] == s[0]);
            },
            VarIntScan::TooLong => {
                assert(s.take(budget as int).drop_first() =~= t.take(budget - 1));
                assert(s.take(budget as int)[0] == s[0]);
            },
            VarIntScan::Incomplete => {},
        }
    }
}

/// Before the end of a VarInt, every prefix of it is still incomplete.
proof fn lemma_scan_prefix(s: Seq<u8>, k: int)
    requires
        0 <= k <= s.len(),
    ensures
        var_int_scan(s.take(k)) is Incomplete || var_int_scan(s.take(k)) == var_int_scan(s),
{
    if !(var_int_scan(s.take(k)) is Incomplete) {
        lemma_scan_extend(s.take(k), 5, s.skip(k));
        assert(s.take(k) + s.skip(k) =~= s);
    }
}

/// Reads a VarInt byte by byte, so that the bytes can come from any source.
pub struct VarIntDecoder {
    value: u32,
    count: u32,
    seen: Ghost<Seq<u8>>,
}

impl VarIntDecoder {
    /// The bytes fed so far.
    pub closed spec fn bytes_seen(&self) -> Seq<u8> {
        self.seen@
    }

    /// The reader still waits for more bytes of its VarInt.
    pub closed spec fn wf(&self) -> bool {
        &&& self.seen@.len() == self.count
        &&& var_int_scan(self.seen@) == VarIntScan::Incomplete
        &&& self.value as nat == base128_value(self.seen@)
        &&& (self.value as nat) < pow128(self.count as nat)
    }

    /// A reader that has seen no byte yet.
    pub fn new() -> (d: Self)
        ensures
            d.wf(),
            d.bytes_seen() == Seq::<u8>::empty(),
    {
        proof {
            lemma_pow128_small();
        }
        VarIntDecoder { value: 0, count: 0, seen: Ghost(Seq::empty()) }
    }

    /// Takes the next byte and says whether the VarInt goes on, ended, or is
    /// too long.
    pub fn feed(&mut self, byte: u8) -> (step: VarIntStep)
        requires
            old(self).wf(),
        ensures
            final(self).bytes_seen() == old(self).bytes_seen().push(byte),
            step == var_int_step_of(final(self).bytes_seen()),
            step is NeedMore ==> final(self).wf() && final(self).bytes_seen().len() < 5,
            step is Done ==> var_int_scan(final(self).bytes_seen()) == VarIntScan::Complete(
                final(self).bytes_seen().len() as usize,
            ),
            step is TooLong ==> final(self).bytes_seen().len() == 5,
    {
        let ghost old_seen = self.seen@;
        proof {
            lemma_scan_push(old_seen, 5, byte);
            lemma_base128_push(old_seen, byte);
            lemma_pow128_small();
        }
        let c = self.count;
        let v = self.value;
        let d = (byte & DATA_MASK) as u32;
        assert((byte & 0x7F) as u32 == byte % 128) by (bit_vector);
        assert(byte & 0x80 == 0 <==> byte < 128) by (bit_vector);
        let shift = 7 * c;
        let nv = v | (d << shift);
        if c == 0 {
            assert(v == 0);
            assert(shift == 0);
            assert(v == 0 ==> v | (d << 0u32) == d) by (bit_vector);
            assert(nv == d);
            assert(d * pow128(c as nat) == d) by (nonlinear_arith)
                requires
                    pow128(c as nat) == 1,
            ;
            assert(nv == v + d * pow128(c as nat));
        } else if c == 1 {
            assert(v < 128 && d < 128 ==> v | (d << 7u32) == v + d * 128) by (bit_vector);
            assert(nv == v + d * pow128(c as nat));
        } else if c == 2 {
            assert(v < 16384 && d < 128 ==> v | (d << 14u32) == v + d * 16384) by (bit_vector);
            assert(nv == v + d * pow128(c as nat));
        } else if c == 3 {
            assert(v < 2097152 && d < 128 ==> v | (d << 21u32) == v + d * 2097152)
                by (bit_vector);
            assert(nv == v + d * pow128(c as nat));
        } else {
            assert(v < 268435456 && d < 128 ==> v | (d << 28u32) == ((v + d * 268435456)
                % 0x1_0000_0000) as u32) by (bit_vector);
        }
        self.value = nv;
        self.count = c + 1;
        self.seen = Ghost(old_seen.push(byte));
        proof {
            let s = old_seen.push(byte);
            assert(s.take(s.len() as int) =~= s);
            assert(base128_value(s) == v + d * pow128(c as nat));
            if c < 4 {
                assert(nv == v + d * pow128(c as nat));
                assert(d * pow128(c as nat) <= 127 * pow128(c as nat)) by (nonlinear_arith)
                    requires d < 128;
                assert(base128_value(s) < pow128((c + 1) as nat));
                assert(base128_value(s) % 0x1_0000_0000 == base128_value(s));
            } else {
                assert(nv == (base128_value(s) % 0x1_0000_0000) as u32);
            }
        }
        if byte & CONTINUATION_BIT == 0 {
            VarIntStep::Done(#[verifier::truncate] (nv as i32))
        } else if self.count >= 5 {
            VarIntStep::TooLong
        } else {
            VarIntStep::NeedMore
        }
    }
}

/// The error that reading a VarInt from `s` ends with, when `s` does not start
/// with a whole VarInt.
pub open spec fn var_int_read_error(s: Seq<u8>, e: PingError) -> bool {
    match var_int_scan(s) {
        VarIntScan::TooLong => e matches PingError::ReadPacket(m) && m@ == "Shift security"@,
        VarIntScan::Incomplete => e matches PingError::ReadPacket(m) && m@ == "Read varint length (v1) "@
            + short_read_text(1, 0),
        VarIntScan::Complete(_) => false,
    }
}

/// What is left of `s` after a failed VarInt read: the five bytes of a too
/// long VarInt are gone, and an incomplete one used up every byte.
pub open spec fn var_int_read_error_rest(s: Seq<u8>) -> Seq<u8> {
    match var_int_scan(s) {
        VarIntScan::TooLong => s.skip(5),
        _ => Seq::<u8>::empty(),
    }
}

/// Appends the VarInt encoding of `x`, taken as a 32-bit pattern.
pub fn write_var_int(buffer: &mut BytesMut, x: i32)
    requires
        bytes_mut_view(*old(buffer)).len() + var_int_encoding(x as u32).len() <= max_buffer_len(),
    ensures
        bytes_mut_view(*final(buffer)) == bytes_mut_view(*old(buffer)) + var_int_encoding(
            x as u32,
        ),
{
    let ghost start = bytes_mut_view(*buffer);
    let mut ux: u32 = #[verifier::truncate] (x as u32);
    proof {
        lemma_var_int_encoding_len(ux);
    }
    while (ux & NEXT_BYTE_MASK) != 0
        invariant
            bytes_mut_view(*buffer) + var_int_encoding(ux) == start + var_int_encoding(x as u32),
            1 <= var_int_encoding(ux).len() <= 5,
            bytes_mut_view(*buffer).len() + var_int_encoding(ux).len() == start.len()
                + var_int_encoding(x as u32).len(),
            start.len() + var_int_encoding(x as u32).len() <= max_buffer_len(),
        decreases ux,
    {
        assert(ux & 0xFFFFFF80 != 0 ==> ux >= 128) by (bit_vector);
        assert(((ux as u8) & 0x7F) | 0x80 == (ux % 128 + 128) as u8) by (bit_vector);
        assert(ux >> 7 == ux / 128) by (bit_vector);
        let byte = (#[verifier::truncate] (ux as u8) & DATA_MASK) | CONTINUATION_BIT;
        let ghost before = bytes_mut_view(*buffer);
        put_u8(buffer, byte);
        ux = ux >> 7;
        proof {
            lemma_var_int_encoding_len(ux);
            assert(bytes_mut_view(*buffer) + var_int_encoding(ux) =~= before + var_int_encoding(
                (ux * 128 + byte % 128) as u32,
            )) by {
                assert(var_int_encoding((ux * 128 + byte % 128) as u32) =~= seq![byte]
                    + var_int_encoding(ux));
            }
        }
    }
    assert(ux & 0xFFFFFF80 == 0 ==> ux < 128) by (bit_vector);
    put_u8(buffer, #[verifier::truncate] (ux as u8));
}

/// Takes a VarInt from the front of the buffer. It is at most five bytes long;
/// running out of bytes, or a fifth byte that asks for more, is an error.
pub fn read_var_int(buf: &mut Bytes) -> (r: Result<i32, PingError>)
    ensures
        match var_int_scan(bytes_view(*old(buf))) {
            VarIntScan::Complete(n) => r matches Ok(v) && v == var_int_value(
                bytes_view(*old(buf)),
                n as nat,
            ) && bytes_view(*final(buf)) == bytes_view(*old(buf)).skip(n as int),
            _ => r matches Err(e) && var_int_read_error(bytes_view(*old(buf)), e) && bytes_view(
                *final(buf),
            ) == var_int_read_error_rest(bytes_view(*old(buf))),
        },
{
    let ghost start = bytes_view(*buf);
    let mut dec = VarIntDecoder::new();
    loop
        invariant
            dec.wf(),
            dec.bytes_seen().len() < 5,
            dec.bytes_seen() + bytes_view(*buf) == start,
            start == bytes_view(*old(buf)),
        decreases 5 - dec.bytes_seen().len(),
    {
        let byte = match try_get_u8(buf) {
            Ok(b) => b,
            Err(e) => {
                let mut msg = String::from_str("Read varint length (v1) ");
                let text = short_read_message(e);
                msg.append(text.as_str());
                proof {
                    assert(dec.bytes_seen() =~= start);
                    assert(bytes_view(*buf) =~= Seq::<u8>::empty());
                }
                return Err(PingError::ReadPacket(msg));
            },
        };
        let ghost seen = dec.bytes_seen().push(byte);
        let ghost rest = bytes_view(*buf);
        assert(seen + rest =~= start);
        match dec.feed(byte) {
            VarIntStep::NeedMore => {},
            VarIntStep::Done(v) => {
                proof {
                    lemma_scan_extend(seen, 5, rest);
                    assert(start.take(seen.len() as int) =~= seen);
                    assert(seen.take(seen.len() as int) =~= seen);
                    assert(rest =~= start.skip(seen.len() as int));
                }
                return Ok(v);
            },
            VarIntStep::TooLong => {
                proof {
                    lemma_scan_extend(seen, 5, rest);
                    assert(rest =~= start.skip(5));
                }
                return Err(PingError::ReadPacket(String::from_str("Shift security")));
            },
        }
    }
}

/// Appends a string as its length in bytes (a VarInt) followed by its UTF-8
/// bytes. The length is taken as an `i32`, as the protocol does.
pub fn write_string(buffer: &mut BytesMut, string: &str)
    requires
        bytes_mut_view(*old(buffer)).len() + 5 + encode_utf8(string@).len() <= max_buffer_len(),
    ensures
        bytes_mut_view(*final(buffer)) == bytes_mut_view(*old(buffer)) + var_int_encoding(
            (encode_utf8(string@).len() as i32) as u32,
        ) + encode_utf8(string@),
{
    let n = string.len();
    let len_prefix: i32 = #[verifier::truncate] (n as i32);
    proof {
        lemma_var_int_encoding_len(len_prefix as u32);
    }
    write_var_int(buffer, len_prefix);
    put_slice(buffer, string.as_bytes());
}

/// Takes a string written by `write_string` from the front of the buffer: a
/// VarInt length, then that many bytes of UTF-8.
pub fn read_string(buf: &mut Bytes) -> (r: Result<String, PingError>)
    ensures
        ({
            let s = bytes_view(*old(buf));
            match var_int_scan(s) {
                VarIntScan::Complete(n) => {
                    let len = var_int_value(s, n as nat) as usize;
                    let rest = s.skip(n as int);
                    if rest.len() < len {
                        &&& r matches Err(PingError::ReadPacket(m)) && m@ == "Remaining < len"@
                        &&& bytes_view(*final(buf)) == rest
                    } else {
                        let piece = rest.take(len as int);
                        &&& bytes_view(*final(buf)) == rest.skip(len as int)
                        &&& if valid_utf8(piece) {
                            r matches Ok(t) && t@ == decode_utf8(piece)
                        } else {
                            r matches Err(PingError::ReadPacket(m)) && m@ == "Parse to string error"@
                        }
                    }
                },
                _ => r matches Err(e) && var_int_read_error(s, e) && bytes_view(*final(buf))
                    == var_int_read_error_rest(s),
            }
        }),
{
    let v = read_var_int(buf)?;
    let len = #[verifier::truncate] (v as usize);
    if bytes_remaining(buf) < len {
        return Err(PingError::ReadPacket(String::from_str("Remaining < len")));
    }
    let bytes = bytes_split_to(buf, len);
    match string_from_utf8(bytes_into_vec(bytes)) {
        Ok(t) => Ok(t),
        Err(_) => Err(PingError::ReadPacket(String::from_str("Parse to string error"))),
    }
}

/// `var_int_encoding` writes the digits of the number, lowest first.
proof fn lemma_var_int_encoding_value(u: u32)
    ensures
        base128_value(var_int_encoding(u)) == u,
    decreases u,
{
    if u >= 128 {
        lemma_var_int_encoding_value(u / 128);
        let e = var_int_encoding(u);
        assert(e.drop_first() =~= var_int_encoding(u / 128));
        assert(e[0] == (u % 128 + 128) as u8);
        assert((e[0] % 128) as nat == u % 128);
        assert(u as nat == (u % 128) as nat + 128 * ((u / 128) as nat));
    } else {
        let e = var_int_encoding(u);
        assert(e.drop_first() =~= Seq::<u8>::empty());
        assert(base128_value(e.drop_first()) == 0);
    }
}

/// The encoding ends exactly at its last byte, whatever follows it.
proof fn lemma_var_int_encoding_scan(u: u32, rest: Seq<u8>, budget: nat)
    requires
        var_int_encoding(u).len() <= budget <= 5,
    ensures
        var_int_scan_within(var_int_encoding(u) + rest, budget) == VarIntScan::Complete(
            var_int_encoding(u).len() as usize,
        ),
    decreases u,
{
    lemma_var_int_encoding_len(u);
    let s = var_int_encoding(u) + rest;
    if u >= 128 {
        lemma_var_int_encoding_len(u / 128);
        assert(s.drop_first() =~= var_int_encoding(u / 128) + rest);
        lemma_var_int_encoding_scan(u / 128, rest, (budget - 1) as nat);
    }
}

/// Reading a VarInt back from what `write_var_int(x)` wrote gives `x`, and the
/// read stops right after the encoding, whatever bytes follow it.
pub proof fn lemma_var_int_round_trip(x: i32, rest: Seq<u8>)
    ensures
        ({
            let e = var_int_encoding(x as u32);
            &&& var_int_scan(e + rest) == VarIntScan::Complete(e.len() as usize)
            &&& var_int_value(e + rest, e.len()) == x
            &&& (e + rest).skip(e.len() as int) == rest
        }),
{
    let u = x as u32;
    let e = var_int_encoding(u);
    lemma_var_int_encoding_len(u);
    lemma_var_int_encoding_scan(u, rest, 5);
    lemma_var_int_encoding_value(u);
    assert((e + rest).take(e.len() as int) =~= e);
    assert((e + rest).skip(e.len() as int) =~= rest);
    assert(((u as nat) % 0x1_0000_0000) == u as nat);
    assert((x as u32) as i32 == x) by (bit_vector);
}

/// The VarInt encoding of any 32-bit pattern takes one to five bytes.
pub proof fn lemma_var_int_length(u: u32)
    ensures
        1 <= var_int_encoding(u).len() <= 5,
{
    lemma_var_int_encoding_len(u);
}

/// Reading a string back from what `write_string` wrote gives the same text,
/// and the read stops right after it, whatever bytes follow, as long as the
/// text's UTF-8 length fits an `i32`.
pub proof fn lemma_string_round_trip(text: Seq<char>, rest: Seq<u8>)
    requires
        encode_utf8(text).len() <= i32::MAX,
    ensures
        ({
            let body = encode_utf8(text);
            let e = var_int_encoding((body.len() as i32) as u32);
            let s = e + body + rest;
            &&& var_int_scan(s) == VarIntScan::Complete(e.len() as usize)
            &&& var_int_value(s, e.len()) as usize == body.len()
            &&& s.skip(e.len() as int).len() >= body.len()
            &&& s.skip(e.len() as int).take(body.len() as int) == body
            &&& s.skip(e.len() as int).skip(body.len() as int) == rest
            &&& valid_utf8(body)
            &&& decode_utf8(body) == text
        }),
{
    let body = encode_utf8(text);
    let x = body.len() as i32;
    let e = var_int_encoding(x as u32);
    let s = e + body + rest;
    assert(s =~= e + (body + rest));
    lemma_var_int_round_trip(x, body + rest);
    assert(s.skip(e.len() as int) =~= body + rest);
    assert((body + rest).take(body.len() as int) =~= body);
    assert((body + rest).skip(body.len() as int) =~= rest);
    encode_utf8_valid_utf8(text);
    encode_utf8_decode_utf8(text);
}

/// Feeding a `VarIntDecoder` the bytes of a buffer one at a time agrees with
/// reading the VarInt from the buffer at once: it asks for more at every byte
/// before the end, and at the end gives the same value, or the same refusal
/// of a VarInt longer than five bytes.
pub proof fn lemma_stream_matches_buffer(s: Seq<u8>)
    ensures
        match var_int_scan(s) {
            VarIntScan::Complete(n) => {
                &&& var_int_step_of(s.take(n as int)) == VarIntStep::Done(
                    var_int_value(s, n as nat),
                )
                &&& forall|k: int|
                    1 <= k < n ==> #[trigger] var_int_step_of(s.take(k)) == VarIntStep::NeedMore
            },
            VarIntScan::TooLong => {
                &&& var_int_step_of(s.take(5)) == VarIntStep::TooLong
                &&& forall|k: int|
                    1 <= k < 5 ==> #[trigger] var_int_step_of(s.take(k)) == VarIntStep::NeedMore
            },
            VarIntScan::Incomplete => forall|k: int|
                1 <= k <= s.len() ==> #[trigger] var_int_step_of(s.take(k)) == VarIntStep::NeedMore,
        },
{
    lemma_scan_end(s, 5);
    lemma_scan_complete_len(s, 5);
    match var_int_scan(s) {
        VarIntScan::Complete(n) => {
            assert(s.take(n as int).take(n as int) =~= s.take(n as int));
            assert forall|k: int| 1 <= k < n implies #[trigger] var_int_step_of(s.take(k))
                == VarIntStep::NeedMore by {
                lemma_scan_prefix(s, k);
                lemma_scan_complete_len(s.take(k), 5);
            }
        },
        VarIntScan::TooLong => {
            assert forall|k: int| 1 <= k < 5 implies #[trigger] var_int_step_of(s.take(k))
                == VarIntStep::NeedMore by {
                lemma_scan_prefix(s, k);
                lemma_scan_complete_len(s.take(k), 5);
            }
        },
        VarIntScan::Incomplete => {
            assert forall|k: int| 1 <= k <= s.len() implies #[trigger] var_int_step_of(s.take(k))
                == VarIntStep::NeedMore by {
                lemma_scan_prefix(s, k);
            }
        },
    }
}

} // verus!
