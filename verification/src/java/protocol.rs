//! The packets of the Java edition status exchange.
use crate::buffers::{
    be_bytes, be_value, bytes_from_vec, lemma_be_u16, bytes_mut_len, bytes_mut_view, bytes_mut_with_capacity, bytes_view,
    freeze, max_buffer_len, put_bytes, put_u16, put_u8,
};
use crate::common::protocol::{
    lemma_string_round_trip, lemma_var_int_length, lemma_var_int_round_trip, read_var_int, var_int_encoding, var_int_read_error, var_int_scan,
    var_int_value, write_string, write_var_int, VarIntScan,
};
use crate::error::PingError;
use bytes::{Bytes, BytesMut};
use vstd::prelude::*;
use vstd::utf8::{decode_utf8, encode_utf8, valid_utf8};

verus! {

/// The body of a handshake packet that asks for the status: packet id 0, the
/// protocol version, the host name, the port (big-endian) and next state 1.
pub open spec fn handshake_body(hostname: Seq<char>, port: u16, protocol_version: i32) -> Seq<u8> {
    seq![0x00u8] + var_int_encoding(protocol_version as u32) + var_int_encoding(
        (encode_utf8(hostname).len() as i32) as u32,
    ) + encode_utf8(hostname) + be_bytes(port as nat, 2) + var_int_encoding(1)
}

/// A packet on the wire: its length as a VarInt, then the packet itself.
pub open spec fn framed(body: Seq<u8>) -> Seq<u8> {
    var_int_encoding((body.len() as i32) as u32) + body
}

/// The status request packet: length 1, packet id 0.
pub open spec fn status_request_frame() -> Seq<u8> {
    var_int_encoding(1) + var_int_encoding(0)
}

/// Reading a VarInt from the front of a frame gives the length of the packet
/// that follows it, and leaves exactly that packet.
pub proof fn lemma_frame_length(body: Seq<u8>)
    requires
        body.len() <= i32::MAX,
    ensures
        ({
            let f = framed(body);
            let e = var_int_encoding((body.len() as i32) as u32);
            &&& var_int_scan(f) == VarIntScan::Complete(e.len() as usize)
            &&& var_int_value(f, e.len()) == body.len()
            &&& f.skip(e.len() as int) == body
        }),
{
    lemma_var_int_round_trip(body.len() as i32, body);
}

/// The handshake frame is never longer than the host name's UTF-8 plus 19 bytes.
proof fn lemma_handshake_len(hostname: Seq<char>, port: u16, protocol_version: i32)
    ensures
        handshake_body(hostname, port, protocol_version).len() <= encode_utf8(hostname).len() + 14,
        framed(handshake_body(hostname, port, protocol_version)).len() <= encode_utf8(hostname).len()
            + 19,
{
    lemma_var_int_length(protocol_version as u32);
    lemma_var_int_length((encode_utf8(hostname).len() as i32) as u32);
    lemma_var_int_length(1);
    lemma_var_int_length((handshake_body(hostname, port, protocol_version).len() as i32) as u32);
    reveal_with_fuel(be_bytes, 3);
}

/// Reading a handshake body back, field by field, gives what it was built
/// from: packet id 0, then a VarInt that is the protocol version, then a
/// string that is the host name, then the port as a big-endian u16, then the
/// VarInt 1 (the status state) and nothing more. The host name's UTF-8 must
/// fit an `i32` length.
pub proof fn lemma_handshake_reads_back(hostname: Seq<char>, port: u16, protocol_version: i32)
    requires
        encode_utf8(hostname).len() <= i32::MAX,
    ensures
        ({
            let b = handshake_body(hostname, port, protocol_version);
            let s1 = b.skip(1);
            &&& b[0] == 0x00
            &&& var_int_scan(s1) matches VarIntScan::Complete(n1)
                && var_int_value(s1, n1 as nat) == protocol_version
                && ({
                let s2 = s1.skip(n1 as int);
                var_int_scan(s2) matches VarIntScan::Complete(n2) && ({
                    let len = var_int_value(s2, n2 as nat) as int;
                    let s3 = s2.skip(n2 as int);
                    &&& 0 <= len <= s3.len()
                    &&& valid_utf8(s3.take(len))
                    &&& decode_utf8(s3.take(len)) == hostname
                    &&& s3.skip(len).len() == 3
                    &&& be_value(s3.skip(len).take(2)) == port
                    &&& var_int_scan(s3.skip(len).skip(2)) == VarIntScan::Complete(1)
                    &&& var_int_value(s3.skip(len).skip(2), 1) == 1
                })
            })
        }),
{
    let body = encode_utf8(hostname);
    let e1 = var_int_encoding(protocol_version as u32);
    let e2 = var_int_encoding((body.len() as i32) as u32);
    let p = be_bytes(port as nat, 2);
    let one = var_int_encoding(1);
    let b = handshake_body(hostname, port, protocol_version);
    let tail = p + one;
    let s1 = b.skip(1);
    let n1 = e1.len();
    let s2 = s1.skip(n1 as int);
    let n2 = e2.len();
    let s3 = s2.skip(n2 as int);
    let len = body.len() as int;
    lemma_var_int_length(protocol_version as u32);
    lemma_var_int_length((body.len() as i32) as u32);
    assert(b[0] == 0x00);
    assert(s1 == e1 + (e2 + body + tail)) by {
        assert(s1 =~= e1 + (e2 + body + tail));
    }
    assert(var_int_scan(s1) == VarIntScan::Complete(n1 as usize) && var_int_value(s1, n1)
        == protocol_version && s2 == e2 + body + tail) by {
        lemma_var_int_round_trip(protocol_version, e2 + body + tail);
    }
    assert(var_int_scan(s2) == VarIntScan::Complete(n2 as usize) && var_int_value(s2, n2) as usize
        == len && s3.len() >= len && s3.take(len) == body && s3.skip(len) == tail && valid_utf8(body)
        && decode_utf8(body) == hostname) by {
        lemma_string_round_trip(hostname, tail);
    }
    assert(var_int_value(s2, n2) as int == len) by {
        lemma_var_int_round_trip(len as i32, body + tail);
        assert(e2 + body + tail =~= e2 + (body + tail));
    }
    assert(tail.len() == 3 && be_value(tail.take(2)) == port) by {
        lemma_be_u16(port);
        assert(one =~= seq![1u8]);
        assert(tail.take(2) =~= p);
    }
    assert(var_int_scan(tail.skip(2)) == VarIntScan::Complete(1) && var_int_value(tail.skip(2), 1)
        == 1) by {
        assert(tail.skip(2) =~= one + Seq::<u8>::empty());
        lemma_var_int_round_trip(1, Seq::<u8>::empty());
        assert(one =~= seq![1u8]);
    }
}

/// The status request reads back as a frame of length 1 whose packet id is 0,
/// and nothing more.
pub proof fn lemma_status_request_reads_back()
    ensures
        ({
            let f = status_request_frame();
            &&& f.len() == 2
            &&& var_int_scan(f) == VarIntScan::Complete(1)
            &&& var_int_value(f, 1) == 1
            &&& var_int_scan(f.skip(1)) == VarIntScan::Complete(1)
            &&& var_int_value(f.skip(1), 1) == 0
        }),
{
    let f = status_request_frame();
    lemma_var_int_round_trip(1, var_int_encoding(0));
    lemma_var_int_round_trip(0, Seq::<u8>::empty());
    assert(var_int_encoding(1) =~= seq![1u8]);
    assert(var_int_encoding(0) =~= seq![0u8]);
    assert(f.skip(1) =~= var_int_encoding(0) + Seq::<u8>::empty());
}

/// Appends the framed handshake packet that opens a status exchange.
pub fn write_ping_handshake(
    buffer: &mut BytesMut,
    hostname: &str,
    port: &u16,
    protocol_version: &i32,
)
    requires
        bytes_mut_view(*old(buffer)).len() + encode_utf8(hostname@).len() + 19 <= max_buffer_len(),
    ensures
        bytes_mut_view(*final(buffer)) == bytes_mut_view(*old(buffer)) + framed(
            handshake_body(hostname@, *port, *protocol_version),
        ),
{
    proof {
        lemma_handshake_len(hostname@, *port, *protocol_version);
        lemma_var_int_length(*protocol_version as u32);
        lemma_var_int_length((encode_utf8(hostname@).len() as i32) as u32);
        reveal_with_fuel(be_bytes, 3);
    }
    let mut handshake = bytes_mut_with_capacity(128);
    put_u8(&mut handshake, 0x00);
    write_var_int(&mut handshake, *protocol_version);
    write_string(&mut handshake, hostname);
    put_u16(&mut handshake, *port);
    write_var_int(&mut handshake, 1);
    assert(bytes_mut_view(handshake) =~= handshake_body(hostname@, *port, *protocol_version));
    let n = bytes_mut_len(&handshake);
    write_var_int(buffer, #[verifier::truncate] (n as i32));
    put_bytes(buffer, freeze(handshake));
}

/// Appends the framed status request packet.
pub fn write_ping_request(buffer: &mut BytesMut)
    requires
        bytes_mut_view(*old(buffer)).len() + 2 <= max_buffer_len(),
    ensures
        bytes_mut_view(*final(buffer)) == bytes_mut_view(*old(buffer)) + status_request_frame(),
{
    proof {
        lemma_var_int_length(1);
        lemma_var_int_length(0);
    }
    write_var_int(buffer, 1);
    write_var_int(buffer, 0x00);
}

/// The bytes a client sends to ask a server for its status: the handshake,
/// then the status request.
pub fn build_status_request(hostname: &str, port: u16, protocol_version: i32) -> (r: Bytes)
    requires
        encode_utf8(hostname@).len() + 21 <= max_buffer_len(),
    ensures
        bytes_view(r) == framed(handshake_body(hostname@, port, protocol_version))
            + status_request_frame(),
{
    let mut buffer = bytes_mut_with_capacity(256);
    proof {
        lemma_handshake_len(hostname@, port, protocol_version);
    }
    write_ping_handshake(&mut buffer, hostname, &port, &protocol_version);
    write_ping_request(&mut buffer);
    assert(bytes_mut_view(buffer) =~= framed(handshake_body(hostname@, port, protocol_version))
        + status_request_frame());
    freeze(buffer)
}

/// A packet received from the server: its id and the bytes after it.
pub struct Packet {
    id: u8,
    pub data: Bytes,
}

impl Packet {
    /// The packet id.
    pub closed spec fn spec_id(&self) -> u8 {
        self.id
    }

    /// The bytes after the id.
    pub closed spec fn payload(&self) -> Bytes {
        self.data
    }

    pub fn new(id: u8, data: Bytes) -> (p: Packet)
        ensures
            p.spec_id() == id,
            p.payload() == data,
    {
        Packet { id, data }
    }

    pub fn id(&self) -> (id: u8)
        ensures
            id == self.spec_id(),
    {
        self.id
    }
}

/// Reads a packet from its bytes (the frame's length already taken off): a
/// VarInt packet id, cut to a byte, then the data.
pub fn parse_packet(body: Vec<u8>) -> (r: Result<Packet, PingError>)
    ensures
        match var_int_scan(body@) {
            VarIntScan::Complete(n) => r matches Ok(p) && p.spec_id() == #[verifier::truncate] (
            var_int_value(body@, n as nat) as u8) && bytes_view(p.payload()) == body@.skip(n as int),
            _ => r matches Err(e) && var_int_read_error(body@, e),
        },
{
    let mut data = bytes_from_vec(body);
    let id = read_var_int(&mut data)?;
    Ok(Packet::new(#[verifier::truncate] (id as u8), data))
}

} // verus!
