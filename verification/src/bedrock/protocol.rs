//! The packets of the Bedrock edition unconnected ping.
use crate::bedrock::model::{bedrock_parse_result, BedrockPing};
use crate::buffers::{
    be_bytes, be_value, bytes_into_vec, lemma_be_u16, bytes_len, bytes_mut_view, bytes_mut_with_capacity,
    bytes_split_to, bytes_view, freeze, put_slice, put_u128, put_u64, put_u8, try_get_u128,
    try_get_u16, try_get_u64, try_get_u8,
};
use crate::error::PingError;
use crate::text::string_from_utf8;
use bytes::Bytes;
use rand::Rng;
use std::time::{Duration, SystemTime, UNIX_EPOCH};
use vstd::prelude::*;
use vstd::utf8::{decode_utf8, valid_utf8};

verus! {

/// The RakNet "offline message" magic.
pub const MAGIC: u128 = 0x00ffff00fefefefefdfdfdfd12345678;

#[verifier::external_type_specification]
#[verifier::external_body]
pub struct ExSystemTime(SystemTime);

/// `SystemTime::now`: the current time of the system clock.
#[verifier::external_body]
fn system_time_now() -> SystemTime {
    SystemTime::now()
}

/// `SystemTime::duration_since(UNIX_EPOCH)`: the time since the Unix epoch, or
/// nothing when the clock is before it.
#[verifier::external_body]
fn duration_since_epoch(t: &SystemTime) -> Option<Duration> {
    t.duration_since(UNIX_EPOCH).ok()
}

/// `Duration::as_millis`: the whole milliseconds of a duration.
#[verifier::external_body]
fn duration_as_millis(d: &Duration) -> u128 {
    d.as_millis()
}

/// `rand::rng().fill_bytes`: eight random bytes from the thread-local generator.
#[verifier::external_body]
fn random_guid() -> [u8; 8] {
    let mut guid = [0u8; 8];
    rand::rng().fill_bytes(&mut guid);
    guid
}

/// An unconnected ping: id 1, the time in milliseconds (big-endian), the magic,
/// and the client's GUID.
pub open spec fn ping_packet(time_millis: u64, guid: Seq<u8>) -> Seq<u8> {
    seq![0x01u8] + be_bytes(time_millis as nat, 8) + be_bytes(MAGIC as nat, 16) + guid
}

/// Builds the unconnected ping for a given time and GUID.
pub fn build_ping(time_millis: u64, guid: [u8; 8]) -> (r: Bytes)
    ensures
        bytes_view(r) == ping_packet(time_millis, guid@),
        bytes_view(r).len() == 33,
        bytes_view(r)[0] == 0x01,
{
    proof {
        reveal_with_fuel(be_bytes, 17);
    }
    let mut data = bytes_mut_with_capacity(33);
    put_u8(&mut data, 0x1);
    put_u64(&mut data, time_millis);
    put_u128(&mut data, MAGIC);
    put_slice(&mut data, guid.as_slice());
    assert(bytes_mut_view(data) =~= ping_packet(time_millis, guid@));
    freeze(data)
}

/// The unconnected ping for now, with a random GUID. It fails only when the
/// system clock is before the Unix epoch.
pub fn create_ping() -> (r: Result<Bytes, PingError>)
    ensures
        match r {
            Ok(b) => (exists|t: u64, g: Seq<u8>| g.len() == 8 && bytes_view(b) == ping_packet(t, g))
                && bytes_view(b).len() == 33 && bytes_view(b)[0] == 0x01,
            Err(e) => e matches PingError::Init(m) && m@ == "SystemTime before UNIX_EPOCH"@,
        },
{
    let now = system_time_now();
    let since = match duration_since_epoch(&now) {
        Some(d) => d,
        None => {
            return Err(PingError::Init(String::from_str("SystemTime before UNIX_EPOCH")));
        },
    };
    let time = #[verifier::truncate] (duration_as_millis(&since) as u64);
    let guid = random_guid();
    let packet = build_ping(time, guid);
    assert(guid@.len() == 8);
    Ok(packet)
}

/// Takes the first `size` bytes when there are that many.
fn try_split_to(buffer: &mut Bytes, size: usize) -> (r: Option<Bytes>)
    ensures
        if bytes_view(*old(buffer)).len() >= size {
            r matches Some(front) && bytes_view(front) == bytes_view(*old(buffer)).take(size as int)
                && bytes_view(*final(buffer)) == bytes_view(*old(buffer)).skip(size as int)
        } else {
            r is None && bytes_view(*final(buffer)) == bytes_view(*old(buffer))
        },
{
    if bytes_len(buffer) >= size {
        Some(bytes_split_to(buffer, size))
    } else {
        None
    }
}

/// The message of the error that ends a read of `s` before the status text,
/// with the offset after which the read stopped; none when the header is whole.
pub open spec fn header_error(s: Seq<u8>) -> Option<(Seq<char>, int)> {
    if s.len() < 1 {
        Some(("Packet id not found"@, 0))
    } else if s.len() < 9 {
        Some(("Timestamp not found"@, 1))
    } else if s.len() < 17 {
        Some(("Server guid not found"@, 9))
    } else if s.len() < 33 {
        Some(("Magic id not found"@, 17))
    } else if s.len() < 35 {
        Some(("String size not found"@, 33))
    } else if s.len() - 35 < be_value(s.subrange(33, 35)) {
        Some(("String data not found"@, 35))
    } else {
        None
    }
}

/// The status text's bytes in a whole response.
pub open spec fn status_bytes(s: Seq<u8>) -> Seq<u8> {
    s.subrange(35, 35 + be_value(s.subrange(33, 35)) as int)
}

/// A well-formed unconnected pong reads back: whatever its id, time, server
/// GUID and magic, the header is whole, the status bytes are exactly the text
/// that was written after its `u16` length, and the bytes after it are left.
pub proof fn lemma_pong_reads_back(
    id: u8,
    time: u64,
    server_guid: u64,
    magic: u128,
    text: Seq<u8>,
    rest: Seq<u8>,
)
    requires
        text.len() <= 65535,
    ensures
        ({
            let s = seq![id] + be_bytes(time as nat, 8) + be_bytes(server_guid as nat, 8) + be_bytes(
                magic as nat,
                16,
            ) + be_bytes(text.len(), 2) + text + rest;
            &&& header_error(s) is None
            &&& status_bytes(s) == text
            &&& s.skip(35 + be_value(s.subrange(33, 35)) as int) == rest
        }),
{
    reveal_with_fuel(be_bytes, 17);
    let head = seq![id] + be_bytes(time as nat, 8) + be_bytes(server_guid as nat, 8) + be_bytes(
        magic as nat,
        16,
    );
    let n = be_bytes(text.len(), 2);
    let s = head + n + text + rest;
    assert(head.len() == 33);
    lemma_be_u16(text.len() as u16);
    assert(s.subrange(33, 35) =~= n);
    assert(status_bytes(s) =~= text);
    assert(s.skip(35 + text.len() as int) =~= rest);
}

/// A pong that stops before its header's 35 bytes, or before the status
/// bytes that its length announces, is refused.
pub proof fn lemma_short_pong_refused(s: Seq<u8>)
    ensures
        s.len() < 35 ==> header_error(s) is Some,
        s.len() >= 35 && s.len() < 35 + be_value(s.subrange(33, 35)) ==> header_error(s) is Some,
        s.len() >= 35 && s.len() >= 35 + be_value(s.subrange(33, 35)) ==> header_error(s) is None,
{
}

/// Reads an unconnected pong: packet id, time, server GUID, magic, a big-endian
/// u16 length and that many bytes of UTF-8 status text, then parses the text.
pub fn read_response(buffer: &mut Bytes) -> (r: Result<BedrockPing, PingError>)
    ensures
        ({
            let s = bytes_view(*old(buffer));
            match header_error(s) {
                Some((msg, at)) => {
                    &&& r matches Err(PingError::ReadPacket(m)) && m@ == msg
                    &&& bytes_view(*final(buffer)) == s.skip(at)
                },
                None => {
                    &&& bytes_view(*final(buffer)) == s.skip(35 + be_value(s.subrange(33, 35)) as int)
                    &&& if valid_utf8(status_bytes(s)) {
                        bedrock_parse_result(decode_utf8(status_bytes(s)), r)
                    } else {
                        r matches Err(PingError::Utf8Error(_))
                    }
                },
            }
        }),
{
    let ghost s = bytes_view(*buffer);
    let _packet_id = match try_get_u8(buffer) {
        Ok(v) => v,
        Err(_) => return Err(PingError::ReadPacket(String::from_str("Packet id not found"))),
    };
    assert(bytes_view(*buffer) =~= s.skip(1));
    let _timestamp = match try_get_u64(buffer) {
        Ok(v) => v,
        Err(_) => return Err(PingError::ReadPacket(String::from_str("Timestamp not found"))),
    };
    assert(bytes_view(*buffer) =~= s.skip(9));
    let _server_guid = match try_get_u64(buffer) {
        Ok(v) => v,
        Err(_) => return Err(PingError::ReadPacket(String::from_str("Server guid not found"))),
    };
    assert(bytes_view(*buffer) =~= s.skip(17));
    let _magic = match try_get_u128(buffer) {
        Ok(v) => v,
        Err(_) => return Err(PingError::ReadPacket(String::from_str("Magic id not found"))),
    };
    assert(bytes_view(*buffer) =~= s.skip(33));
    let string_size = match try_get_u16(buffer) {
        Ok(v) => v,
        Err(_) => return Err(PingError::ReadPacket(String::from_str("String size not found"))),
    };
    assert(s.skip(33).take(2) =~= s.subrange(33, 35));
    assert(bytes_view(*buffer) =~= s.skip(35));
    assert(string_size == be_value(s.subrange(33, 35)));
    let string_data = match try_split_to(buffer, string_size as usize) {
        Some(b) => b,
        None => return Err(PingError::ReadPacket(String::from_str("String data not found"))),
    };
    assert(bytes_view(string_data) =~= status_bytes(s));
    assert(bytes_view(*buffer) =~= s.skip(35 + string_size as int));
    let text = match string_from_utf8(bytes_into_vec(string_data)) {
        Ok(t) => t,
        Err(e) => return Err(PingError::Utf8Error(e)),
    };
    BedrockPing::try_from(text)
}

} // verus!
