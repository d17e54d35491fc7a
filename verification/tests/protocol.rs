use bytes::{Bytes, BytesMut};
use minecraft_pinger::common::protocol::{
    read_string, read_var_int, write_string, write_var_int, VarIntDecoder, VarIntStep,
};
use minecraft_pinger::error::PingError;

#[test]
fn protocol_test_var_int_serialization() {
    let mut buf = BytesMut::new();
    write_var_int(&mut buf, 255);
    let mut data = buf.freeze();
    assert_eq!(read_var_int(&mut data).unwrap(), 255);
}

fn encode(x: i32) -> Vec<u8> {
    let mut buf = BytesMut::new();
    write_var_int(&mut buf, x);
    buf.to_vec()
}

#[test]
fn var_int_known_encodings() {
    assert_eq!(encode(0), vec![0x00]);
    assert_eq!(encode(1), vec![0x01]);
    assert_eq!(encode(127), vec![0x7f]);
    assert_eq!(encode(128), vec![0x80, 0x01]);
    assert_eq!(encode(255), vec![0xff, 0x01]);
    assert_eq!(encode(25565), vec![0xdd, 0xc7, 0x01]);
    assert_eq!(encode(2097151), vec![0xff, 0xff, 0x7f]);
    assert_eq!(encode(i32::MAX), vec![0xff, 0xff, 0xff, 0xff, 0x07]);
    assert_eq!(encode(-1), vec![0xff, 0xff, 0xff, 0xff, 0x0f]);
    assert_eq!(encode(i32::MIN), vec![0x80, 0x80, 0x80, 0x80, 0x08]);
}

#[test]
fn var_int_round_trip_keeps_what_follows() {
    for x in [0, 1, 127, 128, 255, 300, 25565, 2097152, i32::MAX, -1, -300, i32::MIN] {
        let mut buf = BytesMut::new();
        write_var_int(&mut buf, x);
        buf.extend_from_slice(&[0xAA, 0xBB]);
        let mut data = buf.freeze();
        assert_eq!(read_var_int(&mut data).unwrap(), x);
        assert_eq!(&data[..], &[0xAA, 0xBB]);
    }
}

#[test]
fn var_int_too_long_is_rejected() {
    let mut data = Bytes::from_static(&[0x80, 0x80, 0x80, 0x80, 0x80, 0x01]);
    match read_var_int(&mut data) {
        Err(PingError::ReadPacket(m)) => assert_eq!(m, "Shift security"),
        _ => panic!("expected a read error"),
    }
    assert_eq!(&data[..], &[0x01]);
}

#[test]
fn var_int_truncated_is_rejected() {
    let mut data = Bytes::from_static(&[0x80, 0x80]);
    match read_var_int(&mut data) {
        Err(PingError::ReadPacket(m)) => assert_eq!(
            m,
            "Read varint length (v1) Not enough bytes remaining in buffer to read value (requested 1 but only 0 available)"
        ),
        _ => panic!("expected a read error"),
    }
    assert!(data.is_empty());
    let mut empty = Bytes::new();
    assert!(read_var_int(&mut empty).is_err());
}

#[test]
fn var_int_fifth_byte_keeps_low_bits() {
    // The fifth byte may carry more than four data bits; they are cut off.
    let mut data = Bytes::from_static(&[0xff, 0xff, 0xff, 0xff, 0x7f]);
    assert_eq!(read_var_int(&mut data).unwrap(), -1);
}

#[test]
fn var_int_decoder_matches_buffer_read() {
    for bytes in [
        vec![0x05],
        vec![0xdd, 0xc7, 0x01],
        vec![0xff, 0xff, 0xff, 0xff, 0x0f],
        vec![0x80, 0x80, 0x80, 0x80, 0x80],
    ] {
        let mut dec = VarIntDecoder::new();
        let mut last = VarIntStep::NeedMore;
        for b in &bytes {
            last = dec.feed(*b);
            if last != VarIntStep::NeedMore {
                break;
            }
        }
        let mut data = Bytes::from(bytes.clone());
        match (last, read_var_int(&mut data)) {
            (VarIntStep::Done(v), Ok(w)) => assert_eq!(v, w),
            (VarIntStep::TooLong, Err(_)) => {},
            other => panic!("decoder and reader disagree: {:?}", other.0),
        }
    }
}

#[test]
fn string_round_trip() {
    for s in ["", "example.com", "héllo wörld", "mc.hypixel.net"] {
        let mut buf = BytesMut::new();
        write_string(&mut buf, s);
        buf.extend_from_slice(b"rest");
        let mut data = buf.freeze();
        assert_eq!(read_string(&mut data).unwrap(), s);
        assert_eq!(&data[..], b"rest");
    }
}

#[test]
fn string_errors() {
    let mut short = Bytes::from_static(&[0x05, b'a', b'b']);
    match read_string(&mut short) {
        Err(PingError::ReadPacket(m)) => assert_eq!(m, "Remaining < len"),
        _ => panic!("expected a read error"),
    }
    let mut bad = Bytes::from_static(&[0x02, 0xff, 0xfe]);
    match read_string(&mut bad) {
        Err(PingError::ReadPacket(m)) => assert_eq!(m, "Parse to string error"),
        _ => panic!("expected a read error"),
    }
    let mut negative = Bytes::from_static(&[0xff, 0xff, 0xff, 0xff, 0x0f, b'a']);
    match read_string(&mut negative) {
        Err(PingError::ReadPacket(m)) => assert_eq!(m, "Remaining < len"),
        _ => panic!("expected a read error"),
    }
}
