use bytes::{BufMut, Bytes, BytesMut};
use minecraft_pinger::bedrock::model::BedrockPing;
use minecraft_pinger::bedrock::protocol::{build_ping, create_ping, read_response, MAGIC};
use minecraft_pinger::error::PingError;

fn response_with(text: &[u8], declared_len: u16) -> Bytes {
    let mut buffer = BytesMut::new();
    buffer.put_u8(0x02);
    buffer.put_u64(1234567890);
    buffer.put_u64(9876543210);
    buffer.put_u128(MAGIC);
    buffer.put_u16(declared_len);
    buffer.put_slice(text);
    buffer.freeze()
}

#[test]
fn test_create_ping() {
    let ping = create_ping().unwrap();
    assert!(!ping.is_empty());
    assert_eq!(ping.len(), 33); // 1 + 8 + 16 + 8
    assert_eq!(ping[0], 0x01);
}

#[test]
fn test_read_response_valid() {
    let mut buffer = BytesMut::new();
    buffer.put_u8(0x02); // packet id
    buffer.put_u64(1234567890); // timestamp
    buffer.put_u64(9876543210); // server guid
    buffer.put_u128(MAGIC); // magic

    let response_str = "MCPE;Test Server;589;1.20.0;10;20;1234567890;world;Survival;1;19132;123";
    buffer.put_u16(response_str.len() as u16);
    buffer.put_slice(response_str.as_bytes());

    let mut bytes = buffer.freeze();
    let result = read_response(&mut bytes).unwrap();

    assert_eq!(result.edition, "MCPE");
    assert_eq!(result.motd, "Test Server");
    assert_eq!(result.protocol_version, 589);
    assert_eq!(result.version, "1.20.0");
    assert_eq!(result.current_players, 10);
    assert_eq!(result.max_players, 20);
    assert_eq!(result.server_id, "1234567890");
    assert_eq!(result.map_name, "world");
    assert_eq!(result.game_mode, "Survival");
    assert_eq!(result.numeric_id, Some(1));
    assert_eq!(result.port, Some(19132));
    assert_eq!(result.unknown_val, Some(123));
}

#[test]
fn test_read_response_minimal() {
    let mut buffer = BytesMut::new();
    buffer.put_u8(0x02);
    buffer.put_u64(1234567890);
    buffer.put_u64(9876543210);
    buffer.put_u128(MAGIC);

    let response_str = "MCPE;Test;589;1.20.0;0;20;1234567890;world;Creative";
    buffer.put_u16(response_str.len() as u16);
    buffer.put_slice(response_str.as_bytes());

    let mut bytes = buffer.freeze();
    let result = read_response(&mut bytes).unwrap();

    assert_eq!(result.edition, "MCPE");
    assert_eq!(result.motd, "Test");
    assert_eq!(result.game_mode, "Creative");
    assert_eq!(result.numeric_id, None);
    assert_eq!(result.port, None);
    assert_eq!(result.unknown_val, None);
}

#[test]
fn test_read_response_insufficient_data() {
    let mut buffer = BytesMut::new();
    buffer.put_u8(0x02);
    buffer.put_u64(1234567890);
    // Missing fields

    let mut bytes = buffer.freeze();
    let result = read_response(&mut bytes);
    assert!(result.is_err());
}

#[test]
fn test_read_response_invalid_string_size() {
    let mut buffer = BytesMut::new();
    buffer.put_u8(0x02);
    buffer.put_u64(1234567890);
    buffer.put_u64(9876543210);
    buffer.put_u128(MAGIC);
    buffer.put_u16(100); // String size larger than actual data
    buffer.put_slice(b"short");

    let mut bytes = buffer.freeze();
    let result = read_response(&mut bytes);
    assert!(result.is_err());
}

#[test]
fn test_read_response_invalid_utf8() {
    let mut buffer = BytesMut::new();
    buffer.put_u8(0x02);
    buffer.put_u64(1234567890);
    buffer.put_u64(9876543210);
    buffer.put_u128(MAGIC);
    buffer.put_u16(4);
    buffer.put_slice(&[0xFF, 0xFF, 0xFF, 0xFF]); // Invalid UTF-8

    let mut bytes = buffer.freeze();
    let result = read_response(&mut bytes);
    assert!(result.is_err());
}

#[test]
fn test_read_response_too_few_parts() {
    let mut buffer = BytesMut::new();
    buffer.put_u8(0x02);
    buffer.put_u64(1234567890);
    buffer.put_u64(9876543210);
    buffer.put_u128(MAGIC);

    let response_str = "MCPE;Test;589"; // Less than 8 parts
    buffer.put_u16(response_str.len() as u16);
    buffer.put_slice(response_str.as_bytes());

    let mut bytes = buffer.freeze();
    let result = read_response(&mut bytes);
    assert!(result.is_err());
}

#[test]
fn test_bedrock_ping_parsing() {
    let response_str = "MCPE;Test Server;589;1.20.0;10;20;1234567890;world;Survival;1;19132;123";
    let result = BedrockPing::try_from(response_str.to_string()).unwrap();

    assert_eq!(result.edition, "MCPE");
    assert_eq!(result.motd, "Test Server");
    assert_eq!(result.protocol_version, 589);
    assert_eq!(result.version, "1.20.0");
    assert_eq!(result.current_players, 10);
    assert_eq!(result.max_players, 20);
    assert_eq!(result.server_id, "1234567890");
    assert_eq!(result.map_name, "world");
    assert_eq!(result.game_mode, "Survival");
    assert_eq!(result.numeric_id, Some(1));
    assert_eq!(result.port, Some(19132));
    assert_eq!(result.unknown_val, Some(123));
}

#[test]
fn bedrock_header_errors_name_the_missing_field() {
    let cases: Vec<(usize, &str)> = vec![
        (0, "Packet id not found"),
        (5, "Timestamp not found"),
        (12, "Server guid not found"),
        (20, "Magic id not found"),
        (34, "String size not found"),
    ];
    let full = response_with(b"MCPE;a;1;v;1;2;id;map", 22);
    for (len, expected) in cases {
        let mut bytes = full.slice(0..len);
        match read_response(&mut bytes) {
            Err(PingError::ReadPacket(m)) => assert_eq!(m, expected),
            _ => panic!("expected a read error for {} bytes", len),
        }
    }
    let mut short = response_with(b"short", 100);
    match read_response(&mut short) {
        Err(PingError::ReadPacket(m)) => assert_eq!(m, "String data not found"),
        _ => panic!("expected a read error"),
    }
    assert_eq!(short.len(), 5);
}

#[test]
fn bedrock_invalid_utf8_is_utf8_error() {
    let mut bytes = response_with(&[0xFF, 0xFF, 0xFF, 0xFF], 4);
    assert!(matches!(read_response(&mut bytes), Err(PingError::Utf8Error(_))));
}

#[test]
fn bedrock_too_few_fields_is_parse_response() {
    let mut bytes = response_with(b"MCPE;Test;589", 13);
    assert!(matches!(read_response(&mut bytes), Err(PingError::ParseResponse)));
    assert!(matches!(
        BedrockPing::try_from("a;b;c;d;e;f;g".to_string()),
        Err(PingError::ParseResponse)
    ));
}

#[test]
fn bedrock_response_leaves_trailing_bytes() {
    let text = b"MCPE;m;1;v;2;3;id;map";
    let mut buffer = BytesMut::new();
    buffer.put_slice(&response_with(text, text.len() as u16));
    buffer.put_slice(b"tail");
    let mut bytes = buffer.freeze();
    let ping = read_response(&mut bytes).unwrap();
    assert_eq!(ping.map_name, "map");
    assert_eq!(&bytes[..], b"tail");
}

#[test]
fn bedrock_numbers_that_do_not_parse() {
    let p = BedrockPing::try_from("E;M;x;V;-1;+7;S;W;G;256;65536;4294967296".to_string()).unwrap();
    assert_eq!(p.protocol_version, 0);
    assert_eq!(p.current_players, 0);
    assert_eq!(p.max_players, 7);
    assert_eq!(p.numeric_id, None);
    assert_eq!(p.port, None);
    assert_eq!(p.unknown_val, None);
    assert_eq!(p.latency, 0);
    let q = BedrockPing::try_from("E;M;4294967295;V;;+;S;W;;255;65535;0;extra".to_string()).unwrap();
    assert_eq!(q.protocol_version, 4294967295);
    assert_eq!(q.current_players, 0);
    assert_eq!(q.max_players, 0);
    assert_eq!(q.game_mode, "");
    assert_eq!(q.numeric_id, Some(255));
    assert_eq!(q.port, Some(65535));
    assert_eq!(q.unknown_val, Some(0));
}

#[test]
fn bedrock_exactly_eight_fields() {
    let p = BedrockPing::try_from("MCPE;é;1;1.0;2;3;id;;".to_string()).unwrap();
    assert_eq!(p.motd, "é");
    assert_eq!(p.map_name, "");
    assert_eq!(p.game_mode, "");
    let q = BedrockPing::try_from("MCPE;;1;1.0;2;3;id;map".to_string()).unwrap();
    assert_eq!(q.motd, "");
    assert_eq!(q.game_mode, "");
    assert_eq!(q.numeric_id, None);
}

#[test]
fn bedrock_ping_bytes() {
    let guid = [1, 2, 3, 4, 5, 6, 7, 8];
    let ping = build_ping(0x0102030405060708, guid);
    let mut expected = vec![0x01, 1, 2, 3, 4, 5, 6, 7, 8];
    expected.extend_from_slice(&MAGIC.to_be_bytes());
    expected.extend_from_slice(&guid);
    assert_eq!(&ping[..], &expected[..]);
    let now = create_ping().unwrap();
    assert_eq!(&now[9..25], &MAGIC.to_be_bytes());
}

#[test]
fn bedrock_status_text_converts_with_try_into() {
    let r: Result<BedrockPing, PingError> = "MCPE;Hi;589;1.20;4;10;42;World;Creative".to_string().try_into();
    let p = r.unwrap();
    assert_eq!(p.motd, "Hi");
    assert_eq!(p.current_players, 4);
    assert_eq!(p.game_mode, "Creative");
    assert_eq!(p.port, None);
}
