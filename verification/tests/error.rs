use minecraft_pinger::error::PingError;
use std::io;

#[test]
fn test_ping_error_io() {
    let io_error = io::Error::new(io::ErrorKind::ConnectionRefused, "connection refused");
    let ping_error: PingError = io_error.into();

    match ping_error {
        PingError::Io(_) => {}
        _ => panic!("Expected Io error"),
    }
    assert!(ping_error.to_string().contains("I/O error"));
}

#[test]
fn test_ping_error_timeout() {
    // Elapsed has no public constructor; the variant's constructor exists.
    let _ = PingError::Timeout;
}

#[test]
fn test_ping_error_connection_refused() {
    let ping_error = PingError::ConnectionRefused;
    assert_eq!(ping_error.to_string(), "Connection refused");
}

#[test]
fn test_ping_error_send_packet() {
    let ping_error = PingError::SendPacket;
    assert_eq!(ping_error.to_string(), "Failed to send packet");
}

#[test]
fn test_ping_error_read_packet() {
    let ping_error = PingError::ReadPacket("test error".to_string());
    assert_eq!(ping_error.to_string(), "Failed to read packet: test error");
}

#[test]
fn test_ping_error_utf8_error() {
    let utf8_error = String::from_utf8(vec![0xFF, 0xFE]).unwrap_err();
    let ping_error: PingError = utf8_error.into();

    match ping_error {
        PingError::Utf8Error(_) => {}
        _ => panic!("Expected Utf8Error"),
    }
    assert!(ping_error.to_string().contains("Invalid UTF-8"));
}

#[test]
fn test_ping_error_serialization() {
    let json_error = serde_json::from_str::<serde_json::Value>("invalid").unwrap_err();
    let ping_error: PingError = json_error.into();

    match ping_error {
        PingError::Serialization(_) => {}
        _ => panic!("Expected Serialization error"),
    }
    assert!(ping_error.to_string().contains("Serialization error"));
}

#[test]
fn test_ping_error_dns_parse() {
    let ping_error = PingError::DnsParse("test".into());
    assert!(ping_error.to_string().contains("DNS parse error"));
}

#[test]
fn test_ping_error_dns_ip_not_found() {
    let ping_error = PingError::DnsIpNotFound;
    assert_eq!(ping_error.to_string(), "DNS IP not found");
}

#[test]
fn test_ping_error_address_parse() {
    let ping_error = PingError::AddressParse("test".into());
    assert!(ping_error.to_string().contains("Address parse error"));
}

#[test]
fn test_ping_error_parse_response() {
    let ping_error = PingError::ParseResponse;
    assert_eq!(ping_error.to_string(), "Failed to parse response");
}

#[test]
fn test_ping_error_init() {
    let ping_error = PingError::Init("test init error".to_string());
    assert_eq!(ping_error.to_string(), "Initialization error: test init error");
}

#[test]
fn test_ping_error_blocked_endpoint() {
    let ping_error = PingError::BlockedEndpoint("10.0.0.1".to_string());
    assert_eq!(ping_error.to_string(), "Endpoint blocked by IP filter: 10.0.0.1");
}

#[test]
fn test_ping_error_debug() {
    let ping_error = PingError::ConnectionRefused;
    let debug_str = format!("{:?}", ping_error);
    assert!(debug_str.contains("ConnectionRefused"));
}

#[test]
fn error_messages_carry_the_cause() {
    let io_error = io::Error::new(io::ErrorKind::Other, "boom");
    assert_eq!(PingError::from(io_error).to_string(), "I/O error: boom");
    let utf8_error = String::from_utf8(vec![0xFF]).unwrap_err();
    let shown = utf8_error.to_string();
    assert_eq!(PingError::from(utf8_error).to_string(), format!("Invalid UTF-8: {}", shown));
    assert_eq!(PingError::DnsParse("no host".into()).to_string(), "DNS parse error: no host");
}
