//! The errors that a ping can end with.
use vstd::prelude::*;
use vstd::std_specs::convert::FromSpecImpl;
use vstd::string::to_string_from_display_ensures;

verus! {

#[verifier::external_type_specification]
#[verifier::external_body]
pub struct ExIoError(std::io::Error);

#[verifier::external_type_specification]
#[verifier::external_body]
pub struct ExElapsed(tokio::time::error::Elapsed);

#[verifier::external_type_specification]
#[verifier::external_body]
pub struct ExFromUtf8Error(std::string::FromUtf8Error);

#[verifier::external_type_specification]
#[verifier::external_body]
pub struct ExJsonError(serde_json::Error);

#[verifier::external_type_specification]
#[verifier::external_body]
pub struct ExNetError(hickory_resolver::net::NetError);

/// Why a ping failed.
#[derive(Debug)]
pub enum PingError {
    Io(std::io::Error),
    Timeout(tokio::time::error::Elapsed),
    ConnectionRefused,
    SendPacket,
    ReadPacket(String),
    Utf8Error(std::string::FromUtf8Error),
    Serialization(serde_json::Error),
    DnsParse(hickory_resolver::net::NetError),
    DnsIpNotFound,
    AddressParse(hickory_resolver::net::NetError),
    ParseResponse,
    Init(String),
    BlockedEndpoint(String),
}

impl From<std::io::Error> for PingError {
    fn from(e: std::io::Error) -> (r: Self) {
        PingError::Io(e)
    }
}

impl FromSpecImpl<std::io::Error> for PingError {
    open spec fn obeys_from_spec() -> bool {
        true
    }

    open spec fn from_spec(e: std::io::Error) -> PingError {
        PingError::Io(e)
    }
}

impl From<tokio::time::error::Elapsed> for PingError {
    fn from(e: tokio::time::error::Elapsed) -> (r: Self) {
        PingError::Timeout(e)
    }
}

impl FromSpecImpl<tokio::time::error::Elapsed> for PingError {
    open spec fn obeys_from_spec() -> bool {
        true
    }

    open spec fn from_spec(e: tokio::time::error::Elapsed) -> PingError {
        PingError::Timeout(e)
    }
}

impl From<std::string::FromUtf8Error> for PingError {
    fn from(e: std::string::FromUtf8Error) -> (r: Self) {
        PingError::Utf8Error(e)
    }
}

impl FromSpecImpl<std::string::FromUtf8Error> for PingError {
    open spec fn obeys_from_spec() -> bool {
        true
    }

    open spec fn from_spec(e: std::string::FromUtf8Error) -> PingError {
        PingError::Utf8Error(e)
    }
}

impl From<serde_json::Error> for PingError {
    fn from(e: serde_json::Error) -> (r: Self) {
        PingError::Serialization(e)
    }
}

impl FromSpecImpl<serde_json::Error> for PingError {
    open spec fn obeys_from_spec() -> bool {
        true
    }

    open spec fn from_spec(e: serde_json::Error) -> PingError {
        PingError::Serialization(e)
    }
}

/// `prefix` followed by the `Display` text of `e`, as `to_string` gives it.
pub open spec fn shows<T: std::fmt::Display>(text: Seq<char>, prefix: Seq<char>, e: &T) -> bool {
    exists|d: String| to_string_from_display_ensures::<T>(e, d) && text == prefix + d@
}

/// Appends the `Display` text of `e` to `prefix`.
fn with_shown<T: std::fmt::Display>(prefix: &str, e: &T) -> (r: String)
    ensures
        shows(r@, prefix@, e),
{
    let shown = e.to_string();
    let mut r = String::from_str(prefix);
    r.append(shown.as_str());
    r
}

impl PingError {
    /// The error's message.
    pub fn to_string(&self) -> (r: String)
        ensures
            match self {
                PingError::Io(e) => shows(r@, "I/O error: "@, e),
                PingError::Timeout(e) => shows(r@, "Global ping timeout for "@, e),
                PingError::ConnectionRefused => r@ == "Connection refused"@,
                PingError::SendPacket => r@ == "Failed to send packet"@,
                PingError::ReadPacket(m) => r@ == "Failed to read packet: "@ + m@,
                PingError::Utf8Error(e) => shows(r@, "Invalid UTF-8: "@, e),
                PingError::Serialization(e) => shows(r@, "Serialization error: "@, e),
                PingError::DnsParse(e) => shows(r@, "DNS parse error: "@, e),
                PingError::DnsIpNotFound => r@ == "DNS IP not found"@,
                PingError::AddressParse(e) => shows(r@, "Address parse error: "@, e),
                PingError::ParseResponse => r@ == "Failed to parse response"@,
                PingError::Init(m) => r@ == "Initialization error: "@ + m@,
                PingError::BlockedEndpoint(m) => r@ == "Endpoint blocked by IP filter: "@ + m@,
            },
    {
        match self {
            PingError::Io(e) => with_shown("I/O error: ", e),
            PingError::Timeout(e) => with_shown("Global ping timeout for ", e),
            PingError::ConnectionRefused => String::from_str("Connection refused"),
            PingError::SendPacket => String::from_str("Failed to send packet"),
            PingError::ReadPacket(m) => {
                let mut r = String::from_str("Failed to read packet: ");
                r.append(m.as_str());
                r
            },
            PingError::Utf8Error(e) => with_shown("Invalid UTF-8: ", e),
            PingError::Serialization(e) => with_shown("Serialization error: ", e),
            PingError::DnsParse(e) => with_shown("DNS parse error: ", e),
            PingError::DnsIpNotFound => String::from_str("DNS IP not found"),
            PingError::AddressParse(e) => with_shown("Address parse error: ", e),
            PingError::ParseResponse => String::from_str("Failed to parse response"),
            PingError::Init(m) => {
                let mut r = String::from_str("Initialization error: ");
                r.append(m.as_str());
                r
            },
            PingError::BlockedEndpoint(m) => {
                let mut r = String::from_str("Endpoint blocked by IP filter: ");
                r.append(m.as_str());
                r
            },
        }
    }
}

} // verus!
