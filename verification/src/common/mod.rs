//! Pieces shared by the Java and Bedrock pings.
pub mod dns;
pub mod ip_filter;
pub mod protocol;
