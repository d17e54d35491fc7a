//! The Bedrock edition (RakNet unconnected) ping.
pub mod model;
pub mod protocol;
