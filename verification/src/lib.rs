//! Verified protocol logic for pinging Minecraft Java and Bedrock servers.
pub mod bedrock;
pub mod buffers;
pub mod common;
pub mod error;
pub mod java;
pub mod text;
