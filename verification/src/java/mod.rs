//! The Java edition status ping.
pub mod model;
pub mod protocol;
