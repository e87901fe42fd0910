//! The LX-family wire protocol.

pub mod auth;
pub mod crc;
pub mod job;
pub mod laws;
pub mod notifications;
pub mod packets;
pub mod wire;
