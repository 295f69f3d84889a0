//! Verified core of the Topos native host: HLS playlist rewriting, Cast protocol
//! message encoding, native-messaging framing, and the host's decision logic.

pub mod text;
pub mod attributes;
pub mod links;
pub mod playlist;
pub mod protobuf;
pub mod framing;
pub mod cast;
pub mod devices;
pub mod proxy;
pub mod host;
