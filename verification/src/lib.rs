//! TSQ — Time Synchronization over QUIC datagrams.
//!
//! This library holds the verified core of the protocol: the NTP short-timestamp
//! codec, the type-length-value wire format, the responder's request handling,
//! the per-probe offset and round-trip-time computation, and the aggregation and
//! clock-adjustment policy. Transport plumbing (QUIC, sockets) and the OS clock
//! syscalls live outside the library and hand it plain values.

pub mod adjust;
pub mod aggregate;
pub mod codec;
pub mod errors;
pub mod measure;
pub mod probe;
pub mod responder;
pub mod tlv;
