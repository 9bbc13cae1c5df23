//! Point-to-point secure file transfer: the chunked transfer protocol.
//!
//! A file is split into fixed-size chunks, each chunk is sealed with
//! AES-256-GCM plus an independent HMAC-SHA256, and every sealed chunk travels
//! as one length-prefixed frame on a byte stream that starts with a key frame.

pub mod bytes;
pub mod config;
pub mod crypto;
pub mod discovery;
pub mod framing;
pub mod handshake;
pub mod retry;
pub mod schedule;
pub mod transfer;
