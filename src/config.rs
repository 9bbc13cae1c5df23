use vstd::prelude::*;

verus! {

/// Port on which a receiver listens for the one transfer connection.
pub const SERVER_PORT: u16 = 5001;

/// Port of the discovery broadcast.
pub const DISCOVERY_PORT: u16 = 5000;

/// Seconds during which discovery collects replies.
pub const DISCOVERY_TIMEOUT: u64 = 5;

/// Retries allowed after a failed attempt before a transfer is abandoned.
pub const MAX_RETRIES: u8 = 3;

/// Size of every chunk but the last: 2 MiB.
pub const CHUNK_SIZE_BASE: usize = 2097152;

/// Most workers that send one file.
pub const MAX_WORKERS: usize = 4;

/// The fixed settings of a session, made once and handed to every component.
#[derive(Debug, Clone, Copy, PartialEq, Eq, Structural)]
pub struct TransferConfig {
    pub server_port: u16,
    pub discovery_port: u16,
    pub discovery_timeout_secs: u64,
    pub max_retries: u8,
    pub chunk_size: usize,
    pub max_workers: usize,
}

impl TransferConfig {
    /// The settings every peer uses unless told otherwise.
    pub fn standard() -> (r: TransferConfig)
        ensures
            r.server_port == SERVER_PORT,
            r.discovery_port == DISCOVERY_PORT,
            r.discovery_timeout_secs == DISCOVERY_TIMEOUT,
            r.max_retries == MAX_RETRIES,
            r.chunk_size == CHUNK_SIZE_BASE,
            r.max_workers == MAX_WORKERS,
    {
        TransferConfig {
            server_port: SERVER_PORT,
            discovery_port: DISCOVERY_PORT,
            discovery_timeout_secs: DISCOVERY_TIMEOUT,
            max_retries: MAX_RETRIES,
            chunk_size: CHUNK_SIZE_BASE,
            max_workers: MAX_WORKERS,
        }
    }
}

} // verus!
