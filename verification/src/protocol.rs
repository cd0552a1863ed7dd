//! The tagged messages exchanged between the scanner and the server.
use vstd::prelude::*;

verus! {

/// A message on the scanner-to-server channel.
#[derive(Debug, Clone)]
pub enum AntiCheatMessage {
    Heartbeat { pid: u32, timestamp: u64 },
    SuspiciousActivity {
        pid: u32,
        reason: String,
        memory_address: Option<u64>,
        signature_found: Option<Vec<u8>>,
    },
    BanCommand { pid: u32, ban_type: BanType, reason: String },
    Ack { message: String },
}

/// How long and on what a ban holds.
#[derive(Debug, Clone, Copy, PartialEq, Eq)]
pub enum BanType {
    Temporary { duration_seconds: u64 },
    Permanent,
    HardwareId,
    IpAddress,
}

} // verus!
