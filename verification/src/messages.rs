//! Messages that clients send to the ban server, and the ban command.
use vstd::prelude::*;

verus! {

/// The part of a message's free-form payload that the server reads: the
/// `hwid` field, when it is present and a string.
#[derive(Debug, Clone)]
pub struct MessageData {
    pub hwid: Option<String>,
}

/// A client message: the sender's process id, the kind of event
/// ("SuspiciousActivity", "CheckBan", "SyncBans") and its payload.
#[derive(Debug, Clone)]
pub struct AntiCheatMessage {
    pub pid: u32,
    pub event_type: String,
    pub data: MessageData,
}

/// Tells a client that its hardware id is banned.
#[derive(Debug, Clone)]
pub struct BanCommand {
    pub hwid: String,
    pub reason: String,
    pub timestamp: u64,
}

} // verus!
