//! Verified core of a Linux user-space anti-cheat: signature patterns and
//! memory search, the syscall-event window, ban bookkeeping for the local
//! server, kernel-module screening, hardware ids and sync requests.
pub mod text;

pub mod event;
pub mod features;
pub mod protocol;
pub mod bans;
pub mod messages;
pub mod ban_server;
pub mod server;
pub mod sync;
pub mod proc_status;
pub mod hwid;
pub mod pattern;
pub mod scan;
pub mod monitor;
