//! The heartbeat side of the server: a client that reports in with a banned
//! hardware id is answered with a ban command.
use vstd::prelude::*;
use crate::bans::BanTable;
use crate::messages::BanCommand;

verus! {

/// The bans that the heartbeat handler consults (the transport shares it
/// between connections behind a lock).
pub struct ServerState {
    pub banned_hwids: BanTable,
}

impl ServerState {
    /// A server with no bans.
    pub fn new() -> (s: Self)
        ensures
            s.banned_hwids@ == Map::<Seq<char>, Seq<char>>::empty(),
    {
        ServerState { banned_hwids: BanTable::new() }
    }

    /// The answer to a heartbeat from `hwid` at time `timestamp`: a ban
    /// command carrying the ban's reason when `hwid` is banned, else nothing.
    pub fn heartbeat_reply(&self, hwid: &str, timestamp: u64) -> (r: Option<BanCommand>)
        ensures
            r is Some <==> self.banned_hwids@.dom().contains(hwid@),
            r matches Some(cmd) ==> {
                &&& cmd.hwid@ == hwid@
                &&& cmd.reason@ == self.banned_hwids@[hwid@]
                &&& cmd.timestamp == timestamp
            },
    {
        match self.banned_hwids.get(hwid) {
            Some(reason) => Some(BanCommand { hwid: hwid.to_owned(), reason, timestamp }),
            None => None,
        }
    }
}

} // verus!
