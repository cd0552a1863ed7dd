//! What the ban-sync client sends to the central server and how it reads
//! the answer's status; the HTTP exchange itself is the transport's.
use vstd::prelude::*;
use crate::text::{concat_str, decimal, decimal_string};

verus! {

/// The version the client announces when it syncs.
pub open spec fn client_version() -> Seq<char> {
    "1.0.0"@
}

/// Body of a sync request.
#[derive(Debug, Clone)]
pub struct SyncRequest {
    pub hwid: String,
    pub client_version: String,
    pub local_ban_count: u32,
}

/// One ban as the central server lists it.
#[derive(Debug, Clone)]
pub struct BanEntry {
    pub hwid: String,
    pub reason: String,
    pub banned_at: String,
}

/// The central server's answer to a sync.
#[derive(Debug, Clone)]
pub struct SyncResponse {
    pub bans: Vec<BanEntry>,
}

/// Body of a cheat report.
#[derive(Debug, Clone)]
pub struct CheatReport {
    pub hwid: String,
    pub reason: String,
    pub pid: u32,
    pub timestamp: String,
}

impl SyncRequest {
    /// The request that syncs the bans of `hwid`, which holds `local_ban_count` bans locally.
    pub fn new(hwid: &str, local_ban_count: u32) -> (r: Self)
        ensures
            r.hwid@ == hwid@,
            r.client_version@ == client_version(),
            r.local_ban_count == local_ban_count,
    {
        SyncRequest { hwid: hwid.to_owned(), client_version: "1.0.0".to_owned(), local_ban_count }
    }
}

impl CheatReport {
    /// The report that `pid` on `hwid` cheated for `reason`, made at `timestamp`.
    pub fn new(hwid: &str, reason: &str, pid: u32, timestamp: &str) -> (r: Self)
        ensures
            r.hwid@ == hwid@,
            r.reason@ == reason@,
            r.pid == pid,
            r.timestamp@ == timestamp@,
    {
        CheatReport {
            hwid: hwid.to_owned(),
            reason: reason.to_owned(),
            pid,
            timestamp: timestamp.to_owned(),
        }
    }
}

/// Where sync requests go: `{base_url}/api/v1/sync`.
pub fn sync_endpoint(base_url: &str) -> (url: String)
    ensures
        url@ == base_url@ + "/api/v1/sync"@,
{
    concat_str(base_url, "/api/v1/sync")
}

/// Where cheat reports go: `{base_url}/api/v1/report`.
pub fn report_endpoint(base_url: &str) -> (url: String)
    ensures
        url@ == base_url@ + "/api/v1/report"@,
{
    concat_str(base_url, "/api/v1/report")
}

/// The query form of a sync: `{base_url}/sync?hwid={hwid}&local_count={local_count}`
/// (the hwid is put in as it is).
pub fn sync_query_url(base_url: &str, hwid: &str, local_count: u32) -> (url: String)
    ensures
        url@ == base_url@ + "/sync?hwid="@ + hwid@ + "&local_count="@ + decimal(local_count as nat),
{
    let a = concat_str(base_url, "/sync?hwid=");
    let b = concat_str(a.as_str(), hwid);
    let c = concat_str(b.as_str(), "&local_count=");
    let n = decimal_string(local_count as u64);
    concat_str(c.as_str(), n.as_str())
}

/// Whether an HTTP status is a success (200 to 299), the test the client
/// applies before it reads an answer.
pub fn is_success_status(status: u16) -> (ok: bool)
    ensures
        ok <==> 200 <= status <= 299,
{
    200 <= status && status <= 299
}

} // verus!
