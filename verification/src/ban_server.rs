//! The ban server's state and what it does with each client message. The
//! transport (socket, database, JSON) performs the action returned here.
use vstd::prelude::*;
use crate::bans::{keys_distinct, map_of, pair_views, BanTable};
use crate::messages::AntiCheatMessage;
use crate::text::{concat_str, decimal, decimal_string};

verus! {

/// The server's view of the world: which hardware ids are banned, and why.
pub struct ServerState {
    pub banned_hwids: BanTable,
}

/// What the transport is to do after a message was handled.
#[derive(Debug)]
#[allow(inconsistent_fields)]
pub enum ServerAction {
    /// `hwid` was banned for `reason`; store the ban.
    RecordBan { hwid: String, reason: String },
    /// Answer a ban query for `hwid` ("BanStatus").
    BanStatus { hwid: String, banned: bool, reason: Option<String> },
    /// Answer with every ban ("BanList").
    BanList { bans: Vec<(String, String)> },
    /// A known event whose payload carries no string `hwid`: nothing to do.
    Ignored,
    /// An event type the server does not know.
    UnknownEvent { event_type: String },
}

/// The reason recorded for a ban that a suspicious-activity report from `pid` causes.
pub open spec fn suspicious_reason(pid: u32) -> Seq<char> {
    "Suspicious activity from PID: "@ + decimal(pid as nat)
}

/// The bans after `bans` are loaded over `m`, in order, later ones winning.
pub open spec fn loaded(m: Map<Seq<char>, Seq<char>>, bans: Seq<(String, String)>) -> Map<
    Seq<char>,
    Seq<char>,
> {
    m.union_prefer_right(map_of(pair_views(bans)))
}

fn suspicious_reason_string(pid: u32) -> (s: String)
    ensures
        s@ == suspicious_reason(pid),
{
    let n = decimal_string(pid as u64);
    concat_str("Suspicious activity from PID: ", n.as_str())
}

impl ServerState {
    /// A server with no bans.
    pub fn new() -> (s: Self)
        ensures
            s.banned_hwids@ == Map::<Seq<char>, Seq<char>>::empty(),
    {
        ServerState { banned_hwids: BanTable::new() }
    }

    /// Bans `hwid` for `reason` (a later reason replaces an earlier one).
    pub fn add_ban(&mut self, hwid: &str, reason: &str)
        ensures
            final(self).banned_hwids@ == old(self).banned_hwids@.insert(hwid@, reason@),
    {
        self.banned_hwids.insert(hwid, reason);
    }

    /// Whether `hwid` is banned.
    pub fn is_banned(&self, hwid: &str) -> (b: bool)
        ensures
            b == self.banned_hwids@.dom().contains(hwid@),
    {
        self.banned_hwids.contains(hwid)
    }

    /// Adds the bans read from storage, in order.
    pub fn load_bans(&mut self, bans: &Vec<(String, String)>)
        ensures
            final(self).banned_hwids@ == loaded(old(self).banned_hwids@, bans@),
    {
        let ghost start = self.banned_hwids@;
        let mut i: usize = 0;
        while i < bans.len()
            invariant
                0 <= i <= bans@.len(),
                self.banned_hwids@ == loaded(start, bans@.take(i as int)),
            decreases bans@.len() - i,
        {
            self.banned_hwids.insert(bans[i].0.as_str(), bans[i].1.as_str());
            proof {
                let s = pair_views(bans@.take(i + 1));
                assert(s.drop_last() =~= pair_views(bans@.take(i as int)));
                assert(s.last() == (bans@[i as int].0@, bans@[i as int].1@));
                assert(self.banned_hwids@ =~= loaded(start, bans@.take(i + 1)));
            }
            i = i + 1;
        }
        assert(bans@.take(bans@.len() as int) =~= bans@);
    }

    /// Handles one client message.
    /// - "SuspiciousActivity" with a `hwid`: bans it for
    ///   "Suspicious activity from PID: {pid}" and asks for the ban to be stored.
    /// - "CheckBan" with a `hwid`: answers whether it is banned, and why.
    /// - "SyncBans": answers with every ban.
    /// - a known event without a `hwid`: nothing; any other event: reported as unknown.
    /// Only "SuspiciousActivity" changes the bans.
    pub fn handle_message(&mut self, msg: &AntiCheatMessage) -> (act: ServerAction)
        ensures
            msg.event_type@ == "SuspiciousActivity"@ ==> match msg.data.hwid {
                Some(h) => {
                    &&& final(self).banned_hwids@ == old(self).banned_hwids@.insert(
                        h@,
                        suspicious_reason(msg.pid),
                    )
                    &&& act matches ServerAction::RecordBan { hwid, reason }
                    &&& hwid@ == h@
                    &&& reason@ == suspicious_reason(msg.pid)
                },
                None => final(self).banned_hwids@ == old(self).banned_hwids@ && act
                    is Ignored,
            },
            msg.event_type@ != "SuspiciousActivity"@ ==> final(self).banned_hwids@ == old(
                self,
            ).banned_hwids@,
            msg.event_type@ == "CheckBan"@ ==> match msg.data.hwid {
                Some(h) => {
                    &&& act matches ServerAction::BanStatus { hwid, banned, reason }
                    &&& hwid@ == h@
                    &&& banned == old(self).banned_hwids@.dom().contains(h@)
                    &&& (banned ==> (reason matches Some(r) && r@ == old(self).banned_hwids@[h@]))
                    &&& (!banned ==> reason is None)
                },
                None => act is Ignored,
            },
            msg.event_type@ == "SyncBans"@ ==> {
                &&& act matches ServerAction::BanList { bans }
                &&& keys_distinct(pair_views(bans@))
                &&& map_of(pair_views(bans@)) == old(self).banned_hwids@
            },
            msg.event_type@ != "SuspiciousActivity"@ && msg.event_type@ != "CheckBan"@
                && msg.event_type@ != "SyncBans"@ ==> (act matches ServerAction::UnknownEvent {
                event_type,
            } && event_type@ == msg.event_type@),
    {
        proof {
            reveal_strlit("SuspiciousActivity");
            reveal_strlit("CheckBan");
            reveal_strlit("SyncBans");
            assert("SuspiciousActivity"@.len() == 18);
            assert("CheckBan"@.len() == 8);
            assert("SyncBans"@.len() == 8);
            assert("CheckBan"@[0] != "SyncBans"@[0]);
        }
        if msg.event_type == "SuspiciousActivity".to_owned() {
            match &msg.data.hwid {
                Some(h) => {
                    let reason = suspicious_reason_string(msg.pid);
                    self.add_ban(h.as_str(), reason.as_str());
                    ServerAction::RecordBan { hwid: h.clone(), reason }
                },
                None => ServerAction::Ignored,
            }
        } else if msg.event_type == "CheckBan".to_owned() {
            match &msg.data.hwid {
                Some(h) => {
                    let banned = self.is_banned(h.as_str());
                    let reason = if banned {
                        self.banned_hwids.get(h.as_str())
                    } else {
                        None
                    };
                    ServerAction::BanStatus { hwid: h.clone(), banned, reason }
                },
                None => ServerAction::Ignored,
            }
        } else if msg.event_type == "SyncBans".to_owned() {
            ServerAction::BanList { bans: self.banned_hwids.to_vec() }
        } else {
            ServerAction::UnknownEvent { event_type: msg.event_type.clone() }
        }
    }
}

/// A suspicious-activity report from `pid` that names `hwid` leaves `hwid`
/// banned, for the reason "Suspicious activity from PID: {pid}", whatever
/// was banned before; every other ban stays as it was.
pub proof fn lemma_reported_hwid_is_banned(
    before: Map<Seq<char>, Seq<char>>,
    hwid: Seq<char>,
    pid: u32,
    other: Seq<char>,
)
    ensures
        before.insert(hwid, suspicious_reason(pid)).dom().contains(hwid),
        before.insert(hwid, suspicious_reason(pid))[hwid] == suspicious_reason(pid),
        other != hwid ==> (before.insert(hwid, suspicious_reason(pid)).dom().contains(other)
            == before.dom().contains(other)),
        other != hwid && before.dom().contains(other) ==> before.insert(
            hwid,
            suspicious_reason(pid),
        )[other] == before[other],
{
}

/// After bans are loaded, every hwid in them is banned, for the reason of
/// its last entry in the list; hwids not in the list keep their state.
pub proof fn lemma_loaded_bans_are_banned(
    m: Map<Seq<char>, Seq<char>>,
    bans: Seq<(String, String)>,
    k: int,
    other: Seq<char>,
)
    requires
        0 <= k < bans.len(),
        forall|j: int| k < j < bans.len() ==> #[trigger] bans[j].0@ != bans[k].0@,
    ensures
        loaded(m, bans).dom().contains(bans[k].0@),
        loaded(m, bans)[bans[k].0@] == bans[k].1@,
        (forall|j: int| 0 <= j < bans.len() ==> #[trigger] bans[j].0@ != other) ==> (loaded(
            m,
            bans,
        ).dom().contains(other) == m.dom().contains(other)),
{
    let s = pair_views(bans);
    lemma_map_of_last(s, k);
    crate::bans::lemma_map_of_dom(s, other);
    if forall|j: int| 0 <= j < bans.len() ==> #[trigger] bans[j].0@ != other {
        if map_of(s).dom().contains(other) {
            let j = choose|j: int| 0 <= j < s.len() && s[j].0 == other;
            assert(bans[j].0@ == other);
        }
    }
}

/// In a list of entries, the last entry for a hwid gives its value.
pub proof fn lemma_map_of_last(s: Seq<(Seq<char>, Seq<char>)>, k: int)
    requires
        0 <= k < s.len(),
        forall|j: int| k < j < s.len() ==> #[trigger] s[j].0 != s[k].0,
    ensures
        map_of(s).dom().contains(s[k].0),
        map_of(s)[s[k].0] == s[k].1,
    decreases s.len(),
{
    if k < s.len() - 1 {
        let t = s.drop_last();
        assert(t[k] == s[k]);
        assert forall|j: int| k < j < t.len() implies #[trigger] t[j].0 != t[k].0 by {
            assert(t[j] == s[j]);
        }
        lemma_map_of_last(t, k);
        assert(s[s.len() - 1].0 != s[k].0);
    }
}

} // verus!
