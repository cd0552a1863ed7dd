use tlac::ban_server::{ServerAction, ServerState as BanServer};
use tlac::bans::BanTable;
use tlac::messages::{AntiCheatMessage, MessageData};
use tlac::server::ServerState as HeartbeatServer;

fn msg(pid: u32, event_type: &str, hwid: Option<&str>) -> AntiCheatMessage {
    AntiCheatMessage {
        pid,
        event_type: event_type.to_string(),
        data: MessageData { hwid: hwid.map(|h| h.to_string()) },
    }
}

#[test]
fn ban_table_insert_and_lookup() {
    let mut t = BanTable::new();
    assert_eq!(t.len(), 0);
    assert!(!t.contains("abc"));
    t.insert("abc", "aimbot");
    t.insert("def", "wallhack");
    t.insert("abc", "speedhack");
    assert_eq!(t.len(), 2);
    assert!(t.contains("abc"));
    assert_eq!(t.get("abc"), Some("speedhack".to_string()));
    assert_eq!(t.get("def"), Some("wallhack".to_string()));
    assert_eq!(t.get("xyz"), None);
    let mut all = t.to_vec();
    all.sort();
    assert_eq!(
        all,
        vec![
            ("abc".to_string(), "speedhack".to_string()),
            ("def".to_string(), "wallhack".to_string())
        ]
    );
}

#[test]
fn add_ban_then_is_banned() {
    let mut s = BanServer::new();
    assert!(!s.is_banned("hw-1"));
    s.add_ban("hw-1", "cheating");
    assert!(s.is_banned("hw-1"));
    assert!(!s.is_banned("hw-2"));
    assert_eq!(s.banned_hwids.get("hw-1"), Some("cheating".to_string()));
    // banning again keeps one entry, with the newer reason
    s.add_ban("hw-1", "again");
    assert_eq!(s.banned_hwids.len(), 1);
    assert_eq!(s.banned_hwids.get("hw-1"), Some("again".to_string()));
}

#[test]
fn suspicious_activity_bans_the_hwid() {
    let mut s = BanServer::new();
    let act = s.handle_message(&msg(4242, "SuspiciousActivity", Some("hw-9")));
    match act {
        ServerAction::RecordBan { hwid, reason } => {
            assert_eq!(hwid, "hw-9");
            assert_eq!(reason, "Suspicious activity from PID: 4242");
        }
        other => panic!("unexpected {:?}", other),
    }
    assert!(s.is_banned("hw-9"));
    assert_eq!(s.banned_hwids.get("hw-9"), Some("Suspicious activity from PID: 4242".to_string()));
}

#[test]
fn check_ban_answers_status_and_reason() {
    let mut s = BanServer::new();
    s.add_ban("hw-1", "aimbot");
    match s.handle_message(&msg(1, "CheckBan", Some("hw-1"))) {
        ServerAction::BanStatus { hwid, banned, reason } => {
            assert_eq!(hwid, "hw-1");
            assert!(banned);
            assert_eq!(reason, Some("aimbot".to_string()));
        }
        other => panic!("unexpected {:?}", other),
    }
    match s.handle_message(&msg(1, "CheckBan", Some("hw-2"))) {
        ServerAction::BanStatus { hwid, banned, reason } => {
            assert_eq!(hwid, "hw-2");
            assert!(!banned);
            assert_eq!(reason, None);
        }
        other => panic!("unexpected {:?}", other),
    }
    assert_eq!(s.banned_hwids.len(), 1);
}

#[test]
fn sync_bans_lists_every_ban() {
    let mut s = BanServer::new();
    s.add_ban("a", "r1");
    s.add_ban("b", "r2");
    match s.handle_message(&msg(7, "SyncBans", None)) {
        ServerAction::BanList { mut bans } => {
            bans.sort();
            assert_eq!(bans, vec![("a".to_string(), "r1".to_string()), ("b".to_string(), "r2".to_string())]);
        }
        other => panic!("unexpected {:?}", other),
    }
}

#[test]
fn messages_without_hwid_or_unknown_change_nothing() {
    let mut s = BanServer::new();
    assert!(matches!(s.handle_message(&msg(3, "SuspiciousActivity", None)), ServerAction::Ignored));
    assert!(matches!(s.handle_message(&msg(3, "CheckBan", None)), ServerAction::Ignored));
    match s.handle_message(&msg(3, "Heartbeat", Some("hw"))) {
        ServerAction::UnknownEvent { event_type } => assert_eq!(event_type, "Heartbeat"),
        other => panic!("unexpected {:?}", other),
    }
    assert_eq!(s.banned_hwids.len(), 0);
}

#[test]
fn load_bans_later_entries_win() {
    let mut s = BanServer::new();
    s.add_ban("x", "old");
    s.load_bans(&vec![
        ("x".to_string(), "db".to_string()),
        ("y".to_string(), "first".to_string()),
        ("y".to_string(), "second".to_string()),
    ]);
    assert_eq!(s.banned_hwids.len(), 2);
    assert_eq!(s.banned_hwids.get("x"), Some("db".to_string()));
    assert_eq!(s.banned_hwids.get("y"), Some("second".to_string()));
}

#[test]
fn heartbeat_from_banned_hwid_gets_ban_command() {
    let mut s = HeartbeatServer::new();
    s.banned_hwids.insert("hw-1", "wallhack");
    let cmd = s.heartbeat_reply("hw-1", 1700000000).expect("banned");
    assert_eq!(cmd.hwid, "hw-1");
    assert_eq!(cmd.reason, "wallhack");
    assert_eq!(cmd.timestamp, 1700000000);
    assert!(s.heartbeat_reply("hw-2", 5).is_none());
}
