use tlac::event::{SuspiciousEvent, EVENT_SIZE};
use tlac::features::{FeatureExtractor, WINDOW_SIZE};

fn event(pid: u32, syscall_type: u32) -> SuspiciousEvent {
    SuspiciousEvent { pid, syscall_type, timestamp_ns: 0, filename: [0; 256], comm: [0; 16] }
}

fn sample() -> Vec<u8> {
    let mut b = vec![0u8; EVENT_SIZE];
    b[0..4].copy_from_slice(&0x01020304u32.to_le_bytes());
    b[4..8].copy_from_slice(&3u32.to_le_bytes());
    b[8..16].copy_from_slice(&0x1122334455667788u64.to_le_bytes());
    b[16..16 + 9].copy_from_slice(b"/dev/mem\0");
    b[272..272 + 4].copy_from_slice(b"gdb\0");
    b
}

#[test]
fn from_bytes_reads_the_record() {
    let e = SuspiciousEvent::from_bytes(&sample()).expect("long enough");
    assert_eq!(e.pid, 0x01020304);
    assert_eq!(e.syscall_type, 3);
    assert_eq!(e.timestamp_ns, 0x1122334455667788);
    assert_eq!(&e.filename[..8], b"/dev/mem");
    assert_eq!(&e.comm[..3], b"gdb");
    let mut longer = sample();
    longer.push(7);
    assert_eq!(SuspiciousEvent::from_bytes(&longer).unwrap().pid, 0x01020304);
}

#[test]
fn from_bytes_rejects_short_samples() {
    assert!(SuspiciousEvent::from_bytes(&[]).is_none());
    assert!(SuspiciousEvent::from_bytes(&vec![0u8; EVENT_SIZE - 1]).is_none());
}

#[test]
fn names_stop_at_the_first_zero() {
    let e = SuspiciousEvent::from_bytes(&sample()).unwrap();
    assert_eq!(e.filename_str(), "/dev/mem");
    assert_eq!(e.comm_str(), "gdb");
    let mut full = event(1, 1);
    full.comm = *b"abcdefghijklmnop";
    assert_eq!(full.comm_str(), "abcdefghijklmnop");
    assert_eq!(event(1, 1).filename_str(), "");
}

#[test]
fn invalid_utf8_is_replaced() {
    let mut e = event(1, 1);
    e.comm[0] = b'a';
    e.comm[1] = 0xff;
    e.comm[2] = b'b';
    assert_eq!(e.comm_str(), "a\u{FFFD}b");
}

#[test]
fn syscall_names() {
    assert_eq!(event(1, 1).syscall_name(), "openat");
    assert_eq!(event(1, 2).syscall_name(), "execve");
    assert_eq!(event(1, 3).syscall_name(), "ptrace");
    assert_eq!(event(1, 4).syscall_name(), "clone");
    assert_eq!(event(1, 0).syscall_name(), "unknown");
    assert_eq!(event(1, 99).syscall_name(), "unknown");
}

#[test]
fn window_keeps_the_last_hundred() {
    let mut fx = FeatureExtractor::new();
    assert_eq!(fx.feature_counts().total, 0);
    for i in 0..150u32 {
        fx.add_event(event(i, 1));
        assert_eq!(fx.feature_counts().total as usize, ((i + 1) as usize).min(WINDOW_SIZE));
    }
    let c = fx.feature_counts();
    assert_eq!(c.total, 100);
    // pids 50..149 remain, all distinct
    assert_eq!(c.distinct_pids, 100);
    let mut fx2 = FeatureExtractor::new();
    for i in 0..150u32 {
        fx2.add_event(event(i, if i < 50 { 2 } else { 1 }));
    }
    let c2 = fx2.feature_counts();
    assert_eq!((c2.openat, c2.execve), (100, 0));
    assert_eq!(c.openat, 100);
}

#[test]
fn feature_counts_per_syscall() {
    let mut fx = FeatureExtractor::new();
    let c0 = fx.feature_counts();
    assert_eq!((c0.total, c0.openat, c0.distinct_pids), (0, 0, 0));
    for (pid, t) in [(10, 1), (10, 2), (11, 3), (12, 4), (10, 4), (13, 9)] {
        fx.add_event(event(pid, t));
    }
    let c = fx.feature_counts();
    assert_eq!(c.total, 6);
    assert_eq!(c.openat, 1);
    assert_eq!(c.execve, 1);
    assert_eq!(c.ptrace, 1);
    assert_eq!(c.clone, 2);
    assert_eq!(c.distinct_pids, 4);
}
