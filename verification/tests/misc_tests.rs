use tlac::hwid::generate_hwid;
use tlac::monitor::{detection_reason, findings, kernel_ban_reason};
use tlac::proc_status::{candidate_module_names, kernel_status, known_module, read_failure, KernelStatus};
use tlac::scan::{CheatSignature, ScanJob};
use tlac::sync::{is_success_status, report_endpoint, sync_endpoint, sync_query_url, CheatReport, SyncRequest};
use tlac::text::{decimal_string, hex_lower_string};

#[test]
fn hwid_of_nothing_is_sha256_of_empty() {
    assert_eq!(
        generate_hwid(None, None),
        "e3b0c44298fc1c149afbf4c8996fb92427ae41e4649b934ca495991b7852b855"
    );
}

#[test]
fn hwid_trims_and_concatenates() {
    let abc = "ba7816bf8f01cfea414140de5dae2223b00361a396177a9cb410ff61f20015ad";
    assert_eq!(generate_hwid(Some("  abc\n"), None), abc);
    assert_eq!(generate_hwid(Some("ab"), Some("\tc \u{3000}")), abc);
    assert_eq!(generate_hwid(None, Some("abc")), abc);
    assert_eq!(generate_hwid(Some(" \n "), Some("abc")), abc);
    assert_ne!(generate_hwid(Some("abd"), None), abc);
    assert_eq!(generate_hwid(Some("x"), Some("y")).len(), 64);
}

#[test]
fn module_candidates_skip_known_and_blank_lines() {
    let table = "ext4 1 0 - Live 0x0\nevil 5 0 - Live\n\n   \n  kvm x\nrootkit\r\nnvidia 1\nhidden";
    assert_eq!(candidate_module_names(table), vec!["evil", "rootkit", "hidden"]);
    assert_eq!(candidate_module_names(""), Vec::<String>::new());
    assert_eq!(candidate_module_names("kvm_intel 1\n"), Vec::<String>::new());
}

#[test]
fn known_modules() {
    for m in ["ext4", "xfs", "btrfs", "nvidia", "amdgpu", "i915", "usbcore", "bluetooth", "cfg80211",
        "mac80211", "snd_hda_intel", "intel_rapl", "kvm", "kvm_intel"] {
        assert!(known_module(&m.to_string()), "{}", m);
    }
    assert!(!known_module(&"ext".to_string()));
    assert!(!known_module(&"KVM".to_string()));
}

#[test]
fn kernel_status_messages() {
    assert!(matches!(kernel_status(&vec![]), KernelStatus::Clean));
    match kernel_status(&vec!["evil".to_string(), "rk".to_string()]) {
        KernelStatus::Suspicious(m) => {
            assert_eq!(m, "Detected 2 unsigned/hidden module(s): [\"evil\", \"rk\"]")
        }
        other => panic!("unexpected {:?}", other),
    }
    match read_failure("No such file or directory (os error 2)") {
        KernelStatus::Error(m) => {
            assert_eq!(m, "Failed to read /proc/modules: No such file or directory (os error 2)")
        }
        other => panic!("unexpected {:?}", other),
    }
}

#[test]
fn sync_urls_and_bodies() {
    assert_eq!(sync_endpoint("http://h:8080"), "http://h:8080/api/v1/sync");
    assert_eq!(report_endpoint("http://h"), "http://h/api/v1/report");
    assert_eq!(sync_query_url("http://h", "abc", 17), "http://h/sync?hwid=abc&local_count=17");
    assert_eq!(sync_query_url("", "", 0), "/sync?hwid=&local_count=0");
    let r = SyncRequest::new("hw", 3);
    assert_eq!((r.hwid.as_str(), r.client_version.as_str(), r.local_ban_count), ("hw", "1.0.0", 3));
    let c = CheatReport::new("hw", "aimbot", 9, "2024-01-01T00:00:00+00:00");
    assert_eq!((c.hwid.as_str(), c.reason.as_str(), c.pid), ("hw", "aimbot", 9));
    assert_eq!(c.timestamp, "2024-01-01T00:00:00+00:00");
}

#[test]
fn success_statuses() {
    assert!(is_success_status(200));
    assert!(is_success_status(204));
    assert!(is_success_status(299));
    assert!(!is_success_status(199));
    assert!(!is_success_status(300));
    assert!(!is_success_status(404));
}

#[test]
fn decimal_and_hex_rendering() {
    assert_eq!(decimal_string(0), "0");
    assert_eq!(decimal_string(7), "7");
    assert_eq!(decimal_string(10), "10");
    assert_eq!(decimal_string(1234567890), "1234567890");
    assert_eq!(decimal_string(u64::MAX), u64::MAX.to_string());
    assert_eq!(hex_lower_string(&[0x00, 0x0f, 0xa5, 0xff]), "000fa5ff");
    assert_eq!(hex_lower_string(&[]), "");
}

#[test]
fn findings_follow_the_searches() {
    let sig = |name: &str, sev: &str| CheatSignature {
        id: String::new(),
        name: name.to_string(),
        pattern: String::new(),
        severity: sev.to_string(),
        memory_regions: vec![],
    };
    let sigs = vec![sig("A", "low"), sig("B", "high")];
    let job = |s: usize| ScanJob { signature: s, start: 0, len: 4, pattern: vec![None] };
    let jobs = vec![job(1), job(0), job(1)];
    let found = findings(&sigs, &jobs, &vec![Some(0x10), None, Some(0x20)]);
    let got: Vec<(String, usize, String)> =
        found.into_iter().map(|f| (f.name, f.address, f.severity)).collect();
    assert_eq!(got, vec![("B".to_string(), 0x10, "high".to_string()), ("B".to_string(), 0x20, "high".to_string())]);
}

#[test]
fn monitor_reasons() {
    assert_eq!(detection_reason("Aimbot X"), "Aimbot X detected");
    assert_eq!(
        kernel_ban_reason(&KernelStatus::Suspicious("m".to_string())),
        Some("Kernel modülü şüpheli aktivite: m".to_string())
    );
    assert_eq!(kernel_ban_reason(&KernelStatus::Clean), None);
    assert_eq!(kernel_ban_reason(&KernelStatus::Error("e".to_string())), None);
}
