use tlac::pattern::{parse_pattern, search_wildcard_pattern_in_bytes, search_wildcard_pattern_in_memory};
use tlac::scan::{
    append_word, assemble_read, plan_scan, read_addresses, should_scan, CheatSignature, MemoryRegion, MAX_REGION_SIZE,
};

fn sig(name: &str, pattern: &str, regions: &[&str]) -> CheatSignature {
    CheatSignature {
        id: format!("id-{}", name),
        name: name.to_string(),
        pattern: pattern.to_string(),
        severity: "high".to_string(),
        memory_regions: regions.iter().map(|r| r.to_string()).collect(),
    }
}

#[test]
fn parse_pattern_reads_hex_and_wildcards() {
    assert_eq!(parse_pattern("48 8B ? 05"), vec![Some(0x48), Some(0x8b), None, Some(0x05)]);
    assert_eq!(parse_pattern("* ?\t1f"), vec![None, None, Some(0x1f)]);
}

#[test]
fn parse_pattern_blank_is_empty() {
    assert_eq!(parse_pattern(""), Vec::<Option<u8>>::new());
    assert_eq!(parse_pattern("  \n\t "), Vec::<Option<u8>>::new());
}

#[test]
fn parse_pattern_drops_what_is_not_a_byte() {
    // "+ff" is 255, "zz" is no number, "100" does not fit, "0a" is 10, "000ff" is 255
    assert_eq!(parse_pattern("+ff zz * 100 0a 000ff"), vec![Some(255), None, Some(10), Some(255)]);
    assert_eq!(parse_pattern("-1 + ++1 ?? **"), Vec::<Option<u8>>::new());
}

#[test]
fn parse_pattern_splits_on_unicode_whitespace() {
    assert_eq!(parse_pattern("aa\u{3000}bb\u{a0}cc"), vec![Some(0xaa), Some(0xbb), Some(0xcc)]);
}

#[test]
fn search_finds_first_match_with_wildcards() {
    let bytes = [1u8, 2, 3, 4, 2, 9, 4];
    assert_eq!(search_wildcard_pattern_in_bytes(&bytes, &[Some(2), None, Some(4)]), Some(1));
    assert_eq!(search_wildcard_pattern_in_bytes(&bytes, &[Some(2), Some(9)]), Some(4));
    assert_eq!(search_wildcard_pattern_in_bytes(&bytes, &[None]), Some(0));
    assert_eq!(search_wildcard_pattern_in_bytes(&bytes, &[Some(9), Some(4)]), Some(5));
}

#[test]
fn search_edge_cases_give_none() {
    let bytes = [1u8, 2, 3];
    assert_eq!(search_wildcard_pattern_in_bytes(&bytes, &[]), None);
    assert_eq!(search_wildcard_pattern_in_bytes(&[], &[None]), None);
    assert_eq!(search_wildcard_pattern_in_bytes(&bytes, &[None, None, None, None]), None);
    assert_eq!(search_wildcard_pattern_in_bytes(&bytes, &[Some(3), Some(1)]), None);
    assert_eq!(search_wildcard_pattern_in_bytes(&bytes, &[None, None, None]), Some(0));
}

fn words_of(memory: &[u8]) -> Vec<Option<i64>> {
    memory
        .chunks(8)
        .map(|c| {
            let mut w = [0u8; 8];
            w[..c.len()].copy_from_slice(c);
            Some(i64::from_le_bytes(w))
        })
        .collect()
}

#[test]
fn search_in_memory_offsets_by_start() {
    let memory = [0u8, 0x90, 0x90, 0xc3, 0, 0, 0, 0];
    let words = words_of(&memory);
    assert_eq!(search_wildcard_pattern_in_memory(0x1000, 8, &words, &[Some(0x90), Some(0xc3)]), Some(0x1002));
    assert_eq!(search_wildcard_pattern_in_memory(0x1000, 8, &words, &[Some(0xcc)]), None);
}

#[test]
fn search_in_memory_reports_the_address_in_memory() {
    let mut memory = [0u8; 16];
    memory[8] = 0xaa;
    let words = words_of(&memory);
    assert_eq!(read_addresses(0x1000, 16), vec![0x1000, 0x1008]);
    assert_eq!(assemble_read(16, &words), memory.to_vec());
    assert_eq!(search_wildcard_pattern_in_memory(0x1000, 16, &words, &[Some(0xaa)]), Some(0x1008));
}

#[test]
fn failed_reads_end_the_bytes_searched() {
    let words = vec![Some(0x0807060504030201i64), None, Some(-1)];
    assert_eq!(assemble_read(16, &words), vec![1, 2, 3, 4, 5, 6, 7, 8]);
    assert_eq!(assemble_read(3, &words), vec![1, 2, 3]);
    assert_eq!(assemble_read(16, &vec![None]), Vec::<u8>::new());
    assert_eq!(search_wildcard_pattern_in_memory(0x2000, 16, &words, &[Some(0xff)]), None);
    // a mapping that is not a multiple of eight bytes is cut to its length
    let tail = vec![Some(0x0807060504030201i64), Some(0x100f0e0d0c0b0a09)];
    assert_eq!(assemble_read(12, &tail), vec![1, 2, 3, 4, 5, 6, 7, 8, 9, 10, 11, 12]);
    assert_eq!(search_wildcard_pattern_in_memory(0x2000, 12, &tail, &[Some(13)]), None);
}

#[test]
fn read_addresses_steps_by_eight() {
    assert_eq!(read_addresses(100, 10), vec![100, 108]);
    assert_eq!(read_addresses(100, 8), vec![100]);
    assert_eq!(read_addresses(100, 16), vec![100, 108]);
    assert_eq!(read_addresses(7, 1), vec![7]);
    assert_eq!(read_addresses(100, 0), Vec::<usize>::new());
    assert_eq!(read_addresses(100, MAX_REGION_SIZE + 1), Vec::<usize>::new());
    assert_eq!(read_addresses(0, MAX_REGION_SIZE).len(), MAX_REGION_SIZE / 8);
}

#[test]
fn append_word_is_little_endian() {
    let mut data = vec![0xaau8];
    append_word(&mut data, 0x0807060504030201);
    assert_eq!(data, vec![0xaa, 1, 2, 3, 4, 5, 6, 7, 8]);
    let mut neg = Vec::new();
    append_word(&mut neg, -1);
    assert_eq!(neg, vec![0xff; 8]);
    let mut same = Vec::new();
    append_word(&mut same, 0x1122334455667788);
    assert_eq!(same, 0x1122334455667788i64.to_le_bytes().to_vec());
}

#[test]
fn should_scan_follows_region_tags() {
    assert!(!should_scan(&sig("a", "00", &["Executable"]), false, true));
    assert!(should_scan(&sig("a", "00", &["EXECUTABLE"]), true, false));
    assert!(should_scan(&sig("a", "00", &["WriTable"]), false, true));
    assert!(!should_scan(&sig("a", "00", &["writable"]), true, false));
    assert!(should_scan(&sig("a", "00", &["heap"]), false, false));
    assert!(should_scan(&sig("a", "00", &["writable", "stack"]), false, false));
    assert!(!should_scan(&sig("a", "00", &[]), true, true));
    // a Turkish dotted capital I does not lower-case to a plain "i"
    assert!(should_scan(&sig("a", "00", &["WR\u{130}TABLE"]), false, false));
}

#[test]
fn plan_scan_orders_by_region_then_signature() {
    let regions = vec![
        MemoryRegion { start: 0x1000, end: 0x2000, executable: true, writable: false },
        MemoryRegion { start: 0x3000, end: 0x3000, executable: true, writable: true },
        MemoryRegion { start: 0x4000, end: 0x4000 + MAX_REGION_SIZE + 1, executable: true, writable: true },
        MemoryRegion { start: 0x8000, end: 0x9000, executable: false, writable: true },
    ];
    let sigs = vec![
        sig("exec", "90 ? c3", &["executable"]),
        sig("empty", "zz", &["any"]),
        sig("data", "de ad", &["writable"]),
    ];
    let jobs = plan_scan(&regions, &sigs);
    let got: Vec<(usize, usize, usize, Vec<Option<u8>>)> =
        jobs.into_iter().map(|j| (j.signature, j.start, j.len, j.pattern)).collect();
    assert_eq!(
        got,
        vec![
            (0, 0x1000, 0x1000, vec![Some(0x90), None, Some(0xc3)]),
            (2, 0x8000, 0x1000, vec![Some(0xde), Some(0xad)]),
        ]
    );
}

#[test]
fn written_pattern_parses_back() {
    let v = vec![Some(0x00), None, Some(0xab), Some(0xff), None, Some(0x0c)];
    let text: Vec<String> = v
        .iter()
        .map(|x| match x {
            Some(b) => format!("{:02X}", b),
            None => "?".to_string(),
        })
        .collect();
    assert_eq!(parse_pattern(&text.join(" ")), v);
}

#[test]
fn case_and_spacing_do_not_matter() {
    let a = parse_pattern("48 8b ? Ff +0a");
    assert_eq!(a, parse_pattern("  48\t8B\n?   fF  +0A \n"));
    assert_eq!(a, vec![Some(0x48), Some(0x8b), None, Some(0xff), Some(0x0a)]);
}
