//! The signature scan of a process: which mappings are scanned for which
//! signatures, which words of memory are read, and how the words read make
//! up the bytes that are searched. Reading the other process's memory is
//! the caller's.
use vstd::prelude::*;
use crate::pattern::{parse_pattern, pattern_of};
use crate::text::{ascii_lower, chars_of, words};

verus! {

/// Largest mapping (in bytes) that is scanned.
pub const MAX_REGION_SIZE: usize = 268435456;

/// A signature from the signature file.
#[derive(Debug, Clone)]
pub struct CheatSignature {
    pub id: String,
    pub name: String,
    pub pattern: String,
    pub severity: String,
    pub memory_regions: Vec<String>,
}

/// A mapping of the scanned process: its address range and permissions.
#[derive(Debug, Clone, Copy)]
pub struct MemoryRegion {
    pub start: usize,
    pub end: usize,
    pub executable: bool,
    pub writable: bool,
}

/// A signature found in memory.
#[derive(Debug, Clone)]
pub struct FoundCheat {
    pub name: String,
    pub address: usize,
    pub severity: String,
}

/// One search to make: the pattern of signature number `signature`, in the
/// `len` bytes of memory from `start`.
#[derive(Debug, Clone)]
pub struct ScanJob {
    pub signature: usize,
    pub start: usize,
    pub len: usize,
    pub pattern: Vec<Option<u8>>,
}

/// Size in bytes of one word read from the scanned process.
pub const WORD_SIZE: usize = 8;

/// Number of words read for a mapping of `len` bytes: enough to cover it,
/// none when `len` is zero or above `MAX_REGION_SIZE`.
pub open spec fn word_count(len: usize) -> nat {
    if len == 0 || len > MAX_REGION_SIZE {
        0
    } else {
        ((len + 7) / 8) as nat
    }
}

/// The addresses of the words read for `len` bytes from `start`: one word
/// every eight bytes, `start + 8 * k` for each `k` below `word_count(len)`.
pub fn read_addresses(start: usize, len: usize) -> (addrs: Vec<usize>)
    requires
        start + len <= usize::MAX,
    ensures
        addrs@.len() == word_count(len),
        forall|k: int| 0 <= k < addrs@.len() ==> #[trigger] addrs@[k] == start + 8 * k,
{
    let mut addrs: Vec<usize> = Vec::new();
    if len == 0 || len > MAX_REGION_SIZE {
        return addrs;
    }
    let mut off: usize = 0;
    while off < len
        invariant
            0 < len <= MAX_REGION_SIZE,
            start + len <= usize::MAX,
            off == 8 * addrs@.len(),
            off < len + 8,
            addrs@.len() <= word_count(len),
            forall|k: int| 0 <= k < addrs@.len() ==> #[trigger] addrs@[k] == start + 8 * k,
        decreases len + 8 - off,
    {
        addrs.push(start + off);
        off = off + WORD_SIZE;
    }
    addrs
}

/// The bytes of `x`, least significant first, `n` of them.
pub open spec fn le_bytes(x: nat, n: nat) -> Seq<u8>
    decreases n,
{
    if n == 0 {
        Seq::empty()
    } else {
        seq![(x % 256) as u8] + le_bytes(x / 256, (n - 1) as nat)
    }
}

/// Appends the eight bytes of a word read from memory, in memory order
/// (least significant first).
pub fn append_word(data: &mut Vec<u8>, word: i64)
    ensures
        final(data)@ == old(data)@ + le_bytes((word as u64) as nat, 8),
{
    let mut x: u64 = word as u64;
    let mut k: usize = 0;
    let ghost target = old(data)@ + le_bytes((word as u64) as nat, 8);
    assert(old(data)@ + le_bytes(x as nat, 8) == target);
    while k < 8
        invariant
            0 <= k <= 8,
            data@ + le_bytes(x as nat, (8 - k) as nat) == target,
        decreases 8 - k,
    {
        let ghost prev = data@;
        data.push((x % 256) as u8);
        proof {
            assert(le_bytes(x as nat, (8 - k) as nat) == seq![(x % 256) as u8] + le_bytes(
                (x / 256) as nat,
                (8 - k - 1) as nat,
            ));
            assert(data@ + le_bytes((x / 256) as nat, (8 - k - 1) as nat) =~= prev + le_bytes(
                x as nat,
                (8 - k) as nat,
            ));
        }
        x = x / 256;
        k = k + 1;
    }
    assert(data@ + le_bytes(x as nat, 0) =~= data@);
}

/// The bytes of the words read, in order, up to the first read that failed.
pub open spec fn words_bytes(words: Seq<Option<i64>>) -> Seq<u8>
    decreases words.len(),
{
    if words.len() == 0 {
        Seq::empty()
    } else {
        match words[0] {
            Some(w) => le_bytes((w as u64) as nat, 8) + words_bytes(words.drop_first()),
            None => Seq::empty(),
        }
    }
}

/// The bytes searched in a mapping of `len` bytes: the bytes of the words
/// read up to the first failed read, cut to at most `len` bytes.
pub open spec fn read_bytes(len: usize, words: Seq<Option<i64>>) -> Seq<u8> {
    let b = words_bytes(words);
    if b.len() > len {
        b.take(len as int)
    } else {
        b
    }
}

/// The bytes to search, from the outcomes of the word reads of a mapping of
/// `len` bytes (`None` for a read that failed; nothing after it counts).
pub fn assemble_read(len: usize, words: &Vec<Option<i64>>) -> (data: Vec<u8>)
    ensures
        data@ == read_bytes(len, words@),
        data@.len() <= len,
{
    let mut data: Vec<u8> = Vec::new();
    let mut i: usize = 0;
    let mut stopped: bool = false;
    assert(words@.skip(0) =~= words@);
    while i < words.len() && !stopped
        invariant
            0 <= i <= words@.len(),
            !stopped ==> data@ + words_bytes(words@.skip(i as int)) == words_bytes(words@),
            stopped ==> data@ == words_bytes(words@),
        decreases words@.len() - i,
    {
        let ghost rest = words@.skip(i as int);
        assert(rest[0] == words@[i as int]);
        match words[i] {
            Some(w) => {
                let ghost prev = data@;
                append_word(&mut data, w);
                assert(rest.drop_first() =~= words@.skip(i + 1));
                assert(data@ + words_bytes(words@.skip(i + 1)) =~= prev + words_bytes(rest));
            },
            None => {
                assert(data@ + words_bytes(rest) =~= data@);
                stopped = true;
            },
        }
        i = i + 1;
    }
    if !stopped {
        assert(words@.skip(i as int) =~= Seq::<Option<i64>>::empty());
        assert(data@ + Seq::<u8>::empty() =~= data@);
    }
    data.truncate(len);
    data
}

/// Each read of `words` succeeded and gave the little-endian word of `mem`
/// at its offset (`8 * k` for the `k`-th read).
pub open spec fn reads_match_memory(mem: Seq<u8>, words: Seq<Option<i64>>) -> bool {
    &&& mem.len() >= 8 * words.len()
    &&& forall|k: int|
        0 <= k < words.len() ==> (#[trigger] words[k]) is Some && le_bytes(
            (words[k]->0 as u64) as nat,
            8,
        ) == mem.subrange(8 * k, 8 * k + 8)
}

proof fn lemma_words_bytes_are_memory(mem: Seq<u8>, words: Seq<Option<i64>>)
    requires
        reads_match_memory(mem, words),
    ensures
        words_bytes(words) == mem.take(8 * words.len() as int),
    decreases words.len(),
{
    if words.len() > 0 {
        let rest = words.drop_first();
        let m2 = mem.skip(8);
        assert(reads_match_memory(m2, rest)) by {
            assert forall|k: int| 0 <= k < rest.len() implies (#[trigger] rest[k]) is Some
                && le_bytes((rest[k]->0 as u64) as nat, 8) == m2.subrange(8 * k, 8 * k + 8) by {
                assert(rest[k] == words[k + 1]);
                assert(words[k + 1] is Some);
                assert(m2.subrange(8 * k, 8 * k + 8) =~= mem.subrange(8 * (k + 1), 8 * (k + 1)
                    + 8));
            }
        }
        lemma_words_bytes_are_memory(m2, rest);
        assert(words[0] is Some);
        assert(le_bytes((words[0]->0 as u64) as nat, 8) == mem.subrange(0, 8));
        assert(mem.subrange(0, 8) + m2.take(8 * rest.len() as int) =~= mem.take(8 * words.len() as int));
    } else {
        assert(mem.take(0) =~= Seq::<u8>::empty());
    }
}

/// When every word read for a mapping of `len` bytes succeeds and gives the
/// process's memory `mem` (from the mapping's start) at its address, the
/// bytes searched are exactly the mapping's first `len` bytes of memory.
pub proof fn lemma_read_bytes_are_memory(mem: Seq<u8>, len: usize, words: Seq<Option<i64>>)
    requires
        0 < len <= MAX_REGION_SIZE,
        words.len() == word_count(len),
        reads_match_memory(mem, words),
    ensures
        read_bytes(len, words) == mem.take(len as int),
{
    lemma_words_bytes_are_memory(mem, words);
    assert(8 * words.len() >= len);
    if 8 * words.len() > len {
        assert(mem.take(8 * words.len() as int).take(len as int) =~= mem.take(len as int));
    } else {
        assert(mem.take(8 * words.len() as int) =~= mem.take(len as int));
    }
}

/// `r` lower-cases to `target`. For the all-ASCII targets used here, which
/// hold no `k`, this is what `to_lowercase` gives: no other character
/// lower-cases to an ASCII letter of theirs.
pub open spec fn lowercase_is(r: Seq<char>, target: Seq<char>) -> bool {
    r.len() == target.len() && forall|i: int| 0 <= i < r.len() ==> ascii_lower(#[trigger] r[i])
        == target[i] as u32
}

/// A memory-region tag of a signature admits a mapping: "executable" admits
/// executable mappings, "writable" writable ones, any other tag all.
pub open spec fn tag_admits(tag: Seq<char>, executable: bool, writable: bool) -> bool {
    if lowercase_is(tag, "executable"@) {
        executable
    } else if lowercase_is(tag, "writable"@) {
        writable
    } else {
        true
    }
}

/// A signature is searched for in a mapping when one of its tags admits it.
pub open spec fn signature_admits(tags: Seq<String>, executable: bool, writable: bool) -> bool {
    exists|i: int| 0 <= i < tags.len() && tag_admits(#[trigger] tags[i]@, executable, writable)
}

fn lowercase_equals(r: &Vec<char>, target: &str) -> (b: bool)
    ensures
        b == lowercase_is(r@, target@),
{
    let t = chars_of(target);
    if r.len() != t.len() {
        return false;
    }
    let mut i: usize = 0;
    while i < r.len()
        invariant
            r@.len() == t@.len(),
            t@ == target@,
            0 <= i <= r@.len(),
            forall|m: int| 0 <= m < i ==> ascii_lower(#[trigger] r@[m]) == t@[m] as u32,
        decreases r@.len() - i,
    {
        let c: u32 = r[i] as u32;
        let l: u32 = if 65 <= c && c <= 90 {
            c + 32
        } else {
            c
        };
        if l != t[i] as u32 {
            return false;
        }
        i = i + 1;
    }
    true
}

/// Whether the tag `tag` admits a mapping with these permissions.
pub fn region_tag_admits(tag: &String, executable: bool, writable: bool) -> (b: bool)
    ensures
        b == tag_admits(tag@, executable, writable),
{
    let cs = chars_of(tag.as_str());
    if lowercase_equals(&cs, "executable") {
        executable
    } else if lowercase_equals(&cs, "writable") {
        writable
    } else {
        true
    }
}

/// Whether signature `sig` is searched for in a mapping with these permissions.
pub fn should_scan(sig: &CheatSignature, executable: bool, writable: bool) -> (b: bool)
    ensures
        b == signature_admits(sig.memory_regions@, executable, writable),
{
    let mut i: usize = 0;
    while i < sig.memory_regions.len()
        invariant
            0 <= i <= sig.memory_regions@.len(),
            forall|k: int|
                0 <= k < i ==> !tag_admits(
                    #[trigger] sig.memory_regions@[k]@,
                    executable,
                    writable,
                ),
        decreases sig.memory_regions@.len() - i,
    {
        if region_tag_admits(&sig.memory_regions[i], executable, writable) {
            return true;
        }
        i = i + 1;
    }
    false
}

/// A mapping is scanned when it is non-empty and at most `MAX_REGION_SIZE` long.
pub open spec fn region_scanned(r: MemoryRegion) -> bool {
    0 < r.end - r.start <= MAX_REGION_SIZE
}

/// The search planned for one (mapping, signature) pair, as
/// (signature number, start, length, pattern).
pub type JobView = (usize, usize, usize, Seq<Option<u8>>);

/// The searches for mapping `r` and the first `n` signatures, in order.
pub open spec fn region_jobs(r: MemoryRegion, sigs: Seq<CheatSignature>, n: nat) -> Seq<JobView>
    decreases n,
{
    if n == 0 {
        Seq::empty()
    } else {
        let sig = sigs[n - 1];
        let p = pattern_of(words(sig.pattern@));
        region_jobs(r, sigs, (n - 1) as nat) + if signature_admits(
            sig.memory_regions@,
            r.executable,
            r.writable,
        ) && p.len() > 0 {
            seq![((n - 1) as usize, r.start, (r.end - r.start) as usize, p)]
        } else {
            Seq::<JobView>::empty()
        }
    }
}

/// All searches of a scan: mapping by mapping, and within a mapping
/// signature by signature, skipping mappings that are not scanned,
/// signatures whose tags do not admit the mapping, and empty patterns.
pub open spec fn scan_plan(regions: Seq<MemoryRegion>, sigs: Seq<CheatSignature>) -> Seq<JobView>
    decreases regions.len(),
{
    if regions.len() == 0 {
        Seq::empty()
    } else {
        let r = regions.last();
        scan_plan(regions.drop_last(), sigs) + if region_scanned(r) {
            region_jobs(r, sigs, sigs.len())
        } else {
            Seq::<JobView>::empty()
        }
    }
}

/// A job as its view.
pub open spec fn job_view(j: ScanJob) -> JobView {
    (j.signature, j.start, j.len, j.pattern@)
}

/// The searches to make in a process with mappings `regions`, for the
/// signatures `sigs`.
pub fn plan_scan(regions: &Vec<MemoryRegion>, sigs: &Vec<CheatSignature>) -> (jobs: Vec<ScanJob>)
    requires
        forall|i: int| 0 <= i < regions@.len() ==> #[trigger] regions@[i].start <= regions@[i].end,
    ensures
        jobs@.map_values(|j: ScanJob| job_view(j)) == scan_plan(regions@, sigs@),
{
    let mut jobs: Vec<ScanJob> = Vec::new();
    let mut i: usize = 0;
    while i < regions.len()
        invariant
            0 <= i <= regions@.len(),
            forall|k: int| 0 <= k < regions@.len() ==> #[trigger] regions@[k].start <= regions@[k].end,
            jobs@.map_values(|j: ScanJob| job_view(j)) == scan_plan(regions@.take(i as int), sigs@),
        decreases regions@.len() - i,
    {
        let r: MemoryRegion = regions[i];
        let ghost before = jobs@.map_values(|j: ScanJob| job_view(j));
        let size: usize = r.end - r.start;
        proof {
            assert(regions@.take(i + 1).drop_last() =~= regions@.take(i as int));
            assert(regions@.take(i + 1).last() == r);
        }
        if size == 0 || size > MAX_REGION_SIZE {
            assert(jobs@.map_values(|j: ScanJob| job_view(j)) =~= scan_plan(
                regions@.take(i + 1),
                sigs@,
            ));
        } else {
            let mut s: usize = 0;
            while s < sigs.len()
                invariant
                    0 <= s <= sigs@.len(),
                    size == r.end - r.start,
                    jobs@.map_values(|j: ScanJob| job_view(j)) == before + region_jobs(
                        r,
                        sigs@,
                        s as nat,
                    ),
                decreases sigs@.len() - s,
            {
                let ghost mid = jobs@.map_values(|j: ScanJob| job_view(j));
                let sig = &sigs[s];
                if should_scan(sig, r.executable, r.writable) {
                    let pattern = parse_pattern(sig.pattern.as_str());
                    if pattern.len() > 0 {
                        let job = ScanJob { signature: s, start: r.start, len: size, pattern };
                        jobs.push(job);
                        assert(jobs@.map_values(|j: ScanJob| job_view(j)) =~= mid.push(
                            job_view(job),
                        ));
                    }
                }
                assert(jobs@.map_values(|j: ScanJob| job_view(j)) =~= before + region_jobs(
                    r,
                    sigs@,
                    (s + 1) as nat,
                ));
                s = s + 1;
            }
            assert(jobs@.map_values(|j: ScanJob| job_view(j)) =~= scan_plan(
                regions@.take(i + 1),
                sigs@,
            ));
        }
        i = i + 1;
    }
    assert(regions@.take(regions@.len() as int) =~= regions@);
    jobs
}


/// A signature is searched in a mapping as soon as one of its tags admits
/// it, and only then: adding tags never removes a mapping.
pub proof fn lemma_any_tag_admits(tags: Seq<String>, i: int, executable: bool, writable: bool)
    requires
        0 <= i < tags.len(),
        tag_admits(tags[i]@, executable, writable),
    ensures
        signature_admits(tags, executable, writable),
        forall|t: String| signature_admits(#[trigger] tags.push(t), executable, writable),
{
    assert forall|t: String| signature_admits(#[trigger] tags.push(t), executable, writable) by {
        assert(tags.push(t)[i] == tags[i]);
    }
}

/// A signature with no tag that admits a mapping is not searched in it.
pub proof fn lemma_no_tag_admits(tags: Seq<String>, executable: bool, writable: bool)
    requires
        forall|i: int| 0 <= i < tags.len() ==> !tag_admits(#[trigger] tags[i]@, executable, writable),
    ensures
        !signature_admits(tags, executable, writable),
{
}

/// What each tag admits: "executable" (any ASCII case) exactly the
/// executable mappings, "writable" exactly the writable ones, and a tag of
/// any other length every mapping.
pub proof fn lemma_tag_meaning(tag: Seq<char>, executable: bool, writable: bool)
    ensures
        tag == "executable"@ ==> (tag_admits(tag, executable, writable) == executable),
        tag == "EXECUTABLE"@ ==> (tag_admits(tag, executable, writable) == executable),
        tag == "writable"@ ==> (tag_admits(tag, executable, writable) == writable),
        tag == "WRITABLE"@ ==> (tag_admits(tag, executable, writable) == writable),
        tag.len() != 8 && tag.len() != 10 ==> tag_admits(tag, executable, writable),
{
    reveal_strlit("executable");
    reveal_strlit("EXECUTABLE");
    reveal_strlit("writable");
    reveal_strlit("WRITABLE");
    if tag == "executable"@ || tag == "EXECUTABLE"@ {
        assert(lowercase_is(tag, "executable"@));
    }
    if tag == "writable"@ || tag == "WRITABLE"@ {
        assert(!lowercase_is(tag, "executable"@));
        assert(lowercase_is(tag, "writable"@));
    }
}

/// Whether a mapping is scanned depends on its size alone, never on its
/// permissions: it is scanned exactly when it is non-empty and at most
/// `MAX_REGION_SIZE` bytes long.
pub proof fn lemma_scanned_by_size_alone(r: MemoryRegion, executable: bool, writable: bool)
    ensures
        region_scanned(r) <==> 0 < r.end - r.start <= MAX_REGION_SIZE,
        region_scanned(r) == region_scanned(
            MemoryRegion { start: r.start, end: r.end, executable, writable },
        ),
{
}

proof fn lemma_region_jobs_has(r: MemoryRegion, sigs: Seq<CheatSignature>, n: nat, i: int)
    requires
        0 <= i < n <= sigs.len(),
        sigs.len() <= usize::MAX,
        r.start <= r.end,
        signature_admits(sigs[i].memory_regions@, r.executable, r.writable),
        pattern_of(words(sigs[i].pattern@)).len() > 0,
    ensures
        region_jobs(r, sigs, n).contains(
            (i as usize, r.start, (r.end - r.start) as usize, pattern_of(words(sigs[i].pattern@))),
        ),
    decreases n,
{
    let job = (i as usize, r.start, (r.end - r.start) as usize, pattern_of(words(sigs[i].pattern@)));
    let prev = region_jobs(r, sigs, (n - 1) as nat);
    let all = region_jobs(r, sigs, n);
    if i < n - 1 {
        lemma_region_jobs_has(r, sigs, (n - 1) as nat, i);
        let k = choose|k: int| 0 <= k < prev.len() && prev[k] == job;
        assert(all[k] == prev[k]);
    } else {
        assert(((n - 1) as usize) as int == n - 1);
        assert(all[prev.len() as int] == job);
    }
}

/// Every mapping of allowed size is searched for every signature with a
/// non-empty pattern whose tags admit it, whatever the mapping's
/// permissions otherwise: the plan holds that search.
pub proof fn lemma_plan_includes(regions: Seq<MemoryRegion>, sigs: Seq<CheatSignature>, q: int, i: int)
    requires
        0 <= q < regions.len(),
        0 <= i < sigs.len(),
        sigs.len() <= usize::MAX,
        regions[q].start <= regions[q].end,
        0 < regions[q].end - regions[q].start <= MAX_REGION_SIZE,
        signature_admits(sigs[i].memory_regions@, regions[q].executable, regions[q].writable),
        pattern_of(words(sigs[i].pattern@)).len() > 0,
    ensures
        scan_plan(regions, sigs).contains(
            (
                i as usize,
                regions[q].start,
                (regions[q].end - regions[q].start) as usize,
                pattern_of(words(sigs[i].pattern@)),
            ),
        ),
    decreases regions.len(),
{
    let r = regions[q];
    let job = (i as usize, r.start, (r.end - r.start) as usize, pattern_of(words(sigs[i].pattern@)));
    let rs = regions.drop_last();
    let prev = scan_plan(rs, sigs);
    let all = scan_plan(regions, sigs);
    if q < regions.len() - 1 {
        assert(rs[q] == r);
        lemma_plan_includes(rs, sigs, q, i);
        let k = choose|k: int| 0 <= k < prev.len() && prev[k] == job;
        assert(all[k] == prev[k]);
    } else {
        assert(regions.last() == r);
        lemma_region_jobs_has(r, sigs, sigs.len(), i);
        let rj = region_jobs(r, sigs, sigs.len());
        let k = choose|k: int| 0 <= k < rj.len() && rj[k] == job;
        assert(all[prev.len() + k] == rj[k]);
    }
}

} // verus!
