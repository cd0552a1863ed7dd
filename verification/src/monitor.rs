//! The monitor's decisions: what a finished scan leads to, and what the
//! kernel-module screening leads to at start-up.
use vstd::prelude::*;
use crate::proc_status::KernelStatus;
use crate::pattern::{
    byte_matches, first_match, lemma_found_where_memory_matches, matches_at, no_match, pattern_of,
};
use crate::scan::{
    job_view, read_bytes, reads_match_memory, region_jobs, region_scanned, scan_plan, word_count,
    CheatSignature, FoundCheat, JobView, MemoryRegion, ScanJob, MAX_REGION_SIZE,
};
use crate::text::words;
use crate::text::concat_str;

verus! {

/// A found cheat as (name, address, severity).
pub open spec fn cheat_view(c: FoundCheat) -> (Seq<char>, usize, Seq<char>) {
    (c.name@, c.address, c.severity@)
}

/// The cheats that the searches `jobs` with outcomes `results` found: one
/// per search that found its pattern, in the order of the searches, named
/// after its signature, at the address found.
pub open spec fn found_cheats(
    sigs: Seq<CheatSignature>,
    jobs: Seq<ScanJob>,
    results: Seq<Option<usize>>,
) -> Seq<(Seq<char>, usize, Seq<char>)>
    decreases results.len(),
{
    if results.len() == 0 {
        Seq::empty()
    } else {
        let k = results.len() - 1;
        found_cheats(sigs, jobs, results.drop_last()) + match results[k] {
            Some(a) => seq![
                (sigs[jobs[k].signature as int].name@, a, sigs[jobs[k].signature as int].severity@),
            ],
            None => Seq::empty(),
        }
    }
}

/// The cheats that a scan found (see `found_cheats`).
pub fn findings(sigs: &Vec<CheatSignature>, jobs: &Vec<ScanJob>, results: &Vec<Option<usize>>) -> (found:
    Vec<FoundCheat>)
    requires
        jobs@.len() == results@.len(),
        forall|k: int| 0 <= k < jobs@.len() ==> #[trigger] jobs@[k].signature < sigs@.len(),
    ensures
        found@.map_values(|c: FoundCheat| cheat_view(c)) == found_cheats(sigs@, jobs@, results@),
{
    let mut found: Vec<FoundCheat> = Vec::new();
    let mut k: usize = 0;
    while k < jobs.len()
        invariant
            jobs@.len() == results@.len(),
            forall|m: int| 0 <= m < jobs@.len() ==> #[trigger] jobs@[m].signature < sigs@.len(),
            0 <= k <= jobs@.len(),
            found@.map_values(|c: FoundCheat| cheat_view(c)) == found_cheats(
                sigs@,
                jobs@,
                results@.take(k as int),
            ),
        decreases jobs@.len() - k,
    {
        let ghost pre = results@.take(k as int);
        let ghost post = results@.take(k + 1);
        let ghost before = found@.map_values(|c: FoundCheat| cheat_view(c));
        assert(post.drop_last() =~= pre);
        assert(post[k as int] == results@[k as int]);
        match results[k] {
            Some(address) => {
                let sig = &sigs[jobs[k].signature];
                let cheat = FoundCheat {
                    name: sig.name.clone(),
                    address,
                    severity: sig.severity.clone(),
                };
                found.push(cheat);
                assert(found@.map_values(|c: FoundCheat| cheat_view(c)) =~= before.push(
                    cheat_view(cheat),
                ));
            },
            None => {},
        }
        assert(found@.map_values(|c: FoundCheat| cheat_view(c)) =~= found_cheats(sigs@, jobs@, post));
        k = k + 1;
    }
    assert(results@.take(jobs@.len() as int) =~= results@);
    found
}

/// The reason a cheat found by the scan is reported with: "{name} detected".
pub fn detection_reason(name: &str) -> (reason: String)
    ensures
        reason@ == name@ + " detected"@,
{
    concat_str(name, " detected")
}

/// What the kernel-module screening means at start-up: suspicious modules
/// get the machine banned (the ban's reason is returned) and the monitor
/// stops; a clean system, or a screening that could not run, lets it go on.
pub fn kernel_ban_reason(status: &KernelStatus) -> (reason: Option<String>)
    ensures
        match status {
            KernelStatus::Suspicious(m) => reason matches Some(r) && r@ == "Kernel modülü şüpheli aktivite: "@ + m@,
            _ => reason is None,
        },
{
    match status {
        KernelStatus::Suspicious(m) => Some(concat_str("Kernel modülü şüpheli aktivite: ", m.as_str())),
        _ => None,
    }
}

/// Every search that a scan plans is over a non-empty mapping of at most
/// `MAX_REGION_SIZE` bytes, for a non-empty pattern: the one parsed from the
/// text of an existing signature.
pub open spec fn planned_job_ok(j: JobView, sigs: Seq<CheatSignature>) -> bool {
    &&& 0 < j.2 <= MAX_REGION_SIZE
    &&& j.3.len() > 0
    &&& j.0 < sigs.len()
    &&& j.3 == pattern_of(words(sigs[j.0 as int].pattern@))
}

proof fn lemma_region_jobs_ok(r: MemoryRegion, sigs: Seq<CheatSignature>, n: nat)
    requires
        region_scanned(r),
        r.start <= r.end,
        n <= sigs.len(),
        sigs.len() <= usize::MAX,
    ensures
        forall|k: int| 0 <= k < region_jobs(r, sigs, n).len() ==> planned_job_ok(
            #[trigger] region_jobs(r, sigs, n)[k],
            sigs,
        ),
    decreases n,
{
    if n > 0 {
        lemma_region_jobs_ok(r, sigs, (n - 1) as nat);
        let prev = region_jobs(r, sigs, (n - 1) as nat);
        let all = region_jobs(r, sigs, n);
        assert forall|k: int| 0 <= k < all.len() implies planned_job_ok(#[trigger] all[k], sigs) by {
            if k < prev.len() {
                assert(all[k] == prev[k]);
            } else {
                assert(((n - 1) as usize) as int == n - 1);
            }
        }
    }
}

proof fn lemma_plan_jobs_ok(regions: Seq<MemoryRegion>, sigs: Seq<CheatSignature>)
    requires
        sigs.len() <= usize::MAX,
        forall|i: int| 0 <= i < regions.len() ==> #[trigger] regions[i].start <= regions[i].end,
    ensures
        forall|k: int| 0 <= k < scan_plan(regions, sigs).len() ==> planned_job_ok(
            #[trigger] scan_plan(regions, sigs)[k],
            sigs,
        ),
    decreases regions.len(),
{
    if regions.len() > 0 {
        let rs = regions.drop_last();
        assert forall|i: int| 0 <= i < rs.len() implies #[trigger] rs[i].start <= rs[i].end by {
            assert(rs[i] == regions[i]);
        }
        lemma_plan_jobs_ok(rs, sigs);
        let r = regions.last();
        assert(r == regions[regions.len() - 1]);
        let prev = scan_plan(rs, sigs);
        let all = scan_plan(regions, sigs);
        if region_scanned(r) {
            lemma_region_jobs_ok(r, sigs, sigs.len());
        }
        assert forall|k: int| 0 <= k < all.len() implies planned_job_ok(#[trigger] all[k], sigs) by {
            if k < prev.len() {
                assert(all[k] == prev[k]);
            } else {
                assert(all[k] == region_jobs(r, sigs, sigs.len())[k - prev.len()]);
            }
        }
    }
}

/// What a search of one planned mapping gave, as the contract of
/// `search_wildcard_pattern_in_memory` says, from the word reads `words`.
pub open spec fn search_outcome(j: ScanJob, words: Seq<Option<i64>>, r: Option<usize>) -> bool {
    &&& (r is None <==> no_match(read_bytes(j.len, words), j.pattern@))
    &&& (r matches Some(a) ==> a >= j.start && first_match(
        read_bytes(j.len, words),
        j.pattern@,
        a - j.start,
    ))
}

/// The pattern `p` lies in the memory `mem` of a mapping of `len` bytes at
/// `start` at address `a`, and nowhere before it in the mapping.
pub open spec fn first_in_memory(mem: Seq<u8>, start: usize, len: usize, p: Seq<Option<u8>>, a: int) -> bool {
    &&& start <= a
    &&& a + p.len() <= start + len
    &&& forall|j: int| 0 <= j < p.len() ==> byte_matches(#[trigger] p[j], mem[a - start + j])
    &&& forall|b: int| 0 <= b < a - start ==> !#[trigger] matches_at(mem.take(len as int), p, b)
}

/// A whole scan, end to end: the searches are those `plan_scan` plans, and
/// each mapping's word reads all gave its memory. Then every search that
/// found its signature did so at the first address of the mapping where the
/// pattern lies in memory, and every search that found nothing was over a
/// mapping where the pattern lies nowhere. (`findings` then reports exactly
/// the searches that found something, in order, at those addresses.)
pub proof fn lemma_scan_finds_signatures_in_memory(
    regions: Seq<MemoryRegion>,
    sigs: Seq<CheatSignature>,
    jobs: Seq<ScanJob>,
    reads: Seq<Seq<Option<i64>>>,
    mems: Seq<Seq<u8>>,
    results: Seq<Option<usize>>,
)
    requires
        sigs.len() <= usize::MAX,
        forall|i: int| 0 <= i < regions.len() ==> #[trigger] regions[i].start <= regions[i].end,
        jobs.map_values(|j: ScanJob| job_view(j)) == scan_plan(regions, sigs),
        reads.len() == jobs.len(),
        mems.len() == jobs.len(),
        results.len() == jobs.len(),
        forall|k: int|
            0 <= k < jobs.len() ==> (#[trigger] reads[k]).len() == word_count(jobs[k].len)
                && reads_match_memory(mems[k], reads[k]),
        forall|k: int| 0 <= k < jobs.len() ==> search_outcome(jobs[k], reads[k], #[trigger] results[k]),
    ensures
        forall|k: int|
            0 <= k < jobs.len() ==> match #[trigger] results[k] {
                Some(a) => first_in_memory(mems[k], jobs[k].start, jobs[k].len, jobs[k].pattern@, a as int),
                None => forall|b: int| !matches_at(mems[k].take(jobs[k].len as int), jobs[k].pattern@, b),
            },
{
    lemma_plan_jobs_ok(regions, sigs);
    assert forall|k: int| 0 <= k < jobs.len() implies match #[trigger] results[k] {
        Some(a) => first_in_memory(mems[k], jobs[k].start, jobs[k].len, jobs[k].pattern@, a as int),
        None => forall|b: int| !matches_at(mems[k].take(jobs[k].len as int), jobs[k].pattern@, b),
    } by {
        let j = jobs[k];
        assert(jobs.map_values(|j: ScanJob| job_view(j))[k] == job_view(j));
        assert(planned_job_ok(scan_plan(regions, sigs)[k], sigs));
        assert(search_outcome(j, reads[k], results[k]));
        assert(reads[k].len() == word_count(j.len));
        match results[k] {
            Some(a) => {
                lemma_found_where_memory_matches(mems[k], j.start, j.len, reads[k], j.pattern@, a as int);
            },
            None => {
                lemma_found_where_memory_matches(mems[k], j.start, j.len, reads[k], j.pattern@, 0);
            },
        }
    }
}

} // verus!

