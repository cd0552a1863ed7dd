//! The record that the eBPF probe emits for each watched syscall, how it is
//! read out of a perf-buffer sample, and its printable parts.
use vstd::prelude::*;
use vstd::utf8::{decode_utf8, valid_utf8};
use crate::text::{lemma_run_len_exact, run_len};

verus! {

/// Size of one event record in a perf-buffer sample (C layout, no padding).
pub const EVENT_SIZE: usize = 288;

/// One syscall observed by the eBPF probe (C layout: `pid` at 0,
/// `syscall_type` at 4, `timestamp_ns` at 8, `filename` at 16, `comm` at 272).
#[derive(Debug, Clone, Copy)]
pub struct SuspiciousEvent {
    pub pid: u32,
    pub syscall_type: u32,
    pub timestamp_ns: u64,
    pub filename: [u8; 256],
    pub comm: [u8; 16],
}

/// A byte that is not zero.
pub open spec fn non_zero(b: u8) -> bool {
    b != 0
}

/// Position of the first zero byte of `s`, or its length when there is none.
pub open spec fn nul_pos(s: Seq<u8>) -> nat {
    run_len(s, |b: u8| non_zero(b))
}

/// `s` up to (not including) its first zero byte.
pub open spec fn until_nul(s: Seq<u8>) -> Seq<u8> {
    s.take(nul_pos(s) as int)
}

/// What `String::from_utf8_lossy` gives for `bytes`.
pub uninterp spec fn utf8_lossy(bytes: Seq<u8>) -> Seq<char>;

/// Calls `String::from_utf8_lossy`. Claimed: the result is a function of
/// `bytes` alone, and bytes that are valid UTF-8 decode to exactly the
/// characters they encode (the documentation: a valid slice comes back as
/// the same text). What replaces an invalid sequence is not stated.
#[verifier::external_body]
fn lossy_string(bytes: &[u8]) -> (s: String)
    ensures
        s@ == utf8_lossy(bytes@),
        valid_utf8(bytes@) ==> s@ == decode_utf8(bytes@),
{
    String::from_utf8_lossy(bytes).into_owned()
}

/// The bytes of `s` before its first zero byte.
fn bytes_until_nul(s: &[u8]) -> (out: Vec<u8>)
    ensures
        out@ == until_nul(s@),
{
    let mut out: Vec<u8> = Vec::new();
    let mut i: usize = 0;
    while i < s.len() && s[i] != 0
        invariant
            0 <= i <= s@.len(),
            out@ == s@.take(i as int),
            forall|m: int| 0 <= m < i ==> #[trigger] s@[m] != 0,
        decreases s@.len() - i,
    {
        out.push(s[i]);
        assert(out@ =~= s@.take(i + 1));
        i = i + 1;
    }
    proof {
        lemma_run_len_exact(s@, |b: u8| non_zero(b), i as int);
    }
    out
}

/// The name the probe gives each syscall number.
pub open spec fn syscall_name_of(syscall_type: u32) -> &'static str {
    if syscall_type == 1 {
        "openat"
    } else if syscall_type == 2 {
        "execve"
    } else if syscall_type == 3 {
        "ptrace"
    } else if syscall_type == 4 {
        "clone"
    } else {
        "unknown"
    }
}

/// Little-endian value of the `n` bytes of `s` from `off` on.
pub open spec fn le_value(s: Seq<u8>, off: int, n: nat) -> nat
    decreases n,
{
    if n == 0 {
        0
    } else {
        s[off] as nat + 256 * le_value(s, off + 1, (n - 1) as nat)
    }
}

fn le_u32(b: &[u8], off: usize) -> (v: u32)
    requires
        off + 4 <= b@.len(),
    ensures
        v as nat == le_value(b@, off as int, 4),
{
    proof {
        reveal_with_fuel(le_value, 5);
    }
    b[off] as u32 + 256 * (b[off + 1] as u32 + 256 * (b[off + 2] as u32 + 256 * (b[off + 3] as u32)))
}

fn le_u64(b: &[u8], off: usize) -> (v: u64)
    requires
        off + 8 <= b@.len(),
    ensures
        v as nat == le_value(b@, off as int, 8),
{
    proof {
        reveal_with_fuel(le_value, 9);
    }
    b[off] as u64 + 256 * (b[off + 1] as u64 + 256 * (b[off + 2] as u64 + 256 * (b[off + 3] as u64
        + 256 * (b[off + 4] as u64 + 256 * (b[off + 5] as u64 + 256 * (b[off + 6] as u64 + 256 * (
    b[off + 7] as u64)))))))
}

impl SuspiciousEvent {
    /// Reads an event out of a perf-buffer sample; a sample shorter than a
    /// record gives `None` (the event loop skips it).
    pub fn from_bytes(bytes: &[u8]) -> (r: Option<SuspiciousEvent>)
        ensures
            r is None <==> bytes@.len() < EVENT_SIZE,
            r matches Some(e) ==> {
                &&& e.pid as nat == le_value(bytes@, 0, 4)
                &&& e.syscall_type as nat == le_value(bytes@, 4, 4)
                &&& e.timestamp_ns as nat == le_value(bytes@, 8, 8)
                &&& e.filename@ == bytes@.subrange(16, 272)
                &&& e.comm@ == bytes@.subrange(272, 288)
            },
    {
        if bytes.len() < EVENT_SIZE {
            return None;
        }
        let pid: u32 = le_u32(bytes, 0);
        let syscall_type: u32 = le_u32(bytes, 4);
        let timestamp_ns: u64 = le_u64(bytes, 8);
        let mut filename: [u8; 256] = [0u8; 256];
        let mut i: usize = 0;
        while i < 256
            invariant
                bytes@.len() >= EVENT_SIZE,
                0 <= i <= 256,
                forall|m: int| 0 <= m < i ==> #[trigger] filename@[m] == bytes@[16 + m],
            decreases 256 - i,
        {
            filename[i] = bytes[16 + i];
            i = i + 1;
        }
        let mut comm: [u8; 16] = [0u8; 16];
        let mut j: usize = 0;
        while j < 16
            invariant
                bytes@.len() >= EVENT_SIZE,
                0 <= j <= 16,
                forall|m: int| 0 <= m < j ==> #[trigger] comm@[m] == bytes@[272 + m],
            decreases 16 - j,
        {
            comm[j] = bytes[272 + j];
            j = j + 1;
        }
        assert(filename@ =~= bytes@.subrange(16, 272));
        assert(comm@ =~= bytes@.subrange(272, 288));
        Some(SuspiciousEvent { pid, syscall_type, timestamp_ns, filename, comm })
    }

    /// The file name, up to its first zero byte, decoded as UTF-8 with
    /// invalid sequences replaced.
    pub fn filename_str(&self) -> (s: String)
        ensures
            s@ == utf8_lossy(until_nul(self.filename@)),
            valid_utf8(until_nul(self.filename@)) ==> s@ == decode_utf8(until_nul(self.filename@)),
    {
        let b = bytes_until_nul(self.filename.as_slice());
        lossy_string(b.as_slice())
    }

    /// The command name, up to its first zero byte, decoded as UTF-8 with
    /// invalid sequences replaced.
    pub fn comm_str(&self) -> (s: String)
        ensures
            s@ == utf8_lossy(until_nul(self.comm@)),
            valid_utf8(until_nul(self.comm@)) ==> s@ == decode_utf8(until_nul(self.comm@)),
    {
        let b = bytes_until_nul(self.comm.as_slice());
        lossy_string(b.as_slice())
    }

    /// The name of the syscall: "openat", "execve", "ptrace", "clone" for
    /// 1 to 4, "unknown" otherwise.
    pub fn syscall_name(&self) -> (name: &'static str)
        ensures
            name == syscall_name_of(self.syscall_type),
    {
        if self.syscall_type == 1 {
            "openat"
        } else if self.syscall_type == 2 {
            "execve"
        } else if self.syscall_type == 3 {
            "ptrace"
        } else if self.syscall_type == 4 {
            "clone"
        } else {
            "unknown"
        }
    }
}

} // verus!
