//! Hardware id: the SHA-256 of the machine's product uuid and machine id,
//! each with surrounding whitespace removed, in lower-case hex.
use vstd::prelude::*;
use crate::text::{chars_of, hex_lower, hex_lower_string, is_ws, is_ws_char, lemma_run_len_exact, run_len};

verus! {

/// What SHA-256 gives for `data`.
pub uninterp spec fn sha256(data: Seq<u8>) -> Seq<u8>;

/// Calls `sha2::Sha256::digest`. Claimed: the result is the SHA-256 digest of
/// `data` (a function of `data` alone) and is 32 bytes long, the output size
/// of `Sha256`.
#[verifier::external_body]
fn sha256_digest(data: &[u8]) -> (out: Vec<u8>)
    ensures
        out@ == sha256(data@),
        out@.len() == 32,
{
    <sha2::Sha256 as sha2::Digest>::digest(data).to_vec()
}

/// Number of whitespace characters at the front of `s`.
pub open spec fn leading_ws(s: Seq<char>) -> nat {
    run_len(s, |c: char| is_ws(c))
}

/// Number of whitespace characters at the back of `s`.
pub open spec fn trailing_ws(s: Seq<char>) -> nat
    decreases s.len(),
{
    if s.len() > 0 && is_ws(s.last()) {
        1 + trailing_ws(s.drop_last())
    } else {
        0
    }
}

/// `s` without leading and trailing whitespace (`str::trim`).
pub open spec fn trim(s: Seq<char>) -> Seq<char> {
    let a = leading_ws(s);
    if a == s.len() {
        seq![]
    } else {
        s.subrange(a as int, s.len() - trailing_ws(s))
    }
}

proof fn lemma_trailing_ws(s: Seq<char>, k: int)
    requires
        0 <= k <= s.len(),
        forall|m: int| s.len() - k <= m < s.len() ==> is_ws(#[trigger] s[m]),
        k == s.len() || !is_ws(s[s.len() - k - 1]),
    ensures
        trailing_ws(s) == k,
    decreases k,
{
    if k > 0 {
        let t = s.drop_last();
        assert forall|m: int| t.len() - (k - 1) <= m < t.len() implies is_ws(#[trigger] t[m]) by {
            assert(t[m] == s[m]);
        }
        if k < s.len() {
            assert(t[t.len() - (k - 1) - 1] == s[s.len() - k - 1]);
        }
        lemma_trailing_ws(t, k - 1);
    }
}

/// The UTF-8 bytes of `s` with surrounding whitespace removed.
fn trimmed_bytes(s: &str) -> (out: Vec<u8>)
    ensures
        out@ == vstd::utf8::encode_utf8(trim(s@)),
{
    let cs = chars_of(s);
    let n: usize = cs.len();
    let mut a: usize = 0;
    while a < n && is_ws_char(cs[a])
        invariant
            n == cs@.len(),
            0 <= a <= n,
            forall|m: int| 0 <= m < a ==> is_ws(#[trigger] cs@[m]),
        decreases n - a,
    {
        a = a + 1;
    }
    proof {
        lemma_run_len_exact(cs@, |c: char| is_ws(c), a as int);
    }
    if a == n {
        assert(trim(s@) =~= Seq::<char>::empty());
        return Vec::new();
    }
    let mut b: usize = 0;
    while b < n && is_ws_char(cs[n - 1 - b])
        invariant
            n == cs@.len(),
            0 <= b <= n,
            forall|m: int| n - b <= m < n ==> is_ws(#[trigger] cs@[m]),
        decreases n - b,
    {
        b = b + 1;
    }
    proof {
        lemma_trailing_ws(cs@, b as int);
    }
    let t = s.substring_char(a, n - b);
    let bytes = t.as_bytes();
    let mut out: Vec<u8> = Vec::new();
    let mut i: usize = 0;
    while i < bytes.len()
        invariant
            0 <= i <= bytes@.len(),
            out@ == bytes@.take(i as int),
        decreases bytes@.len() - i,
    {
        out.push(bytes[i]);
        assert(out@ =~= bytes@.take(i + 1));
        i = i + 1;
    }
    assert(out@ =~= bytes@);
    out
}

/// The characters of an optional text.
pub open spec fn opt_view(o: Option<&str>) -> Option<Seq<char>> {
    match o {
        Some(s) => Some(s@),
        None => None,
    }
}

/// The bytes hashed for a hardware id: the trimmed product uuid (when it
/// could be read) followed by the trimmed machine id (when it could be read).
pub open spec fn hwid_input(uuid: Option<Seq<char>>, machine_id: Option<Seq<char>>) -> Seq<u8> {
    let a = match uuid {
        Some(u) => vstd::utf8::encode_utf8(trim(u)),
        None => Seq::empty(),
    };
    let b = match machine_id {
        Some(m) => vstd::utf8::encode_utf8(trim(m)),
        None => Seq::empty(),
    };
    a + b
}

/// Hardware id from the contents of the product uuid and machine id files
/// (`None` where a file could not be read): SHA-256 of the trimmed contents
/// in order, rendered as 64 lower-case hex digits.
pub fn generate_hwid(uuid: Option<&str>, machine_id: Option<&str>) -> (id: String)
    ensures
        id@ == hex_lower(sha256(hwid_input(opt_view(uuid), opt_view(machine_id)))),
        id@.len() == 64,
{
    let mut data: Vec<u8> = Vec::new();
    if let Some(u) = uuid {
        let mut b = trimmed_bytes(u);
        data.append(&mut b);
    }
    if let Some(m) = machine_id {
        let mut b = trimmed_bytes(m);
        data.append(&mut b);
    }
    assert(data@ =~= hwid_input(opt_view(uuid), opt_view(machine_id)));
    let digest = sha256_digest(data.as_slice());
    let id = hex_lower_string(digest.as_slice());
    proof {
        lemma_hex_lower_len(digest@);
    }
    id
}

pub proof fn lemma_hex_lower_len(bytes: Seq<u8>)
    ensures
        hex_lower(bytes).len() == 2 * bytes.len(),
    decreases bytes.len(),
{
    if bytes.len() > 0 {
        lemma_hex_lower_len(bytes.drop_last());
    }
}

} // verus!
