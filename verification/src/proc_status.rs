//! Screening of loaded kernel modules: the module list is read from the
//! kernel's module table, names outside a list of well-known modules are
//! candidates, and candidates without a `.text` section in sysfs count as
//! suspicious. The file reads are the caller's; the rules are here.
use vstd::prelude::*;
use crate::text::{
    chars_of, concat_str, decimal, decimal_string, is_word_char, is_ws, is_ws_char, lemma_run_len_bound, lemma_run_len_exact, run_len,
    string_from_chars, words,
};

verus! {

/// Outcome of the kernel-module screening.
#[derive(Debug)]
pub enum KernelStatus {
    Clean,
    Suspicious(String),
    Error(String),
}

/// The modules taken as known and harmless.
pub open spec fn is_known_module(name: Seq<char>) -> bool {
    ||| name == "ext4"@
    ||| name == "xfs"@
    ||| name == "btrfs"@
    ||| name == "nvidia"@
    ||| name == "amdgpu"@
    ||| name == "i915"@
    ||| name == "usbcore"@
    ||| name == "bluetooth"@
    ||| name == "cfg80211"@
    ||| name == "mac80211"@
    ||| name == "snd_hda_intel"@
    ||| name == "intel_rapl"@
    ||| name == "kvm"@
    ||| name == "kvm_intel"@
}

/// Whether `name` is one of the known modules.
pub fn known_module(name: &String) -> (b: bool)
    ensures
        b == is_known_module(name@),
{
    *name == "ext4".to_owned() || *name == "xfs".to_owned() || *name == "btrfs".to_owned() || *name
        == "nvidia".to_owned() || *name == "amdgpu".to_owned() || *name == "i915".to_owned()
        || *name == "usbcore".to_owned() || *name == "bluetooth".to_owned() || *name
        == "cfg80211".to_owned() || *name == "mac80211".to_owned() || *name
        == "snd_hda_intel".to_owned() || *name == "intel_rapl".to_owned() || *name
        == "kvm".to_owned() || *name == "kvm_intel".to_owned()
}

/// A character other than a newline.
pub open spec fn not_newline(c: char) -> bool {
    c != '\n'
}

/// Length of the first line of `s` (up to its first newline, or all of it).
pub open spec fn line_len(s: Seq<char>) -> nat {
    run_len(s, |c: char| not_newline(c))
}

/// The module name a line of the module table starts with: its first
/// whitespace-separated word, if it has one.
pub open spec fn first_word(line: Seq<char>) -> Option<Seq<char>> {
    if words(line).len() > 0 {
        Some(words(line)[0])
    } else {
        None
    }
}

/// Module names in the module table `s`, line by line, that are not known
/// modules (the candidates whose sysfs entry is then looked at).
pub open spec fn candidate_modules(s: Seq<char>) -> Seq<Seq<char>>
    decreases s.len(),
{
    proof {
        lemma_run_len_bound(s, |c: char| not_newline(c));
    }
    let k = line_len(s);
    let here = match first_word(s.take(k as int)) {
        Some(w) => if is_known_module(w) {
            Seq::<Seq<char>>::empty()
        } else {
            seq![w]
        },
        None => Seq::<Seq<char>>::empty(),
    };
    if k < s.len() {
        here + candidate_modules(s.skip(k + 1int))
    } else {
        here
    }
}

proof fn lemma_words_skip_ws(s: Seq<char>, a: int)
    requires
        0 <= a <= s.len(),
        forall|m: int| 0 <= m < a ==> is_ws(#[trigger] s[m]),
    ensures
        words(s) == words(s.skip(a)),
    decreases a,
{
    if a > 0 {
        let t = s.drop_first();
        assert forall|m: int| 0 <= m < a - 1 implies is_ws(#[trigger] t[m]) by {
            assert(t[m] == s[m + 1]);
        }
        lemma_words_skip_ws(t, a - 1);
        assert(t.skip(a - 1) =~= s.skip(a));
        assert(is_ws(s[0]));
        assert(words(s) == words(t));
    } else {
        assert(s.skip(0) =~= s);
    }
}

/// First word of the line `cs[lo..hi]`.
fn first_word_of(cs: &Vec<char>, lo: usize, hi: usize) -> (r: Option<Vec<char>>)
    requires
        lo <= hi <= cs@.len(),
    ensures
        match first_word(cs@.subrange(lo as int, hi as int)) {
            Some(w) => r matches Some(v) && v@ == w,
            None => r is None,
        },
{
    let ghost line = cs@.subrange(lo as int, hi as int);
    let mut j: usize = lo;
    while j < hi && is_ws_char(cs[j])
        invariant
            lo <= j <= hi <= cs@.len(),
            forall|m: int| lo <= m < j ==> is_ws(#[trigger] cs@[m]),
        decreases hi - j,
    {
        j = j + 1;
    }
    proof {
        assert forall|m: int| 0 <= m < j - lo implies is_ws(#[trigger] line[m]) by {
            assert(line[m] == cs@[lo + m]);
        }
        lemma_words_skip_ws(line, j - lo);
    }
    let ghost rest = line.skip(j - lo);
    if j == hi {
        assert(rest.len() == 0);
        return None;
    }
    let mut t: usize = j;
    let mut w: Vec<char> = Vec::new();
    while t < hi && !is_ws_char(cs[t])
        invariant
            lo <= j <= t <= hi <= cs@.len(),
            forall|m: int| j <= m < t ==> !is_ws(#[trigger] cs@[m]),
            w@ == cs@.subrange(j as int, t as int),
        decreases hi - t,
    {
        w.push(cs[t]);
        assert(w@ =~= cs@.subrange(j as int, t + 1));
        t = t + 1;
    }
    proof {
        assert(rest =~= cs@.subrange(j as int, hi as int));
        assert forall|m: int| 0 <= m < t - j implies !is_ws(#[trigger] rest[m]) by {
            assert(rest[m] == cs@[j + m]);
        }
        if t < hi {
            assert(rest[t - j] == cs@[t as int]);
        }
        lemma_run_len_exact(rest, |c: char| is_word_char(c), t - j);
        assert(!is_ws(rest[0]));
        assert(rest.take(t - j) =~= w@);
    }
    Some(w)
}

/// The candidate module names in the module table `content`, in order: the
/// first word of each line, unless it names a known module.
pub fn candidate_module_names(content: &str) -> (names: Vec<String>)
    ensures
        names@.map_values(|s: String| s@) == candidate_modules(content@),
{
    let cs = chars_of(content);
    let n: usize = cs.len();
    let mut out: Vec<String> = Vec::new();
    let mut i: usize = 0;
    let mut done: bool = false;
    assert(cs@.skip(0) =~= cs@);
    assert(out@.map_values(|s: String| s@) + candidate_modules(cs@) =~= candidate_modules(cs@));
    while !done
        invariant
            n == cs@.len(),
            0 <= i <= n,
            !done ==> out@.map_values(|s: String| s@) + candidate_modules(cs@.skip(i as int))
                == candidate_modules(cs@),
            done ==> out@.map_values(|s: String| s@) == candidate_modules(cs@),
        decreases n - i + if done {
            0int
        } else {
            1int
        },
    {
        let ghost rest = cs@.skip(i as int);
        let mut k: usize = i;
        while k < n && cs[k] != '\n'
            invariant
                i <= k <= n,
                n == cs@.len(),
                forall|m: int| i <= m < k ==> #[trigger] cs@[m] != '\n',
            decreases n - k,
        {
            k = k + 1;
        }
        proof {
            assert forall|m: int| 0 <= m < k - i implies #[trigger] rest[m] != '\n' by {
                assert(rest[m] == cs@[i + m]);
            }
            if k < n {
                assert(rest[k - i] == cs@[k as int]);
            }
            lemma_run_len_exact(rest, |c: char| not_newline(c), k - i);
            assert(rest.take(k - i) =~= cs@.subrange(i as int, k as int));
        }
        let ghost here: Seq<Seq<char>> = match first_word(cs@.subrange(i as int, k as int)) {
            Some(w) => if is_known_module(w) {
                Seq::<Seq<char>>::empty()
            } else {
                seq![w]
            },
            None => Seq::<Seq<char>>::empty(),
        };
        let ghost before = out@.map_values(|s: String| s@);
        match first_word_of(&cs, i, k) {
            Some(w) => {
                let name = string_from_chars(w.as_slice());
                if !known_module(&name) {
                    out.push(name);
                    assert(out@.map_values(|s: String| s@) =~= before + here);
                } else {
                    assert(here =~= Seq::<Seq<char>>::empty());
                    assert(before + here =~= before);
                }
            },
            None => {
                assert(before + here =~= before);
            },
        }
        if k < n {
            proof {
                assert(rest.skip(k - i + 1) =~= cs@.skip(k + 1));
                assert(candidate_modules(rest) == here + candidate_modules(cs@.skip(k + 1)));
                assert(before + (here + candidate_modules(cs@.skip(k + 1))) =~= (before + here)
                    + candidate_modules(cs@.skip(k + 1)));
            }
            i = k + 1;
        } else {
            proof {
                assert(candidate_modules(rest) == here);
            }
            i = k;
            done = true;
        }
    }
    proof {
        assert(cs@.skip(0) =~= cs@);
    }
    out
}

/// What `{:?}` prints for a list of strings.
pub uninterp spec fn debug_list(items: Seq<Seq<char>>) -> Seq<char>;

/// Calls `format!("{:?}", ..)` on a list of strings. Claimed: the text is a
/// function of the strings alone; its exact quoting and escaping is not stated.
#[verifier::external_body]
fn debug_list_string(items: &Vec<String>) -> (s: String)
    ensures
        s@ == debug_list(items@.map_values(|x: String| x@)),
{
    format!("{:?}", items)
}

/// The message reported for suspicious modules.
pub open spec fn suspicious_message(names: Seq<Seq<char>>) -> Seq<char> {
    "Detected "@ + decimal(names.len()) + " unsigned/hidden module(s): "@ + debug_list(names)
}

/// The screening outcome for the modules found suspicious: `Clean` when
/// there are none, else `Suspicious` with their number and list.
pub fn kernel_status(suspicious: &Vec<String>) -> (st: KernelStatus)
    ensures
        suspicious@.len() == 0 ==> st is Clean,
        suspicious@.len() > 0 ==> (st matches KernelStatus::Suspicious(m) && m@
            == suspicious_message(suspicious@.map_values(|x: String| x@))),
{
    if suspicious.len() == 0 {
        KernelStatus::Clean
    } else {
        let n = decimal_string(suspicious.len() as u64);
        let list = debug_list_string(suspicious);
        let a = concat_str("Detected ", n.as_str());
        let b = concat_str(a.as_str(), " unsigned/hidden module(s): ");
        let m = concat_str(b.as_str(), list.as_str());
        assert(suspicious@.map_values(|x: String| x@).len() == suspicious@.len());
        KernelStatus::Suspicious(m)
    }
}

/// The screening outcome when the module table could not be read.
pub fn read_failure(err: &str) -> (st: KernelStatus)
    ensures
        st matches KernelStatus::Error(m) && m@ == "Failed to read /proc/modules: "@ + err@,
{
    KernelStatus::Error(concat_str("Failed to read /proc/modules: ", err))
}


/// The known modules are exactly these fourteen names, compared whole: a
/// name that merely starts with one of them (such as "nvidia_drm") is not
/// known.
pub proof fn lemma_known_modules_exactly(name: Seq<char>)
    ensures
        is_known_module(name) <==> set![
            "ext4"@,
            "xfs"@,
            "btrfs"@,
            "nvidia"@,
            "amdgpu"@,
            "i915"@,
            "usbcore"@,
            "bluetooth"@,
            "cfg80211"@,
            "mac80211"@,
            "snd_hda_intel"@,
            "intel_rapl"@,
            "kvm"@,
            "kvm_intel"@,
        ].contains(name),
        is_known_module(name) ==> name.len() <= 13,
{
    reveal_strlit("ext4");
    reveal_strlit("xfs");
    reveal_strlit("btrfs");
    reveal_strlit("nvidia");
    reveal_strlit("amdgpu");
    reveal_strlit("i915");
    reveal_strlit("usbcore");
    reveal_strlit("bluetooth");
    reveal_strlit("cfg80211");
    reveal_strlit("mac80211");
    reveal_strlit("snd_hda_intel");
    reveal_strlit("intel_rapl");
    reveal_strlit("kvm");
    reveal_strlit("kvm_intel");
}

} // verus!
