//! Cheat signatures as byte patterns with wildcards: how a signature's text
//! is parsed, and how a pattern is searched for in a block of memory.
use vstd::prelude::*;
use crate::scan::{assemble_read, lemma_read_bytes_are_memory, read_bytes, reads_match_memory, word_count, MAX_REGION_SIZE};
use crate::text::{ascii_lower, chars_of, is_word_char, is_ws, is_ws_char, lemma_run_len_bound, lemma_run_len_exact, words};

verus! {

/// Value of a hexadecimal digit (either case), `None` for any other character.
pub open spec fn hex_digit_value(c: char) -> Option<nat> {
    let v = c as u32;
    if 0x30 <= v <= 0x39 {
        Some((v - 0x30) as nat)
    } else if 0x61 <= v <= 0x66 {
        Some((v - 0x61 + 10) as nat)
    } else if 0x41 <= v <= 0x46 {
        Some((v - 0x41 + 10) as nat)
    } else {
        None
    }
}

/// Every character of `d` is a hexadecimal digit.
pub open spec fn all_hex(d: Seq<char>) -> bool {
    forall|i: int| 0 <= i < d.len() ==> (#[trigger] hex_digit_value(d[i])) is Some
}

/// The number that the hexadecimal digits `d` spell.
pub open spec fn hex_value(d: Seq<char>) -> nat
    decreases d.len(),
{
    if d.len() == 0 {
        0
    } else {
        hex_value(d.drop_last()) * 16 + hex_digit_value(d.last()).unwrap()
    }
}

/// The digits of a number's text: without one leading `+`.
pub open spec fn hex_digits(t: Seq<char>) -> Seq<char> {
    if t.len() > 0 && t[0] == '+' {
        t.drop_first()
    } else {
        t
    }
}

/// A byte written in hexadecimal, as `u8::from_str_radix(t, 16)` reads it:
/// an optional `+`, then one or more hex digits (leading zeros allowed)
/// whose value fits in a byte.
pub open spec fn parse_hex_byte(t: Seq<char>) -> Option<u8> {
    let d = hex_digits(t);
    if d.len() > 0 && all_hex(d) && hex_value(d) <= 255 {
        Some(hex_value(d) as u8)
    } else {
        None
    }
}

/// What one word of a signature contributes: `?` and `*` are wildcards,
/// a hex byte is that byte, anything else is dropped.
pub open spec fn token_entry(t: Seq<char>) -> Option<Option<u8>> {
    if t == seq!['?'] || t == seq!['*'] {
        Some(None)
    } else {
        match parse_hex_byte(t) {
            Some(b) => Some(Some(b)),
            None => None,
        }
    }
}

/// The pattern that a list of signature words stands for, in order.
pub open spec fn pattern_of(ws: Seq<Seq<char>>) -> Seq<Option<u8>>
    decreases ws.len(),
{
    if ws.len() == 0 {
        Seq::empty()
    } else {
        pattern_of(ws.drop_last()) + match token_entry(ws.last()) {
            Some(e) => seq![e],
            None => Seq::<Option<u8>>::empty(),
        }
    }
}

proof fn lemma_hex_value_monotone(d: Seq<char>, k: int)
    requires
        all_hex(d),
        0 <= k <= d.len(),
    ensures
        hex_value(d) >= hex_value(d.take(k)),
    decreases d.len(),
{
    if k < d.len() {
        let p = d.drop_last();
        assert(all_hex(p)) by {
            assert forall|i: int| 0 <= i < p.len() implies (#[trigger] hex_digit_value(p[i])) is Some by {
                assert(p[i] == d[i]);
                assert(hex_digit_value(d[i]) is Some);
            }
        }
        lemma_hex_value_monotone(p, k);
        assert(p.take(k) =~= d.take(k));
    } else {
        assert(d.take(k) =~= d);
    }
}

fn hex_digit(c: char) -> (r: Option<u32>)
    ensures
        match hex_digit_value(c) {
            Some(v) => r == Some(v as u32),
            None => r is None,
        },
{
    let v: u32 = c as u32;
    if 0x30 <= v && v <= 0x39 {
        Some(v - 0x30)
    } else if 0x61 <= v && v <= 0x66 {
        Some(v - 0x61 + 10)
    } else if 0x41 <= v && v <= 0x46 {
        Some(v - 0x41 + 10)
    } else {
        None
    }
}

/// What the word `cs[lo..hi]` contributes to a pattern.
fn parse_token(cs: &Vec<char>, lo: usize, hi: usize) -> (r: Option<Option<u8>>)
    requires
        lo < hi <= cs@.len(),
    ensures
        r == token_entry(cs@.subrange(lo as int, hi as int)),
{
    let ghost t = cs@.subrange(lo as int, hi as int);
    if hi - lo == 1 && (cs[lo] == '?' || cs[lo] == '*') {
        assert(t =~= seq![cs@[lo as int]]);
        return Some(None);
    }
    proof {
        if hi - lo == 1 {
            assert(t =~= seq![cs@[lo as int]]);
            assert(t != seq!['?']) by {
                assert(t[0] != '?');
            }
            assert(t != seq!['*']) by {
                assert(t[0] != '*');
            }
        } else {
            assert(t.len() != 1);
        }
    }
    let mut s: usize = lo;
    if cs[lo] == '+' {
        s = lo + 1;
    }
    let ghost d = hex_digits(t);
    assert(d =~= cs@.subrange(s as int, hi as int));
    if s == hi {
        return None;
    }
    let mut acc: u32 = 0;
    let mut k: usize = s;
    while k < hi
        invariant
            lo <= s <= k <= hi <= cs@.len(),
            t == cs@.subrange(lo as int, hi as int),
            t != seq!['?'] && t != seq!['*'],
            d == hex_digits(t),
            d == cs@.subrange(s as int, hi as int),
            acc == hex_value(d.take(k - s)),
            acc <= 255,
            all_hex(d.take(k - s)),
        decreases hi - k,
    {
        let ghost pre = d.take(k - s);
        let ghost nxt = d.take(k - s + 1);
        assert(nxt.drop_last() =~= pre);
        assert(nxt.last() == cs@[k as int]);
        match hex_digit(cs[k]) {
            None => {
                assert(!all_hex(d)) by {
                    assert(d[k - s] == cs@[k as int]);
                    assert(hex_digit_value(d[k - s]) is None);
                }
                return None;
            },
            Some(v) => {
                acc = acc * 16 + v;
                assert(hex_value(nxt) == acc);
                assert(all_hex(nxt)) by {
                    assert forall|i: int| 0 <= i < nxt.len() implies (#[trigger] hex_digit_value(
                        nxt[i],
                    )) is Some by {
                        if i < nxt.len() - 1 {
                            assert(nxt[i] == pre[i]);
                            assert(hex_digit_value(pre[i]) is Some);
                        }
                    }
                }
                if acc > 255 {
                    proof {
                        if all_hex(d) {
                            lemma_hex_value_monotone(d, k - s + 1);
                        }
                    }
                    return None;
                }
            },
        }
        k = k + 1;
    }
    assert(d.take(hi - s) =~= d);
    Some(Some(acc as u8))
}

/// Parses a signature's text into a byte pattern: the text is split at
/// whitespace; `?` and `*` are wildcards, hex bytes are bytes, other words
/// are dropped.
pub fn parse_pattern(pattern_str: &str) -> (p: Vec<Option<u8>>)
    ensures
        p@ == pattern_of(words(pattern_str@)),
{
    let cs = chars_of(pattern_str);
    let n: usize = cs.len();
    let mut out: Vec<Option<u8>> = Vec::new();
    let mut i: usize = 0;
    let ghost mut done_words: Seq<Seq<char>> = Seq::empty();
    assert(cs@.skip(0) =~= cs@);
    assert(done_words + words(cs@) =~= words(cs@));
    while i < n
        invariant
            n == cs@.len(),
            0 <= i <= n,
            done_words + words(cs@.skip(i as int)) == words(cs@),
            out@ == pattern_of(done_words),
        decreases n - i,
    {
        if is_ws_char(cs[i]) {
            proof {
                let r = cs@.skip(i as int);
                assert(r[0] == cs@[i as int]);
                assert(r.drop_first() =~= cs@.skip(i + 1));
            }
            i = i + 1;
        } else {
            let mut j: usize = i + 1;
            while j < n && !is_ws_char(cs[j])
                invariant
                    n == cs@.len(),
                    i < j <= n,
                    forall|m: int| i <= m < j ==> !is_ws(#[trigger] cs@[m]),
                decreases n - j,
            {
                j = j + 1;
            }
            let ghost tok = cs@.subrange(i as int, j as int);
            proof {
                let r = cs@.skip(i as int);
                assert forall|m: int| 0 <= m < j - i implies !is_ws(#[trigger] r[m]) by {
                    assert(r[m] == cs@[i + m]);
                }
                if j < n {
                    assert(r[j - i] == cs@[j as int]);
                }
                lemma_run_len_exact(r, |c: char| is_word_char(c), j - i);
                lemma_run_len_bound(r, |c: char| is_word_char(c));
                assert(!is_ws(r[0]));
                assert(r.take(j - i) =~= tok);
                assert(r.skip(j - i) =~= cs@.skip(j as int));
                assert(words(r) == seq![tok] + words(cs@.skip(j as int)));
                assert(done_words.push(tok) + words(cs@.skip(j as int)) =~= done_words + words(r));
            }
            let e = parse_token(&cs, i, j);
            match e {
                Some(entry) => {
                    out.push(entry);
                },
                None => {},
            }
            proof {
                assert(done_words.push(tok).drop_last() =~= done_words);
                assert(out@ =~= pattern_of(done_words.push(tok)));
                done_words = done_words.push(tok);
            }
            i = j;
        }
    }
    assert(cs@.skip(n as int) =~= Seq::<char>::empty());
    assert(done_words + Seq::<Seq<char>>::empty() =~= done_words);
    out
}

/// A pattern entry accepts a byte: a wildcard accepts any, a byte only itself.
pub open spec fn byte_matches(p: Option<u8>, b: u8) -> bool {
    match p {
        Some(x) => x == b,
        None => true,
    }
}

/// `pattern` lies inside `bytes` from position `i` on and accepts the bytes there.
pub open spec fn matches_at(bytes: Seq<u8>, pattern: Seq<Option<u8>>, i: int) -> bool {
    &&& 0 <= i
    &&& i + pattern.len() <= bytes.len()
    &&& forall|j: int| 0 <= j < pattern.len() ==> byte_matches(#[trigger] pattern[j], bytes[i + j])
}

/// A search is made at all: the pattern is non-empty and no longer than the bytes.
pub open spec fn searchable(bytes: Seq<u8>, pattern: Seq<Option<u8>>) -> bool {
    pattern.len() > 0 && bytes.len() > 0 && pattern.len() <= bytes.len()
}

/// `i` is the first position at which a search finds `pattern` in `bytes`.
pub open spec fn first_match(bytes: Seq<u8>, pattern: Seq<Option<u8>>, i: int) -> bool {
    &&& searchable(bytes, pattern)
    &&& matches_at(bytes, pattern, i)
    &&& forall|k: int| 0 <= k < i ==> !matches_at(bytes, pattern, k)
}

/// A search finds nothing: it is not made, or the pattern matches nowhere.
pub open spec fn no_match(bytes: Seq<u8>, pattern: Seq<Option<u8>>) -> bool {
    !searchable(bytes, pattern) || forall|k: int| !matches_at(bytes, pattern, k)
}

/// The first position at which `pattern` matches `bytes`; `None` when the
/// pattern or the bytes are empty, the pattern is longer, or nothing matches.
pub fn search_wildcard_pattern_in_bytes(bytes: &[u8], pattern: &[Option<u8>]) -> (r: Option<usize>)
    ensures
        match r {
            Some(i) => first_match(bytes@, pattern@, i as int),
            None => no_match(bytes@, pattern@),
        },
{
    if pattern.len() == 0 || bytes.len() == 0 || pattern.len() > bytes.len() {
        return None;
    }
    let max_start: usize = bytes.len() - pattern.len();
    assert(max_start < usize::MAX);
    let blen: usize = bytes.len();
    let mut i: usize = 0;
    while i <= max_start
        invariant
            searchable(bytes@, pattern@),
            max_start == bytes@.len() - pattern@.len(),
            max_start < usize::MAX,
            blen == bytes@.len(),
            0 <= i <= max_start + 1,
            forall|k: int| 0 <= k < i ==> !matches_at(bytes@, pattern@, k),
        decreases max_start + 1 - i,
    {
        let mut matched: bool = true;
        let mut j: usize = 0;
        while j < pattern.len() && matched
            invariant
                i <= max_start,
                max_start < usize::MAX,
                blen == bytes@.len(),
                pattern@.len() <= bytes@.len(),
                max_start == bytes@.len() - pattern@.len(),
                0 <= j <= pattern@.len(),
                matched <==> forall|m: int| 0 <= m < j ==> byte_matches(#[trigger] pattern@[m], bytes@[i + m]),
                !matched ==> exists|m: int| 0 <= m < pattern@.len() && !byte_matches(#[trigger] pattern@[m], bytes@[i + m]),
            decreases pattern@.len() - j,
        {
            match pattern[j] {
                Some(b) => {
                    if bytes[i + j] != b {
                        matched = false;
                        assert(!byte_matches(pattern@[j as int], bytes@[i + j]));
                    }
                },
                None => {},
            }
            j = j + 1;
        }
        if matched {
            return Some(i);
        }
        i = i + 1;
    }
    assert forall|k: int| !matches_at(bytes@, pattern@, k) by {
        if 0 <= k && k + pattern@.len() <= bytes@.len() {
            assert(k < i);
        }
    }
    None
}

/// Where the pattern lies in a mapping of `len` bytes at `start`, from the
/// outcomes of its word reads: `start` plus the first position at which the
/// pattern matches the bytes read (see `read_bytes`), if any.
pub fn search_wildcard_pattern_in_memory(
    start: usize,
    len: usize,
    words: &Vec<Option<i64>>,
    pattern: &[Option<u8>],
) -> (r: Option<usize>)
    requires
        start + len <= usize::MAX,
    ensures
        r is None <==> no_match(read_bytes(len, words@), pattern@),
        r matches Some(a) ==> a >= start && first_match(read_bytes(len, words@), pattern@, a - start),
{
    let memory = assemble_read(len, words);
    match search_wildcard_pattern_in_bytes(memory.as_slice(), pattern) {
        Some(pos) => {
            assert(!no_match(memory@, pattern@)) by {
                assert(matches_at(memory@, pattern@, pos as int));
            }
            Some(start + pos)
        },
        None => None,
    }
}

/// A search over a mapping whose word reads all gave the process's memory
/// `mem` (from the mapping's start) finds the pattern where it lies in that
/// memory: every entry accepts the byte of memory under it, nothing before
/// it in the mapping matches, and no result for a non-empty pattern means
/// no match in the mapping.
pub proof fn lemma_found_where_memory_matches(
    mem: Seq<u8>,
    start: usize,
    len: usize,
    words: Seq<Option<i64>>,
    pattern: Seq<Option<u8>>,
    a: int,
)
    requires
        0 < len <= MAX_REGION_SIZE,
        words.len() == word_count(len),
        reads_match_memory(mem, words),
    ensures
        first_match(read_bytes(len, words), pattern, a - start) ==> {
            &&& start <= a
            &&& a + pattern.len() <= start + len
            &&& forall|j: int|
                0 <= j < pattern.len() ==> byte_matches(#[trigger] pattern[j], mem[a - start + j])
            &&& forall|b: int| 0 <= b < a - start ==> !#[trigger] matches_at(mem.take(len as int), pattern, b)
        },
        no_match(read_bytes(len, words), pattern) && pattern.len() > 0 ==> forall|b: int|
            !matches_at(mem.take(len as int), pattern, b),
{
    lemma_read_bytes_are_memory(mem, len, words);
    let m = mem.take(len as int);
    if first_match(read_bytes(len, words), pattern, a - start) {
        assert forall|j: int| 0 <= j < pattern.len() implies byte_matches(
            #[trigger] pattern[j],
            mem[a - start + j],
        ) by {
            assert(byte_matches(pattern[j], m[a - start + j]));
        }
    }
}

/// Upper-case hexadecimal digit for `d` (below sixteen).
pub open spec fn upper_hex_char(d: nat) -> char {
    if d < 10 {
        crate::text::digit_char(d)
    } else if d == 10 {
        'A'
    } else if d == 11 {
        'B'
    } else if d == 12 {
        'C'
    } else if d == 13 {
        'D'
    } else if d == 14 {
        'E'
    } else {
        'F'
    }
}

/// How a pattern entry is written: a byte as two upper-case hex digits
/// (`{:02X}`), a wildcard as `?`.
pub open spec fn entry_text(e: Option<u8>) -> Seq<char> {
    match e {
        Some(b) => seq![upper_hex_char((b / 16) as nat), upper_hex_char((b % 16) as nat)],
        None => seq!['?'],
    }
}

/// A pattern written out: its entries' texts joined by single spaces.
pub open spec fn pattern_text(v: Seq<Option<u8>>) -> Seq<char>
    decreases v.len(),
{
    if v.len() == 0 {
        Seq::empty()
    } else if v.len() == 1 {
        entry_text(v[0])
    } else {
        entry_text(v[0]) + seq![' '] + pattern_text(v.drop_first())
    }
}

proof fn lemma_upper_hex_char(d: nat)
    requires
        d < 16,
    ensures
        hex_digit_value(upper_hex_char(d)) == Some(d),
        !is_ws(upper_hex_char(d)),
        upper_hex_char(d) != '+',
{
}

proof fn lemma_entry_text(e: Option<u8>)
    ensures
        token_entry(entry_text(e)) == Some(e),
        entry_text(e).len() > 0,
        forall|i: int| 0 <= i < entry_text(e).len() ==> !is_ws(#[trigger] entry_text(e)[i]),
{
    match e {
        Some(b) => {
            let t = entry_text(e);
            lemma_upper_hex_char((b / 16) as nat);
            lemma_upper_hex_char((b % 16) as nat);
            assert(t != seq!['?']) by {
                assert(t.len() != 1);
            }
            assert(t != seq!['*']) by {
                assert(t.len() != 1);
            }
            assert(hex_digits(t) == t);
            assert(all_hex(t));
            let t1 = t.drop_last();
            assert(t1.drop_last() =~= Seq::<char>::empty());
            assert(hex_value(t1.drop_last()) == 0);
            assert(t1.last() == upper_hex_char((b / 16) as nat));
            assert(hex_digit_value(t1.last()) == Some((b / 16) as nat));
            assert(hex_value(t1) == (b / 16) as nat);
            assert(t.last() == upper_hex_char((b % 16) as nat));
            assert(hex_value(t) == b as nat);
        },
        None => {},
    }
}

proof fn lemma_words_of_word(t: Seq<char>, rest: Seq<char>)
    requires
        t.len() > 0,
        forall|i: int| 0 <= i < t.len() ==> !is_ws(#[trigger] t[i]),
        rest.len() == 0 || is_ws(rest[0]),
    ensures
        words(t + rest) == seq![t] + words(rest),
{
    let s = t + rest;
    assert forall|m: int| 0 <= m < t.len() implies is_word_char(#[trigger] s[m]) by {
        assert(s[m] == t[m]);
    }
    if rest.len() > 0 {
        assert(s[t.len() as int] == rest[0]);
    }
    lemma_run_len_exact(s, |c: char| is_word_char(c), t.len() as int);
    assert(s[0] == t[0]);
    assert(s.take(t.len() as int) =~= t);
    assert(s.skip(t.len() as int) =~= rest);
}

proof fn lemma_words_of_text(v: Seq<Option<u8>>)
    ensures
        words(pattern_text(v)) == v.map_values(|e: Option<u8>| entry_text(e)),
    decreases v.len(),
{
    let f = |e: Option<u8>| entry_text(e);
    if v.len() == 0 {
        assert(v.map_values(f) =~= Seq::<Seq<char>>::empty());
    } else {
        lemma_entry_text(v[0]);
        let t = entry_text(v[0]);
        if v.len() == 1 {
            lemma_words_of_word(t, Seq::empty());
            assert(t + Seq::<char>::empty() =~= t);
            assert(words(Seq::<char>::empty()) =~= Seq::<Seq<char>>::empty());
            assert(v.map_values(f) =~= seq![t]);
        } else {
            let rest = pattern_text(v.drop_first());
            lemma_words_of_text(v.drop_first());
            let sp = seq![' '] + rest;
            lemma_words_of_word(t, sp);
            assert(t + seq![' '] + rest =~= t + sp);
            assert(sp.drop_first() =~= rest);
            assert(words(sp) == words(rest));
            assert(v.map_values(f) =~= seq![t] + v.drop_first().map_values(f));
        }
    }
}

proof fn lemma_pattern_of_texts(v: Seq<Option<u8>>)
    ensures
        pattern_of(v.map_values(|e: Option<u8>| entry_text(e))) == v,
    decreases v.len(),
{
    let f = |e: Option<u8>| entry_text(e);
    if v.len() == 0 {
        assert(v.map_values(f) =~= Seq::<Seq<char>>::empty());
        assert(pattern_of(v.map_values(f)) =~= v);
    } else {
        let w = v.map_values(f);
        lemma_pattern_of_texts(v.drop_last());
        assert(w.drop_last() =~= v.drop_last().map_values(f));
        lemma_entry_text(v.last());
        assert(w.last() == entry_text(v.last()));
        assert(pattern_of(w) =~= v);
    }
}

/// Writing a pattern out (bytes as two upper-case hex digits, wildcards as
/// `?`, separated by spaces) and parsing it back gives the same pattern.
pub proof fn lemma_pattern_round_trip(v: Seq<Option<u8>>)
    ensures
        pattern_of(words(pattern_text(v))) == v,
{
    lemma_words_of_text(v);
    lemma_pattern_of_texts(v);
}

/// Two texts whose words pair up one to one, equal but for the case of ASCII
/// letters: their whitespace, leading, trailing and between words, may differ.
pub open spec fn same_words_ignoring_case(s1: Seq<char>, s2: Seq<char>) -> bool {
    let w1 = words(s1);
    let w2 = words(s2);
    &&& w1.len() == w2.len()
    &&& forall|i: int|
        0 <= i < w1.len() ==> {
            &&& (#[trigger] w1[i]).len() == w2[i].len()
            &&& forall|j: int| 0 <= j < w1[i].len() ==> ascii_lower(w1[i][j]) == ascii_lower(w2[i][j])
        }
}

proof fn lemma_fold_char(c: char, d: char)
    requires
        ascii_lower(c) == ascii_lower(d),
    ensures
        hex_digit_value(c) == hex_digit_value(d),
        c == '?' <==> d == '?',
        c == '*' <==> d == '*',
        c == '+' <==> d == '+',
{
}

proof fn lemma_hex_value_fold(a: Seq<char>, b: Seq<char>)
    requires
        a.len() == b.len(),
        forall|j: int| 0 <= j < a.len() ==> ascii_lower(#[trigger] a[j]) == ascii_lower(b[j]),
    ensures
        all_hex(a) == all_hex(b),
        hex_value(a) == hex_value(b),
    decreases a.len(),
{
    assert forall|j: int| 0 <= j < a.len() implies hex_digit_value(#[trigger] a[j]) == hex_digit_value(b[j]) by {
        lemma_fold_char(a[j], b[j]);
    }
    if all_hex(a) {
        assert forall|j: int| 0 <= j < b.len() implies (#[trigger] hex_digit_value(b[j])) is Some by {
            assert(hex_digit_value(a[j]) is Some);
        }
    }
    if all_hex(b) {
        assert forall|j: int| 0 <= j < a.len() implies (#[trigger] hex_digit_value(a[j])) is Some by {
            assert(hex_digit_value(b[j]) is Some);
        }
    }
    if a.len() > 0 {
        let a2 = a.drop_last();
        let b2 = b.drop_last();
        assert forall|j: int| 0 <= j < a2.len() implies ascii_lower(#[trigger] a2[j]) == ascii_lower(b2[j]) by {
            assert(a2[j] == a[j]);
            assert(b2[j] == b[j]);
        }
        lemma_hex_value_fold(a2, b2);
        assert(hex_digit_value(a.last()) == hex_digit_value(b.last()));
    }
}

proof fn lemma_token_entry_fold(a: Seq<char>, b: Seq<char>)
    requires
        a.len() == b.len(),
        forall|j: int| 0 <= j < a.len() ==> ascii_lower(#[trigger] a[j]) == ascii_lower(b[j]),
    ensures
        token_entry(a) == token_entry(b),
{
    if a.len() == 1 {
        lemma_fold_char(a[0], b[0]);
        if a == seq!['?'] {
            assert(b =~= seq!['?']);
        } else if b == seq!['?'] {
            assert(a =~= seq!['?']);
        }
        if a == seq!['*'] {
            assert(b =~= seq!['*']);
        } else if b == seq!['*'] {
            assert(a =~= seq!['*']);
        }
    }
    if a.len() > 0 {
        lemma_fold_char(a[0], b[0]);
        let da = hex_digits(a);
        let db = hex_digits(b);
        assert(da.len() == db.len());
        assert forall|j: int| 0 <= j < da.len() implies ascii_lower(#[trigger] da[j]) == ascii_lower(db[j]) by {
            if a[0] == '+' {
                assert(da[j] == a[j + 1]);
                assert(db[j] == b[j + 1]);
            } else {
                assert(da[j] == a[j]);
                assert(db[j] == b[j]);
            }
        }
        lemma_hex_value_fold(da, db);
    }
}

proof fn lemma_pattern_of_fold(w1: Seq<Seq<char>>, w2: Seq<Seq<char>>)
    requires
        w1.len() == w2.len(),
        forall|i: int|
            0 <= i < w1.len() ==> {
                &&& (#[trigger] w1[i]).len() == w2[i].len()
                &&& forall|j: int| 0 <= j < w1[i].len() ==> ascii_lower(w1[i][j]) == ascii_lower(w2[i][j])
            },
    ensures
        pattern_of(w1) == pattern_of(w2),
    decreases w1.len(),
{
    if w1.len() > 0 {
        let a = w1.drop_last();
        let b = w2.drop_last();
        assert forall|i: int|
            0 <= i < a.len() implies {
                &&& (#[trigger] a[i]).len() == b[i].len()
                &&& forall|j: int| 0 <= j < a[i].len() ==> ascii_lower(a[i][j]) == ascii_lower(b[i][j])
            } by {
            assert(a[i] == w1[i]);
            assert(b[i] == w2[i]);
        }
        lemma_pattern_of_fold(a, b);
        let k = w1.len() - 1;
        assert(w1[k].len() == w2[k].len());
        assert forall|j: int| 0 <= j < w1.last().len() implies ascii_lower(#[trigger] w1.last()[j]) == ascii_lower(w2.last()[j]) by {
            assert(w1[k].len() == w2[k].len());
        }
        lemma_token_entry_fold(w1.last(), w2.last());
    }
}

/// Signature texts that differ only in the case of ASCII letters and in
/// their whitespace (leading, trailing, or between words) parse to the same
/// pattern.
pub proof fn lemma_parse_ignores_case_and_spacing(s1: Seq<char>, s2: Seq<char>)
    requires
        same_words_ignoring_case(s1, s2),
    ensures
        pattern_of(words(s1)) == pattern_of(words(s2)),
{
    lemma_pattern_of_fold(words(s1), words(s2));
}


/// The pattern lies at `i` in the bytes: it fits there, and each of its
/// entries is a wildcard or the byte under it.
pub open spec fn fits_at(bytes: Seq<u8>, pattern: Seq<Option<u8>>, i: int) -> bool {
    &&& 0 <= i
    &&& i + pattern.len() <= bytes.len()
    &&& forall|j: int|
        0 <= j < pattern.len() ==> (#[trigger] pattern[j] is None || pattern[j] == Some(bytes[i + j]))
}

/// A pattern matches bytes at `i` exactly when it lies there: a wildcard
/// accepts every byte, a byte entry only itself.
pub proof fn lemma_match_means_bytes_equal(bytes: Seq<u8>, pattern: Seq<Option<u8>>, i: int)
    ensures
        matches_at(bytes, pattern, i) <==> fits_at(bytes, pattern, i),
{
    if 0 <= i && i + pattern.len() <= bytes.len() {
        if matches_at(bytes, pattern, i) {
            assert forall|j: int| 0 <= j < pattern.len() implies (#[trigger] pattern[j] is None
                || pattern[j] == Some(bytes[i + j])) by {
                assert(byte_matches(pattern[j], bytes[i + j]));
            }
        }
        if fits_at(bytes, pattern, i) {
            assert forall|j: int| 0 <= j < pattern.len() implies byte_matches(
                #[trigger] pattern[j],
                bytes[i + j],
            ) by {
                assert(pattern[j] is None || pattern[j] == Some(bytes[i + j]));
            }
        }
    }
}

/// A search whose outcome `r` meets the contract of
/// `search_wildcard_pattern_in_bytes`.
pub open spec fn search_result(bytes: Seq<u8>, pattern: Seq<Option<u8>>, r: Option<usize>) -> bool {
    match r {
        Some(i) => first_match(bytes, pattern, i as int),
        None => no_match(bytes, pattern),
    }
}

/// The search gives the first position at which a non-empty pattern lies in
/// the bytes, whatever bytes are under its wildcards; when it lies nowhere,
/// the search gives nothing.
pub proof fn lemma_search_finds_first_fit(
    bytes: Seq<u8>,
    pattern: Seq<Option<u8>>,
    i: int,
    r: Option<usize>,
)
    requires
        search_result(bytes, pattern, r),
        pattern.len() > 0,
    ensures
        fits_at(bytes, pattern, i) && (forall|k: int| 0 <= k < i ==> !#[trigger] fits_at(bytes, pattern, k))
            ==> r == Some(i as usize),
        (forall|k: int| !#[trigger] fits_at(bytes, pattern, k)) ==> r is None,
        r matches Some(p) ==> fits_at(bytes, pattern, p as int),
{
    match r {
        Some(p) => {
            lemma_match_means_bytes_equal(bytes, pattern, p as int);
            if fits_at(bytes, pattern, i) && (forall|k: int| 0 <= k < i ==> !#[trigger] fits_at(bytes, pattern, k)) {
                lemma_match_means_bytes_equal(bytes, pattern, i);
                if (p as int) < i {
                    assert(!fits_at(bytes, pattern, p as int));
                } else if (p as int) > i {
                    assert(!matches_at(bytes, pattern, i));
                }
            }
        },
        None => {
            if fits_at(bytes, pattern, i) {
                lemma_match_means_bytes_equal(bytes, pattern, i);
                assert(searchable(bytes, pattern));
                assert(!matches_at(bytes, pattern, i));
            }
        },
    }
}

} // verus!
