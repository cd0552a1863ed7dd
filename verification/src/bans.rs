//! The table of banned hardware ids, each with the reason for its ban.
use vstd::prelude::*;

verus! {

/// The map that a list of (hwid, reason) entries stands for: later entries
/// win over earlier ones with the same hwid.
pub open spec fn map_of(s: Seq<(Seq<char>, Seq<char>)>) -> Map<Seq<char>, Seq<char>>
    decreases s.len(),
{
    if s.len() == 0 {
        Map::empty()
    } else {
        map_of(s.drop_last()).insert(s.last().0, s.last().1)
    }
}

/// The entries of `v` as pairs of character sequences.
pub open spec fn pair_views(v: Seq<(String, String)>) -> Seq<(Seq<char>, Seq<char>)> {
    v.map_values(|p: (String, String)| (p.0@, p.1@))
}

/// No hwid occurs twice among the entries.
pub open spec fn keys_distinct(s: Seq<(Seq<char>, Seq<char>)>) -> bool {
    forall|i: int, j: int| 0 <= i < s.len() && 0 <= j < s.len() && i != j ==> s[i].0 != s[j].0
}

pub proof fn lemma_map_of_dom(s: Seq<(Seq<char>, Seq<char>)>, k: Seq<char>)
    ensures
        map_of(s).dom().contains(k) <==> exists|i: int| 0 <= i < s.len() && s[i].0 == k,
    decreases s.len(),
{
    if s.len() > 0 {
        lemma_map_of_dom(s.drop_last(), k);
        if map_of(s.drop_last()).dom().contains(k) {
            let i = choose|i: int| 0 <= i < s.len() - 1 && s.drop_last()[i].0 == k;
            assert(s[i].0 == k);
        }
        if exists|i: int| 0 <= i < s.len() && s[i].0 == k {
            let i = choose|i: int| 0 <= i < s.len() && s[i].0 == k;
            if i < s.len() - 1 {
                assert(s.drop_last()[i].0 == k);
            }
        }
    }
}

pub proof fn lemma_map_of_value(s: Seq<(Seq<char>, Seq<char>)>, i: int)
    requires
        keys_distinct(s),
        0 <= i < s.len(),
    ensures
        map_of(s).dom().contains(s[i].0),
        map_of(s)[s[i].0] == s[i].1,
    decreases s.len(),
{
    if i < s.len() - 1 {
        let t = s.drop_last();
        assert(t[i] == s[i]);
        lemma_map_of_value(t, i);
        assert(s.last().0 != s[i].0);
    }
}

pub proof fn lemma_map_of_update(s: Seq<(Seq<char>, Seq<char>)>, i: int, v: Seq<char>)
    requires
        keys_distinct(s),
        0 <= i < s.len(),
    ensures
        map_of(s.update(i, (s[i].0, v))) == map_of(s).insert(s[i].0, v),
    decreases s.len(),
{
    let u = s.update(i, (s[i].0, v));
    if i == s.len() - 1 {
        assert(u.drop_last() =~= s.drop_last());
        lemma_map_of_dom(s.drop_last(), s[i].0);
        if map_of(s.drop_last()).dom().contains(s[i].0) {
            let j = choose|j: int| 0 <= j < s.len() - 1 && s.drop_last()[j].0 == s[i].0;
            assert(s[j].0 == s[i].0);
        }
        assert(map_of(u) =~= map_of(s).insert(s[i].0, v));
    } else {
        let t = s.drop_last();
        assert(u.drop_last() =~= t.update(i, (t[i].0, v)));
        lemma_map_of_update(t, i, v);
        assert(s.last().0 != s[i].0);
        assert(map_of(u) =~= map_of(s).insert(s[i].0, v));
    }
}

/// Banned hardware ids, each with the reason it was banned for.
pub struct BanTable {
    entries: Vec<(String, String)>,
}

impl View for BanTable {
    type V = Map<Seq<char>, Seq<char>>;

    closed spec fn view(&self) -> Map<Seq<char>, Seq<char>> {
        map_of(pair_views(self.entries@))
    }
}

impl BanTable {
    #[verifier::type_invariant]
    closed spec fn inv(self) -> bool {
        keys_distinct(pair_views(self.entries@))
    }

    /// A table with no bans.
    pub fn new() -> (t: Self)
        ensures
            t@ == Map::<Seq<char>, Seq<char>>::empty(),
    {
        let t = BanTable { entries: Vec::new() };
        assert(pair_views(t.entries@) =~= Seq::<(Seq<char>, Seq<char>)>::empty());
        t
    }

    /// Index of the entry for `hwid`, if there is one.
    fn find(&self, hwid: &String) -> (r: Option<usize>)
        ensures
            match r {
                Some(i) => i < self.entries@.len() && self.entries@[i as int].0@ == hwid@,
                None => !self@.dom().contains(hwid@),
            },
    {
        proof {
            use_type_invariant(self);
        }
        self.find_in(&self.entries, hwid)
    }

    /// Records `hwid` as banned for `reason`, replacing an earlier reason.
    pub fn insert(&mut self, hwid: &str, reason: &str)
        ensures
            final(self)@ == old(self)@.insert(hwid@, reason@),
    {
        proof {
            use_type_invariant(&*self);
        }
        let key = hwid.to_owned();
        let val = reason.to_owned();
        let ghost s = pair_views(self.entries@);
        let mut entries: Vec<(String, String)> = Vec::new();
        std::mem::swap(&mut entries, &mut self.entries);
        match self.find_in(&entries, &key) {
            Some(i) => {
                entries.set(i, (key, val));
                proof {
                    assert(pair_views(entries@) =~= s.update(i as int, (s[i as int].0, reason@)));
                    lemma_map_of_update(s, i as int, reason@);
                }
            },
            None => {
                entries.push((key, val));
                proof {
                    assert(pair_views(entries@) =~= s.push((hwid@, reason@)));
                    assert(pair_views(entries@).drop_last() =~= s);
                    lemma_map_of_dom(s, hwid@);
                }
            },
        }
        self.entries = entries;
    }

    /// Same search as `find`, over a list held outside the table.
    fn find_in(&self, entries: &Vec<(String, String)>, hwid: &String) -> (r: Option<usize>)
        requires
            keys_distinct(pair_views(entries@)),
        ensures
            match r {
                Some(i) => i < entries@.len() && entries@[i as int].0@ == hwid@,
                None => !map_of(pair_views(entries@)).dom().contains(hwid@),
            },
    {
        let mut i: usize = 0;
        while i < entries.len()
            invariant
                0 <= i <= entries@.len(),
                forall|k: int| 0 <= k < i ==> #[trigger] entries@[k].0@ != hwid@,
            decreases entries@.len() - i,
        {
            if entries[i].0 == *hwid {
                return Some(i);
            }
            i = i + 1;
        }
        proof {
            let s = pair_views(entries@);
            lemma_map_of_dom(s, hwid@);
            if map_of(s).dom().contains(hwid@) {
                let k = choose|k: int| 0 <= k < s.len() && s[k].0 == hwid@;
                assert(entries@[k].0@ != hwid@);
            }
        }
        None
    }

    /// Whether `hwid` is banned.
    pub fn contains(&self, hwid: &str) -> (b: bool)
        ensures
            b == self@.dom().contains(hwid@),
    {
        proof {
            use_type_invariant(self);
        }
        let key = hwid.to_owned();
        match self.find(&key) {
            Some(i) => {
                proof {
                    lemma_map_of_value(pair_views(self.entries@), i as int);
                }
                true
            },
            None => false,
        }
    }

    /// The reason `hwid` is banned for, if it is banned.
    pub fn get(&self, hwid: &str) -> (r: Option<String>)
        ensures
            r is Some <==> self@.dom().contains(hwid@),
            r matches Some(s) ==> s@ == self@[hwid@],
    {
        proof {
            use_type_invariant(self);
        }
        let key = hwid.to_owned();
        match self.find(&key) {
            Some(i) => {
                proof {
                    lemma_map_of_value(pair_views(self.entries@), i as int);
                }
                Some(self.entries[i].1.clone())
            },
            None => None,
        }
    }

    /// Number of banned hwids.
    pub fn len(&self) -> (n: usize)
        ensures
            n == self@.len(),
    {
        proof {
            use_type_invariant(self);
            lemma_map_of_len(pair_views(self.entries@));
        }
        self.entries.len()
    }

    /// Every ban once, as (hwid, reason) pairs.
    pub fn to_vec(&self) -> (v: Vec<(String, String)>)
        ensures
            keys_distinct(pair_views(v@)),
            map_of(pair_views(v@)) == self@,
    {
        proof {
            use_type_invariant(self);
        }
        let mut out: Vec<(String, String)> = Vec::new();
        let mut i: usize = 0;
        while i < self.entries.len()
            invariant
                0 <= i <= self.entries@.len(),
                pair_views(out@) == pair_views(self.entries@).take(i as int),
                out@.len() == i,
                keys_distinct(pair_views(self.entries@)),
            decreases self.entries@.len() - i,
        {
            let h = self.entries[i].0.clone();
            let r = self.entries[i].1.clone();
            let ghost old_out = out@;
            out.push((h, r));
            assert(out@[i as int] == self.entries@[i as int]);
            assert forall|k: int| 0 <= k < i + 1 implies #[trigger] pair_views(out@)[k] == pair_views(
                self.entries@,
            ).take(i + 1)[k] by {
                if k < i {
                    assert(out@[k] == old_out[k]);
                    assert(pair_views(old_out)[k] == pair_views(self.entries@).take(i as int)[k]);
                }
            }
            assert(pair_views(out@) =~= pair_views(self.entries@).take(i + 1));
            i = i + 1;
        }
        assert(pair_views(self.entries@).take(self.entries@.len() as int) =~= pair_views(
            self.entries@,
        ));
        out
    }
}

pub proof fn lemma_map_of_len(s: Seq<(Seq<char>, Seq<char>)>)
    requires
        keys_distinct(s),
    ensures
        map_of(s).len() == s.len(),
        map_of(s).dom().finite(),
    decreases s.len(),
{
    if s.len() > 0 {
        let t = s.drop_last();
        assert(keys_distinct(t));
        lemma_map_of_len(t);
        lemma_map_of_dom(t, s.last().0);
        if map_of(t).dom().contains(s.last().0) {
            let j = choose|j: int| 0 <= j < t.len() && t[j].0 == s.last().0;
            assert(s[j].0 == s[s.len() - 1].0);
        }
    }
}

/// Banning a hwid again for the same reason changes nothing; banning it for
/// a new reason keeps only the new one.
pub proof fn lemma_insert_twice(
    m: Map<Seq<char>, Seq<char>>,
    hwid: Seq<char>,
    first: Seq<char>,
    second: Seq<char>,
)
    ensures
        m.insert(hwid, first).insert(hwid, second) == m.insert(hwid, second),
        m.insert(hwid, first).insert(hwid, first) == m.insert(hwid, first),
{
    assert(m.insert(hwid, first).insert(hwid, second) =~= m.insert(hwid, second));
    assert(m.insert(hwid, first).insert(hwid, first) =~= m.insert(hwid, first));
}

} // verus!

