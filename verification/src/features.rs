//! The sliding window of recent syscall events and the integer counts that
//! the behaviour model's features are made of.
use std::collections::VecDeque;
use vstd::prelude::*;
use crate::event::SuspiciousEvent;

verus! {

/// Number of most recent events that the window keeps.
pub const WINDOW_SIZE: usize = 100;

/// Keeps the last `WINDOW_SIZE` events, oldest first.
pub struct FeatureExtractor {
    events: VecDeque<SuspiciousEvent>,
}

/// The window after `evt` arrives: the oldest event leaves when the window
/// is full, and `evt` joins at the back.
pub open spec fn window_push(w: Seq<SuspiciousEvent>, evt: SuspiciousEvent) -> Seq<SuspiciousEvent> {
    if w.len() >= WINDOW_SIZE {
        w.drop_first().push(evt)
    } else {
        w.push(evt)
    }
}

/// The window after the events of `history` arrive one by one, starting empty.
pub open spec fn window_after(history: Seq<SuspiciousEvent>) -> Seq<SuspiciousEvent>
    decreases history.len(),
{
    if history.len() == 0 {
        Seq::empty()
    } else {
        window_push(window_after(history.drop_last()), history.last())
    }
}

/// Number of events in `w` whose syscall number is `t`.
pub open spec fn count_syscall(w: Seq<SuspiciousEvent>, t: u32) -> nat
    decreases w.len(),
{
    if w.len() == 0 {
        0
    } else {
        count_syscall(w.drop_last(), t) + if w.last().syscall_type == t {
            1nat
        } else {
            0nat
        }
    }
}

/// The process ids of the events in `w`, in order.
pub open spec fn pids(w: Seq<SuspiciousEvent>) -> Seq<u32> {
    w.map_values(|e: SuspiciousEvent| e.pid)
}

/// Integer counts over the window: its size, the number of events of each
/// watched syscall, and the number of distinct process ids.
#[derive(Debug, Clone, Copy, PartialEq, Eq)]
pub struct FeatureCounts {
    pub total: u32,
    pub openat: u32,
    pub execve: u32,
    pub ptrace: u32,
    pub clone: u32,
    pub distinct_pids: u32,
}

impl View for FeatureExtractor {
    type V = Seq<SuspiciousEvent>;

    closed spec fn view(&self) -> Seq<SuspiciousEvent> {
        self.events@
    }
}

impl FeatureExtractor {
    #[verifier::type_invariant]
    closed spec fn inv(self) -> bool {
        self.events@.len() <= WINDOW_SIZE
    }

    /// An empty window.
    pub fn new() -> (r: Self)
        ensures
            r@ == Seq::<SuspiciousEvent>::empty(),
    {
        FeatureExtractor { events: VecDeque::with_capacity(WINDOW_SIZE) }
    }

    /// Adds `evt` at the back, dropping the oldest event when the window is full.
    pub fn add_event(&mut self, evt: SuspiciousEvent)
        ensures
            final(self)@ == window_push(old(self)@, evt),
            final(self)@.len() <= WINDOW_SIZE,
    {
        proof {
            use_type_invariant(&*self);
        }
        let mut events: VecDeque<SuspiciousEvent> = VecDeque::new();
        std::mem::swap(&mut events, &mut self.events);
        if events.len() >= WINDOW_SIZE {
            events.pop_front();
        }
        events.push_back(evt);
        self.events = events;
    }

    /// The counts that the model's features are the shares of.
    pub fn feature_counts(&self) -> (c: FeatureCounts)
        ensures
            c.total == self@.len(),
            c.openat == count_syscall(self@, 1),
            c.execve == count_syscall(self@, 2),
            c.ptrace == count_syscall(self@, 3),
            c.clone == count_syscall(self@, 4),
            c.distinct_pids == pids(self@).to_set().len(),
    {
        proof {
            use_type_invariant(self);
        }
        let ghost w = self@;
        let n: usize = self.events.len();
        let mut openat: u32 = 0;
        let mut execve: u32 = 0;
        let mut ptrace: u32 = 0;
        let mut clone: u32 = 0;
        let mut seen: Vec<u32> = Vec::new();
        let mut i: usize = 0;
        while i < n
            invariant
                w == self@,
                n == w.len(),
                n <= WINDOW_SIZE,
                0 <= i <= n,
                openat == count_syscall(w.take(i as int), 1),
                execve == count_syscall(w.take(i as int), 2),
                ptrace == count_syscall(w.take(i as int), 3),
                clone == count_syscall(w.take(i as int), 4),
                seen@.no_duplicates(),
                seen@.to_set() == pids(w.take(i as int)).to_set(),
                seen@.len() <= i,
                openat <= i && execve <= i && ptrace <= i && clone <= i,
            decreases n - i,
        {
            let evt = self.events[i];
            let ghost before = w.take(i as int);
            let ghost after = w.take(i + 1);
            assert(after.drop_last() =~= before);
            assert(after.last() == evt);
            if evt.syscall_type == 1 {
                openat = openat + 1;
            } else if evt.syscall_type == 2 {
                execve = execve + 1;
            } else if evt.syscall_type == 3 {
                ptrace = ptrace + 1;
            } else if evt.syscall_type == 4 {
                clone = clone + 1;
            }
            assert(pids(after) =~= pids(before).push(evt.pid));
            proof {
                pids(before).lemma_push_to_set_commute(evt.pid);
            }
            let mut j: usize = 0;
            let mut found: bool = false;
            while j < seen.len()
                invariant
                    0 <= j <= seen@.len(),
                    found <==> exists|k: int| 0 <= k < j && seen@[k] == evt.pid,
                decreases seen@.len() - j,
            {
                if seen[j] == evt.pid {
                    found = true;
                }
                j = j + 1;
            }
            if !found {
                let ghost old_seen = seen@;
                seen.push(evt.pid);
                proof {
                    old_seen.lemma_push_to_set_commute(evt.pid);
                }
                assert forall|a: int, b: int|
                    0 <= a < seen@.len() && 0 <= b < seen@.len() && a != b implies seen@[a]
                    != seen@[b] by {
                    if a < old_seen.len() && b < old_seen.len() {
                        assert(old_seen[a] != old_seen[b]);
                    }
                }
            } else {
                assert(seen@.to_set().contains(evt.pid));
                assert(seen@.to_set().insert(evt.pid) =~= seen@.to_set());
            }
            i = i + 1;
        }
        assert(w.take(n as int) =~= w);
        proof {
            seen@.unique_seq_to_set();
        }
        FeatureCounts {
            total: n as u32,
            openat,
            execve,
            ptrace,
            clone,
            distinct_pids: seen.len() as u32,
        }
    }
}

/// The window holds exactly the last `WINDOW_SIZE` events that arrived (all
/// of them while fewer have arrived), oldest first.
pub proof fn lemma_window_is_recent_suffix(history: Seq<SuspiciousEvent>)
    ensures
        window_after(history) == history.skip(
            if history.len() > WINDOW_SIZE {
                history.len() - WINDOW_SIZE
            } else {
                0
            },
        ),
    decreases history.len(),
{
    if history.len() > 0 {
        let h = history.drop_last();
        lemma_window_is_recent_suffix(h);
        let ws = WINDOW_SIZE as int;
        if h.len() >= ws {
            assert(h.skip(h.len() - ws).drop_first().push(history.last()) =~= history.skip(
                history.len() - ws,
            ));
        } else {
            assert(h.skip(0).push(history.last()) =~= history.skip(0));
        }
    }
}

/// The window's per-syscall counts add up to at most its size, and it holds
/// at least one and at most as many distinct process ids as events (none
/// when it is empty).
pub proof fn lemma_counts_bounded(w: Seq<SuspiciousEvent>)
    ensures
        count_syscall(w, 1) + count_syscall(w, 2) + count_syscall(w, 3) + count_syscall(w, 4)
            <= w.len(),
        pids(w).to_set().len() <= w.len(),
        w.len() > 0 ==> pids(w).to_set().len() >= 1,
        w.len() == 0 ==> pids(w).to_set().len() == 0,
    decreases w.len(),
{
    if w.len() > 0 {
        lemma_counts_bounded(w.drop_last());
    }
    pids(w).lemma_cardinality_of_set();
    if w.len() > 0 {
        assert(pids(w).to_set().contains(pids(w)[0]));
        vstd::seq_lib::seq_to_set_is_finite(pids(w));
        if pids(w).to_set().len() == 0 {
            assert(pids(w).to_set() =~= Set::empty());
        }
    } else {
        assert(pids(w).to_set() =~= Set::empty());
    }
}


/// Every event counts once for its own syscall: an empty window counts
/// nothing, and a further event adds one to its syscall's count and nothing
/// to the others'; counts over two stretches of events add up.
pub proof fn lemma_each_event_counts_once(w: Seq<SuspiciousEvent>, e: SuspiciousEvent, t: u32)
    ensures
        count_syscall(Seq::empty(), t) == 0,
        count_syscall(w.push(e), t) == count_syscall(w, t) + if e.syscall_type == t {
            1nat
        } else {
            0nat
        },
        count_syscall(seq![e], t) == if e.syscall_type == t {
            1nat
        } else {
            0nat
        },
{
    assert(w.push(e).drop_last() =~= w);
    assert(seq![e].drop_last() =~= Seq::<SuspiciousEvent>::empty());
}

/// Counts over two stretches of events add up.
pub proof fn lemma_counts_add(a: Seq<SuspiciousEvent>, b: Seq<SuspiciousEvent>, t: u32)
    ensures
        count_syscall(a + b, t) == count_syscall(a, t) + count_syscall(b, t),
    decreases b.len(),
{
    if b.len() == 0 {
        assert(a + b =~= a);
    } else {
        lemma_counts_add(a, b.drop_last(), t);
        assert((a + b).drop_last() =~= a + b.drop_last());
        assert((a + b).last() == b.last());
    }
}

/// A further event adds its process id to the set of process ids, and
/// nothing else.
pub proof fn lemma_pids_push(w: Seq<SuspiciousEvent>, e: SuspiciousEvent)
    ensures
        pids(w.push(e)).to_set() == pids(w).to_set().insert(e.pid),
{
    assert(pids(w.push(e)) =~= pids(w).push(e.pid));
    pids(w).lemma_push_to_set_commute(e.pid);
}

} // verus!
