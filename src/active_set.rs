use vstd::prelude::*;
use crate::reminder::{TimerState, EntryView, key_lt, lemma_key_lt_irreflexive, lemma_key_lt_transitive, id_less};

verus! {

/// What a cancel request found.
#[derive(Debug, Clone, Copy, PartialEq, Eq, Structural)]
pub enum CancelOutcome {
    /// The reminder was live and the requester owns it: it is now cancelled.
    Success,
    /// The reminder is live but belongs to someone else: nothing changed.
    NotOwner,
    /// The reminder was cancelled before: nothing changed.
    AlreadyCancelled,
    /// No such reminder is known: nothing changed.
    NotFound,
}

/// One live reminder, as a listing shows it.
#[derive(Debug, Clone)]
pub struct ListEntry {
    pub message_uuid: String,
    pub user_id: String,
    pub time: u64,
}

pub open spec fn entry_lt(a: ListEntry, b: ListEntry) -> bool {
    key_lt(a.time, a.message_uuid@, b.time, b.message_uuid@)
}

/// No entry of `s` comes strictly before one that stands ahead of it.
pub open spec fn entries_sorted(s: Seq<ListEntry>) -> bool {
    forall|i: int, j: int| 0 <= i < j < s.len() ==> !entry_lt(#[trigger] s[j], #[trigger] s[i])
}

/// Whether an id in state `e` belongs in a listing for `requester`:
/// live, and owned by the requester unless `all` is asked.
pub open spec fn listed(e: EntryView, requester: Seq<char>, all: bool) -> bool {
    match e {
        EntryView::Scheduled { owner, fire_at } => all || owner == requester,
        EntryView::Cancelled => false,
    }
}

/// Whether `e` shows a live reminder of `states` that a listing for
/// `requester` includes.
pub open spec fn shows(states: Map<Seq<char>, EntryView>, e: ListEntry, requester: Seq<char>, all: bool) -> bool {
    &&& states.contains_key(e.message_uuid@)
    &&& states[e.message_uuid@] == (EntryView::Scheduled { owner: e.user_id@, fire_at: e.time })
    &&& listed(states[e.message_uuid@], requester, all)
}

/// `r` lists exactly the reminders of `states` that a listing for
/// `requester` includes, each once, in order of fire time (ties by id).
pub open spec fn is_listing(states: Map<Seq<char>, EntryView>, r: Seq<ListEntry>, requester: Seq<char>, all: bool) -> bool {
    &&& entries_sorted(r)
    &&& forall|i: int, j: int|
        0 <= i < j < r.len() ==> (#[trigger] r[i]).message_uuid@ != (#[trigger] r[j]).message_uuid@
    &&& forall|i: int| 0 <= i < r.len() ==> shows(states, #[trigger] r[i], requester, all)
    &&& forall|k: Seq<char>|
        #[trigger] states.contains_key(k) && listed(states[k], requester, all) ==> exists|i: int|
            0 <= i < r.len() && (#[trigger] r[i]).message_uuid@ == k
}

/// The authoritative record of which reminder ids are live or cancelled.
pub struct ActiveSet {
    entries: Vec<(String, TimerState)>,
    model: Ghost<Map<Seq<char>, EntryView>>,
}

impl ActiveSet {
    /// Each known id with its state.
    pub closed spec fn view(&self) -> Map<Seq<char>, EntryView> {
        self.model@
    }

    pub closed spec fn wf(&self) -> bool {
        &&& forall|i: int, j: int|
            0 <= i < j < self.entries@.len() ==> (#[trigger] self.entries@[i]).0@ != (
            #[trigger] self.entries@[j]).0@
        &&& forall|i: int|
            0 <= i < self.entries@.len() ==> self.model@.contains_key(
                (#[trigger] self.entries@[i]).0@,
            ) && self.model@[self.entries@[i].0@] == self.entries@[i].1@
        &&& forall|k: Seq<char>|
            #[trigger] self.model@.contains_key(k) ==> exists|i: int|
                0 <= i < self.entries@.len() && (#[trigger] self.entries@[i]).0@ == k
    }

    pub fn new() -> (r: ActiveSet)
        ensures
            r.wf(),
            r@ == Map::<Seq<char>, EntryView>::empty(),
    {
        ActiveSet { entries: Vec::new(), model: Ghost(Map::empty()) }
    }

    fn find(&self, id: &String) -> (r: Option<usize>)
        requires
            self.wf(),
        ensures
            r is None ==> !self@.contains_key(id@),
            r is Some ==> r->0 < self.entries@.len() && self.entries@[r->0 as int].0@ == id@,
    {
        let n = self.entries.len();
        let mut i: usize = 0;
        while i < n
            invariant
                n == self.entries@.len(),
                i <= n,
                forall|j: int| 0 <= j < i ==> (#[trigger] self.entries@[j]).0@ != id@,
            decreases n - i,
        {
            if self.entries[i].0 == *id {
                return Some(i);
            }
            i = i + 1;
        }
        None
    }

    /// Records `state` for `id`, replacing what was there.
    pub fn upsert(&mut self, id: String, state: TimerState)
        requires
            old(self).wf(),
        ensures
            final(self).wf(),
            final(self)@ == old(self)@.insert(id@, state@),
    {
        let ghost old_entries = self.entries@;
        let ghost key = id@;
        let ghost value = state@;
        match self.find(&id) {
            Some(i) => {
                self.entries.set(i, (id, state));
                self.model = Ghost(self.model@.insert(key, value));
                assert forall|k: Seq<char>| #[trigger] self.model@.contains_key(k) implies exists|
                    j: int,
                | 0 <= j < self.entries@.len() && (#[trigger] self.entries@[j]).0@ == k by {
                    if k != key {
                        let j = choose|j: int|
                            0 <= j < old_entries.len() && (#[trigger] old_entries[j]).0@ == k;
                        assert(self.entries@[j].0@ == k);
                    } else {
                        assert(self.entries@[i as int].0@ == k);
                    }
                }
            },
            None => {
                self.entries.push((id, state));
                self.model = Ghost(self.model@.insert(key, value));
                assert forall|k: Seq<char>| #[trigger] self.model@.contains_key(k) implies exists|
                    j: int,
                | 0 <= j < self.entries@.len() && (#[trigger] self.entries@[j]).0@ == k by {
                    if k != key {
                        let j = choose|j: int|
                            0 <= j < old_entries.len() && (#[trigger] old_entries[j]).0@ == k;
                        assert(self.entries@[j].0@ == k);
                    } else {
                        assert(self.entries@[old_entries.len() as int].0@ == k);
                    }
                }
            },
        }
    }

    /// Marks a live reminder as cancelled when `requester` owns it; leaves
    /// everything unchanged otherwise.
    pub fn cancel(&mut self, id: &String, requester: &String) -> (r: CancelOutcome)
        requires
            old(self).wf(),
        ensures
            final(self).wf(),
            !old(self)@.contains_key(id@) ==> r == CancelOutcome::NotFound,
            old(self)@.contains_key(id@) ==> match old(self)@[id@] {
                EntryView::Cancelled => r == CancelOutcome::AlreadyCancelled,
                EntryView::Scheduled { owner, fire_at } => if owner == requester@ {
                    r == CancelOutcome::Success
                } else {
                    r == CancelOutcome::NotOwner
                },
            },
            r == CancelOutcome::Success ==> final(self)@ == old(self)@.insert(
                id@,
                EntryView::Cancelled,
            ),
            r != CancelOutcome::Success ==> *final(self) == *old(self),
    {
        match self.find(id) {
            None => CancelOutcome::NotFound,
            Some(i) => {
                let owned: Option<bool> = match &self.entries[i].1 {
                    TimerState::Removed => None,
                    TimerState::Idle(owner, _) => Some(*owner == *requester),
                };
                match owned {
                    None => CancelOutcome::AlreadyCancelled,
                    Some(false) => CancelOutcome::NotOwner,
                    Some(true) => {
                        let key = self.entries[i].0.clone();
                        self.upsert(key, TimerState::Removed);
                        CancelOutcome::Success
                    },
                }
            },
        }
    }

    /// Removes `id` and hands back the state it had, if any.
    pub fn consume(&mut self, id: &String) -> (r: Option<TimerState>)
        requires
            old(self).wf(),
        ensures
            final(self).wf(),
            final(self)@ == old(self)@.remove(id@),
            !old(self)@.contains_key(id@) ==> r is None,
            old(self)@.contains_key(id@) ==> r is Some && r->0@ == old(self)@[id@],
    {
        match self.find(id) {
            None => {
                assert(self.model@.remove(id@) =~= self.model@);
                None
            },
            Some(i) => {
                let ghost old_entries = self.entries@;
                let (_, state) = self.entries.remove(i);
                self.model = Ghost(self.model@.remove(id@));
                assert forall|a: int, b: int|
                    0 <= a < b < self.entries@.len() implies (#[trigger] self.entries@[a]).0@ != (
                #[trigger] self.entries@[b]).0@ by {
                    let a0 = if a < i { a } else { a + 1 };
                    let b0 = if b < i { b } else { b + 1 };
                    assert(self.entries@[a] == old_entries[a0]);
                    assert(self.entries@[b] == old_entries[b0]);
                }
                assert forall|a: int| 0 <= a < self.entries@.len() implies self.model@.contains_key(
                    (#[trigger] self.entries@[a]).0@,
                ) && self.model@[self.entries@[a].0@] == self.entries@[a].1@ by {
                    let a0 = if a < i { a } else { a + 1 };
                    assert(self.entries@[a] == old_entries[a0]);
                }
                assert forall|k: Seq<char>| #[trigger] self.model@.contains_key(k) implies exists|
                    j: int,
                | 0 <= j < self.entries@.len() && (#[trigger] self.entries@[j]).0@ == k by {
                    let j = choose|j: int|
                        0 <= j < old_entries.len() && (#[trigger] old_entries[j]).0@ == k;
                    if j < i {
                        assert(self.entries@[j] == old_entries[j]);
                    } else {
                        assert(self.entries@[j - 1] == old_entries[j]);
                    }
                }
                Some(state)
            },
        }
    }

    /// The live reminders of `requester` (of everyone, when `all`), in
    /// order of fire time, ties by id. Nothing is changed.
    pub fn list(&self, requester: &String, all: bool) -> (r: Vec<ListEntry>)
        requires
            self.wf(),
        ensures
            is_listing(self@, r@, requester@, all),
    {
        let mut out: Vec<ListEntry> = Vec::new();
        let n = self.entries.len();
        let mut i: usize = 0;
        while i < n
            invariant
                self.wf(),
                n == self.entries@.len(),
                i <= n,
                entries_sorted(out@),
                forall|a: int, b: int|
                    0 <= a < b < out@.len() ==> (#[trigger] out@[a]).message_uuid@ != (
                    #[trigger] out@[b]).message_uuid@,
                forall|a: int|
                    0 <= a < out@.len() ==> shows(self@, #[trigger] out@[a], requester@, all) && exists|
                        j: int,
                    | 0 <= j < i && (#[trigger] self.entries@[j]).0@ == out@[a].message_uuid@,
                forall|j: int|
                    0 <= j < i && listed((#[trigger] self.entries@[j]).1@, requester@, all) ==> exists|
                        a: int,
                    | 0 <= a < out@.len() && (#[trigger] out@[a]).message_uuid@ == self.entries@[j].0@,
            decreases n - i,
        {
            let wanted: Option<ListEntry> = match &self.entries[i].1 {
                TimerState::Idle(owner, time) => {
                    if all || *owner == *requester {
                        Some(ListEntry { message_uuid: self.entries[i].0.clone(), user_id: owner.clone(), time: *time })
                    } else {
                        None
                    }
                },
                TimerState::Removed => None,
            };
            match wanted {
                None => {},
                Some(e) => {
                    let ghost before = out@;
                    let ghost ei = e;
                    insert_entry(&mut out, e);
                    proof {
                        let p = choose|p: int| 0 <= p <= before.len() && out@ == before.insert(p, ei);
                        assert(out@ == before.insert(p, ei));
                        assert forall|a: int| 0 <= a < out@.len() implies shows(self@, #[trigger] out@[a], requester@, all) && exists|
                            j: int,
                        | 0 <= j < i + 1 && (#[trigger] self.entries@[j]).0@ == out@[a].message_uuid@ by {
                            if a < p {
                                assert(out@[a] == before[a]);
                            } else if a == p {
                                assert(self.entries@[i as int].0@ == out@[a].message_uuid@);
                            } else {
                                assert(out@[a] == before[a - 1]);
                            }
                        }
                        assert forall|a: int, b: int|
                            0 <= a < b < out@.len() implies (#[trigger] out@[a]).message_uuid@ != (
                            #[trigger] out@[b]).message_uuid@ by {
                            let xa = if a < p { a } else { a - 1 };
                            let xb = if b <= p { b } else { b - 1 };
                            if a != p && b != p {
                                assert(out@[a] == before[xa]);
                                assert(out@[b] == before[xb]);
                            } else if a == p {
                                assert(out@[b] == before[b - 1]);
                                let j = choose|j: int| 0 <= j < i && (#[trigger] self.entries@[j]).0@ == before[b - 1].message_uuid@;
                                assert(self.entries@[j].0@ != self.entries@[i as int].0@);
                            } else {
                                assert(out@[a] == before[a]);
                                let j = choose|j: int| 0 <= j < i && (#[trigger] self.entries@[j]).0@ == before[a].message_uuid@;
                                assert(self.entries@[j].0@ != self.entries@[i as int].0@);
                            }
                        }
                        assert forall|j: int|
                            0 <= j < i + 1 && listed((#[trigger] self.entries@[j]).1@, requester@, all) implies exists|
                                a: int,
                            | 0 <= a < out@.len() && (#[trigger] out@[a]).message_uuid@ == self.entries@[j].0@ by {
                            if j < i {
                                let a = choose|a: int| 0 <= a < before.len() && (#[trigger] before[a]).message_uuid@ == self.entries@[j].0@;
                                if a < p {
                                    assert(out@[a] == before[a]);
                                } else {
                                    assert(out@[a + 1] == before[a]);
                                }
                            } else {
                                assert(out@[p] == ei);
                            }
                        }
                    }
                },
            }
            i = i + 1;
        }
        proof {
            assert forall|k: Seq<char>|
                #[trigger] self@.contains_key(k) && listed(self@[k], requester@, all) implies exists|
                    a: int,
                | 0 <= a < out@.len() && (#[trigger] out@[a]).message_uuid@ == k by {
                let j = choose|j: int| 0 <= j < self.entries@.len() && (#[trigger] self.entries@[j]).0@ == k;
                assert(listed(self.entries@[j].1@, requester@, all));
            }
        }
        out
    }
}

/// Inserts `e` into a sorted listing at its place.
fn insert_entry(v: &mut Vec<ListEntry>, e: ListEntry)
    requires
        entries_sorted(old(v)@),
    ensures
        entries_sorted(final(v)@),
        exists|p: int| 0 <= p <= old(v)@.len() && final(v)@ == old(v)@.insert(p, e),
{
    let n = v.len();
    let mut p: usize = 0;
    while p < n && !entry_less(&e, &v[p])
        invariant
            n == v@.len(),
            p <= n,
            forall|i: int| 0 <= i < p ==> !entry_lt(e, #[trigger] v@[i]),
        decreases n - p,
    {
        p = p + 1;
    }
    let ghost s = v@;
    proof {
        assert forall|k: int| p <= k < s.len() implies !entry_lt(#[trigger] s[k], e) by {
            if entry_lt(s[k], e) {
                lemma_key_lt_transitive(
                    s[k].time,
                    s[k].message_uuid@,
                    e.time,
                    e.message_uuid@,
                    s[p as int].time,
                    s[p as int].message_uuid@,
                );
                if k == p {
                    lemma_key_lt_irreflexive(s[k].time, s[k].message_uuid@);
                }
            }
        }
    }
    v.insert(p, e);
    proof {
        let t = v@;
        assert(t == s.insert(p as int, e));
        assert forall|i: int, j: int| 0 <= i < j < t.len() implies !entry_lt(
            #[trigger] t[j],
            #[trigger] t[i],
        ) by {
            if j <= p {
            } else if i <= p {
                assert(t[j] == s[j - 1]);
            } else {
                assert(t[j] == s[j - 1] && t[i] == s[i - 1]);
            }
        }
    }
}

fn entry_less(a: &ListEntry, b: &ListEntry) -> (r: bool)
    ensures
        r == entry_lt(*a, *b),
{
    if a.time != b.time {
        a.time < b.time
    } else {
        id_less(&a.message_uuid, &b.message_uuid)
    }
}

} // verus!
