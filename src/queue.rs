use vstd::prelude::*;
use crate::reminder::{Message, msg_lt, precedes, lemma_key_lt_irreflexive, lemma_key_lt_transitive};

verus! {

/// No reminder of `s` comes strictly before one that stands ahead of it.
pub open spec fn sorted(s: Seq<Message>) -> bool {
    forall|i: int, j: int| 0 <= i < j < s.len() ==> !msg_lt(#[trigger] s[j], #[trigger] s[i])
}

/// The pending reminders, kept in order of fire time (ties by id); the
/// least one stands first.
pub struct ReminderQueue {
    items: Vec<Message>,
}

impl ReminderQueue {
    /// The pending reminders, least first.
    pub closed spec fn view(&self) -> Seq<Message> {
        self.items@
    }

    pub open spec fn wf(&self) -> bool {
        sorted(self@)
    }

    pub fn new() -> (r: ReminderQueue)
        ensures
            r@ == Seq::<Message>::empty(),
            r.wf(),
    {
        ReminderQueue { items: Vec::new() }
    }

    pub fn len(&self) -> (r: usize)
        ensures
            r == self@.len(),
    {
        self.items.len()
    }

    /// The fire time of the least reminder, if any.
    pub fn peek_time(&self) -> (r: Option<u64>)
        requires
            self.wf(),
        ensures
            self@.len() == 0 ==> r is None,
            self@.len() > 0 ==> r == Some(self@[0].time),
            forall|i: int| 0 <= i < self@.len() ==> self@[0].time <= #[trigger] self@[i].time,
    {
        assert forall|i: int| 0 <= i < self@.len() implies self@[0].time <= #[trigger] self@[i].time by {
            if i > 0 {
                assert(!msg_lt(self@[i], self@[0]));
            }
        }
        if self.items.len() == 0 {
            None
        } else {
            Some(self.items[0].time)
        }
    }

    /// Adds a reminder at its place in the order.
    pub fn push(&mut self, m: Message)
        requires
            old(self).wf(),
        ensures
            final(self).wf(),
            exists|p: int| 0 <= p <= old(self)@.len() && final(self)@ == old(self)@.insert(p, m),
    {
        let n = self.items.len();
        let mut p: usize = 0;
        while p < n && !precedes(&m, &self.items[p])
            invariant
                n == self.items@.len(),
                p <= n,
                forall|i: int| 0 <= i < p ==> !msg_lt(m, #[trigger] self.items@[i]),
            decreases n - p,
        {
            p = p + 1;
        }
        let ghost s = self.items@;
        proof {
            assert forall|k: int| p <= k < s.len() implies !msg_lt(#[trigger] s[k], m) by {
                if msg_lt(s[k], m) {
                    lemma_key_lt_transitive(
                        s[k].time,
                        s[k].message_uuid@,
                        m.time,
                        m.message_uuid@,
                        s[p as int].time,
                        s[p as int].message_uuid@,
                    );
                    if k == p {
                        lemma_key_lt_irreflexive(s[k].time, s[k].message_uuid@);
                    }
                }
            }
        }
        self.items.insert(p, m);
        proof {
            let t = self.items@;
            assert(t == s.insert(p as int, m));
            assert forall|i: int, j: int| 0 <= i < j < t.len() implies !msg_lt(
                #[trigger] t[j],
                #[trigger] t[i],
            ) by {
                if j < p {
                } else if j == p {
                } else if i < p {
                    assert(t[j] == s[j - 1]);
                } else if i == p {
                    assert(t[j] == s[j - 1]);
                } else {
                    assert(t[j] == s[j - 1] && t[i] == s[i - 1]);
                }
            }
        }
    }

    /// Takes out the least reminder, if any.
    pub fn pop(&mut self) -> (r: Option<Message>)
        requires
            old(self).wf(),
        ensures
            final(self).wf(),
            old(self)@.len() == 0 ==> r is None && *final(self) == *old(self),
            old(self)@.len() > 0 ==> r == Some(old(self)@[0]) && final(self)@ == old(
                self,
            )@.drop_first(),
            r is Some ==> forall|i: int|
                0 <= i < final(self)@.len() ==> !msg_lt(#[trigger] final(self)@[i], r->0),
    {
        if self.items.len() == 0 {
            return None;
        }
        let ghost s = self.items@;
        let m = self.items.remove(0);
        proof {
            let t = self.items@;
            assert(t =~= s.drop_first());
            assert forall|i: int| 0 <= i < t.len() implies !msg_lt(#[trigger] t[i], m) by {
                assert(t[i] == s[i + 1]);
            }
            assert forall|i: int, j: int| 0 <= i < j < t.len() implies !msg_lt(
                #[trigger] t[j],
                #[trigger] t[i],
            ) by {
                assert(t[j] == s[j + 1] && t[i] == s[i + 1]);
            }
        }
        Some(m)
    }
}

} // verus!
