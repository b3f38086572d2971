use vstd::prelude::*;
use vstd::multiset::Multiset;
use crate::reminder::{Message, TimerState, EntryView, msg_lt};
use crate::queue::{ReminderQueue, sorted};
use crate::active_set::{ActiveSet, CancelOutcome, ListEntry, is_listing};

verus! {

/// A command handed to the scheduler.
#[derive(Debug, Clone)]
pub enum Operation {
    /// Register a new reminder.
    Add(Message),
    /// Cancel reminder `remove_message_uuid`, asked for by
    /// `trigger_user_name` in message `trigger_message_uuid`.
    Remove { remove_message_uuid: String, trigger_message_uuid: String, trigger_user_name: String },
}

/// What the scheduler should do next, seen from the current time.
#[derive(Debug, Clone, Copy, PartialEq, Eq, Structural)]
pub enum Plan {
    /// The least reminder is due: resolve it now.
    ResolveDue,
    /// Wait for the next command, but at most this many seconds.
    WaitAtMost(u64),
    /// Nothing is pending: wait for the next command only.
    WaitForCommand,
}

/// The outcome of taking the least reminder out of the queue.
#[derive(Debug, Clone)]
pub enum Resolution {
    /// The queue was empty.
    Nothing,
    /// The reminder was live: deliver it.
    Fire(Message),
    /// The reminder had been cancelled: it is now cleaned up, not delivered.
    CancelConsumed(Message),
    /// The active set no longer knew the reminder: dropped silently.
    Dropped(Message),
}

/// The acknowledgement owed for a command.
#[derive(Debug, Clone)]
pub enum Reply {
    /// The reminder `message_uuid` is registered.
    Registered { message_uuid: String },
    /// The outcome of a cancel request for `target`, asked for in message
    /// `trigger_message_uuid`.
    Cancelled { outcome: CancelOutcome, target: String, trigger_message_uuid: String },
}

/// Whether `id` is live in `states`.
pub open spec fn is_scheduled(states: Map<Seq<char>, EntryView>, id: Seq<char>) -> bool {
    states.contains_key(id) && states[id] is Scheduled
}

/// A queue entry at time `t` can stand for state `e` of its id.
pub open spec fn entry_matches(e: EntryView, t: u64) -> bool {
    match e {
        EntryView::Scheduled { owner, fire_at } => fire_at == t,
        EntryView::Cancelled => true,
    }
}

/// The scheduler core: the queue of pending reminders and the active set,
/// with a ghost record of every id ever added, fired and cancelled.
pub struct Timer {
    messages: ReminderQueue,
    timer_states: ActiveSet,
    added: Ghost<Multiset<Seq<char>>>,
    fired: Ghost<Multiset<Seq<char>>>,
    withdrawn: Ghost<Multiset<Seq<char>>>,
}

/// What `add` of `m` makes of `t0`: `t1`.
pub open spec fn add_post(t0: Timer, t1: Timer, m: Message) -> bool {
    &&& exists|p: int| 0 <= p <= t0.queue().len() && t1.queue() == t0.queue().insert(p, m)
    &&& t1.states() == t0.states().insert(
        m.message_uuid@,
        EntryView::Scheduled { owner: m.user_id@, fire_at: m.time },
    )
    &&& t1.added() == t0.added().insert(m.message_uuid@)
    &&& t1.fired() == t0.fired()
    &&& t1.withdrawn() == t0.withdrawn()
}

/// What `cancel` of `id` by `requester` makes of `t0`: `t1`, answering `r`.
pub open spec fn cancel_post(t0: Timer, t1: Timer, id: Seq<char>, requester: Seq<char>, r: CancelOutcome) -> bool {
    &&& !t0.states().contains_key(id) ==> r == CancelOutcome::NotFound
    &&& t0.states().contains_key(id) ==> match t0.states()[id] {
        EntryView::Cancelled => r == CancelOutcome::AlreadyCancelled,
        EntryView::Scheduled { owner, fire_at } => if owner == requester {
            r == CancelOutcome::Success
        } else {
            r == CancelOutcome::NotOwner
        },
    }
    &&& r == CancelOutcome::Success ==> {
        &&& t1.states() == t0.states().insert(id, EntryView::Cancelled)
        &&& t1.queue() == t0.queue()
        &&& t1.added() == t0.added()
        &&& t1.fired() == t0.fired()
        &&& t1.withdrawn() == t0.withdrawn().insert(id)
    }
    &&& r != CancelOutcome::Success ==> t1 == t0
}

impl Timer {
    /// The pending reminders, least first.
    pub closed spec fn queue(&self) -> Seq<Message> {
        self.messages@
    }

    /// The state of each id that the active set knows.
    pub closed spec fn states(&self) -> Map<Seq<char>, EntryView> {
        self.timer_states@
    }

    /// Every id added so far, with its number of additions.
    pub closed spec fn added(&self) -> Multiset<Seq<char>> {
        self.added@
    }

    /// Every id delivered so far, with its number of deliveries.
    pub closed spec fn fired(&self) -> Multiset<Seq<char>> {
        self.fired@
    }

    /// Every id cancelled with success so far, with its number of cancels.
    pub closed spec fn withdrawn(&self) -> Multiset<Seq<char>> {
        self.withdrawn@
    }

    pub closed spec fn wf(&self) -> bool {
        &&& self.messages.wf()
        &&& self.timer_states.wf()
        &&& forall|k: Seq<char>|
            #[trigger] self.states().contains_key(k) ==> exists|i: int|
                0 <= i < self.queue().len() && (#[trigger] self.queue()[i]).message_uuid@ == k
                    && entry_matches(self.states()[k], self.queue()[i].time)
        &&& forall|k: Seq<char>|
            #[trigger] self.fired().count(k) + self.withdrawn().count(k) + (if is_scheduled(
                self.states(),
                k,
            ) {
                1int
            } else {
                0int
            }) <= self.added().count(k)
    }

    pub fn new() -> (r: Timer)
        ensures
            r.wf(),
            sorted(r.queue()),
            r.queue() == Seq::<Message>::empty(),
            r.states() == Map::<Seq<char>, EntryView>::empty(),
            r.added() == Multiset::<Seq<char>>::empty(),
            r.fired() == Multiset::<Seq<char>>::empty(),
            r.withdrawn() == Multiset::<Seq<char>>::empty(),
    {
        Timer {
            messages: ReminderQueue::new(),
            timer_states: ActiveSet::new(),
            added: Ghost(Multiset::empty()),
            fired: Ghost(Multiset::empty()),
            withdrawn: Ghost(Multiset::empty()),
        }
    }

    /// Decides, at time `now`, whether to resolve the least reminder or
    /// how long to wait for a command.
    pub fn plan(&self, now: u64) -> (r: Plan)
        requires
            self.wf(),
        ensures
            self.queue().len() == 0 ==> r == Plan::WaitForCommand,
            self.queue().len() > 0 && self.queue()[0].time <= now ==> r == Plan::ResolveDue,
            self.queue().len() > 0 && self.queue()[0].time > now ==> r == Plan::WaitAtMost(
                (self.queue()[0].time - now) as u64,
            ),
    {
        match self.messages.peek_time() {
            None => Plan::WaitForCommand,
            Some(next_time) => {
                if next_time <= now {
                    Plan::ResolveDue
                } else {
                    Plan::WaitAtMost(next_time - now)
                }
            },
        }
    }

    /// Registers reminder `m`: the active set records it as live and the
    /// queue holds it at its place in the order.
    pub fn add(&mut self, m: Message)
        requires
            old(self).wf(),
        ensures
            final(self).wf(),
            sorted(final(self).queue()),
            add_post(*old(self), *final(self), m),
    {
        let ghost t0 = *self;
        let ghost key = m.message_uuid@;
        let id = m.message_uuid.clone();
        let owner = m.user_id.clone();
        let time = m.time;
        self.timer_states.upsert(id, TimerState::Idle(owner, time));
        self.messages.push(m);
        self.added = Ghost(self.added@.insert(key));
        proof {
            let p = choose|p: int| 0 <= p <= t0.queue().len() && self.queue() == t0.queue().insert(p, m);
            assert(self.queue()[p] == m);
            assert forall|k: Seq<char>| #[trigger] self.states().contains_key(k) implies exists|i: int|
                0 <= i < self.queue().len() && (#[trigger] self.queue()[i]).message_uuid@ == k
                    && entry_matches(self.states()[k], self.queue()[i].time) by {
                if k != key {
                    let i = choose|i: int|
                        0 <= i < t0.queue().len() && (#[trigger] t0.queue()[i]).message_uuid@ == k
                            && entry_matches(t0.states()[k], t0.queue()[i].time);
                    if i < p {
                        assert(self.queue()[i] == t0.queue()[i]);
                    } else {
                        assert(self.queue()[i + 1] == t0.queue()[i]);
                    }
                }
            }
            assert forall|k: Seq<char>|
                #[trigger] self.fired().count(k) + self.withdrawn().count(k) + (if is_scheduled(
                    self.states(),
                    k,
                ) {
                    1int
                } else {
                    0int
                }) <= self.added().count(k) by {
                assert(t0.fired().count(k) + t0.withdrawn().count(k) + (if is_scheduled(t0.states(), k) {
                    1int
                } else {
                    0int
                }) <= t0.added().count(k));
            }
        }
    }

    /// Cancels reminder `id` on behalf of `requester`. Only a live reminder
    /// of the requester's own changes state; its queue entry stays until its
    /// time comes.
    pub fn cancel(&mut self, id: &String, requester: &String) -> (r: CancelOutcome)
        requires
            old(self).wf(),
        ensures
            final(self).wf(),
            sorted(final(self).queue()),
            cancel_post(*old(self), *final(self), id@, requester@, r),
    {
        let ghost t0 = *self;
        let r = self.timer_states.cancel(id, requester);
        if r == CancelOutcome::Success {
            self.withdrawn = Ghost(self.withdrawn@.insert(id@));
            proof {
                assert forall|k: Seq<char>| #[trigger] self.states().contains_key(k) implies exists|i: int|
                    0 <= i < self.queue().len() && (#[trigger] self.queue()[i]).message_uuid@ == k
                        && entry_matches(self.states()[k], self.queue()[i].time) by {
                    assert(t0.states().contains_key(k));
                    let i = choose|i: int|
                        0 <= i < t0.queue().len() && (#[trigger] t0.queue()[i]).message_uuid@ == k
                            && entry_matches(t0.states()[k], t0.queue()[i].time);
                    assert(self.queue()[i] == t0.queue()[i]);
                }
                assert forall|k: Seq<char>|
                    #[trigger] self.fired().count(k) + self.withdrawn().count(k) + (if is_scheduled(
                        self.states(),
                        k,
                    ) {
                        1int
                    } else {
                        0int
                    }) <= self.added().count(k) by {
                    assert(t0.fired().count(k) + t0.withdrawn().count(k) + (if is_scheduled(t0.states(), k) {
                        1int
                    } else {
                        0int
                    }) <= t0.added().count(k));
                }
            }
        }
        r
    }

    /// Handles one command and says which acknowledgement is owed.
    pub fn operation(&mut self, op: Operation) -> (r: Reply)
        requires
            old(self).wf(),
        ensures
            final(self).wf(),
            sorted(final(self).queue()),
            match op {
                Operation::Add(m) => add_post(*old(self), *final(self), m) && r == (Reply::Registered {
                    message_uuid: m.message_uuid,
                }),
                Operation::Remove { remove_message_uuid, trigger_message_uuid, trigger_user_name } => {
                    &&& r is Cancelled
                    &&& r->target == remove_message_uuid
                    &&& r->trigger_message_uuid == trigger_message_uuid
                    &&& cancel_post(
                        *old(self),
                        *final(self),
                        remove_message_uuid@,
                        trigger_user_name@,
                        r->outcome,
                    )
                },
            },
    {
        match op {
            Operation::Add(m) => {
                let message_uuid = m.message_uuid.clone();
                self.add(m);
                Reply::Registered { message_uuid }
            },
            Operation::Remove { remove_message_uuid, trigger_message_uuid, trigger_user_name } => {
                let outcome = self.cancel(&remove_message_uuid, &trigger_user_name);
                Reply::Cancelled { outcome, target: remove_message_uuid, trigger_message_uuid }
            },
        }
    }

    /// Takes the least reminder out of the queue and its id out of the
    /// active set, and says whether it is to be delivered.
    pub fn consume_top_message(&mut self) -> (r: Resolution)
        requires
            old(self).wf(),
        ensures
            final(self).wf(),
            sorted(final(self).queue()),
            final(self).added() == old(self).added(),
            final(self).withdrawn() == old(self).withdrawn(),
            old(self).queue().len() == 0 ==> r is Nothing && *final(self) == *old(self),
            old(self).queue().len() > 0 ==> {
                let m = old(self).queue()[0];
                let id = m.message_uuid@;
                &&& final(self).queue() == old(self).queue().drop_first()
                &&& final(self).states() == old(self).states().remove(id)
                &&& forall|i: int|
                    0 <= i < final(self).queue().len() ==> m.time <= (#[trigger] final(self).queue()[i]).time
                &&& is_scheduled(old(self).states(), id) ==> r == Resolution::Fire(m)
                    && final(self).fired() == old(self).fired().insert(id)
                &&& !is_scheduled(old(self).states(), id) ==> final(self).fired() == old(self).fired()
                &&& !old(self).states().contains_key(id) ==> r == Resolution::Dropped(m)
                &&& old(self).states().contains_key(id) && old(self).states()[id] is Cancelled
                    ==> r == Resolution::CancelConsumed(m)
            },
    {
        let ghost t0 = *self;
        match self.messages.pop() {
            None => Resolution::Nothing,
            Some(m) => {
                let ghost key = m.message_uuid@;
                let state = self.timer_states.consume(&m.message_uuid);
                let r = match state {
                    None => Resolution::Dropped(m),
                    Some(TimerState::Idle(_, _)) => {
                        self.fired = Ghost(self.fired@.insert(key));
                        Resolution::Fire(m)
                    },
                    Some(TimerState::Removed) => Resolution::CancelConsumed(m),
                };
                proof {
                    assert forall|i: int| 0 <= i < self.queue().len() implies t0.queue()[0].time <= (
                    #[trigger] self.queue()[i]).time by {
                        assert(!msg_lt(self.queue()[i], t0.queue()[0]));
                    }
                    assert forall|k: Seq<char>| #[trigger] self.states().contains_key(k) implies exists|i: int|
                        0 <= i < self.queue().len() && (#[trigger] self.queue()[i]).message_uuid@ == k
                            && entry_matches(self.states()[k], self.queue()[i].time) by {
                        let i = choose|i: int|
                            0 <= i < t0.queue().len() && (#[trigger] t0.queue()[i]).message_uuid@ == k
                                && entry_matches(t0.states()[k], t0.queue()[i].time);
                        assert(i != 0);
                        assert(self.queue()[i - 1] == t0.queue()[i]);
                    }
                    assert forall|k: Seq<char>|
                        #[trigger] self.fired().count(k) + self.withdrawn().count(k) + (if is_scheduled(
                            self.states(),
                            k,
                        ) {
                            1int
                        } else {
                            0int
                        }) <= self.added().count(k) by {
                        assert(t0.fired().count(k) + t0.withdrawn().count(k) + (if is_scheduled(t0.states(), k) {
                            1int
                        } else {
                            0int
                        }) <= t0.added().count(k));
                    }
                }
                r
            },
        }
    }

    /// The live reminders of `requester` (of everyone, when `all`), in
    /// order of fire time, ties by id. Nothing is changed.
    pub fn list(&self, requester: &String, all: bool) -> (r: Vec<ListEntry>)
        requires
            self.wf(),
        ensures
            is_listing(self.states(), r@, requester@, all),
    {
        self.timer_states.list(requester, all)
    }
}

/// A reminder id that was added at most once is delivered at most once, in
/// every state that the scheduler's operations reach.
pub proof fn lemma_fires_at_most_once(t: &Timer, id: Seq<char>)
    requires
        t.wf(),
        t.added().count(id) <= 1,
    ensures
        t.fired().count(id) <= 1,
{
    assert(t.fired().count(id) + t.withdrawn().count(id) + (if is_scheduled(t.states(), id) {
        1int
    } else {
        0int
    }) <= t.added().count(id));
}

/// Once a reminder id that was added at most once has been cancelled with
/// success, it has not been delivered and is no longer live, in every
/// state reached afterwards: it is never delivered.
pub proof fn lemma_cancelled_never_fires(t: &Timer, id: Seq<char>)
    requires
        t.wf(),
        t.added().count(id) <= 1,
        t.withdrawn().count(id) >= 1,
    ensures
        t.fired().count(id) == 0,
        !is_scheduled(t.states(), id),
{
    assert(t.fired().count(id) + t.withdrawn().count(id) + (if is_scheduled(t.states(), id) {
        1int
    } else {
        0int
    }) <= t.added().count(id));
}

/// A live reminder keeps a queue entry at its own fire time, so that it is
/// delivered when that time comes, whatever cancels by others were refused.
pub proof fn lemma_live_reminder_stays_queued(t: &Timer, id: Seq<char>)
    requires
        t.wf(),
        is_scheduled(t.states(), id),
    ensures
        exists|i: int|
            0 <= i < t.queue().len() && (#[trigger] t.queue()[i]).message_uuid@ == id
                && t.queue()[i].time == t.states()[id]->fire_at,
{
    assert(t.states().contains_key(id));
}

/// After adding `a` and then `b`, where `b` is due strictly before `a`,
/// `b` stands ahead of `a` in the queue, so it is resolved first.
pub proof fn lemma_earlier_resolves_first(t0: &Timer, t1: &Timer, t2: &Timer, a: Message, b: Message)
    requires
        t0.wf(),
        t1.wf(),
        t2.wf(),
        add_post(*t0, *t1, a),
        add_post(*t1, *t2, b),
        b.time < a.time,
    ensures
        exists|i: int| 0 <= i < t2.queue().len() && t2.queue()[i] == a,
        exists|j: int| 0 <= j < t2.queue().len() && t2.queue()[j] == b,
        forall|i: int, j: int|
            0 <= i < t2.queue().len() && 0 <= j < t2.queue().len() && #[trigger] t2.queue()[i] == a
                && #[trigger] t2.queue()[j] == b ==> j < i,
{
    let p1 = choose|p: int| 0 <= p <= t0.queue().len() && t1.queue() == t0.queue().insert(p, a);
    let p2 = choose|p: int| 0 <= p <= t1.queue().len() && t2.queue() == t1.queue().insert(p, b);
    assert(t1.queue()[p1] == a);
    assert(t2.queue()[p2] == b);
    if p1 < p2 {
        assert(t2.queue()[p1] == a);
    } else {
        assert(t2.queue()[p1 + 1] == a);
    }
    assert forall|i: int, j: int|
        0 <= i < t2.queue().len() && 0 <= j < t2.queue().len() && #[trigger] t2.queue()[i] == a
            && #[trigger] t2.queue()[j] == b implies j < i by {
        assert(msg_lt(b, a));
        if i < j {
            assert(!msg_lt(t2.queue()[j], t2.queue()[i]));
        }
    }
}

/// A cancel that follows a successful cancel of the same id, by anyone,
/// answers `AlreadyCancelled` and changes nothing.
pub proof fn lemma_second_cancel_changes_nothing(
    t0: &Timer,
    t1: &Timer,
    t2: &Timer,
    id: Seq<char>,
    first: Seq<char>,
    second: Seq<char>,
    r1: CancelOutcome,
    r2: CancelOutcome,
)
    requires
        cancel_post(*t0, *t1, id, first, r1),
        r1 == CancelOutcome::Success,
        cancel_post(*t1, *t2, id, second, r2),
    ensures
        r2 == CancelOutcome::AlreadyCancelled,
        *t2 == *t1,
{
    assert(t1.states().contains_key(id));
}

/// A cancel of a live reminder by someone other than its owner answers
/// `NotOwner`, changes nothing, and the reminder keeps its queue entry at
/// its own fire time.
pub proof fn lemma_refused_cancel_keeps_fire(
    t0: &Timer,
    t1: &Timer,
    id: Seq<char>,
    requester: Seq<char>,
    r: CancelOutcome,
)
    requires
        t0.wf(),
        cancel_post(*t0, *t1, id, requester, r),
        is_scheduled(t0.states(), id),
        t0.states()[id]->owner != requester,
    ensures
        r == CancelOutcome::NotOwner,
        *t1 == *t0,
        exists|i: int|
            0 <= i < t1.queue().len() && (#[trigger] t1.queue()[i]).message_uuid@ == id
                && t1.queue()[i].time == t1.states()[id]->fire_at,
{
    lemma_live_reminder_stays_queued(t0, id);
}

/// A new reminder `a` cancelled by its owner: the cancel succeeds, and from
/// then on, in every state reached without adding the id again, `a` has not
/// been delivered and is not live, so no later resolution fires it.
pub proof fn lemma_owner_cancel_after_add(
    t0: &Timer,
    t1: &Timer,
    t2: &Timer,
    t: &Timer,
    a: Message,
    r: CancelOutcome,
)
    requires
        t0.wf(),
        t1.wf(),
        t2.wf(),
        t.wf(),
        t0.added().count(a.message_uuid@) == 0,
        add_post(*t0, *t1, a),
        cancel_post(*t1, *t2, a.message_uuid@, a.user_id@, r),
        t.added().count(a.message_uuid@) == t2.added().count(a.message_uuid@),
        t.withdrawn().count(a.message_uuid@) >= t2.withdrawn().count(a.message_uuid@),
    ensures
        r == CancelOutcome::Success,
        t2.states()[a.message_uuid@] == EntryView::Cancelled,
        t.fired().count(a.message_uuid@) == 0,
        !is_scheduled(t.states(), a.message_uuid@),
{
    let id = a.message_uuid@;
    assert(t1.states().contains_key(id));
    assert(t1.added().count(id) == 1);
    lemma_cancelled_never_fires(t, id);
}

/// A new reminder `a` whose cancel is asked by someone else: the cancel is
/// refused and changes nothing; `a` is live, not yet delivered, and keeps a
/// queue entry at its own fire time, so the resolution that reaches it
/// fires it.
pub proof fn lemma_other_cancel_after_add(
    t0: &Timer,
    t1: &Timer,
    t2: &Timer,
    a: Message,
    requester: Seq<char>,
    r: CancelOutcome,
)
    requires
        t0.wf(),
        t1.wf(),
        t2.wf(),
        t0.added().count(a.message_uuid@) == 0,
        add_post(*t0, *t1, a),
        requester != a.user_id@,
        cancel_post(*t1, *t2, a.message_uuid@, requester, r),
    ensures
        r == CancelOutcome::NotOwner,
        *t2 == *t1,
        t2.states()[a.message_uuid@] == (EntryView::Scheduled { owner: a.user_id@, fire_at: a.time }),
        t2.fired().count(a.message_uuid@) == 0,
        exists|i: int|
            0 <= i < t2.queue().len() && (#[trigger] t2.queue()[i]).message_uuid@ == a.message_uuid@
                && t2.queue()[i].time == a.time,
{
    let id = a.message_uuid@;
    assert(t1.states().contains_key(id));
    assert(t2.added().count(id) == 1);
    assert(t2.fired().count(id) + t2.withdrawn().count(id) + (if is_scheduled(t2.states(), id) {
        1int
    } else {
        0int
    }) <= t2.added().count(id));
    lemma_live_reminder_stays_queued(t2, id);
}

} // verus!
