use vstd::prelude::*;

verus! {

/// A reminder: deliver `message` to `channel_id` at `time` (seconds since
/// the Unix epoch) on behalf of `user_id`. `message_uuid` identifies it.
#[derive(Debug, Clone)]
pub struct Message {
    pub message: String,
    pub time: u64,
    pub message_uuid: String,
    pub channel_id: String,
    pub user_id: String,
}

/// Two reminders are equal when they share fire time and id.
impl PartialEq for Message {
    fn eq(&self, other: &Message) -> (r: bool) {
        self.time == other.time && self.message_uuid == other.message_uuid
    }
}

impl vstd::std_specs::cmp::PartialEqSpecImpl for Message {
    open spec fn obeys_eq_spec() -> bool {
        true
    }

    open spec fn eq_spec(&self, other: &Message) -> bool {
        self.time == other.time && self.message_uuid@ == other.message_uuid@
    }
}

impl Eq for Message {}

/// What the active set records of a reminder id.
#[derive(Debug, Clone, PartialEq, Eq, Hash)]
pub enum TimerState {
    /// Live: the owner's name and the fire time.
    Idle(String, u64),
    /// Cancelled: must not be delivered.
    Removed,
}

/// The mathematical value of a `TimerState`.
pub enum EntryView {
    Scheduled { owner: Seq<char>, fire_at: u64 },
    Cancelled,
}

impl View for TimerState {
    type V = EntryView;

    open spec fn view(&self) -> EntryView {
        match self {
            TimerState::Idle(owner, fire_at) => EntryView::Scheduled { owner: owner@, fire_at: *fire_at },
            TimerState::Removed => EntryView::Cancelled,
        }
    }
}

/// Lexicographic order on ids, compared from position `i` on.
pub open spec fn id_lt_from(a: Seq<char>, b: Seq<char>, i: int) -> bool
    decreases a.len() - i,
{
    if i < 0 || i >= b.len() {
        false
    } else if i >= a.len() {
        true
    } else if a[i] != b[i] {
        (a[i] as u32) < (b[i] as u32)
    } else {
        id_lt_from(a, b, i + 1)
    }
}

/// Strict lexicographic order on ids (a proper prefix comes first).
pub open spec fn id_lt(a: Seq<char>, b: Seq<char>) -> bool {
    id_lt_from(a, b, 0)
}

/// Strict order on reminders: by fire time, ties broken by id.
pub open spec fn key_lt(t1: u64, id1: Seq<char>, t2: u64, id2: Seq<char>) -> bool {
    t1 < t2 || (t1 == t2 && id_lt(id1, id2))
}

pub open spec fn msg_lt(a: Message, b: Message) -> bool {
    key_lt(a.time, a.message_uuid@, b.time, b.message_uuid@)
}

proof fn lemma_id_lt_from_irreflexive(a: Seq<char>, i: int)
    requires
        0 <= i,
    ensures
        !id_lt_from(a, a, i),
    decreases a.len() - i,
{
    if i < a.len() {
        lemma_id_lt_from_irreflexive(a, i + 1);
    }
}

proof fn lemma_id_lt_from_transitive(a: Seq<char>, b: Seq<char>, c: Seq<char>, i: int)
    requires
        0 <= i,
        id_lt_from(a, b, i),
        id_lt_from(b, c, i),
    ensures
        id_lt_from(a, c, i),
    decreases a.len() - i,
{
    if i < a.len() && i < b.len() && i < c.len() && a[i] == b[i] && b[i] == c[i] {
        lemma_id_lt_from_transitive(a, b, c, i + 1);
    }
}

/// The order on reminders is irreflexive.
pub proof fn lemma_key_lt_irreflexive(t: u64, id: Seq<char>)
    ensures
        !key_lt(t, id, t, id),
{
    lemma_id_lt_from_irreflexive(id, 0);
}

/// The order on reminders is transitive.
pub proof fn lemma_key_lt_transitive(
    t1: u64,
    id1: Seq<char>,
    t2: u64,
    id2: Seq<char>,
    t3: u64,
    id3: Seq<char>,
)
    requires
        key_lt(t1, id1, t2, id2),
        key_lt(t2, id2, t3, id3),
    ensures
        key_lt(t1, id1, t3, id3),
{
    if t1 == t2 && t2 == t3 {
        lemma_id_lt_from_transitive(id1, id2, id3, 0);
    }
}

/// Compares two ids in lexicographic order of their characters.
pub fn id_less(a: &String, b: &String) -> (r: bool)
    ensures
        r == id_lt(a@, b@),
{
    let la = a.as_str().unicode_len();
    let lb = b.as_str().unicode_len();
    let mut i: usize = 0;
    while i < la && i < lb
        invariant
            la == a@.len(),
            lb == b@.len(),
            i <= la,
            i <= lb,
            id_lt(a@, b@) == id_lt_from(a@, b@, i as int),
        decreases la - i,
    {
        let ca = a.as_str().get_char(i);
        let cb = b.as_str().get_char(i);
        if ca != cb {
            return (ca as u32) < (cb as u32);
        }
        i = i + 1;
    }
    i < lb
}

/// Whether reminder `a` comes strictly before reminder `b`.
pub fn precedes(a: &Message, b: &Message) -> (r: bool)
    ensures
        r == msg_lt(*a, *b),
{
    if a.time != b.time {
        a.time < b.time
    } else {
        id_less(&a.message_uuid, &b.message_uuid)
    }
}

} // verus!
