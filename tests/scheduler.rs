use stimer::active_set::{ActiveSet, CancelOutcome};
use stimer::reminder::{id_less, precedes, Message, TimerState};
use stimer::scheduler::{Operation, Plan, Reply, Resolution, Timer};

fn msg(id: &str, time: u64, owner: &str) -> Message {
    Message {
        message: format!("remind {}", id),
        time,
        message_uuid: id.to_string(),
        channel_id: "chan".to_string(),
        user_id: owner.to_string(),
    }
}

fn remove(id: &str, trigger: &str, user: &str) -> Operation {
    Operation::Remove {
        remove_message_uuid: id.to_string(),
        trigger_message_uuid: trigger.to_string(),
        trigger_user_name: user.to_string(),
    }
}

fn outcome(r: Reply) -> CancelOutcome {
    match r {
        Reply::Cancelled { outcome, .. } => outcome,
        Reply::Registered { .. } => panic!("expected a cancel reply"),
    }
}

fn fired_id(r: Resolution) -> Option<String> {
    match r {
        Resolution::Fire(m) => Some(m.message_uuid),
        _ => None,
    }
}

#[test]
fn cancel_by_owner_prevents_fire() {
    let now = 1_000;
    let mut t = Timer::new();
    let r = t.operation(Operation::Add(msg("A", now + 10, "U1")));
    assert!(matches!(r, Reply::Registered { ref message_uuid } if message_uuid == "A"));
    assert_eq!(t.plan(now + 1), Plan::WaitAtMost(9));
    let r = t.operation(remove("A", "T1", "U1"));
    match r {
        Reply::Cancelled { outcome, target, trigger_message_uuid } => {
            assert_eq!(outcome, CancelOutcome::Success);
            assert_eq!(target, "A");
            assert_eq!(trigger_message_uuid, "T1");
        }
        _ => panic!("expected a cancel reply"),
    }
    assert_eq!(t.plan(now + 10), Plan::ResolveDue);
    assert!(matches!(t.consume_top_message(), Resolution::CancelConsumed(ref m) if m.message_uuid == "A"));
    assert!(matches!(t.consume_top_message(), Resolution::Nothing));
    assert_eq!(t.plan(now + 20), Plan::WaitForCommand);
}

#[test]
fn cancel_by_other_user_still_fires() {
    let now = 1_000;
    let mut t = Timer::new();
    t.operation(Operation::Add(msg("A", now + 10, "U1")));
    assert_eq!(outcome(t.operation(remove("A", "T1", "U2"))), CancelOutcome::NotOwner);
    assert_eq!(t.plan(now + 9), Plan::WaitAtMost(1));
    assert_eq!(t.plan(now + 10), Plan::ResolveDue);
    assert_eq!(fired_id(t.consume_top_message()), Some("A".to_string()));
}

#[test]
fn cancel_unknown_is_not_found() {
    let mut t = Timer::new();
    assert_eq!(outcome(t.operation(remove("X", "T1", "U1"))), CancelOutcome::NotFound);
    assert!(t.list(&"U1".to_string(), true).is_empty());
}

#[test]
fn second_cancel_is_already_cancelled() {
    let mut t = Timer::new();
    t.operation(Operation::Add(msg("A", 50, "U1")));
    assert_eq!(outcome(t.operation(remove("A", "T1", "U1"))), CancelOutcome::Success);
    assert_eq!(outcome(t.operation(remove("A", "T2", "U1"))), CancelOutcome::AlreadyCancelled);
    assert_eq!(outcome(t.operation(remove("A", "T3", "U2"))), CancelOutcome::AlreadyCancelled);
    assert!(matches!(t.consume_top_message(), Resolution::CancelConsumed(_)));
    assert_eq!(outcome(t.operation(remove("A", "T4", "U1"))), CancelOutcome::NotFound);
}

#[test]
fn earlier_reminder_fires_first() {
    let t0 = 2_000;
    let mut t = Timer::new();
    t.operation(Operation::Add(msg("A", t0 + 5, "U1")));
    t.operation(Operation::Add(msg("B", t0 + 1, "U1")));
    assert_eq!(t.plan(t0), Plan::WaitAtMost(1));
    assert_eq!(fired_id(t.consume_top_message()), Some("B".to_string()));
    assert_eq!(t.plan(t0 + 1), Plan::WaitAtMost(4));
    assert_eq!(fired_id(t.consume_top_message()), Some("A".to_string()));
    assert!(matches!(t.consume_top_message(), Resolution::Nothing));
}

#[test]
fn equal_times_resolve_by_id() {
    let mut t = Timer::new();
    t.operation(Operation::Add(msg("b", 7, "U1")));
    t.operation(Operation::Add(msg("ab", 7, "U1")));
    t.operation(Operation::Add(msg("a", 7, "U1")));
    assert_eq!(fired_id(t.consume_top_message()), Some("a".to_string()));
    assert_eq!(fired_id(t.consume_top_message()), Some("ab".to_string()));
    assert_eq!(fired_id(t.consume_top_message()), Some("b".to_string()));
}

#[test]
fn each_reminder_fires_once() {
    let mut t = Timer::new();
    t.operation(Operation::Add(msg("A", 3, "U1")));
    t.operation(Operation::Add(msg("B", 4, "U2")));
    let mut fired = Vec::new();
    for _ in 0..5 {
        if let Some(id) = fired_id(t.consume_top_message()) {
            fired.push(id);
        }
    }
    assert_eq!(fired, vec!["A".to_string(), "B".to_string()]);
}

#[test]
fn list_mine_and_all() {
    let mut t = Timer::new();
    t.operation(Operation::Add(msg("c", 30, "U1")));
    t.operation(Operation::Add(msg("a", 10, "U2")));
    t.operation(Operation::Add(msg("b", 20, "U1")));
    t.operation(Operation::Add(msg("d", 20, "U1")));
    t.operation(Operation::Add(msg("e", 5, "U1")));
    t.operation(remove("e", "T", "U1"));
    let mine = t.list(&"U1".to_string(), false);
    let ids: Vec<&str> = mine.iter().map(|e| e.message_uuid.as_str()).collect();
    assert_eq!(ids, vec!["b", "d", "c"]);
    assert!(mine.iter().all(|e| e.user_id == "U1"));
    assert_eq!(mine[0].time, 20);
    let all = t.list(&"U1".to_string(), true);
    let ids: Vec<&str> = all.iter().map(|e| e.message_uuid.as_str()).collect();
    assert_eq!(ids, vec!["a", "b", "d", "c"]);
    assert_eq!(all[0].user_id, "U2");
    assert_eq!(t.list(&"U3".to_string(), false).len(), 0);
}

#[test]
fn empty_timer_waits_for_command() {
    let mut t = Timer::new();
    assert_eq!(t.plan(0), Plan::WaitForCommand);
    assert_eq!(t.plan(u64::MAX), Plan::WaitForCommand);
    assert!(matches!(t.consume_top_message(), Resolution::Nothing));
}

#[test]
fn due_in_the_past_resolves_now() {
    let mut t = Timer::new();
    t.operation(Operation::Add(msg("A", 0, "U1")));
    assert_eq!(t.plan(u64::MAX), Plan::ResolveDue);
    t.operation(Operation::Add(msg("B", u64::MAX, "U1")));
    assert_eq!(t.plan(0), Plan::ResolveDue);
    assert_eq!(fired_id(t.consume_top_message()), Some("A".to_string()));
    assert_eq!(t.plan(0), Plan::WaitAtMost(u64::MAX));
}

#[test]
fn consumed_entry_unknown_to_active_set_is_dropped() {
    let mut t = Timer::new();
    t.operation(Operation::Add(msg("A", 5, "U1")));
    t.operation(Operation::Add(msg("A", 9, "U1")));
    assert_eq!(fired_id(t.consume_top_message()), Some("A".to_string()));
    assert!(matches!(t.consume_top_message(), Resolution::Dropped(ref m) if m.time == 9));
}

#[test]
fn active_set_operations() {
    let mut s = ActiveSet::new();
    s.upsert("A".to_string(), TimerState::Idle("U1".to_string(), 4));
    assert_eq!(s.cancel(&"A".to_string(), &"U2".to_string()), CancelOutcome::NotOwner);
    assert_eq!(s.cancel(&"A".to_string(), &"U1".to_string()), CancelOutcome::Success);
    assert_eq!(s.consume(&"A".to_string()), Some(TimerState::Removed));
    assert_eq!(s.consume(&"A".to_string()), None);
    assert_eq!(s.cancel(&"A".to_string(), &"U1".to_string()), CancelOutcome::NotFound);
}

#[test]
fn id_order_is_lexicographic() {
    assert!(id_less(&"a".to_string(), &"b".to_string()));
    assert!(id_less(&"ab".to_string(), &"b".to_string()));
    assert!(id_less(&"a".to_string(), &"ab".to_string()));
    assert!(!id_less(&"ab".to_string(), &"ab".to_string()));
    assert!(!id_less(&"b".to_string(), &"ab".to_string()));
    assert!(id_less(&"".to_string(), &"a".to_string()));
    assert!(precedes(&msg("z", 1, "U"), &msg("a", 2, "U")));
    assert!(!precedes(&msg("a", 2, "U"), &msg("z", 1, "U")));
}

#[test]
fn reminders_equal_by_time_and_id() {
    assert!(msg("A", 1, "U1") == msg("A", 1, "U2"));
    assert!(msg("A", 1, "U1") != msg("A", 2, "U1"));
    assert!(msg("A", 1, "U1") != msg("B", 1, "U1"));
}
