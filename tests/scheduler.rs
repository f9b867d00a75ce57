use event_monitor::scheduler::{DueEntry, Scheduler, SchedulerError, TimerCommand};
use event_monitor::types::ActiveJob;

#[test]
fn add_assigns_fresh_ids_and_is_due_at_once() {
    let mut s = Scheduler::new();
    let (a, imm_a) = s.add(ActiveJob { interval: 60 }, 1_000).unwrap();
    let (b, imm_b) = s.add(ActiveJob { interval: 30 }, 2_000).unwrap();
    assert_ne!(a, b);
    assert!(imm_a);
    assert!(imm_b);
    assert_eq!(s.entry(a), Some(DueEntry { next_due: 1_000, interval: 60 }));
    assert_eq!(s.entry(b), Some(DueEntry { next_due: 2_000, interval: 30 }));
    assert_eq!(s.min_due(), Some(1_000));
}

#[test]
fn start_if_required_arms_only_once() {
    let mut s = Scheduler::new();
    assert_eq!(s.start_if_required(), TimerCommand { cancel: false, arm_at: None });
    assert!(!s.is_armed());
    s.add(ActiveJob { interval: 60 }, 5_000).unwrap();
    assert_eq!(s.start_if_required(), TimerCommand { cancel: false, arm_at: Some(5_000) });
    assert!(s.is_armed());
    assert_eq!(s.start_if_required(), TimerCommand { cancel: false, arm_at: None });
}

#[test]
fn add_before_armed_timer_asks_for_restart() {
    let mut s = Scheduler::new();
    let (_, imm) = s.add(ActiveJob { interval: 60 }, 5_000).unwrap();
    assert!(imm);
    s.start_if_required();
    let (_, imm2) = s.add(ActiveJob { interval: 60 }, 4_000).unwrap();
    assert!(!imm2);
    assert_eq!(s.restart(), TimerCommand { cancel: true, arm_at: Some(4_000) });
    let (_, imm3) = s.add(ActiveJob { interval: 60 }, 4_500).unwrap();
    assert!(imm3);
}

#[test]
fn restart_on_empty_set_leaves_timer_unarmed() {
    let mut s = Scheduler::new();
    let (id, _) = s.add(ActiveJob { interval: 60 }, 5_000).unwrap();
    s.start_if_required();
    assert!(s.delete(id));
    assert_eq!(s.restart(), TimerCommand { cancel: true, arm_at: None });
    assert!(!s.is_armed());
}

#[test]
fn delete_is_idempotent() {
    let mut s = Scheduler::new();
    let (id, _) = s.add(ActiveJob { interval: 60 }, 0).unwrap();
    assert!(s.delete(id));
    assert!(!s.delete(id));
    assert_eq!(s.entry(id), None);
    assert_eq!(s.len(), 0);
}

#[test]
fn add_ex_refuses_an_active_job() {
    let mut s = Scheduler::new();
    let (id, _) = s.add(ActiveJob { interval: 60 }, 0).unwrap();
    assert_eq!(s.add_ex(id, ActiveJob { interval: 60 }, 10), Err(SchedulerError::AlreadyActive(id)));
    s.delete(id);
    assert_eq!(s.add_ex(id, ActiveJob { interval: 90 }, 10), Ok(true));
    assert_eq!(s.entry(id), Some(DueEntry { next_due: 10, interval: 90 }));
}

#[test]
fn process_advances_from_previous_due_time_without_drift() {
    let mut s = Scheduler::new();
    let (a, _) = s.add(ActiveJob { interval: 60 }, 1_000).unwrap();
    let (b, _) = s.add(ActiveJob { interval: 10 }, 50_000).unwrap();
    s.start_if_required();
    // Fired late: the next due time is one interval after the previous one, not after now.
    let (due, cmd) = s.process(5_000);
    assert_eq!(due, vec![a]);
    assert_eq!(s.entry(a), Some(DueEntry { next_due: 61_000, interval: 60 }));
    assert_eq!(s.entry(b), Some(DueEntry { next_due: 50_000, interval: 10 }));
    assert_eq!(cmd, TimerCommand { cancel: false, arm_at: Some(50_000) });
    let (due, cmd) = s.process(70_000);
    assert_eq!(due, vec![a, b]);
    assert_eq!(s.entry(a), Some(DueEntry { next_due: 121_000, interval: 60 }));
    assert_eq!(s.entry(b), Some(DueEntry { next_due: 60_000, interval: 10 }));
    assert_eq!(cmd, TimerCommand { cancel: false, arm_at: Some(60_000) });
}

#[test]
fn process_with_nothing_active_leaves_timer_unarmed() {
    let mut s = Scheduler::new();
    let (due, cmd) = s.process(1_000);
    assert!(due.is_empty());
    assert_eq!(cmd, TimerCommand { cancel: false, arm_at: None });
    assert!(!s.is_armed());
}

#[test]
fn process_holds_due_time_at_the_largest_time() {
    let mut s = Scheduler::new();
    let (a, _) = s.add(ActiveJob { interval: 1 }, u64::MAX - 10).unwrap();
    let (due, _) = s.process(u64::MAX);
    assert_eq!(due, vec![a]);
    assert_eq!(s.entry(a), Some(DueEntry { next_due: u64::MAX, interval: 1 }));
}
