use event_monitor::manager::{JobManager, ManagerError, RunAction, RunEvent};
use event_monitor::scheduler::{DueEntry, TimerCommand};
use event_monitor::store::JobStorage;
use event_monitor::types::{CanisterSource, Job, JobId, JobState, JobType, Record};

fn job(template: &str, interval: u32, batch_size: u32) -> Job {
    Job {
        ty: JobType::Canister(CanisterSource {
            canister_id: "ryjl3-tyaaa-aaaaa-aaaba-cai".to_string(),
            method_name: "get_events".to_string(),
        }),
        output_template: template.to_string(),
        interval,
        offset: 0,
        batch_size,
        state: JobState::Idle,
    }
}

fn source(n: usize) -> Vec<Record> {
    (1..=n).map(|i| vec![("id".to_string(), i.to_string())]).collect()
}

/// Runs one execution of `id` against `src`; the poll numbered `fail_at` fails.
fn execute(m: &mut JobManager, id: JobId, src: &[Record], fail_at: Option<usize>) -> Vec<Vec<String>> {
    let mut run = m.begin_run(id).unwrap();
    let mut notified = vec![];
    let mut polls = 0usize;
    let mut action = run.first_action();
    loop {
        let ev = match action {
            RunAction::Poll { offset, batch_size } => {
                let ev = if fail_at == Some(polls) {
                    RunEvent::PollFailed
                } else {
                    let lo = (offset as usize).min(src.len());
                    let hi = (lo + batch_size as usize).min(src.len());
                    RunEvent::Polled { records: src[lo..hi].to_vec(), total: src.len() as u32 }
                };
                polls += 1;
                ev
            }
            RunAction::Notify(msgs) => {
                notified.push(msgs);
                RunEvent::Notified
            }
            RunAction::Finish => break,
        };
        action = run.on_event(ev);
    }
    m.finish_run(&run);
    notified
}

fn offset_of(m: &JobManager, id: JobId) -> u32 {
    m.store().load(id).unwrap().offset
}

#[test]
fn add_stores_running_job_and_arms_timer() {
    let mut m = JobManager::new();
    let (id, cmd) = m.add(job("id={id}", 60, 2), 1_000).unwrap();
    assert_eq!(cmd, TimerCommand { cancel: false, arm_at: Some(1_000) });
    assert_eq!(m.store().load(id).unwrap().state, JobState::Running);
    assert_eq!(m.scheduler().entry(id), Some(DueEntry { next_due: 1_000, interval: 60 }));
    let (id2, cmd2) = m.add(job("x", 60, 2), 2_000).unwrap();
    assert_ne!(id, id2);
    assert_eq!(cmd2, TimerCommand { cancel: false, arm_at: None });
}

#[test]
fn add_then_delete_leaves_no_residue() {
    let mut m = JobManager::new();
    let (keep, _) = m.add(job("a", 60, 2), 0).unwrap();
    let before = m.list(0, 100).len();
    let (id, _) = m.add(job("b", 30, 2), 0).unwrap();
    m.delete(id).unwrap();
    assert_eq!(m.list(0, 100).len(), before);
    assert!(!m.store().contains(&id));
    assert_eq!(m.scheduler().entry(id), None);
    assert_eq!(m.scheduler().len(), 1);
    assert!(m.store().contains(&keep));
}

#[test]
fn stop_and_start_keep_state_and_due_set_in_step() {
    let mut m = JobManager::new();
    let (id, _) = m.add(job("a", 60, 2), 0).unwrap();
    m.stop(id).unwrap();
    assert_eq!(m.store().load(id).unwrap().state, JobState::Idle);
    assert_eq!(m.scheduler().entry(id), None);
    m.stop(id).unwrap();
    assert_eq!(m.store().load(id).unwrap().state, JobState::Idle);
    m.start(id, 500).unwrap();
    assert_eq!(m.store().load(id).unwrap().state, JobState::Running);
    assert_eq!(m.scheduler().entry(id), Some(DueEntry { next_due: 500, interval: 60 }));
    assert_eq!(m.start(id, 900), Ok(TimerCommand { cancel: false, arm_at: None }));
    assert_eq!(m.scheduler().entry(id), Some(DueEntry { next_due: 500, interval: 60 }));
}

#[test]
fn unknown_ids_are_errors() {
    let mut m = JobManager::new();
    assert_eq!(m.start(7, 0), Err(ManagerError::UnknownJob(7)));
    assert_eq!(m.stop(7), Err(ManagerError::UnknownJob(7)));
    assert_eq!(m.delete(7), Err(ManagerError::UnknownJob(7)));
    assert!(m.begin_run(7).is_none());
}

#[test]
fn list_pages_in_id_order() {
    let mut m = JobManager::new();
    let mut ids = vec![];
    for i in 0..5 {
        ids.push(m.add(job(&format!("t{}", i), 60, 1), 0).unwrap().0);
    }
    let page: Vec<JobId> = m.list(1, 2).iter().map(|(id, _)| *id).collect();
    assert_eq!(page, vec![ids[1], ids[2]]);
    assert_eq!(m.list(4, 10).len(), 1);
    assert!(m.list(9, 10).is_empty());
    assert_eq!(m.list(2, usize::MAX).len(), 3);
}

#[test]
fn storage_upserts_and_removes() {
    let mut s = JobStorage::new();
    s.save(3, job("a", 1, 1));
    s.save(1, job("b", 1, 1));
    s.save(3, job("c", 1, 1));
    let l = s.list(0, 10);
    assert_eq!(l.len(), 2);
    assert_eq!(l[0].0, 1);
    assert_eq!(l[1].1.output_template, "c");
    s.remove(1);
    s.remove(1);
    assert!(!s.contains(&1));
    assert!(s.load(1).is_none());
    assert_eq!(s.load(3).unwrap().output_template, "c");
}

#[test]
fn timer_dispatches_due_jobs() {
    let mut m = JobManager::new();
    let (a, _) = m.add(job("a", 60, 1), 1_000).unwrap();
    let (b, _) = m.add(job("b", 60, 1), 90_000).unwrap();
    let (due, cmd) = m.on_timer(2_000);
    assert_eq!(due, vec![a]);
    assert_eq!(cmd, TimerCommand { cancel: false, arm_at: Some(61_000) });
    assert_eq!(m.scheduler().entry(b), Some(DueEntry { next_due: 90_000, interval: 60 }));
}

#[test]
fn canister_poll_end_to_end() {
    let mut m = JobManager::new();
    let (id, _) = m.add(job("id={id}", 60, 2), 0).unwrap();
    let notified = execute(&mut m, id, &source(5), None);
    assert_eq!(
        notified,
        vec![
            vec!["id=1".to_string(), "id=2".to_string()],
            vec!["id=3".to_string(), "id=4".to_string()],
            vec!["id=5".to_string()],
        ]
    );
    assert_eq!(offset_of(&m, id), 5);
}

#[test]
fn pagination_drains_every_record_once() {
    let mut m = JobManager::new();
    let (id, _) = m.add(job("n{id}", 60, 3), 0).unwrap();
    let notified = execute(&mut m, id, &source(7), None);
    let all: Vec<String> = notified.concat();
    let expected: Vec<String> = (1..=7).map(|i| format!("n{}", i)).collect();
    assert_eq!(all, expected);
    assert_eq!(offset_of(&m, id), 7);
    // A second run finds nothing new.
    assert!(execute(&mut m, id, &source(7), None).is_empty());
    assert_eq!(offset_of(&m, id), 7);
}

#[test]
fn poll_error_keeps_progress_and_job_running() {
    let mut m = JobManager::new();
    let (id, _) = m.add(job("id={id}", 60, 2), 0).unwrap();
    let notified = execute(&mut m, id, &source(5), Some(1));
    assert_eq!(notified, vec![vec!["id=1".to_string(), "id=2".to_string()]]);
    assert_eq!(offset_of(&m, id), 2);
    assert_eq!(m.store().load(id).unwrap().state, JobState::Running);
    assert!(m.scheduler().entry(id).is_some());
    // The next run resumes at the saved cursor.
    let rest = execute(&mut m, id, &source(5), None);
    assert_eq!(rest.concat(), vec!["id=3".to_string(), "id=4".to_string(), "id=5".to_string()]);
    assert_eq!(offset_of(&m, id), 5);
}

#[test]
fn notify_error_ends_the_run() {
    let mut m = JobManager::new();
    let (id, _) = m.add(job("id={id}", 60, 2), 0).unwrap();
    let mut run = m.begin_run(id).unwrap();
    let first = run.on_event(RunEvent::Polled { records: source(5)[0..2].to_vec(), total: 5 });
    assert!(matches!(first, RunAction::Notify(_)));
    assert!(matches!(run.on_event(RunEvent::NotifyFailed), RunAction::Finish));
    assert!(run.finished);
    m.finish_run(&run);
    assert_eq!(offset_of(&m, id), 0);
    // The page that was not delivered is read and notified again.
    let again = execute(&mut m, id, &source(5), None);
    assert_eq!(again[0], vec!["id=1".to_string(), "id=2".to_string()]);
    assert_eq!(offset_of(&m, id), 5);
}

#[test]
fn notify_error_after_a_delivered_page_keeps_that_page() {
    let mut m = JobManager::new();
    let (id, _) = m.add(job("id={id}", 60, 2), 0).unwrap();
    let mut run = m.begin_run(id).unwrap();
    let src = source(5);
    run.on_event(RunEvent::Polled { records: src[0..2].to_vec(), total: 5 });
    let next = run.on_event(RunEvent::Notified);
    assert!(matches!(next, RunAction::Poll { offset: 2, batch_size: 2 }));
    run.on_event(RunEvent::Polled { records: src[2..4].to_vec(), total: 5 });
    assert_eq!(run.offset, 2);
    assert_eq!(run.pending, 4);
    run.on_event(RunEvent::NotifyFailed);
    m.finish_run(&run);
    assert_eq!(offset_of(&m, id), 2);
}

#[test]
fn timer_hands_out_nothing_when_nothing_is_due() {
    let mut m = JobManager::new();
    let (due, cmd) = m.on_timer(1_000);
    assert!(due.is_empty());
    assert_eq!(cmd, TimerCommand { cancel: false, arm_at: None });
    m.add(job("a", 60, 1), 5_000).unwrap();
    let (due, _) = m.on_timer(1_000);
    assert!(due.is_empty());
}

#[test]
fn empty_page_below_total_polls_again() {
    let mut m = JobManager::new();
    let (id, _) = m.add(job("x", 60, 2), 0).unwrap();
    let mut run = m.begin_run(id).unwrap();
    let a = run.on_event(RunEvent::Polled { records: vec![], total: 3 });
    assert!(matches!(a, RunAction::Poll { offset: 0, batch_size: 2 }));
    let b = run.on_event(RunEvent::Polled { records: vec![], total: 0 });
    assert!(matches!(b, RunAction::Finish));
}

#[test]
fn finished_run_never_moves_cursor_back() {
    let mut m = JobManager::new();
    let (id, _) = m.add(job("id={id}", 60, 2), 0).unwrap();
    let stale = m.begin_run(id).unwrap();
    execute(&mut m, id, &source(4), None);
    assert_eq!(offset_of(&m, id), 4);
    m.finish_run(&stale);
    assert_eq!(offset_of(&m, id), 4);
}

#[test]
fn run_of_deleted_job_is_not_restored() {
    let mut m = JobManager::new();
    let (id, _) = m.add(job("id={id}", 60, 2), 0).unwrap();
    let run = m.begin_run(id).unwrap();
    m.delete(id).unwrap();
    m.finish_run(&run);
    assert!(!m.store().contains(&id));
}
