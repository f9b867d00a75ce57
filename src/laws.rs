use vstd::prelude::*;
use crate::manager::{JobManager, JobRun, RunAction, RunEvent, after_run, consistent, on_event_post};
use crate::render::{rendered, texts};
use crate::scheduler::{DueEntry, after_fire, interval_ms};
use crate::store::page_window;
use crate::types::{Job, JobId, JobState, Record};

verus! {

/// In every state that the job manager's operations reach (each of them keeps
/// `wf`), a stored job is `Running` exactly when its id is in the due-set, and
/// every id in the due-set belongs to a stored job.
pub proof fn lemma_running_iff_scheduled(m: &JobManager, id: JobId)
    requires
        m.wf(),
    ensures
        m.jobs().contains_key(id) ==> (m.jobs()[id].state == JobState::Running
            <==> m.due().contains_key(id)),
        m.due().contains_key(id) ==> m.jobs().contains_key(id),
{
    m.lemma_consistent();
}

/// Registering a job and deleting it right away leaves the store and the
/// due-set as they were: `add` only uses an id present in neither, and
/// `delete` removes that id from both.
pub proof fn lemma_add_then_delete(
    jobs: Map<JobId, Job>,
    due: Map<JobId, DueEntry>,
    id: JobId,
    job: Job,
    entry: DueEntry,
)
    requires
        !jobs.contains_key(id),
        !due.contains_key(id),
    ensures
        jobs.insert(id, job).remove(id) == jobs,
        due.insert(id, entry).remove(id) == due,
{
    assert(jobs.insert(id, job).remove(id) =~= jobs);
    assert(due.insert(id, entry).remove(id) =~= due);
}

/// A job's next due time is its previous due time plus exactly one interval,
/// however late the timer fired, unless the sum passes the largest time.
pub proof fn lemma_no_drift(e: DueEntry, fired_at: u64, late_fired_at: u64)
    requires
        e.next_due <= fired_at,
        e.next_due <= late_fired_at,
        e.next_due + interval_ms(e.interval) <= u64::MAX,
    ensures
        after_fire(e, fired_at) == after_fire(e, late_fired_at),
        after_fire(e, fired_at).next_due - e.next_due == interval_ms(e.interval),
        after_fire(e, fired_at).interval == e.interval,
{
}

/// A run of a job against a source holding `src`, from cursor `offset` with
/// pages of `batch` records, when no poll and no notification fails: each poll
/// returns the window of `src` at the cursor together with `src.len()` as the
/// total, the cursor moves by the page's length, a page's texts are notified,
/// and polling goes on while the cursor is below the total. Gives the final
/// cursor and every notified text, in order.
pub open spec fn drain(src: Seq<Record>, template: Seq<char>, offset: nat, batch: nat) -> (
    nat,
    Seq<Seq<char>>,
)
    decreases src.len() - offset,
{
    let page = page_window(src, offset as int, batch as int);
    let next = offset + page.len();
    if batch > 0 && next < src.len() {
        let (last, rest) = drain(src, template, next, batch);
        (last, rendered(template, page) + rest)
    } else {
        (next, rendered(template, page))
    }
}

/// A run with no failure drains the source: the cursor ends at the total, and
/// every record from the starting cursor on is notified once, in order.
pub proof fn lemma_drain_complete(src: Seq<Record>, template: Seq<char>, offset: nat, batch: nat)
    requires
        batch > 0,
        offset <= src.len(),
    ensures
        drain(src, template, offset, batch).0 == src.len(),
        drain(src, template, offset, batch).1 == rendered(
            template,
            src.subrange(offset as int, src.len() as int),
        ),
    decreases src.len() - offset,
{
    let page = page_window(src, offset as int, batch as int);
    let next = offset + page.len();
    let tail = src.subrange(offset as int, src.len() as int);
    if next < src.len() {
        lemma_drain_complete(src, template, next, batch);
        let later = src.subrange(next as int, src.len() as int);
        assert(tail =~= page + later);
        assert(rendered(template, page + later) =~= rendered(template, page) + rendered(
            template,
            later,
        ));
    } else {
        assert(page =~= tail);
    }
}

/// Each round of a run follows `drain`: from cursor `o`, the source answers the
/// poll with the window of `src` at `o` and its length as the total. If the
/// page is empty the run ends where `drain` does; otherwise the run notifies
/// the texts that `drain` notifies first, and once they went through its cursor
/// is where `drain` continues from, and it polls again exactly when `drain`
/// goes on. With `lemma_drain_complete`, a run with no failure ends at the
/// source's total, having notified every record from `o` on once, in order.
pub proof fn lemma_run_follows_drain(
    src: Seq<Record>,
    run0: JobRun,
    ev: RunEvent,
    run1: JobRun,
    a1: RunAction,
    run2: JobRun,
    a2: RunAction,
)
    requires
        run0.batch_size > 0,
        run0.offset <= src.len() <= u32::MAX,
        ev matches RunEvent::Polled { records, total } && records@ == page_window(
            src,
            run0.offset as int,
            run0.batch_size as int,
        ) && total == src.len(),
        on_event_post(run0, ev, run1, a1),
        a1 is Notify ==> on_event_post(run1, RunEvent::Notified, run2, a2),
    ensures
        !(a1 is Poll),
        ({
            let t = run0.output_template@;
            let b = run0.batch_size as nat;
            let d = drain(src, t, run0.offset as nat, b);
            &&& a1 is Finish ==> d.0 == run0.offset && d.1.len() == 0 && run1.offset
                == run0.offset
            &&& a1 is Notify ==> {
                let first = texts(a1->Notify_0@);
                &&& run2.offset as int == run0.offset + page_window(
                    src,
                    run0.offset as int,
                    run0.batch_size as int,
                ).len()
                &&& run2.batch_size == run0.batch_size
                &&& run2.output_template == run0.output_template
                &&& (a2 is Poll) == (run2.offset < src.len())
                &&& a2 is Poll ==> a2 == (RunAction::Poll {
                    offset: run2.offset,
                    batch_size: run0.batch_size,
                })
                &&& run2.offset < src.len() ==> d == (
                    drain(src, t, run2.offset as nat, b).0,
                    first + drain(src, t, run2.offset as nat, b).1,
                )
                &&& run2.offset >= src.len() ==> d == (run2.offset as nat, first)
            }
        }),
{
    let page = page_window(src, run0.offset as int, run0.batch_size as int);
    if page.len() == 0 {
        assert(rendered(run0.output_template@, page) =~= Seq::<Seq<char>>::empty());
    }
}

/// A run that stops on a failure after consuming `k` records from the stored
/// cursor persists the cursor moved by exactly `k`, and the job stays running
/// and scheduled.
pub proof fn lemma_failure_keeps_progress(
    jobs: Map<JobId, Job>,
    due: Map<JobId, DueEntry>,
    id: JobId,
    k: nat,
)
    requires
        consistent(jobs, due),
        jobs.contains_key(id),
        jobs[id].state == JobState::Running,
        jobs[id].offset + k <= u32::MAX,
    ensures
        after_run(jobs, id, (jobs[id].offset + k) as u32)[id].offset == jobs[id].offset + k,
        after_run(jobs, id, (jobs[id].offset + k) as u32)[id].state == JobState::Running,
        due.contains_key(id),
        consistent(after_run(jobs, id, (jobs[id].offset + k) as u32), due),
{
    let after = after_run(jobs, id, (jobs[id].offset + k) as u32);
    assert forall|j: JobId| #[trigger] after.contains_key(j) implies (after[j].state
        == JobState::Running <==> due.contains_key(j)) by {
        assert(jobs.contains_key(j));
    }
    assert forall|j: JobId| #[trigger] due.contains_key(j) implies after.contains_key(j)
        && due[j].interval == after[j].interval by {
        assert(jobs.contains_key(j));
    }
}

} // verus!
