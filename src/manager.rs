use vstd::prelude::*;
use crate::render::{render_page, rendered, texts};
use crate::scheduler::{DueEntry, Scheduler, SchedulerError, TimerCommand, is_min_due};
use crate::store::JobStorage;
use crate::types::{ActiveJob, CanisterSource, Job, JobId, JobState, JobType, Record};

verus! {

#[derive(Clone, Copy, Debug, PartialEq, Eq, Structural)]
pub enum ManagerError {
    /// No job is stored under this id.
    UnknownJob(JobId),
    /// The scheduler refused the registration.
    Scheduler(SchedulerError),
}

/// The job store and the due-set agree: a stored job is `Running` exactly when
/// its id is in the due-set, every id in the due-set is stored, and the due-set
/// holds the job's interval.
pub open spec fn consistent(jobs: Map<JobId, Job>, due: Map<JobId, DueEntry>) -> bool {
    &&& forall|id: JobId| #[trigger] jobs.contains_key(id) ==> (jobs[id].state == JobState::Running
        <==> due.contains_key(id))
    &&& forall|id: JobId| #[trigger] due.contains_key(id) ==> jobs.contains_key(id)
        && due[id].interval == jobs[id].interval
}

/// How the timer is served after a job falls due at `now`: armed for the
/// earliest due time when none was outstanding; left alone when the outstanding
/// one fires no later than `now`; replaced otherwise.
pub open spec fn timer_follows(
    old_armed: Option<u64>,
    due: Map<JobId, DueEntry>,
    now: u64,
    cmd: TimerCommand,
    new_armed: Option<u64>,
) -> bool {
    match old_armed {
        None => !cmd.cancel && is_min_due(due, cmd.arm_at) && new_armed == cmd.arm_at,
        Some(t) => if t <= now {
            cmd == (TimerCommand { cancel: false, arm_at: None }) && new_armed == old_armed
        } else {
            cmd.cancel && is_min_due(due, cmd.arm_at) && new_armed == cmd.arm_at
        },
    }
}

/// The store after a run of `id` ends with its cursor at `offset`: the cursor
/// never moves back, nothing else changes, and a job deleted meanwhile stays deleted.
pub open spec fn after_run(jobs: Map<JobId, Job>, id: JobId, offset: u32) -> Map<JobId, Job> {
    if jobs.contains_key(id) {
        let job = jobs[id];
        jobs.insert(id, job.with_offset(if offset > job.offset { offset } else { job.offset }))
    } else {
        jobs
    }
}

/// Lifecycle of jobs: the store of definitions, the scheduler, and the link between them.
pub struct JobManager {
    store: JobStorage,
    scheduler: Scheduler,
}

/// What a job run reports back after the action it was asked to perform.
pub enum RunEvent {
    /// The source answered a poll with a page of records and its total count.
    Polled { records: Vec<Record>, total: u32 },
    PollFailed,
    Notified,
    NotifyFailed,
}

/// What a job run asks to be done next.
pub enum RunAction {
    /// Read a page of `batch_size` records from position `offset`.
    Poll { offset: u32, batch_size: u32 },
    /// Send these messages to the notification sink.
    Notify(Vec<String>),
    /// The run is over: persist it with `JobManager::finish_run`.
    Finish,
}

/// One execution of a job: pages through its source from the job's cursor.
pub struct JobRun {
    pub job_id: JobId,
    pub source: CanisterSource,
    pub output_template: String,
    /// The cursor past every record whose notification went through.
    pub offset: u32,
    /// The cursor past the page awaiting notification; `offset` when none is.
    pub pending: u32,
    pub batch_size: u32,
    /// Whether the source held more records after the last page.
    pub more: bool,
    pub finished: bool,
}

/// What `JobRun::on_event` does with the event `ev`, from `old` to `new`,
/// answering `r`. A page's cursor is committed only once the page has been
/// notified, so a page whose notification fails is read again by the next run.
pub open spec fn on_event_post(old: JobRun, ev: RunEvent, new: JobRun, r: RunAction) -> bool {
    &&& new.job_id == old.job_id
    &&& new.source == old.source
    &&& new.output_template == old.output_template
    &&& new.batch_size == old.batch_size
    &&& match ev {
        RunEvent::Polled { records, total } => if old.offset + records@.len() > u32::MAX {
            &&& new.offset == old.offset
            &&& new.pending == old.offset
            &&& new.finished
            &&& r is Finish
        } else {
            let next = old.offset + records@.len();
            let more = next < total;
            &&& new.offset == old.offset
            &&& new.pending == next
            &&& new.more == more
            &&& new.finished == (records@.len() == 0 && !more)
            &&& if records@.len() > 0 {
                &&& r is Notify
                &&& texts(r->Notify_0@) == rendered(old.output_template@, records@)
            } else if more {
                r == (RunAction::Poll { offset: old.offset, batch_size: old.batch_size })
            } else {
                r is Finish
            }
        },
        RunEvent::Notified => {
            &&& new.offset == old.pending
            &&& new.pending == old.pending
            &&& new.finished == !old.more
            &&& if old.more {
                r == (RunAction::Poll { offset: old.pending, batch_size: old.batch_size })
            } else {
                r is Finish
            }
        },
        _ => {
            &&& new.offset == old.offset
            &&& new.pending == old.offset
            &&& new.finished
            &&& r is Finish
        },
    }
}

impl JobRun {
    /// The first action of a run.
    pub fn first_action(&self) -> (r: RunAction)
        ensures
            r == (RunAction::Poll { offset: self.offset, batch_size: self.batch_size }),
    {
        RunAction::Poll { offset: self.offset, batch_size: self.batch_size }
    }

    /// Takes the outcome of the last action and decides the next one. A page
    /// is rendered and, when non-empty, notified; its records count as consumed
    /// once the notification went through. Polling goes on while the cursor is
    /// below the source's total. Any failure ends the run at the cursor of the
    /// records already notified; so does a page that would carry the cursor
    /// past `u32::MAX`.
    pub fn on_event(&mut self, ev: RunEvent) -> (r: RunAction)
        ensures
            on_event_post(*old(self), ev, *final(self), r),
    {
        match ev {
            RunEvent::Polled { records, total } => {
                let n = records.len();
                if n as u64 > (u32::MAX - self.offset) as u64 {
                    self.pending = self.offset;
                    self.finished = true;
                    return RunAction::Finish;
                }
                self.pending = self.offset + n as u32;
                self.more = self.pending < total;
                self.finished = false;
                if n > 0 {
                    RunAction::Notify(render_page(&self.output_template, &records))
                } else if self.more {
                    RunAction::Poll { offset: self.offset, batch_size: self.batch_size }
                } else {
                    self.finished = true;
                    RunAction::Finish
                }
            },
            RunEvent::Notified => {
                self.offset = self.pending;
                if self.more {
                    self.finished = false;
                    RunAction::Poll { offset: self.offset, batch_size: self.batch_size }
                } else {
                    self.finished = true;
                    RunAction::Finish
                }
            },
            _ => {
                self.pending = self.offset;
                self.finished = true;
                RunAction::Finish
            },
        }
    }
}

impl JobManager {
    pub closed spec fn jobs(&self) -> Map<JobId, Job> {
        self.store.view()
    }

    pub closed spec fn due(&self) -> Map<JobId, DueEntry> {
        self.scheduler.view()
    }

    pub closed spec fn armed(&self) -> Option<u64> {
        self.scheduler.armed()
    }

    pub closed spec fn next_id(&self) -> u64 {
        self.scheduler.next_id()
    }

    /// The due-set in increasing order of id.
    pub closed spec fn due_entries(&self) -> Seq<(JobId, DueEntry)> {
        self.scheduler.entries()
    }

    pub closed spec fn store_entries(&self) -> Seq<(JobId, Job)> {
        self.store.entries()
    }

    pub closed spec fn wf(&self) -> bool {
        &&& self.store.wf()
        &&& self.scheduler.wf()
        &&& consistent(self.store.view(), self.scheduler.view())
        &&& forall|id: JobId| #[trigger] self.store.view().contains_key(id) ==> id
            < self.scheduler.next_id()
    }

    /// Every state of a well-formed manager keeps the store and the due-set in agreement.
    pub proof fn lemma_consistent(&self)
        requires
            self.wf(),
        ensures
            consistent(self.jobs(), self.due()),
    {
    }

    pub fn new() -> (r: Self)
        ensures
            r.wf(),
            r.next_id() == 0,
            r.jobs() == Map::<JobId, Job>::empty(),
            r.due() == Map::<JobId, DueEntry>::empty(),
            r.armed() == None::<u64>,
    {
        let r = JobManager { store: JobStorage::new(), scheduler: Scheduler::new() };
        r
    }

    pub fn store(&self) -> (r: &JobStorage)
        ensures
            r.view() == self.jobs(),
            r.entries() == self.store_entries(),
            self.wf() ==> r.wf(),
    {
        &self.store
    }

    pub fn scheduler(&self) -> (r: &Scheduler)
        ensures
            r.view() == self.due(),
            r.entries() == self.due_entries(),
            r.armed() == self.armed(),
            r.next_id() == self.next_id(),
            self.wf() ==> r.wf(),
    {
        &self.scheduler
    }

    /// Serves the timer after a job fell due at `now`, as `immediate` says.
    fn serve_timer(&mut self, immediate: bool, now: u64) -> (r: TimerCommand)
        requires
            old(self).wf(),
            immediate == match old(self).armed() {
                None => true,
                Some(t) => t <= now,
            },
        ensures
            final(self).wf(),
            final(self).jobs() == old(self).jobs(),
            final(self).due() == old(self).due(),
            final(self).next_id() == old(self).next_id(),
            timer_follows(old(self).armed(), old(self).due(), now, r, final(self).armed()),
    {
        if immediate {
            self.scheduler.start_if_required()
        } else {
            self.scheduler.restart()
        }
    }

    /// Registers `job` with the scheduler and stores it as `Running`, first due at `now`.
    pub fn add(&mut self, job: Job, now: u64) -> (r: Result<(JobId, TimerCommand), ManagerError>)
        requires
            old(self).wf(),
        ensures
            final(self).wf(),
            match r {
                Ok((id, cmd)) => {
                    &&& !old(self).jobs().contains_key(id)
                    &&& !old(self).due().contains_key(id)
                    &&& final(self).jobs() == old(self).jobs().insert(
                        id,
                        job.with_state(JobState::Running),
                    )
                    &&& final(self).due() == old(self).due().insert(
                        id,
                        DueEntry { next_due: now, interval: job.interval },
                    )
                    &&& timer_follows(old(self).armed(), final(self).due(), now, cmd, final(self).armed())
                },
                Err(e) => {
                    &&& old(self).next_id() == u64::MAX
                    &&& e == ManagerError::Scheduler(SchedulerError::IdsExhausted)
                    &&& final(self).jobs() == old(self).jobs()
                    &&& final(self).due() == old(self).due()
                    &&& final(self).armed() == old(self).armed()
                },
            },
            r is Err <==> old(self).next_id() == u64::MAX,
    {
        let interval = job.interval;
        match self.scheduler.add(ActiveJob { interval }, now) {
            Ok((id, immediate)) => {
                let mut job = job;
                job.state = JobState::Running;
                self.store.save(id, job);
                let cmd = self.serve_timer(immediate, now);
                Ok((id, cmd))
            },
            Err(e) => Err(ManagerError::Scheduler(e)),
        }
    }

    /// Puts an idle job back into the due-set, first due at `now`; a running job is left as it is.
    pub fn start(&mut self, job_id: JobId, now: u64) -> (r: Result<TimerCommand, ManagerError>)
        requires
            old(self).wf(),
        ensures
            final(self).wf(),
            final(self).next_id() == old(self).next_id(),
            !old(self).jobs().contains_key(job_id) ==> {
                &&& r == Err::<TimerCommand, ManagerError>(ManagerError::UnknownJob(job_id))
                &&& final(self).jobs() == old(self).jobs()
                &&& final(self).due() == old(self).due()
                &&& final(self).armed() == old(self).armed()
            },
            old(self).jobs().contains_key(job_id) && old(self).jobs()[job_id].state
                == JobState::Running ==> {
                &&& r == Ok::<TimerCommand, ManagerError>(TimerCommand { cancel: false, arm_at: None })
                &&& final(self).jobs() == old(self).jobs()
                &&& final(self).due() == old(self).due()
                &&& final(self).armed() == old(self).armed()
            },
            old(self).jobs().contains_key(job_id) && old(self).jobs()[job_id].state
                == JobState::Idle ==> {
                let job = old(self).jobs()[job_id];
                &&& r is Ok
                &&& final(self).jobs() == old(self).jobs().insert(
                    job_id,
                    job.with_state(JobState::Running),
                )
                &&& final(self).due() == old(self).due().insert(
                    job_id,
                    DueEntry { next_due: now, interval: job.interval },
                )
                &&& timer_follows(old(self).armed(), final(self).due(), now, r->Ok_0, final(self).armed())
            },
    {
        match self.store.load(job_id) {
            None => Err(ManagerError::UnknownJob(job_id)),
            Some(job) => {
                if job.state == JobState::Running {
                    return Ok(TimerCommand { cancel: false, arm_at: None });
                }
                match self.scheduler.add_ex(job_id, ActiveJob { interval: job.interval }, now) {
                    Ok(immediate) => {
                        let mut job = job;
                        job.state = JobState::Running;
                        self.store.save(job_id, job);
                        let cmd = self.serve_timer(immediate, now);
                        Ok(cmd)
                    },
                    Err(e) => Err(ManagerError::Scheduler(e)),
                }
            },
        }
    }

    /// Takes a running job out of the due-set and stores it as `Idle`; an idle job is left as it is.
    pub fn stop(&mut self, job_id: JobId) -> (r: Result<(), ManagerError>)
        requires
            old(self).wf(),
        ensures
            final(self).wf(),
            final(self).next_id() == old(self).next_id(),
            final(self).armed() == old(self).armed(),
            !old(self).jobs().contains_key(job_id) ==> {
                &&& r == Err::<(), ManagerError>(ManagerError::UnknownJob(job_id))
                &&& final(self).jobs() == old(self).jobs()
                &&& final(self).due() == old(self).due()
            },
            old(self).jobs().contains_key(job_id) ==> {
                let job = old(self).jobs()[job_id];
                &&& r is Ok
                &&& final(self).jobs() == old(self).jobs().insert(job_id, job.with_state(JobState::Idle))
                &&& final(self).due() == old(self).due().remove(job_id)
            },
    {
        match self.store.load(job_id) {
            None => Err(ManagerError::UnknownJob(job_id)),
            Some(job) => {
                if job.state == JobState::Running {
                    let _ = self.scheduler.delete(job_id);
                    let mut job = job;
                    job.state = JobState::Idle;
                    self.store.save(job_id, job);
                } else {
                    proof {
                        assert(old(self).jobs().insert(job_id, job.with_state(JobState::Idle))
                            =~= old(self).jobs());
                        assert(old(self).due().remove(job_id) =~= old(self).due());
                    }
                }
                Ok(())
            },
        }
    }

    /// Removes a job from the due-set and from the store.
    pub fn delete(&mut self, job_id: JobId) -> (r: Result<(), ManagerError>)
        requires
            old(self).wf(),
        ensures
            final(self).wf(),
            final(self).next_id() == old(self).next_id(),
            final(self).armed() == old(self).armed(),
            !old(self).jobs().contains_key(job_id) ==> {
                &&& r == Err::<(), ManagerError>(ManagerError::UnknownJob(job_id))
                &&& final(self).jobs() == old(self).jobs()
                &&& final(self).due() == old(self).due()
            },
            old(self).jobs().contains_key(job_id) ==> {
                &&& r is Ok
                &&& final(self).jobs() == old(self).jobs().remove(job_id)
                &&& final(self).due() == old(self).due().remove(job_id)
            },
    {
        if self.store.contains(&job_id) {
            let _ = self.scheduler.delete(job_id);
            self.store.remove(job_id);
            Ok(())
        } else {
            Err(ManagerError::UnknownJob(job_id))
        }
    }

    /// At most `size` stored jobs in id order, skipping the first `offset`.
    pub fn list(&self, offset: usize, size: usize) -> (r: Vec<(JobId, Job)>)
        requires
            self.wf(),
        ensures
            r@ == crate::store::page_window(self.store_entries(), offset as int, size as int),
    {
        self.store.list(offset, size)
    }

    /// Arms the timer for the earliest due time, only if none is outstanding.
    pub fn start_if_required(&mut self) -> (r: TimerCommand)
        requires
            old(self).wf(),
        ensures
            final(self).wf(),
            final(self).jobs() == old(self).jobs(),
            final(self).due() == old(self).due(),
            !r.cancel,
            old(self).armed() is Some ==> r.arm_at is None && final(self).armed() == old(
                self,
            ).armed(),
            old(self).armed() is None ==> is_min_due(old(self).due(), r.arm_at)
                && final(self).armed() == r.arm_at,
    {
        self.scheduler.start_if_required()
    }

    /// The timer fired at `now`: returns the jobs to run and how to re-arm the timer.
    pub fn on_timer(&mut self, now: u64) -> (r: (Vec<JobId>, TimerCommand))
        requires
            old(self).wf(),
        ensures
            final(self).wf(),
            final(self).jobs() == old(self).jobs(),
            r.0@ == crate::scheduler::due_keys(old(self).due_entries(), now),
            forall|k: JobId| #[trigger] r.0@.contains(k) <==> (old(self).due().contains_key(k)
                && old(self).due()[k].next_due <= now),
            r.0@.no_duplicates(),
            final(self).due().dom() == old(self).due().dom(),
            forall|k: JobId| #[trigger] old(self).due().contains_key(k) ==> final(self).due()[k]
                == crate::scheduler::after_fire(old(self).due()[k], now),
            !r.1.cancel,
            is_min_due(final(self).due(), r.1.arm_at),
            final(self).armed() == r.1.arm_at,
    {
        let r = self.scheduler.process(now);
        proof {
            assert forall|id: JobId| #[trigger] self.scheduler.view().contains_key(id) implies
                self.store.view().contains_key(id) && self.scheduler.view()[id].interval
                == self.store.view()[id].interval by {
                assert(old(self).scheduler.view().contains_key(id));
            }
        }
        r
    }

    /// Starts a run of a stored job from its cursor.
    pub fn begin_run(&self, job_id: JobId) -> (r: Option<JobRun>)
        requires
            self.wf(),
        ensures
            r is None <==> !self.jobs().contains_key(job_id),
            r matches Some(run) ==> {
                let job = self.jobs()[job_id];
                &&& run.job_id == job_id
                &&& job.ty == JobType::Canister(run.source)
                &&& run.output_template == job.output_template
                &&& run.offset == job.offset
                &&& run.pending == job.offset
                &&& run.batch_size == job.batch_size
                &&& !run.more
                &&& !run.finished
            },
    {
        match self.store.load(job_id) {
            None => None,
            Some(job) => {
                let JobType::Canister(source) = job.ty;
                Some(
                    JobRun {
                        job_id,
                        source,
                        output_template: job.output_template,
                        offset: job.offset,
                        pending: job.offset,
                        batch_size: job.batch_size,
                        more: false,
                        finished: false,
                    },
                )
            },
        }
    }

    /// Persists the cursor that a run reached.
    pub fn finish_run(&mut self, run: &JobRun)
        requires
            old(self).wf(),
        ensures
            final(self).wf(),
            final(self).jobs() == after_run(old(self).jobs(), run.job_id, run.offset),
            final(self).due() == old(self).due(),
            final(self).armed() == old(self).armed(),
            final(self).next_id() == old(self).next_id(),
    {
        match self.store.load(run.job_id) {
            None => {},
            Some(job) => {
                let mut job = job;
                if run.offset > job.offset {
                    job.offset = run.offset;
                }
                self.store.save(run.job_id, job);
            },
        }
    }
}

} // verus!
