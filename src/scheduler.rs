use vstd::prelude::*;
use crate::keyed::{SortedMap, sorted_keys, has_key, entries_map, lemma_entry_in_map};
use crate::types::{ActiveJob, JobId};

verus! {

/// Next due time (milliseconds since the epoch) and interval (seconds) of an active job.
#[derive(Clone, Copy, Debug, PartialEq, Eq, Structural)]
pub struct DueEntry {
    pub next_due: u64,
    pub interval: u32,
}

/// What must be done to the single native timer: cancel the outstanding one
/// first if `cancel`, then arm one for `arm_at` if it is `Some`.
#[derive(Clone, Copy, Debug, PartialEq, Eq, Structural)]
pub struct TimerCommand {
    pub cancel: bool,
    pub arm_at: Option<u64>,
}

#[derive(Clone, Copy, Debug, PartialEq, Eq, Structural)]
pub enum SchedulerError {
    /// Every job id has been handed out.
    IdsExhausted,
    /// The job is already in the due-set.
    AlreadyActive(JobId),
}

/// The step between two due times, in milliseconds.
pub open spec fn interval_ms(interval: u32) -> int {
    interval as int * 1000
}

/// The due time that follows `due`: one interval later, held at `u64::MAX`.
pub open spec fn advanced(due: u64, interval: u32) -> u64 {
    if due + interval_ms(interval) <= u64::MAX {
        (due + interval_ms(interval)) as u64
    } else {
        u64::MAX
    }
}

/// `t` is the earliest due time of `m`, or `None` when `m` is empty.
pub open spec fn is_min_due(m: Map<JobId, DueEntry>, t: Option<u64>) -> bool {
    match t {
        None => forall|k: JobId| !m.contains_key(k),
        Some(x) => (exists|k: JobId| m.contains_key(k) && #[trigger] m[k].next_due == x) && (
        forall|k: JobId| #[trigger] m.contains_key(k) ==> x <= m[k].next_due),
    }
}

/// The keys of the entries due at `now`, in the order of the entries.
pub open spec fn due_keys(s: Seq<(JobId, DueEntry)>, now: u64) -> Seq<JobId>
    decreases s.len(),
{
    if s.len() == 0 {
        Seq::empty()
    } else {
        let rest = due_keys(s.drop_last(), now);
        if s.last().1.next_due <= now {
            rest.push(s.last().0)
        } else {
            rest
        }
    }
}

/// Some entry of `s` with key `k` is due at `now`.
pub open spec fn is_due_key(s: Seq<(JobId, DueEntry)>, k: JobId, now: u64) -> bool {
    exists|i: int| 0 <= i < s.len() && #[trigger] s[i].0 == k && s[i].1.next_due <= now
}

/// Over entries in increasing key order, `due_keys` holds exactly the keys of
/// the entries due at `now`, in increasing order.
pub proof fn lemma_due_keys(s: Seq<(JobId, DueEntry)>, now: u64)
    requires
        sorted_keys(s),
    ensures
        forall|a: int|
            0 <= a < due_keys(s, now).len() ==> is_due_key(s, #[trigger] due_keys(s, now)[a], now),
        forall|i: int|
            0 <= i < s.len() && #[trigger] s[i].1.next_due <= now ==> due_keys(s, now).contains(
                s[i].0,
            ),
        forall|a: int, b: int|
            0 <= a < b < due_keys(s, now).len() ==> #[trigger] due_keys(s, now)[a]
                < #[trigger] due_keys(s, now)[b],
    decreases s.len(),
{
    if s.len() == 0 {
        assert(due_keys(s, now).len() == 0);
    } else {
        let init = s.drop_last();
        assert(sorted_keys(init)) by {
            assert forall|a: int, b: int| 0 <= a < b < init.len() implies #[trigger] init[a].0
                < #[trigger] init[b].0 by {
                assert(s[a].0 < s[b].0);
            }
        }
        lemma_due_keys(init, now);
        let rest = due_keys(init, now);
        let d = due_keys(s, now);
        let last = s.len() - 1;
        assert(d == (if s[last].1.next_due <= now { rest.push(s[last].0) } else { rest }));
        assert forall|a: int| 0 <= a < rest.len() implies rest[a] < s[last].0 by {
            let i = choose|i: int| 0 <= i < init.len() && #[trigger] init[i].0 == rest[a]
                && init[i].1.next_due <= now;
            assert(s[i].0 < s[last].0);
        }
        assert forall|a: int| 0 <= a < d.len() implies is_due_key(s, #[trigger] d[a], now) by {
            if a < rest.len() {
                assert(d[a] == rest[a]);
                let i = choose|i: int| 0 <= i < init.len() && #[trigger] init[i].0 == rest[a]
                    && init[i].1.next_due <= now;
                assert(s[i] == init[i]);
            } else if s[last].1.next_due <= now {
                assert(s[last].0 == d[a]);
            } else {
                assert(d.len() == rest.len());
            }
        }
        assert forall|i: int| 0 <= i < s.len() && #[trigger] s[i].1.next_due <= now implies d.contains(
            s[i].0,
        ) by {
            if i < last {
                assert(init[i] == s[i]);
                let a = choose|a: int| 0 <= a < rest.len() && rest[a] == init[i].0;
                assert(d[a] == s[i].0);
            } else {
                assert(d[d.len() - 1] == s[i].0);
            }
        }
    }
}

/// The entry that a fired timer leaves for `e`.
pub open spec fn after_fire(e: DueEntry, now: u64) -> DueEntry {
    if e.next_due <= now {
        DueEntry { next_due: advanced(e.next_due, e.interval), interval: e.interval }
    } else {
        e
    }
}

/// The due-set of active jobs and the state of the single timer that serves them.
pub struct Scheduler {
    due: SortedMap<DueEntry>,
    next_id: u64,
    armed: Option<u64>,
}

impl Scheduler {
    pub closed spec fn view(&self) -> Map<JobId, DueEntry> {
        self.due.view()
    }

    /// The due-set in increasing order of id.
    pub closed spec fn entries(&self) -> Seq<(JobId, DueEntry)> {
        self.due.entries()
    }

    /// The id that the next registration receives.
    pub closed spec fn next_id(&self) -> u64 {
        self.next_id
    }

    /// The time the outstanding timer is armed for, if one is.
    pub closed spec fn armed(&self) -> Option<u64> {
        self.armed
    }

    pub closed spec fn wf(&self) -> bool {
        &&& self.due.wf()
        &&& forall|k: JobId| #[trigger] self.due.view().contains_key(k) ==> k < self.next_id
    }

    /// The entries are in increasing order of id and describe exactly the due-set.
    pub proof fn lemma_entries(&self)
        requires
            self.wf(),
        ensures
            sorted_keys(self.entries()),
            entries_map(self.entries()) == self.view(),
    {
    }

    pub fn new() -> (r: Self)
        ensures
            r.wf(),
            r.view() == Map::<JobId, DueEntry>::empty(),
            r.next_id() == 0,
            r.armed() == None::<u64>,
    {
        Scheduler { due: SortedMap::new(), next_id: 0, armed: None }
    }

    pub fn is_armed(&self) -> (r: bool)
        ensures
            r == self.armed() is Some,
    {
        self.armed.is_some()
    }

    /// The due-set entry of `job_id`, if it is active.
    pub fn entry(&self, job_id: JobId) -> (r: Option<DueEntry>)
        requires
            self.wf(),
        ensures
            r == (if self.view().contains_key(job_id) {
                Some(self.view()[job_id])
            } else {
                None::<DueEntry>
            }),
    {
        match self.due.get(job_id) {
            Some(e) => Some(*e),
            None => None,
        }
    }

    /// The number of active jobs.
    pub fn len(&self) -> (r: usize)
        requires
            self.wf(),
        ensures
            r == self.entries().len(),
    {
        self.due.len()
    }

    /// Whether a job that falls due at `due` is served by calling `start_if_required`
    /// (no timer, or one that fires no later), rather than `restart`.
    fn covers(&self, due: u64) -> (r: bool)
        ensures
            r == match self.armed() {
                None => true,
                Some(t) => t <= due,
            },
    {
        match self.armed {
            None => true,
            Some(t) => t <= due,
        }
    }

    /// Registers a new job, first due at `now`. Returns its id and whether
    /// `start_if_required` suffices to get it served (else `restart` is needed).
    pub fn add(&mut self, job: ActiveJob, now: u64) -> (r: Result<(JobId, bool), SchedulerError>)
        requires
            old(self).wf(),
        ensures
            final(self).wf(),
            final(self).armed() == old(self).armed(),
            match r {
                Ok((id, immediate)) => {
                    &&& old(self).next_id() < u64::MAX
                    &&& id == old(self).next_id()
                    &&& !old(self).view().contains_key(id)
                    &&& final(self).next_id() == old(self).next_id() + 1
                    &&& final(self).view() == old(self).view().insert(
                        id,
                        DueEntry { next_due: now, interval: job.interval },
                    )
                    &&& immediate == match old(self).armed() {
                        None => true,
                        Some(t) => t <= now,
                    }
                },
                Err(e) => {
                    &&& old(self).next_id() == u64::MAX
                    &&& e == SchedulerError::IdsExhausted
                    &&& final(self).view() == old(self).view()
                    &&& final(self).next_id() == old(self).next_id()
                },
            },
    {
        if self.next_id == u64::MAX {
            return Err(SchedulerError::IdsExhausted);
        }
        let id = self.next_id;
        self.due.insert(id, DueEntry { next_due: now, interval: job.interval });
        self.next_id = id + 1;
        Ok((id, self.covers(now)))
    }

    /// Puts a known job id back into the due-set, first due at `now`.
    pub fn add_ex(&mut self, job_id: JobId, job: ActiveJob, now: u64) -> (r: Result<bool, SchedulerError>)
        requires
            old(self).wf(),
            job_id < old(self).next_id(),
        ensures
            final(self).wf(),
            final(self).armed() == old(self).armed(),
            final(self).next_id() == old(self).next_id(),
            old(self).view().contains_key(job_id) ==> {
                &&& r == Err::<bool, SchedulerError>(SchedulerError::AlreadyActive(job_id))
                &&& final(self).view() == old(self).view()
            },
            !old(self).view().contains_key(job_id) ==> {
                &&& r == Ok::<bool, SchedulerError>(
                    match old(self).armed() {
                        None => true,
                        Some(t) => t <= now,
                    },
                )
                &&& final(self).view() == old(self).view().insert(
                    job_id,
                    DueEntry { next_due: now, interval: job.interval },
                )
            },
    {
        if self.due.contains_key(job_id) {
            return Err(SchedulerError::AlreadyActive(job_id));
        }
        self.due.insert(job_id, DueEntry { next_due: now, interval: job.interval });
        Ok(self.covers(now))
    }

    /// Removes `job_id` from the due-set; returns whether it was there.
    pub fn delete(&mut self, job_id: JobId) -> (r: bool)
        requires
            old(self).wf(),
        ensures
            final(self).wf(),
            final(self).armed() == old(self).armed(),
            final(self).next_id() == old(self).next_id(),
            final(self).view() == old(self).view().remove(job_id),
            r == old(self).view().contains_key(job_id),
    {
        self.due.remove(job_id).is_some()
    }

    /// The earliest due time in the due-set.
    pub fn min_due(&self) -> (r: Option<u64>)
        requires
            self.wf(),
        ensures
            is_min_due(self.view(), r),
    {
        let n = self.due.len();
        let ghost s = self.due.entries();
        let mut best: Option<u64> = None;
        let mut i: usize = 0;
        while i < n
            invariant
                self.wf(),
                s == self.due.entries(),
                n == s.len(),
                i <= n,
                i == 0 <==> best is None,
                match best {
                    None => true,
                    Some(x) => (exists|j: int| 0 <= j < i && #[trigger] s[j].1.next_due == x) && (
                    forall|j: int| 0 <= j < i ==> x <= #[trigger] s[j].1.next_due),
                },
            decreases n - i,
        {
            let d = self.due.entry_at(i).1.next_due;
            match best {
                None => {
                    best = Some(d);
                },
                Some(x) => {
                    if d < x {
                        best = Some(d);
                    }
                },
            }
            i = i + 1;
        }
        proof {
            match best {
                None => {
                    assert forall|k: JobId| !self.view().contains_key(k) by {
                        if self.view().contains_key(k) {
                            assert(has_key(s, k));
                        }
                    }
                },
                Some(x) => {
                    let j = choose|j: int| 0 <= j < n && #[trigger] s[j].1.next_due == x;
                    lemma_entry_in_map(s, j);
                    assert(self.view()[s[j].0].next_due == x);
                    assert forall|k: JobId| #[trigger] self.view().contains_key(k) implies x
                        <= self.view()[k].next_due by {
                        let i2 = choose|i2: int| 0 <= i2 < s.len() && #[trigger] s[i2].0 == k;
                        lemma_entry_in_map(s, i2);
                    }
                },
            }
        }
        best
    }

    /// Arms the timer for the earliest due time, only if no timer is outstanding.
    pub fn start_if_required(&mut self) -> (r: TimerCommand)
        requires
            old(self).wf(),
        ensures
            final(self).wf(),
            final(self).view() == old(self).view(),
            final(self).next_id() == old(self).next_id(),
            !r.cancel,
            old(self).armed() is Some ==> r.arm_at is None && final(self).armed() == old(
                self,
            ).armed(),
            old(self).armed() is None ==> is_min_due(old(self).view(), r.arm_at)
                && final(self).armed() == r.arm_at,
    {
        if self.armed.is_some() {
            return TimerCommand { cancel: false, arm_at: None };
        }
        let t = self.min_due();
        self.armed = t;
        TimerCommand { cancel: false, arm_at: t }
    }

    /// Cancels any outstanding timer and arms one for the earliest due time.
    pub fn restart(&mut self) -> (r: TimerCommand)
        requires
            old(self).wf(),
        ensures
            final(self).wf(),
            final(self).view() == old(self).view(),
            final(self).next_id() == old(self).next_id(),
            r.cancel == old(self).armed() is Some,
            is_min_due(old(self).view(), r.arm_at),
            final(self).armed() == r.arm_at,
    {
        let cancel = self.armed.is_some();
        let t = self.min_due();
        self.armed = t;
        TimerCommand { cancel, arm_at: t }
    }

    /// The timer has fired at `now`: every job due by `now` moves one interval
    /// past its previous due time and is returned, in id order; the timer is
    /// armed again for the new earliest due time.
    pub fn process(&mut self, now: u64) -> (r: (Vec<JobId>, TimerCommand))
        requires
            old(self).wf(),
        ensures
            final(self).wf(),
            final(self).next_id() == old(self).next_id(),
            r.0@ == due_keys(old(self).entries(), now),
            forall|k: JobId| #[trigger] r.0@.contains(k) <==> (old(self).view().contains_key(k)
                && old(self).view()[k].next_due <= now),
            r.0@.no_duplicates(),
            final(self).view().dom() == old(self).view().dom(),
            forall|k: JobId| #[trigger] old(self).view().contains_key(k) ==> final(self).view()[k]
                == after_fire(old(self).view()[k], now),
            !r.1.cancel,
            is_min_due(final(self).view(), r.1.arm_at),
            final(self).armed() == r.1.arm_at,
    {
        let ghost s0 = self.due.entries();
        let n = self.due.len();
        let mut fired: Vec<JobId> = Vec::new();
        let mut i: usize = 0;
        while i < n
            invariant
                self.wf(),
                self.next_id == old(self).next_id(),
                n == s0.len(),
                i <= n,
                self.due.entries().len() == n,
                forall|j: int| 0 <= j < n ==> (#[trigger] self.due.entries()[j]).0 == s0[j].0,
                forall|j: int| 0 <= j < i ==> (#[trigger] self.due.entries()[j]).1 == after_fire(s0[j].1, now),
                forall|j: int| i <= j < n ==> (#[trigger] self.due.entries()[j]).1 == s0[j].1,
                fired@ == due_keys(s0.subrange(0, i as int), now),
            decreases n - i,
        {
            let (k, e) = *self.due.entry_at(i);
            proof {
                assert(s0.subrange(0, i + 1).drop_last() =~= s0.subrange(0, i as int));
            }
            if e.next_due <= now {
                let step: u64 = e.interval as u64 * 1000;
                let next = if e.next_due <= u64::MAX - step { e.next_due + step } else { u64::MAX };
                proof {
                    lemma_entry_in_map(self.due.entries(), i as int);
                }
                self.due.set_value_at(i, DueEntry { next_due: next, interval: e.interval });
                fired.push(k);
            }
            i = i + 1;
        }
        proof {
            assert(s0.subrange(0, n as int) =~= s0);
            lemma_due_keys(s0, now);
            let d = fired@;
            assert forall|k: JobId| #[trigger] d.contains(k) <==> (old(self).view().contains_key(k)
                && old(self).view()[k].next_due <= now) by {
                if d.contains(k) {
                    let a = choose|a: int| 0 <= a < d.len() && d[a] == k;
                    let i = choose|i: int| 0 <= i < s0.len() && #[trigger] s0[i].0 == d[a]
                        && s0[i].1.next_due <= now;
                    lemma_entry_in_map(s0, i);
                }
                if old(self).view().contains_key(k) && old(self).view()[k].next_due <= now {
                    let i = choose|i: int| 0 <= i < s0.len() && #[trigger] s0[i].0 == k;
                    lemma_entry_in_map(s0, i);
                    assert(s0[i].1.next_due <= now);
                }
            }
            assert forall|a: int, b: int| 0 <= a < d.len() && 0 <= b < d.len() && a != b
                implies d[a] != d[b] by {
                if a < b {
                    assert(d[a] < d[b]);
                } else {
                    assert(d[b] < d[a]);
                }
            }
            let s = self.due.entries();
            assert forall|k: JobId| #[trigger] old(self).view().contains_key(k) implies self.view().contains_key(k)
                && self.view()[k] == after_fire(old(self).view()[k], now) by {
                let j = choose|j: int| 0 <= j < s0.len() && #[trigger] s0[j].0 == k;
                lemma_entry_in_map(s0, j);
                lemma_entry_in_map(s, j);
            }
            assert forall|k: JobId| self.view().contains_key(k) implies #[trigger] old(self).view().contains_key(k) by {
                let j = choose|j: int| 0 <= j < s.len() && #[trigger] s[j].0 == k;
                lemma_entry_in_map(s0, j);
            }
            assert(self.view().dom() =~= old(self).view().dom());
        }
        let t = self.min_due();
        self.armed = t;
        (fired, TimerCommand { cancel: false, arm_at: t })
    }
}

} // verus!
