use vstd::prelude::*;

verus! {

/// Identifier of a job, assigned by the scheduler when the job is first registered.
pub type JobId = u64;

/// Whether a job currently has an entry in the scheduler's due-set.
#[derive(Clone, Copy, Debug, PartialEq, Eq, Structural)]
pub enum JobState {
    Idle,
    Running,
}

/// A canister method that pages through records: `(offset, batch_size) -> (records, total)`.
/// The canister is named by its textual principal.
#[derive(Clone, Debug)]
pub struct CanisterSource {
    pub canister_id: String,
    pub method_name: String,
}

/// The kind of data source a job polls.
#[derive(Clone, Debug)]
pub enum JobType {
    Canister(CanisterSource),
}

/// The durable definition of a job.
#[derive(Clone, Debug)]
pub struct Job {
    pub ty: JobType,
    /// Text with `{field}` placeholders, filled in for each record.
    pub output_template: String,
    /// Seconds between due times.
    pub interval: u32,
    /// Number of records already consumed from the source.
    pub offset: u32,
    /// Records requested per poll.
    pub batch_size: u32,
    pub state: JobState,
}

/// Whether a monitor of a chat is currently polling.
#[derive(Clone, Copy, Debug, PartialEq, Eq, Structural)]
pub enum MonitorState {
    Idle,
    Running,
}

/// The scheduler's view of a running job.
#[derive(Clone, Copy, Debug, PartialEq, Eq, Structural)]
pub struct ActiveJob {
    pub interval: u32,
}

/// One record of a data source: its fields in key order, each value as text.
pub type Record = Vec<(String, String)>;

impl CanisterSource {
    pub fn duplicate(&self) -> (r: CanisterSource)
        ensures
            r == *self,
    {
        CanisterSource { canister_id: self.canister_id.clone(), method_name: self.method_name.clone() }
    }
}

impl JobType {
    pub fn duplicate(&self) -> (r: JobType)
        ensures
            r == *self,
    {
        match self {
            JobType::Canister(c) => JobType::Canister(c.duplicate()),
        }
    }
}

impl Job {
    /// A copy of this job that equals it field for field.
    pub fn duplicate(&self) -> (r: Job)
        ensures
            r == *self,
    {
        Job {
            ty: self.ty.duplicate(),
            output_template: self.output_template.clone(),
            interval: self.interval,
            offset: self.offset,
            batch_size: self.batch_size,
            state: self.state,
        }
    }

    /// The same job in the given lifecycle state.
    pub open spec fn with_state(self, state: JobState) -> Job {
        Job { state, ..self }
    }

    /// The same job with its cursor moved to `offset`.
    pub open spec fn with_offset(self, offset: u32) -> Job {
        Job { offset, ..self }
    }
}

} // verus!
