use vstd::prelude::*;
use crate::keyed::{SortedMap, sorted_keys, entries_map};
use crate::types::{Job, JobId};

verus! {

/// Ordered store of job definitions keyed by job id.
pub struct JobStorage {
    jobs: SortedMap<Job>,
}

/// The window `[offset, offset + size)` of a sequence, cut to its length.
pub open spec fn page_window<T>(s: Seq<T>, offset: int, size: int) -> Seq<T> {
    let lo = if offset < s.len() { offset } else { s.len() as int };
    let hi = if offset + size < s.len() { offset + size } else { s.len() as int };
    s.subrange(lo, hi)
}

impl JobStorage {
    pub closed spec fn view(&self) -> Map<JobId, Job> {
        self.jobs.view()
    }

    /// The stored jobs in increasing order of id.
    pub closed spec fn entries(&self) -> Seq<(JobId, Job)> {
        self.jobs.entries()
    }

    pub closed spec fn wf(&self) -> bool {
        self.jobs.wf()
    }

    /// The entries are in increasing order of id and describe exactly the stored map.
    pub proof fn lemma_entries(&self)
        requires
            self.wf(),
        ensures
            sorted_keys(self.entries()),
            entries_map(self.entries()) == self.view(),
    {
    }

    pub fn new() -> (r: Self)
        ensures
            r.wf(),
            r.view() == Map::<JobId, Job>::empty(),
    {
        JobStorage { jobs: SortedMap::new() }
    }

    /// Inserts or replaces the job stored under `id`.
    pub fn save(&mut self, id: JobId, job: Job)
        requires
            old(self).wf(),
        ensures
            final(self).wf(),
            final(self).view() == old(self).view().insert(id, job),
    {
        self.jobs.insert(id, job);
    }

    pub fn load(&self, id: JobId) -> (r: Option<Job>)
        requires
            self.wf(),
        ensures
            r == (if self.view().contains_key(id) { Some(self.view()[id]) } else { None::<Job> }),
    {
        match self.jobs.get(id) {
            Some(job) => Some(job.duplicate()),
            None => None,
        }
    }

    pub fn contains(&self, id: &JobId) -> (r: bool)
        requires
            self.wf(),
        ensures
            r == self.view().contains_key(*id),
    {
        self.jobs.contains_key(*id)
    }

    /// Removes the job stored under `id`, if any.
    pub fn remove(&mut self, id: JobId)
        requires
            old(self).wf(),
        ensures
            final(self).wf(),
            final(self).view() == old(self).view().remove(id),
    {
        let _ = self.jobs.remove(id);
    }

    /// At most `size` jobs in id order, skipping the first `offset`.
    pub fn list(&self, offset: usize, size: usize) -> (r: Vec<(JobId, Job)>)
        requires
            self.wf(),
        ensures
            r@ == page_window(self.entries(), offset as int, size as int),
    {
        let n = self.jobs.len();
        let lo: usize = if offset < n { offset } else { n };
        let hi: usize = if size < n - lo { lo + size } else { n };
        let mut out: Vec<(JobId, Job)> = Vec::new();
        let mut i: usize = lo;
        while i < hi
            invariant
                n == self.entries().len(),
                lo <= i <= hi <= n,
                out@ == self.entries().subrange(lo as int, i as int),
            decreases hi - i,
        {
            let e = self.jobs.entry_at(i);
            out.push((e.0, e.1.duplicate()));
            proof {
                assert(self.entries().subrange(lo as int, i + 1) =~= self.entries().subrange(
                    lo as int,
                    i as int,
                ).push(self.entries()[i as int]));
            }
            i = i + 1;
        }
        proof {
            assert(page_window(self.entries(), offset as int, size as int) =~= self.entries().subrange(
                lo as int,
                hi as int,
            ));
        }
        out
    }
}

} // verus!
