//! The settings of the preview workers and the URLs of one preview job.

use vstd::prelude::*;
use crate::url::{build_urls, preview_urls, views};

verus! {

/// A preview worker: checks the previews of one mounting type.
pub struct Worker {
    mounting: String,
    refinement: bool,
    concurrency: usize,
}

impl Worker {
    /// The mounting type whose previews are checked.
    pub closed spec fn spec_mounting(&self) -> Seq<char> {
        self.mounting@
    }

    /// Whether the refinement images are checked.
    pub closed spec fn spec_refinement(&self) -> bool {
        self.refinement
    }

    /// How many jobs, and how many URLs of a job, run at once.
    pub closed spec fn spec_concurrency(&self) -> usize {
        self.concurrency
    }

    /// A worker with these settings.
    pub fn new(mounting: String, refinement: bool, concurrency: usize) -> (w: Self)
        ensures
            w.spec_mounting() == mounting@,
            w.spec_refinement() == refinement,
            w.spec_concurrency() == concurrency,
    {
        Worker { mounting, refinement, concurrency }
    }

    /// How many jobs, and how many URLs of a job, run at once.
    pub fn concurrency(&self) -> (c: usize)
        ensures
            c == self.spec_concurrency(),
    {
        self.concurrency
    }

    /// The URLs that the job for design `id` requests.
    pub fn job_urls(&self, id: u32) -> (urls: Vec<String>)
        ensures
            views(urls@) == preview_urls(id, self.spec_mounting(), self.spec_refinement()),
    {
        build_urls(id, &self.mounting, self.refinement)
    }
}

} // verus!
