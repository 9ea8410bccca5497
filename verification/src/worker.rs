//! The settings of the plain preview workers, which check the previews
//! without refinement and report every failing URL.

use vstd::prelude::*;
use crate::url::{build_urls, preview_urls, views};
use crate::url_handler::HeadOutcome;

verus! {

/// A plain preview worker: checks the previews of one mounting type.
pub struct Worker {
    mounting: String,
    concurrency: usize,
}

impl Worker {
    /// The mounting type whose previews are checked.
    pub closed spec fn spec_mounting(&self) -> Seq<char> {
        self.mounting@
    }

    /// How many jobs, and how many URLs of a job, run at once.
    pub closed spec fn spec_concurrency(&self) -> usize {
        self.concurrency
    }

    /// A worker with these settings.
    pub fn new(mounting: String, concurrency: usize) -> (w: Self)
        ensures
            w.spec_mounting() == mounting@,
            w.spec_concurrency() == concurrency,
    {
        Worker { mounting, concurrency }
    }

    /// How many jobs, and how many URLs of a job, run at once.
    pub fn concurrency(&self) -> (c: usize)
        ensures
            c == self.spec_concurrency(),
    {
        self.concurrency
    }

    /// The URLs that the job for design `id` requests: its previews without
    /// refinement.
    pub fn job_urls(&self, id: u32) -> (urls: Vec<String>)
        ensures
            views(urls@) == preview_urls(id, self.spec_mounting(), false),
    {
        build_urls(id, &self.mounting, false)
    }

    /// What one URL of job `id` reports: the id when the URL fails, every
    /// time it fails.
    pub fn report(id: u32, outcome: HeadOutcome) -> (r: Option<u32>)
        ensures
            r == (if outcome.failed() {
                Some(id)
            } else {
                None
            }),
    {
        if outcome.is_failure() {
            Some(id)
        } else {
            None
        }
    }
}

} // verus!
