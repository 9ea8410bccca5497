//! The settings of the overlay workers and the URLs of one overlay job.

use vstd::prelude::*;
use crate::overlay::url::{build_urls, overlay_urls};
use crate::url::views;

verus! {

/// An overlay worker: checks the calendars of one year.
pub struct Worker {
    year: u32,
    refinement: bool,
    concurrency: usize,
}

impl Worker {
    /// The year whose calendars are checked.
    pub closed spec fn spec_year(&self) -> u32 {
        self.year
    }

    /// Whether the refinement images are checked.
    pub closed spec fn spec_refinement(&self) -> bool {
        self.refinement
    }

    /// How many jobs, and how many URLs of a job, run at once.
    pub closed spec fn spec_concurrency(&self) -> usize {
        self.concurrency
    }

    /// A worker with these settings.
    pub fn new(year: u32, refinement: bool, concurrency: usize) -> (w: Self)
        ensures
            w.spec_year() == year,
            w.spec_refinement() == refinement,
            w.spec_concurrency() == concurrency,
    {
        Worker { year, refinement, concurrency }
    }

    /// How many jobs, and how many URLs of a job, run at once.
    pub fn concurrency(&self) -> (c: usize)
        ensures
            c == self.spec_concurrency(),
    {
        self.concurrency
    }

    /// The URLs that the job for the calendar with data under `path` and
    /// images named by `hash` requests.
    pub fn job_urls(&self, path: String, hash: String) -> (urls: Vec<String>)
        ensures
            views(urls@) == overlay_urls(self.spec_year(), path@, hash@, self.spec_refinement()),
    {
        build_urls(self.year, path, hash, self.refinement)
    }
}

} // verus!
