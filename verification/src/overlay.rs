//! The overlay check: every overlay image of each calendar item of a year.

pub mod url;
pub mod worker;

use vstd::prelude::*;
use crate::handler::ArgError;
use crate::text::{parse_u32, parse_u32_spec, parse_usize, parse_usize_spec};

verus! {

/// One calendar of the input file: its id and where its data lies.
pub struct Item {
    id: u32,
    path: String,
    hash: String,
}

impl Item {
    /// The calendar's id.
    pub closed spec fn spec_id(&self) -> u32 {
        self.id
    }

    /// The path of the calendar's data.
    pub closed spec fn spec_path(&self) -> Seq<char> {
        self.path@
    }

    /// The hash in the names of the calendar's images.
    pub closed spec fn spec_hash(&self) -> Seq<char> {
        self.hash@
    }

    /// The calendar `id`, with data under `path` and images named by `hash`.
    pub fn new(id: u32, path: String, hash: String) -> (item: Self)
        ensures
            item.spec_id() == id,
            item.spec_path() == path@,
            item.spec_hash() == hash@,
    {
        Item { id, path, hash }
    }

    /// The job that checks this calendar: its id, path and hash.
    pub fn into_job(self) -> (job: (u32, String, String))
        ensures
            job.0 == self.spec_id(),
            job.1@ == self.spec_path(),
            job.2@ == self.spec_hash(),
    {
        (self.id, self.path, self.hash)
    }
}

/// The overlay check.
pub struct Overlay {}

/// What the overlay check runs with.
pub struct OverlaySettings {
    /// The year whose calendars are checked.
    pub year: u32,
    /// How many jobs, and how many URLs of a job, run at once.
    pub concurrency: usize,
    /// Whether the refinement images are checked.
    pub refinement: bool,
}

impl Overlay {
    /// The overlay check.
    pub fn new() -> (o: Self)
        ensures
            o == (Overlay {}),
    {
        Overlay {}
    }

    /// Reads the arguments of the overlay check: `year` must read as a `u32`
    /// and then `num_workers` as a `usize`, else the arguments are refused,
    /// for the first of them that does not.
    pub fn settings(&self, year: &str, num_workers: &str, refinement: bool) -> (r: Result<
        OverlaySettings,
        ArgError,
    >)
        ensures
            match (parse_u32_spec(year@), parse_usize_spec(num_workers@)) {
                (Some(y), Some(n)) => r == Ok::<OverlaySettings, ArgError>(
                    OverlaySettings { year: y, concurrency: n, refinement },
                ),
                (None, _) => r == Err::<OverlaySettings, ArgError>(ArgError::Year),
                (Some(_), None) => r == Err::<OverlaySettings, ArgError>(ArgError::NumWorkers),
            },
    {
        let y = match parse_u32(year) {
            Some(y) => y,
            None => {
                return Err(ArgError::Year);
            },
        };
        match parse_usize(num_workers) {
            Some(n) => Ok(OverlaySettings { year: y, concurrency: n, refinement }),
            None => Err(ArgError::NumWorkers),
        }
    }
}

} // verus!
