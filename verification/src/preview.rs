//! The preview check: every preview image of each listed calendar design.

pub mod worker;

use vstd::prelude::*;
use crate::handler::ArgError;
use crate::text::{parse_u32, parse_u32_spec, parse_usize, parse_usize_spec};
use crate::url::views;

verus! {

/// The preview check.
pub struct Preview {}

/// What the preview check runs with.
pub struct PreviewSettings {
    /// The mounting type whose previews are checked.
    pub mounting_type: String,
    /// How many jobs, and how many URLs of a job, run at once.
    pub concurrency: usize,
    /// Whether the refinement images are checked.
    pub refinement: bool,
}

impl Preview {
    /// The preview check.
    pub fn new() -> (p: Self)
        ensures
            p == (Preview {}),
    {
        Preview {}
    }

    /// Reads the arguments of the preview check: `num_workers` must read as
    /// a `usize`, else the arguments are refused.
    pub fn settings(&self, mounting_type: &str, num_workers: &str, refinement: bool) -> (r: Result<
        PreviewSettings,
        ArgError,
    >)
        ensures
            match parse_usize_spec(num_workers@) {
                Some(n) => r matches Ok(s) && s.mounting_type@ == mounting_type@ && s.concurrency
                    == n && s.refinement == refinement,
                None => r == Err::<PreviewSettings, ArgError>(ArgError::NumWorkers),
            },
    {
        match parse_usize(num_workers) {
            Some(n) => Ok(
                PreviewSettings { mounting_type: mounting_type.to_owned(), concurrency: n, refinement },
            ),
            None => Err(ArgError::NumWorkers),
        }
    }
}

/// The ids that the lines of an input file list: each line that reads as a
/// `u32` gives one id, in order; other lines are passed over.
pub open spec fn line_ids(lines: Seq<Seq<char>>) -> Seq<u32>
    decreases lines.len(),
{
    if lines.len() == 0 {
        Seq::empty()
    } else {
        line_ids(lines.drop_last()) + match parse_u32_spec(lines.last()) {
            Some(n) => seq![n],
            None => Seq::empty(),
        }
    }
}

/// The ids of the designs to check, read from the lines of the input file.
pub fn parse_ids(lines: &Vec<String>) -> (ids: Vec<u32>)
    ensures
        ids@ == line_ids(views(lines@)),
{
    let mut ids: Vec<u32> = Vec::new();
    let n = lines.len();
    for i in 0..n
        invariant
            n == lines@.len(),
            ids@ == line_ids(views(lines@).take(i as int)),
    {
        let ghost prefix = views(lines@).take(i as int);
        let ghost next = views(lines@).take(i + 1);
        assert(next.drop_last() =~= prefix);
        assert(next.last() == lines@[i as int]@);
        match parse_u32(lines[i].as_str()) {
            Some(id) => {
                ids.push(id);
            },
            None => {},
        }
        assert(ids@ =~= line_ids(next));
    }
    assert(views(lines@).take(n as int) =~= views(lines@));
    ids
}

/// The lines of a file are read each on its own: the ids of two runs of
/// lines, one after the other, are the ids of the first run followed by those
/// of the second.
pub proof fn lemma_line_ids_split(a: Seq<Seq<char>>, b: Seq<Seq<char>>)
    ensures
        line_ids(a + b) == line_ids(a) + line_ids(b),
    decreases b.len(),
{
    if b.len() == 0 {
        assert(a + b =~= a);
        assert(line_ids(b) =~= Seq::<u32>::empty());
        assert(line_ids(a) + line_ids(b) =~= line_ids(a));
    } else {
        let b0 = b.drop_last();
        lemma_line_ids_split(a, b0);
        assert((a + b).drop_last() =~= a + b0);
        assert((a + b).last() == b.last());
        assert(line_ids(a + b) =~= line_ids(a) + line_ids(b));
    }
}

/// One line gives its id when it reads as a `u32`, and nothing otherwise.
pub proof fn lemma_line_ids_single(line: Seq<char>)
    ensures
        line_ids(seq![line]) == match parse_u32_spec(line) {
            Some(n) => seq![n],
            None => Seq::<u32>::empty(),
        },
{
    assert(seq![line].drop_last() =~= Seq::<Seq<char>>::empty());
    assert(line_ids(Seq::<Seq<char>>::empty()) =~= Seq::<u32>::empty());
    assert(line_ids(seq![line]) =~= line_ids(Seq::<Seq<char>>::empty()) + match parse_u32_spec(
        line,
    ) {
        Some(n) => seq![n],
        None => Seq::<u32>::empty(),
    });
}

/// A line that reads as the `u32` `n` adds `n` to the ids, whatever lines
/// come before it; a line that does not read as one adds nothing.
pub proof fn lemma_line_ids_push(lines: Seq<Seq<char>>, line: Seq<char>)
    ensures
        parse_u32_spec(line) matches Some(n) ==> line_ids(lines.push(line)) == line_ids(lines).push(
            n,
        ),
        parse_u32_spec(line) is None ==> line_ids(lines.push(line)) == line_ids(lines),
{
    assert(lines.push(line) =~= lines + seq![line]);
    lemma_line_ids_split(lines, seq![line]);
    lemma_line_ids_single(line);
    if let Some(n) = parse_u32_spec(line) {
        assert(line_ids(lines) + seq![n] =~= line_ids(lines).push(n));
    } else {
        assert(line_ids(lines) + Seq::<u32>::empty() =~= line_ids(lines));
    }
}

} // verus!
