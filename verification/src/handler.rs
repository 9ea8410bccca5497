//! Which check a subcommand runs, and the errors in its arguments.

use vstd::prelude::*;
use crate::text::same_text;

verus! {

/// The checks that a subcommand can run.
#[derive(Clone, Copy, Debug, PartialEq, Eq, Structural)]
pub enum HandlerKind {
    /// The preview images of calendar designs.
    Preview,
}

/// An argument that does not read as the number it must be.
#[derive(Clone, Copy, Debug, PartialEq, Eq, Structural)]
pub enum ArgError {
    /// `year` is not a `u32`.
    Year,
    /// `num-workers` is not a `usize`.
    NumWorkers,
}

/// The check that runs for `subcommand`, the name of the subcommand given on
/// the command line: `preview` runs the preview check; any other name, or
/// none, runs nothing.
pub fn get(subcommand: Option<&str>) -> (kind: Option<HandlerKind>)
    ensures
        kind == (match subcommand {
            Some(name) => if name@ == "preview"@ {
                Some(HandlerKind::Preview)
            } else {
                None
            },
            None => None,
        }),
{
    match subcommand {
        Some(name) => {
            if same_text(name, "preview") {
                Some(HandlerKind::Preview)
            } else {
                None
            }
        },
        None => None,
    }
}

} // verus!
