//! The checking of one job's URLs: a job stops requesting once one of its
//! URLs has failed, and each failure reports the job's id.

use vstd::prelude::*;

verus! {

/// What a HEAD request for one URL came back with.
#[derive(Clone, Copy, Debug, PartialEq, Eq, Structural)]
pub enum HeadOutcome {
    /// The request itself failed (connection, timeout, ...).
    Failed,
    /// The server answered with this HTTP status code.
    Status(u16),
}

/// A status code of the success class, 200 to 299.
pub open spec fn is_success_code(code: u16) -> bool {
    200 <= code && code < 300
}

/// Whether `code` is of the success class, 200 to 299.
pub fn is_success(code: u16) -> (r: bool)
    ensures
        r == is_success_code(code),
{
    200 <= code && code < 300
}

impl HeadOutcome {
    /// The URL counts as missing: the request failed, or its status is not a
    /// success.
    pub open spec fn failed(self) -> bool {
        match self {
            HeadOutcome::Failed => true,
            HeadOutcome::Status(code) => !is_success_code(code),
        }
    }

    /// Whether this outcome makes the URL count as missing.
    pub fn is_failure(&self) -> (r: bool)
        ensures
            r == self.failed(),
    {
        match self {
            HeadOutcome::Failed => true,
            HeadOutcome::Status(code) => !is_success(*code),
        }
    }
}

/// The state of one job's checks: its id, and whether one of its URLs has
/// already failed, after which its remaining URLs are not requested.
pub struct UrlHandler {
    id: u32,
    break_loop: bool,
}

impl UrlHandler {
    /// The job's id.
    pub closed spec fn spec_id(&self) -> u32 {
        self.id
    }

    /// Whether the job has stopped requesting.
    pub closed spec fn stopped(&self) -> bool {
        self.break_loop
    }

    /// A handler for job `id`, stopped already if `break_loop` is set.
    pub fn new(id: u32, break_loop: bool) -> (h: Self)
        ensures
            h.spec_id() == id,
            h.stopped() == break_loop,
    {
        UrlHandler { id, break_loop }
    }

    /// The job's id.
    pub fn id(&self) -> (r: u32)
        ensures
            r == self.spec_id(),
    {
        self.id
    }

    /// Whether the next URL is still to be requested: not once the job has
    /// stopped.
    pub fn should_request(&self) -> (r: bool)
        ensures
            r == !self.stopped(),
    {
        !self.break_loop
    }

    /// Takes in the outcome of one request. A failure stops the job and
    /// reports its id; a success changes nothing.
    pub fn record(&mut self, outcome: HeadOutcome) -> (report: Option<u32>)
        ensures
            final(self).spec_id() == old(self).spec_id(),
            outcome.failed() ==> final(self).stopped() && report == Some(old(self).spec_id()),
            !outcome.failed() ==> final(self).stopped() == old(self).stopped() && report is None,
            !old(self).stopped() ==> check_step(old(self).spec_id(), false, outcome) == (
                final(self).stopped(),
                report_seq(report),
            ),
    {
        if outcome.is_failure() {
            self.break_loop = true;
            Some(self.id)
        } else {
            None
        }
    }
}

/// A report as a list of ids: the id, or nothing.
pub open spec fn report_seq(report: Option<u32>) -> Seq<u32> {
    match report {
        Some(id) => seq![id],
        None => Seq::empty(),
    }
}

/// One URL of a job checked in turn: skipped once the job has stopped, else
/// its outcome recorded. Gives the job's new state (`id`, `stopped`) and the
/// ids reported.
pub open spec fn check_step(id: u32, stopped: bool, outcome: HeadOutcome) -> (bool, Seq<u32>) {
    if stopped {
        (true, Seq::empty())
    } else if outcome.failed() {
        (true, seq![id])
    } else {
        (false, Seq::empty())
    }
}

/// The ids reported when the URLs of job `id`, whose requests would come back
/// with `outcomes`, are checked one after another.
pub open spec fn sequential_reports(id: u32, stopped: bool, outcomes: Seq<HeadOutcome>) -> Seq<u32>
    decreases outcomes.len(),
{
    if outcomes.len() == 0 {
        Seq::empty()
    } else {
        let (next, reported) = check_step(id, stopped, outcomes[0]);
        reported + sequential_reports(id, next, outcomes.drop_first())
    }
}

/// A job whose URLs are checked one after another, starting unstopped,
/// reports its id exactly once if one of its URLs fails, and never
/// otherwise.
pub proof fn lemma_sequential_reports(id: u32, outcomes: Seq<HeadOutcome>)
    ensures
        (exists|i: int| 0 <= i < outcomes.len() && #[trigger] outcomes[i].failed())
            ==> sequential_reports(id, false, outcomes) == seq![id],
        !(exists|i: int| 0 <= i < outcomes.len() && #[trigger] outcomes[i].failed())
            ==> sequential_reports(id, false, outcomes) == Seq::<u32>::empty(),
    decreases outcomes.len(),
{
    if outcomes.len() > 0 {
        let rest = outcomes.drop_first();
        lemma_stopped_reports_nothing(id, rest);
        lemma_sequential_reports(id, rest);
        if outcomes[0].failed() {
            assert(sequential_reports(id, false, outcomes) =~= seq![id]);
        } else {
            assert(sequential_reports(id, false, outcomes) =~= sequential_reports(id, false, rest));
            if exists|i: int| 0 <= i < outcomes.len() && #[trigger] outcomes[i].failed() {
                let i = choose|i: int| 0 <= i < outcomes.len() && #[trigger] outcomes[i].failed();
                assert(rest[i - 1].failed());
            } else {
                assert forall|i: int| 0 <= i < rest.len() implies !#[trigger] rest[i].failed() by {
                    assert(outcomes[i + 1] == rest[i]);
                }
            }
        }
    }
}

/// A stopped job reports nothing more.
pub proof fn lemma_stopped_reports_nothing(id: u32, outcomes: Seq<HeadOutcome>)
    ensures
        sequential_reports(id, true, outcomes) == Seq::<u32>::empty(),
    decreases outcomes.len(),
{
    if outcomes.len() > 0 {
        lemma_stopped_reports_nothing(id, outcomes.drop_first());
        assert(sequential_reports(id, true, outcomes) =~= Seq::<u32>::empty());
    }
}

/// A status code counts as a success exactly from 200 to 299: every code
/// below 200 or from 300 on (403, 404, 500, ...) does not.
pub proof fn lemma_success_codes(code: u16)
    ensures
        is_success_code(code) <==> (200 <= code && code <= 299),
        code < 200 ==> !is_success_code(code),
        code >= 300 ==> !is_success_code(code),
{
}

/// An outcome makes its URL count as missing exactly when the request failed
/// or its status is not from 200 to 299.
pub proof fn lemma_failed_outcomes(outcome: HeadOutcome)
    ensures
        outcome.failed() <==> match outcome {
            HeadOutcome::Failed => true,
            HeadOutcome::Status(code) => code < 200 || code > 299,
        },
{
}

} // verus!
