//! Running an install or uninstall script: the decisions of the host's loop.
//!
//! The host performs one step at a time and reports how it went; the step
//! functions here say which step comes next or how the script ends. A script
//! ends `Ok` only when every step succeeds, and ends at its first failure.
use vstd::prelude::*;
use crate::text::concat;
use crate::install::{InstallOp, InstallOpView, ops_view};

verus! {

/// How the host's attempt at one step went.
pub enum StepReport {
    /// The step did what it should (a process exited 0, a directory was made).
    Succeeded,
    /// The process ran and exited with a non-zero status.
    ExitedNonZero,
    /// The process could not be started; the system's error text.
    StartFailed(String),
    /// Waiting for the process failed; the system's error text.
    WaitFailed(String),
    /// A file-system operation failed; the system's error text.
    IoFailed(String),
}

/// Mathematical model of a `StepReport`.
pub enum StepReportView {
    Succeeded,
    ExitedNonZero,
    StartFailed(Seq<char>),
    WaitFailed(Seq<char>),
    IoFailed(Seq<char>),
}

impl View for StepReport {
    type V = StepReportView;

    open spec fn view(&self) -> StepReportView {
        match self {
            StepReport::Succeeded => StepReportView::Succeeded,
            StepReport::ExitedNonZero => StepReportView::ExitedNonZero,
            StepReport::StartFailed(e) => StepReportView::StartFailed(e@),
            StepReport::WaitFailed(e) => StepReportView::WaitFailed(e@),
            StepReport::IoFailed(e) => StepReportView::IoFailed(e@),
        }
    }
}

/// What the host does next.
pub enum Next {
    /// Perform the step at this position.
    Perform(usize),
    /// Stop: the script's result.
    Finish(Result<(), String>),
}

/// Mathematical model of a `Next`.
pub enum NextView {
    Perform(int),
    Finish(Result<(), Seq<char>>),
}

impl View for Next {
    type V = NextView;

    open spec fn view(&self) -> NextView {
        match self {
            Next::Perform(i) => NextView::Perform(*i as int),
            Next::Finish(Ok(())) => NextView::Finish(Ok(())),
            Next::Finish(Err(e)) => NextView::Finish(Err(e@)),
        }
    }
}

/// The failure message of a performed step, or `None` when it succeeded. A
/// report that does not fit the kind of step (a process status for a log
/// line, say) counts as success.
pub open spec fn spec_step_failure(op: InstallOpView, r: StepReportView) -> Option<Seq<char>> {
    match op {
        InstallOpView::Run { failure, .. } => match r {
            StepReportView::ExitedNonZero => Some(failure),
            StepReportView::StartFailed(e) => Some("failed to start process: "@ + e),
            StepReportView::WaitFailed(e) => Some("process wait failed: "@ + e),
            _ => None,
        },
        InstallOpView::ResetBuildDir(_) => match r {
            StepReportView::IoFailed(e) => Some("mkdir build dir: "@ + e),
            _ => None,
        },
        InstallOpView::RemoveBuildDir(_) => match r {
            StepReportView::IoFailed(e) => Some("failed to remove build cache: "@ + e),
            _ => None,
        },
        _ => None,
    }
}

/// Where a script goes from position `i`, before anything is performed there:
/// the end finishes `Ok`, a `Fail` step finishes with its message, any other
/// step is performed.
pub open spec fn spec_next_from(ops: Seq<InstallOpView>, i: int) -> NextView {
    if i >= ops.len() {
        NextView::Finish(Ok(()))
    } else {
        match ops[i] {
            InstallOpView::Fail(m) => NextView::Finish(Err(m)),
            _ => NextView::Perform(i),
        }
    }
}

/// Where a script goes after step `i` was performed with report `r`: a
/// failure finishes with its message, success moves on to the next step.
pub open spec fn spec_after(ops: Seq<InstallOpView>, i: int, r: StepReportView) -> NextView {
    if 0 <= i < ops.len() && spec_step_failure(ops[i], r) is Some {
        NextView::Finish(Err(spec_step_failure(ops[i], r)->0))
    } else if 0 <= i < ops.len() {
        spec_next_from(ops, i + 1)
    } else {
        NextView::Finish(Ok(()))
    }
}

/// The failure message of step `op` performed with report `r`.
fn step_failure(op: &InstallOp, r: &StepReport) -> (m: Option<String>)
    ensures
        match m {
            Some(s) => spec_step_failure(op@, r@) == Some(s@),
            None => spec_step_failure(op@, r@) is None,
        },
{
    match op {
        InstallOp::Run { failure, .. } => match r {
            StepReport::ExitedNonZero => Some(failure.clone()),
            StepReport::StartFailed(e) => Some(concat("failed to start process: ", e.as_str())),
            StepReport::WaitFailed(e) => Some(concat("process wait failed: ", e.as_str())),
            _ => None,
        },
        InstallOp::ResetBuildDir(_) => match r {
            StepReport::IoFailed(e) => Some(concat("mkdir build dir: ", e.as_str())),
            _ => None,
        },
        InstallOp::RemoveBuildDir(_) => match r {
            StepReport::IoFailed(e) => Some(concat("failed to remove build cache: ", e.as_str())),
            _ => None,
        },
        _ => None,
    }
}

/// Where the script goes from position `i`.
fn next_from(ops: &Vec<InstallOp>, i: usize) -> (n: Next)
    ensures
        n@ == spec_next_from(ops_view(ops@), i as int),
{
    if i >= ops.len() {
        Next::Finish(Ok(()))
    } else {
        match &ops[i] {
            InstallOp::Fail(m) => Next::Finish(Err(m.clone())),
            _ => Next::Perform(i),
        }
    }
}

/// The first thing to do with a script.
pub fn first_step(ops: &Vec<InstallOp>) -> (n: Next)
    ensures
        n@ == spec_next_from(ops_view(ops@), 0),
{
    next_from(ops, 0)
}

/// The next thing to do after step `i` of the script was performed and
/// reported as `report`.
pub fn after_step(ops: &Vec<InstallOp>, i: usize, report: &StepReport) -> (n: Next)
    ensures
        n@ == spec_after(ops_view(ops@), i as int, report@),
{
    if i >= ops.len() {
        return Next::Finish(Ok(()));
    }
    match step_failure(&ops[i], report) {
        Some(m) => Next::Finish(Err(m)),
        None => next_from(ops, i + 1),
    }
}

/* What running a script does */

/// Whether performing `op` with report `r` lets the script go on.
pub open spec fn step_ok(op: InstallOpView, r: StepReportView) -> bool {
    !(op is Fail) && spec_step_failure(op, r) is None
}

/// The message a script ends with when it stops at `op` reported as `r`.
pub open spec fn stop_msg(op: InstallOpView, r: StepReportView) -> Seq<char> {
    match op {
        InstallOpView::Fail(m) => m,
        _ => spec_step_failure(op, r)->0,
    }
}

/// The positions performed from position `i` on, when the step at position
/// `k` is reported as `reports[k]`.
pub open spec fn performed(ops: Seq<InstallOpView>, reports: Seq<StepReportView>, i: int) -> Seq<
    int,
>
    decreases ops.len() - i,
{
    if i < 0 || i >= ops.len() {
        seq![]
    } else if ops[i] is Fail {
        seq![]
    } else if spec_step_failure(ops[i], reports[i]) is Some {
        seq![i]
    } else {
        seq![i] + performed(ops, reports, i + 1)
    }
}

/// How a script ends from position `i` on, when the step at position `k` is
/// reported as `reports[k]`.
pub open spec fn outcome(ops: Seq<InstallOpView>, reports: Seq<StepReportView>, i: int) -> Result<
    (),
    Seq<char>,
>
    decreases ops.len() - i,
{
    if i < 0 || i >= ops.len() {
        Ok(())
    } else if !step_ok(ops[i], reports[i]) {
        Err(stop_msg(ops[i], reports[i]))
    } else {
        outcome(ops, reports, i + 1)
    }
}

/// A host that starts with [`first_step`] and then calls [`after_step`] with
/// each report performs exactly the positions of [`performed`] and ends with
/// [`outcome`]: at each position the step functions either finish with the
/// outcome, having performed nothing more, or perform that very position and
/// then finish or go on to the next one.
pub proof fn law_step_functions_follow_run(
    ops: Seq<InstallOpView>,
    reports: Seq<StepReportView>,
    i: int,
)
    requires
        0 <= i <= ops.len(),
    ensures
        spec_next_from(ops, i) matches NextView::Finish(r) ==> performed(ops, reports, i)
            == Seq::<int>::empty() && outcome(ops, reports, i) == r,
        spec_next_from(ops, i) matches NextView::Perform(j) ==> j == i && i < ops.len(),
        spec_next_from(ops, i) is Perform ==> (spec_after(ops, i, reports[i]) matches NextView::Finish(
            r,
        ) ==> performed(ops, reports, i) == seq![i] && outcome(ops, reports, i) == r),
        spec_next_from(ops, i) is Perform ==> (spec_after(ops, i, reports[i]) matches NextView::Perform(
            k,
        ) ==> k == i + 1 && performed(ops, reports, i) == seq![i] + performed(ops, reports, i + 1)
            && outcome(ops, reports, i) == outcome(ops, reports, i + 1)),
{
    if i < ops.len() && !(ops[i] is Fail) && spec_step_failure(ops[i], reports[i]) is None {
        if i + 1 == ops.len() {
            assert(performed(ops, reports, i + 1) == Seq::<int>::empty());
            assert(performed(ops, reports, i) =~= seq![i]);
        } else if ops[i + 1] is Fail {
            assert(performed(ops, reports, i + 1) == Seq::<int>::empty());
            assert(performed(ops, reports, i) =~= seq![i]);
        }
    }
}

/// Running from position `i`: the steps are performed in order from `i`; each
/// performed step but the last succeeded; the run ends `Ok` exactly when every
/// step from `i` on succeeds, having then performed all of them; otherwise it
/// ends with the message of the first step that fails, and that step is the
/// last one performed (a `Fail` step is not performed at all).
proof fn lemma_run_from(ops: Seq<InstallOpView>, reports: Seq<StepReportView>, i: int)
    requires
        0 <= i <= ops.len(),
    ensures
        outcome(ops, reports, i) is Ok <==> forall|k: int|
            i <= k < ops.len() ==> #[trigger] step_ok(ops[k], reports[k]),
        forall|j: int|
            0 <= j < performed(ops, reports, i).len() ==> #[trigger] performed(ops, reports, i)[j]
                == i + j,
        forall|k: int|
            i <= k < i + performed(ops, reports, i).len() - 1 ==> #[trigger] step_ok(
                ops[k],
                reports[k],
            ),
        outcome(ops, reports, i) is Ok ==> performed(ops, reports, i).len() == ops.len() - i,
        outcome(ops, reports, i) matches Err(m) ==> exists|k: int|
            #![trigger step_ok(ops[k], reports[k])]
            i <= k < ops.len() && (forall|j: int| i <= j < k ==> step_ok(ops[j], reports[j]))
                && !step_ok(ops[k], reports[k]) && m == stop_msg(ops[k], reports[k])
                && performed(ops, reports, i).len() == (if ops[k] is Fail {
                k - i
            } else {
                k - i + 1
            }),
    decreases ops.len() - i,
{
    if i == ops.len() {
    } else if !step_ok(ops[i], reports[i]) {
        if ops[i] is Fail {
            assert(performed(ops, reports, i) == Seq::<int>::empty());
        } else {
            assert(performed(ops, reports, i) == seq![i]);
        }
        assert(!step_ok(ops[i], reports[i]));
    } else {
        lemma_run_from(ops, reports, i + 1);
        let p = performed(ops, reports, i);
        let q = performed(ops, reports, i + 1);
        assert(p == seq![i] + q);
        assert forall|j: int| 0 <= j < p.len() implies #[trigger] p[j] == i + j by {
            if j > 0 {
                assert(p[j] == q[j - 1]);
            }
        }
        if outcome(ops, reports, i) is Ok {
            assert forall|k: int| i <= k < ops.len() implies #[trigger] step_ok(ops[k], reports[k]) by {
                if k > i {
                }
            }
        } else {
            assert(!(forall|k: int| i + 1 <= k < ops.len() ==> #[trigger] step_ok(ops[k], reports[k])));
        }
        match outcome(ops, reports, i) {
            Err(m) => {
                let k = choose|k: int|
                    #![trigger step_ok(ops[k], reports[k])]
                    i + 1 <= k < ops.len() && (forall|j: int|
                        i + 1 <= j < k ==> step_ok(ops[j], reports[j])) && !step_ok(ops[k], reports[k])
                        && m == stop_msg(ops[k], reports[k]) && q.len() == (if ops[k] is Fail {
                        k - i - 1
                    } else {
                        k - i
                    });
                assert forall|j: int| i <= j < k implies step_ok(ops[j], reports[j]) by {
                    if j > i {
                    }
                }
                assert(step_ok(ops[k], reports[k]) == false);
            },
            Ok(()) => {},
        }
    }
}

/// Running a whole script: its steps are performed in order from the first;
/// it ends `Ok` exactly when every step succeeds (no `Fail` step, every
/// process exits 0, every directory operation works), and then every step was
/// performed; otherwise it ends with the message of the first failing step,
/// and nothing after that step is performed.
pub proof fn law_script_run(ops: Seq<InstallOpView>, reports: Seq<StepReportView>)
    ensures
        outcome(ops, reports, 0) is Ok <==> forall|k: int|
            0 <= k < ops.len() ==> #[trigger] step_ok(ops[k], reports[k]),
        forall|j: int|
            0 <= j < performed(ops, reports, 0).len() ==> #[trigger] performed(ops, reports, 0)[j]
                == j,
        outcome(ops, reports, 0) is Ok ==> performed(ops, reports, 0).len() == ops.len(),
        outcome(ops, reports, 0) matches Err(m) ==> exists|k: int|
            #![trigger step_ok(ops[k], reports[k])]
            0 <= k < ops.len() && (forall|j: int| 0 <= j < k ==> step_ok(ops[j], reports[j]))
                && !step_ok(ops[k], reports[k]) && m == stop_msg(ops[k], reports[k])
                && performed(ops, reports, 0).len() == (if ops[k] is Fail {
                k
            } else {
                k + 1
            }),
{
    lemma_run_from(ops, reports, 0);
}

/// What each report means for each kind of step: a log line always goes on;
/// a `Fail` step always stops with its message; a process goes on only when
/// it started, was waited for and exited 0, and stops with the step's own
/// failure text on a non-zero exit, or with the system's error after "failed
/// to start process: " or "process wait failed: "; a directory operation
/// stops only when the file system failed, with the system's error after
/// "mkdir build dir: " (when making the build directory) or "failed to remove
/// build cache: " (when removing it).
pub proof fn law_step_reports(op: InstallOpView, r: StepReportView)
    ensures
        op is Emit ==> step_ok(op, r),
        op matches InstallOpView::Fail(m) ==> !step_ok(op, r) && stop_msg(op, r) == m,
        op is Run && r is Succeeded ==> step_ok(op, r),
        op matches InstallOpView::Run { failure, .. } ==> (r is ExitedNonZero ==> !step_ok(op, r)
            && stop_msg(op, r) == failure),
        r matches StepReportView::StartFailed(e) ==> (op is Run ==> !step_ok(op, r) && stop_msg(op, r)
            == "failed to start process: "@ + e),
        r matches StepReportView::WaitFailed(e) ==> (op is Run ==> !step_ok(op, r) && stop_msg(op, r)
            == "process wait failed: "@ + e),
        op is ResetBuildDir ==> (step_ok(op, r) <==> !(r is IoFailed)),
        r matches StepReportView::IoFailed(e) ==> (op is ResetBuildDir ==> stop_msg(op, r)
            == "mkdir build dir: "@ + e),
        op is RemoveBuildDir ==> (step_ok(op, r) <==> !(r is IoFailed)),
        r matches StepReportView::IoFailed(e) ==> (op is RemoveBuildDir ==> stop_msg(op, r)
            == "failed to remove build cache: "@ + e),
{
}

} // verus!
