//! A run's result and the end-of-run rules that produce it.
//!
//! However the script ends — its own evaluation resolving, an explicit
//! `ptah.exit`, an uncaught error, or the embedding process cancelling
//! from outside — the run tears down its agent sessions and in-flight
//! execs and reports one outcome. `cancelled` is set only on the outer
//! cancel path, so a script's own `ptah.exit(130)` stays a failure.

use vstd::prelude::*;

use crate::text::push_str_chars;

verus! {

/// Result of one run.
#[derive(Debug)]
pub struct RunOutcome {
    pub code: i32,
    /// Uncaught script error (printed to stderr by the CLI).
    pub error: Option<String>,
    /// Task errors never delivered to the script (printed to stderr; run
    /// fails).
    pub undelivered_errors: Vec<String>,
    /// The embedding process cancelled the run (a termination signal).
    pub cancelled: bool,
}

/// How the script's own evaluation ended.
#[derive(Debug)]
pub enum ScriptEnd {
    /// The embedding process cancelled the run; the code to report.
    Cancelled(i32),
    /// The script called `ptah.exit(code)`.
    Exited(i32),
    /// An uncaught script error, as displayed.
    Failed(String),
    /// The script's chunk ran to its end.
    Completed,
}

/// The end of a run: its outcome, and whether teardown cancels in-flight
/// turns before closing the sessions.
#[derive(Debug)]
pub struct RunFinish {
    pub outcome: RunOutcome,
    pub cancel_turns: bool,
}

/// An outcome with no error and no undelivered task errors.
pub open spec fn plain_outcome(o: RunOutcome, code: i32, cancelled: bool) -> bool {
    &&& o.code == code
    &&& o.error.is_none()
    &&& o.undelivered_errors@.len() == 0
    &&& o.cancelled == cancelled
}

fn plain(code: i32, cancelled: bool) -> (o: RunOutcome)
    ensures
        plain_outcome(o, code, cancelled),
{
    RunOutcome { code, error: None, undelivered_errors: Vec::new(), cancelled }
}

/// A run that could not start: exit 1 with the reason.
pub fn failed_to_start(reason: String) -> (o: RunOutcome)
    ensures
        o.code == 1,
        o.error == Some(reason),
        o.undelivered_errors@.len() == 0,
        !o.cancelled,
{
    RunOutcome { code: 1, error: Some(reason), undelivered_errors: Vec::new(), cancelled: false }
}

/// The outcome when the script environment cannot be initialized.
pub fn setup_failure(reason: &str) -> (o: RunOutcome)
    ensures
        o.code == 1,
        o.error matches Some(e) && e@ == "failed to initialize script environment: "@ + reason@,
        o.undelivered_errors@.len() == 0,
        !o.cancelled,
{
    let mut e = String::new();
    push_str_chars(&mut e, "failed to initialize script environment: ");
    push_str_chars(&mut e, reason);
    failed_to_start(e)
}

/// The outcome when the script file cannot be read.
pub fn unreadable_script(script: &str, reason: &str) -> (o: RunOutcome)
    ensures
        o.code == 1,
        o.error matches Some(e) && e@ == "cannot read script "@ + script@ + ": "@ + reason@,
        o.undelivered_errors@.len() == 0,
        !o.cancelled,
{
    let mut e = String::new();
    push_str_chars(&mut e, "cannot read script ");
    push_str_chars(&mut e, script);
    push_str_chars(&mut e, ": ");
    push_str_chars(&mut e, reason);
    failed_to_start(e)
}

/// After the script's evaluation: an outer cancel reports its code as
/// cancelled; an explicit exit reports its code (winning over any
/// undelivered task errors); an uncaught error exits 1 with its text.
/// Each tears down cancelling in-flight turns. A completed script goes on
/// to drain its outstanding tasks (`None`).
pub fn after_script(end: ScriptEnd) -> (r: Option<RunFinish>)
    ensures
        match end {
            ScriptEnd::Cancelled(code) => r matches Some(f) && f.cancel_turns && plain_outcome(f.outcome, code, true),
            ScriptEnd::Exited(code) => r matches Some(f) && f.cancel_turns && plain_outcome(f.outcome, code, false),
            ScriptEnd::Failed(msg) => r matches Some(f) && f.cancel_turns && f.outcome.code == 1
                && f.outcome.error == Some(msg) && f.outcome.undelivered_errors@.len() == 0
                && !f.outcome.cancelled,
            ScriptEnd::Completed => r.is_none(),
        },
{
    match end {
        ScriptEnd::Cancelled(code) => Some(RunFinish { outcome: plain(code, true), cancel_turns: true }),
        ScriptEnd::Exited(code) => Some(RunFinish { outcome: plain(code, false), cancel_turns: true }),
        ScriptEnd::Failed(msg) => Some(
            RunFinish {
                outcome: RunOutcome { code: 1, error: Some(msg), undelivered_errors: Vec::new(), cancelled: false },
                cancel_turns: true,
            },
        ),
        ScriptEnd::Completed => None,
    }
}

/// After a completed script's outstanding tasks drained (or the drain was
/// cancelled from outside): an outer cancel during the drain reports its
/// code as cancelled; an exit signalled from within a task still wins;
/// a cancel that landed after the drain's last poll is honoured; otherwise
/// the run fails exactly when task errors went undelivered, and teardown
/// lets in-flight turns finish closing.
pub fn after_drain(
    drain_cancel: Option<i32>,
    task_exit: Option<i32>,
    late_cancel: Option<i32>,
    undelivered: Vec<String>,
) -> (f: RunFinish)
    ensures
        match drain_cancel {
            Some(code) => f.cancel_turns && plain_outcome(f.outcome, code, true),
            None => match task_exit {
                Some(code) => f.cancel_turns && plain_outcome(f.outcome, code, false),
                None => match late_cancel {
                    Some(code) => f.cancel_turns && plain_outcome(f.outcome, code, true),
                    None => {
                        &&& !f.cancel_turns
                        &&& f.outcome.code == (if undelivered@.len() > 0 { 1i32 } else { 0i32 })
                        &&& f.outcome.error.is_none()
                        &&& f.outcome.undelivered_errors == undelivered
                        &&& !f.outcome.cancelled
                    },
                },
            },
        },
{
    if let Some(code) = drain_cancel {
        return RunFinish { outcome: plain(code, true), cancel_turns: true };
    }
    if let Some(code) = task_exit {
        return RunFinish { outcome: plain(code, false), cancel_turns: true };
    }
    if let Some(code) = late_cancel {
        return RunFinish { outcome: plain(code, true), cancel_turns: true };
    }
    let code: i32 = if undelivered.len() > 0 { 1 } else { 0 };
    RunFinish {
        outcome: RunOutcome { code, error: None, undelivered_errors: undelivered, cancelled: false },
        cancel_turns: false,
    }
}

} // verus!
