//! Settling a completion that ran under a time limit. The run itself (a
//! thread and a wait) belongs to the caller; what is returned for each way
//! the run can end is decided here.

use vstd::prelude::*;
use crate::completion::CompletionResult;
use crate::error::{Error, Result};

verus! {

/// The hint added when a completion runs out of time.
pub open spec fn timeout_hint() -> Seq<char> {
    "⚠️  Completion timed out - results may be incomplete. Try a more specific prefix."@
}

/// How a completion run under a time limit ended, as read after the wait.
pub enum TimedOutcome {
    /// The run finished in time; its slot held this (`None` if the run
    /// stored nothing).
    Finished(Option<Result<CompletionResult>>),
    /// The run finished in time but its slot could not be read.
    Unreadable,
    /// The time ran out; the slot held this at that moment (`None` if it
    /// was empty or could not be read).
    TimedOut(Option<Result<CompletionResult>>),
}

/// What a completion run under a time limit returns: the run's own result
/// when it finished; an error when it finished but left nothing readable;
/// and when the time ran out, a result holding the timeout hint followed
/// by whatever the run had already produced.
pub fn settle_timed_completion(outcome: TimedOutcome) -> (r: Result<CompletionResult>)
    ensures
        match outcome {
            TimedOutcome::Finished(Some(x)) => r == x,
            TimedOutcome::Finished(None) => r matches Err(e) && e matches Error::Completion(m)
                && m@ == "Completion function did not return a result"@,
            TimedOutcome::Unreadable => r matches Err(e) && e matches Error::Completion(m)
                && m@ == "Failed to access completion result"@,
            TimedOutcome::TimedOut(slot) => r matches Ok(res) && res.active_help@.len() >= 1
                && res.active_help@[0].message@ == timeout_hint()
                && res.active_help@[0].condition is None && match slot {
                Some(Ok(p)) => res.values@ == p.values@ && res.descriptions@ == p.descriptions@
                    && res.active_help@.skip(1) == p.active_help@,
                _ => res.values@.len() == 0 && res.descriptions@.len() == 0
                    && res.active_help@.len() == 1,
            },
        },
{
    match outcome {
        TimedOutcome::Finished(Some(x)) => x,
        TimedOutcome::Finished(None) => Err(
            Error::Completion("Completion function did not return a result".to_string()),
        ),
        TimedOutcome::Unreadable => Err(
            Error::Completion("Failed to access completion result".to_string()),
        ),
        TimedOutcome::TimedOut(slot) => {
            let hint = "⚠️  Completion timed out - results may be incomplete. Try a more specific prefix.";
            proof {
                reveal_strlit(
                    "⚠️  Completion timed out - results may be incomplete. Try a more specific prefix.",
                );
            }
            let partial = CompletionResult::new().add_help_text(hint);
            match slot {
                Some(Ok(p)) => {
                    let res = partial.merge(p);
                    proof {
                        assert(res.active_help@.skip(1) =~= p.active_help@);
                    }
                    Ok(res)
                },
                _ => Ok(partial),
            }
        },
    }
}

} // verus!
