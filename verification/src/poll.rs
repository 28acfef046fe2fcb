//! The poll/backoff state machine.
//!
//! A created or reused job is driven to a terminal status by repeatedly
//! fetching it and sleeping in between. The decisions live here, verified:
//! [`PollState::step`] maps an observed job to either done, a distinct
//! terminal error, or a bounded sleep; the caller performs the fetch and the
//! sleep. Every sleep adds at least two seconds to the tracked wait, and no
//! sleep is granted once the ceiling of [`POLL_CEILING_SECS`] is reached, so
//! any driver of this machine polls at most a bounded number of times —
//! [`simulate_poll`] runs the machine against a status that never changes
//! and is verified to terminate with the timeout error rather than loop.

use vstd::prelude::*;
use vstd::string::StringExecFns;

use crate::batch::{Batch, BatchStatus, WaitForBatchError};
use crate::json::text::jv_text;
use crate::json::JsonV;

verus! {

/// The wait ceiling, one calendar day: the provider's own completion window.
pub const POLL_CEILING_SECS: u64 = 86400;

/// The longest single sleep.
pub const POLL_MAX_DELAY_SECS: u64 = 120;

/// The backoff delay after the given number of polls: `2^attempts`, capped.
pub open spec fn backoff_delay(attempts: u64) -> u64 {
    if attempts >= 7 {
        120
    } else if attempts == 6 {
        64
    } else if attempts == 5 {
        32
    } else if attempts == 4 {
        16
    } else if attempts == 3 {
        8
    } else if attempts == 2 {
        4
    } else if attempts == 1 {
        2
    } else {
        1
    }
}

/// The serialized error report of a failed job, `null` when it has none.
pub open spec fn batch_error_text(b: Batch) -> Seq<char> {
    match b.errors {
        Some(e) => jv_text(e@),
        None => jv_text(JsonV::Null),
    }
}

/// What the machine asks its driver to do next.
#[derive(Debug)]
pub enum PollDecision {
    /// The job completed; stop and collect results.
    Finished,
    /// The job ended badly or the ceiling was reached; stop with this error.
    Fail(WaitForBatchError),
    /// Sleep this many seconds, fetch the job again, and step again.
    Sleep(u64),
}

/// The machine's state: how often it has polled and how long it has waited.
#[derive(Debug, Clone, Copy, PartialEq, Eq, Structural)]
pub struct PollState {
    /// Polls made so far.
    pub attempts: u64,
    /// Seconds slept so far.
    pub seconds_waited: u64,
}

impl PollState {
    /// The state stays within its bounds: the wait never passes the ceiling
    /// by more than one maximal sleep, and the attempt count trails the
    /// wait.
    pub open spec fn inv(self) -> bool {
        &&& self.seconds_waited <= POLL_CEILING_SECS + POLL_MAX_DELAY_SECS
        &&& self.attempts <= self.seconds_waited + 1
    }

    /// A fresh machine.
    pub fn new() -> (r: PollState)
        ensures
            r.attempts == 0,
            r.seconds_waited == 0,
            r.inv(),
    {
        PollState { attempts: 0, seconds_waited: 0 }
    }

    /// One decision, from one observation of the job.
    ///
    /// Terminal statuses map to their distinct outcomes and leave the state
    /// unchanged. A non-terminal status past the ceiling yields the timeout
    /// error; before the ceiling it yields a sleep of at least two seconds,
    /// capped at [`POLL_MAX_DELAY_SECS`], which is added to the tracked
    /// wait. So the wait grows along every polling path, and no run of this
    /// machine sleeps more than `POLL_CEILING_SECS / 2 + 1` times.
    pub fn step(&mut self, batch: &Batch) -> (d: PollDecision)
        requires
            old(self).inv(),
        ensures
            final(self).inv(),
            batch.status == BatchStatus::Completed ==> d is Finished && *final(self) == *old(self),
            batch.status == BatchStatus::Failed ==> *final(self) == *old(self) && (
            d matches PollDecision::Fail(e) && e matches WaitForBatchError::BatchFailed {
                id,
                error,
            } && id@ == batch.id@ && error@ == batch_error_text(*batch)),
            batch.status == BatchStatus::Expired ==> *final(self) == *old(self) && (
            d matches PollDecision::Fail(e) && e matches WaitForBatchError::BatchExpired(id) && id@
                == batch.id@),
            (batch.status == BatchStatus::Cancelled || batch.status == BatchStatus::Cancelling)
                ==> *final(self) == *old(self) && (d matches PollDecision::Fail(e)
                && e matches WaitForBatchError::BatchCancelled(id) && id@ == batch.id@),
            (batch.status == BatchStatus::Validating || batch.status == BatchStatus::InProgress
                || batch.status == BatchStatus::Finalizing) ==> {
                if old(self).seconds_waited >= POLL_CEILING_SECS {
                    &&& *final(self) == *old(self)
                    &&& (d matches PollDecision::Fail(e)
                        && e matches WaitForBatchError::BatchTimeout(id) && id@ == batch.id@)
                } else {
                    let delay = backoff_delay((old(self).attempts + 1) as u64);
                    &&& d == PollDecision::Sleep(delay)
                    &&& 2 <= delay <= POLL_MAX_DELAY_SECS
                    &&& final(self).attempts == old(self).attempts + 1
                    &&& final(self).seconds_waited == old(self).seconds_waited + delay
                }
            },
    {
        match batch.status {
            BatchStatus::Completed => PollDecision::Finished,
            BatchStatus::Failed => {
                let error = match &batch.errors {
                    Some(e) => e.to_text(),
                    None => String::from_str("null"),
                };
                proof {
                    assert("null"@ == jv_text(JsonV::Null));
                }
                PollDecision::Fail(
                    WaitForBatchError::BatchFailed { id: batch.id.clone(), error },
                )
            },
            BatchStatus::Expired => PollDecision::Fail(
                WaitForBatchError::BatchExpired(batch.id.clone()),
            ),
            BatchStatus::Cancelled => PollDecision::Fail(
                WaitForBatchError::BatchCancelled(batch.id.clone()),
            ),
            BatchStatus::Cancelling => PollDecision::Fail(
                WaitForBatchError::BatchCancelled(batch.id.clone()),
            ),
            _ => {
                if self.seconds_waited >= POLL_CEILING_SECS {
                    return PollDecision::Fail(
                        WaitForBatchError::BatchTimeout(batch.id.clone()),
                    );
                }
                self.attempts = self.attempts + 1;
                let delay: u64 = if self.attempts >= 7 {
                    120
                } else if self.attempts == 6 {
                    64
                } else if self.attempts == 5 {
                    32
                } else if self.attempts == 4 {
                    16
                } else if self.attempts == 3 {
                    8
                } else if self.attempts == 2 {
                    4
                } else {
                    2
                };
                self.seconds_waited = self.seconds_waited + delay;
                PollDecision::Sleep(delay)
            },
        }
    }
}

/// Runs the machine against a job whose status never changes, without
/// sleeping for real.
///
/// The loop is verified to terminate: a job stuck in a non-terminal status
/// yields the timeout error once the tracked wait reaches the ceiling — the
/// machine cannot poll forever.
pub fn simulate_poll(batch: &Batch) -> (r: Option<WaitForBatchError>)
    ensures
        batch.status == BatchStatus::Completed ==> r is None,
        (batch.status == BatchStatus::Validating || batch.status == BatchStatus::InProgress
            || batch.status == BatchStatus::Finalizing) ==> (r matches Some(e)
            && e matches WaitForBatchError::BatchTimeout(id) && id@ == batch.id@),
        batch.status == BatchStatus::Failed ==> (r matches Some(e)
            && e matches WaitForBatchError::BatchFailed { id, error } && id@ == batch.id@
            && error@ == batch_error_text(*batch)),
        batch.status == BatchStatus::Expired ==> (r matches Some(e)
            && e matches WaitForBatchError::BatchExpired(id) && id@ == batch.id@),
        (batch.status == BatchStatus::Cancelled || batch.status == BatchStatus::Cancelling) ==> (
        r matches Some(e) && e matches WaitForBatchError::BatchCancelled(id) && id@ == batch.id@),
{
    let mut st = PollState::new();
    loop
        invariant
            st.inv(),
        decreases POLL_CEILING_SECS + POLL_MAX_DELAY_SECS - st.seconds_waited,
    {
        let d = st.step(batch);
        match d {
            PollDecision::Finished => {
                return None;
            },
            PollDecision::Fail(e) => {
                return Some(e);
            },
            PollDecision::Sleep(_) => {},
        }
    }
}

} // verus!
