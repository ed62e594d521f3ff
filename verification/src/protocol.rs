use vstd::prelude::*;
use crate::errors::Error;

verus! {

/// One answer from polling the network for a transaction's status.
#[derive(Clone, Copy, Debug, PartialEq, Eq, Structural)]
pub enum PollStatus {
    /// No terminal state yet.
    Pending,
    /// Terminal: the transaction executed.
    Executed,
    /// Terminal: execution failed with this abort code.
    Aborted(u64),
}

/// The default confirmation bound: how many one-second polls the caller
/// waits before giving up.
pub const SUBMISSION_TIMEOUT_SECS: u64 = 60;

/// What the protocol does after one more answer from the network: keep
/// waiting, or stop with the terminal result.
#[derive(Debug)]
pub enum ProtocolStep {
    Continue,
    Done(Result<(), Error>),
}

/// What submit-and-confirm resolves to, given the statuses the network
/// reports poll by poll and the number of polls the caller will wait: the
/// first terminal status within the bound decides, and a transaction that
/// stays pending for the whole bound times out.
pub open spec fn confirm_outcome(polls: Seq<PollStatus>, timeout: nat) -> Result<(), Error>
    decreases timeout,
{
    if timeout == 0 {
        Err(Error::ConfirmationTimeout)
    } else if polls.len() == 0 {
        Err(Error::ConfirmationTimeout)
    } else {
        match polls[0] {
            PollStatus::Executed => Ok(()),
            PollStatus::Aborted(code) => Err(Error::ExecutionFailed(code)),
            PollStatus::Pending => confirm_outcome(polls.skip(1), (timeout - 1) as nat),
        }
    }
}

/// Decides one step of the confirmation wait, with `remaining` polls
/// still allowed after this one. A live loop feeds each fresh status
/// through this and performs no retry of its own.
pub fn confirm_step(status: &PollStatus, remaining: u64) -> (s: ProtocolStep)
    ensures
        remaining == 0 ==> s == ProtocolStep::Done(Err::<(), Error>(Error::ConfirmationTimeout)),
        remaining > 0 && status is Executed ==> s == ProtocolStep::Done(Ok::<(), Error>(())),
        remaining > 0 && status is Aborted ==> s == ProtocolStep::Done(
            Err::<(), Error>(Error::ExecutionFailed(status->0)),
        ),
        remaining > 0 && status is Pending ==> s is Continue,
{
    if remaining == 0 {
        ProtocolStep::Done(Err(Error::ConfirmationTimeout))
    } else {
        match status {
            PollStatus::Pending => ProtocolStep::Continue,
            PollStatus::Executed => ProtocolStep::Done(Ok(())),
            PollStatus::Aborted(code) => ProtocolStep::Done(Err(Error::ExecutionFailed(*code))),
        }
    }
}

/// The blocking submit-and-confirm protocol, resolved against the
/// sequence of statuses the network reported at successive polls (an
/// exhausted sequence reads as still pending). A submission the network
/// rejected fails immediately as `SubmissionRejected`; otherwise the
/// first terminal status within `timeout` polls decides, and a
/// transaction that stays pending for the whole bound fails as
/// `ConfirmationTimeout`. Nothing is retried.
pub fn submit_and_confirm(submit_accepted: bool, polls: &Vec<PollStatus>, timeout: u64) -> (r:
    Result<(), Error>)
    ensures
        !submit_accepted ==> r == Err::<(), Error>(Error::SubmissionRejected),
        submit_accepted ==> r == confirm_outcome(polls@, timeout as nat),
{
    if !submit_accepted {
        return Err(Error::SubmissionRejected);
    }
    let n: usize = polls.len();
    let mut i: u64 = 0;
    proof {
        assert(polls@.skip(0) =~= polls@);
    }
    while i < timeout
        invariant
            submit_accepted,
            i <= timeout,
            i <= n as u64,
            n == polls@.len(),
            confirm_outcome(polls@, timeout as nat) == confirm_outcome(
                polls@.skip(i as int),
                (timeout - i) as nat,
            ),
        decreases timeout - i,
    {
        if i >= n as u64 {
            proof {
                assert(polls@.skip(i as int).len() == 0);
            }
            return Err(Error::ConfirmationTimeout);
        }
        let idx: usize = i as usize;
        proof {
            assert(polls@.skip(i as int)[0] == polls@[i as int]);
            assert(polls@.skip(i as int).skip(1) =~= polls@.skip(i + 1));
        }
        match polls[idx] {
            PollStatus::Pending => {},
            PollStatus::Executed => {
                return Ok(());
            },
            PollStatus::Aborted(code) => {
                return Err(Error::ExecutionFailed(code));
            },
        }
        i = i + 1;
    }
    Err(Error::ConfirmationTimeout)
}

/// A transaction that stays pending the whole time times out: never
/// earlier, because a pending answer alone never stops the wait, and
/// never later, because the poll after the bound is not consulted.
pub proof fn lemma_pending_times_out(polls: Seq<PollStatus>, timeout: nat)
    requires
        forall|i: int| 0 <= i < polls.len() ==> polls[i] is Pending,
    ensures
        confirm_outcome(polls, timeout) == Err::<(), Error>(Error::ConfirmationTimeout),
    decreases timeout,
{
    if timeout > 0 && polls.len() > 0 {
        assert forall|i: int| 0 <= i < polls.skip(1).len() implies polls.skip(1)[i]
            is Pending by {
            assert(polls.skip(1)[i] == polls[i + 1]);
        }
        lemma_pending_times_out(polls.skip(1), (timeout - 1) as nat);
    }
}

/// A transaction reported executed within the bound succeeds, whatever
/// pending answers came before.
pub proof fn lemma_executed_in_time(polls: Seq<PollStatus>, timeout: nat, i: int)
    requires
        0 <= i < polls.len(),
        i < timeout,
        polls[i] is Executed,
        forall|j: int| 0 <= j < i ==> polls[j] is Pending,
    ensures
        confirm_outcome(polls, timeout) == Ok::<(), Error>(()),
    decreases i,
{
    if i > 0 {
        assert(polls.skip(1)[i - 1] == polls[i]);
        assert forall|j: int| 0 <= j < i - 1 implies polls.skip(1)[j] is Pending by {
            assert(polls.skip(1)[j] == polls[j + 1]);
        }
        lemma_executed_in_time(polls.skip(1), (timeout - 1) as nat, i - 1);
    }
}

} // verus!
