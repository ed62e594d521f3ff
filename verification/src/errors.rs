use vstd::prelude::*;

verus! {

/// The error taxonomy of the library: filesystem failures, malformed
/// resource bytes, the three transaction-protocol outcomes, and a missing
/// project marker. An operator declining a rotation is not an error; it is
/// a valid terminal outcome (see `RotateOutcome`).
#[derive(Clone, Copy, Debug, PartialEq, Eq, Structural)]
pub enum Error {
    /// A filesystem create or copy failed: a colliding archive directory,
    /// or a missing source file.
    IoError,
    /// Serialized resource bytes were present but malformed.
    DecodingError,
    /// The network rejected the transaction at submission time.
    SubmissionRejected,
    /// The transaction reached a terminal state other than executed;
    /// carries the abort code reported by the network.
    ExecutionFailed(u64),
    /// No terminal state was observed within the confirmation timeout.
    ConfirmationTimeout,
    /// No project marker file was found in any ancestor directory.
    NotFound,
}

} // verus!
