//! The failures an election operation can report.

use vstd::prelude::*;

verus! {

/// Why an operation on an election was rejected.
#[derive(Clone, Copy, Debug, PartialEq, Eq, Structural)]
pub enum ElectionError {
    /// A vote arrived at or before the start of the voting window.
    ElectionNotStarted,
    /// A vote arrived at or after the end of the voting window.
    ElectionAlreadyEnded,
    /// The election has been finalized and accepts no further changes.
    ElectionAlreadyFinalized,
    /// A tally was requested while the voting window had not yet closed.
    TallyNotAllowedYet,
    /// The request would use more votes than the voter has left.
    VotesExhausted,
    /// The voter has voted for this candidate before.
    AlreadyVotedForCandidate,
    /// One request names the same candidate twice.
    DuplicateVoteInSingleTx,
    /// A candidate index is out of range, or the request names no candidate.
    InvalidCandidateIndex,
    /// The declared candidate count differs from the number of names.
    CandidateCountMismatch,
    /// A candidate name exceeds the length cap.
    CandidateNameTooLong,
}

} // verus!
