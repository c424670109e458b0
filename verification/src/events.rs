//! The notifications that successful operations hand back for delivery to
//! observers.

use vstd::prelude::*;
use crate::state::Identity;

verus! {

/// Tells observers that a voter cast votes.
#[derive(Clone, Debug, PartialEq, Eq)]
pub struct VoteCasted {
    /// The voter.
    pub voter: Identity,
    /// The election voted in.
    pub election: Identity,
    /// The candidate indices of this request, in request order.
    pub candidates_voted_for: Vec<u8>,
    /// The time of the vote.
    pub timestamp: i64,
}

/// A `VoteCasted` notification as a mathematical value.
pub struct VoteCastedView {
    pub voter: Seq<u8>,
    pub election: Seq<u8>,
    pub candidates_voted_for: Seq<u8>,
    pub timestamp: int,
}

impl View for VoteCasted {
    type V = VoteCastedView;

    open spec fn view(&self) -> VoteCastedView {
        VoteCastedView {
            voter: self.voter@,
            election: self.election@,
            candidates_voted_for: self.candidates_voted_for@,
            timestamp: self.timestamp as int,
        }
    }
}

/// Tells observers that an election was finalized with a winner.
#[derive(Clone, Debug, PartialEq, Eq)]
pub struct ElectionFinalized {
    /// The election that was finalized.
    pub election: Identity,
    /// The index of the winning candidate.
    pub winner_index: u8,
    /// The name of the winning candidate.
    pub winner_name: String,
    /// The votes the winner received.
    pub winner_vote_count: u64,
    /// The time of the finalization.
    pub timestamp: i64,
}

/// An `ElectionFinalized` notification as a mathematical value.
pub struct ElectionFinalizedView {
    pub election: Seq<u8>,
    pub winner_index: u8,
    pub winner_name: Seq<char>,
    pub winner_vote_count: nat,
    pub timestamp: int,
}

impl View for ElectionFinalized {
    type V = ElectionFinalizedView;

    open spec fn view(&self) -> ElectionFinalizedView {
        ElectionFinalizedView {
            election: self.election@,
            winner_index: self.winner_index,
            winner_name: self.winner_name@,
            winner_vote_count: self.winner_vote_count as nat,
            timestamp: self.timestamp as int,
        }
    }
}

} // verus!
