//! The three operations on an election: creation, vote casting and tally.

pub mod cast_vote;
pub mod initialize_election;
pub mod tally_results;
