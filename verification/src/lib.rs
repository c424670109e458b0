//! Election state management for D21-style multi-vote elections.
//!
//! An authority creates an election with a fixed candidate list and a voting
//! window. Voters distribute two or three votes among distinct candidates.
//! After the window has closed the authority tallies: the candidate with the
//! most votes wins, the lowest index breaking ties, and the election is
//! frozen.
//!
//! The records and their invariants are in [`state`], the three operations
//! in [`instructions`], their failures in [`errors`] and the notifications
//! they hand back in [`events`]. [`ledger`] models an election with all its
//! ballots and proves what holds after any sequence of requests. The
//! functions below are the entry points: each runs the handler of its
//! operation.
//!
//! The library neither stores records nor authenticates callers nor reads a
//! clock. A caller hands in the records, the identities and the time, and
//! stores what comes back.

use vstd::prelude::*;
use crate::errors::ElectionError;
use crate::events::{ElectionFinalized, VoteCasted};
use crate::instructions::cast_vote::{
    ballot_after_vote, counters_have_room, election_after_vote, vote_casted, vote_check, CastVote,
};
use crate::instructions::initialize_election::{
    creation_check, name_views, new_election, InitializeElection,
};
use crate::instructions::tally_results::{
    election_after_tally, election_finalized, tally_check, TallyResults,
};

pub mod errors;
pub mod events;
pub mod instructions;
pub mod ledger;
pub mod state;

verus! {

/// Creates an election in the record of `ctx`, with the caller as authority,
/// or rejects the request and changes nothing.
pub fn initialize_election(
    ctx: &mut InitializeElection,
    start_timestamp: i64,
    end_timestamp: i64,
    candidate_names: Vec<String>,
    candidate_count: u8,
) -> (r: Result<(), ElectionError>)
    ensures
        match creation_check(name_views(candidate_names@), candidate_count) {
            Err(e) => r == Err::<(), ElectionError>(e) && *final(ctx) == *old(ctx),
            Ok(_) => {
                &&& r is Ok
                &&& final(ctx).election_account@ == new_election(
                    old(ctx).authority@,
                    start_timestamp as int,
                    end_timestamp as int,
                    name_views(candidate_names@),
                )
                &&& final(ctx).authority == old(ctx).authority
                &&& final(ctx).election_account.wf()
                &&& final(ctx).election_account.votes_per_voter == (if candidate_count >= 7 {
                    3u8
                } else {
                    2u8
                })
            },
        },
{
    instructions::initialize_election::handler(
        ctx,
        start_timestamp,
        end_timestamp,
        candidate_names,
        candidate_count,
    )
}

/// Casts the caller's votes for the candidates in `candidate_indices`, or
/// rejects the whole request and changes nothing.
pub fn cast_vote(ctx: &mut CastVote, candidate_indices: Vec<u8>) -> (r: Result<
    VoteCasted,
    ElectionError,
>)
    requires
        vote_check(
            old(ctx).election_account@,
            old(ctx).voter_state_account@,
            candidate_indices@,
            old(ctx).unix_timestamp as int,
        ) is Ok ==> counters_have_room(old(ctx).election_account@.candidates, candidate_indices@),
    ensures
        match vote_check(
            old(ctx).election_account@,
            old(ctx).voter_state_account@,
            candidate_indices@,
            old(ctx).unix_timestamp as int,
        ) {
            Err(e) => r == Err::<VoteCasted, ElectionError>(e) && *final(ctx) == *old(ctx),
            Ok(_) => {
                &&& r matches Ok(event)
                &&& event@ == vote_casted(
                    old(ctx).voter@,
                    old(ctx).election_key@,
                    candidate_indices@,
                    old(ctx).unix_timestamp as int,
                )
                &&& final(ctx).election_account@ == election_after_vote(
                    old(ctx).election_account@,
                    candidate_indices@,
                )
                &&& final(ctx).voter_state_account@ == ballot_after_vote(
                    old(ctx).voter_state_account@,
                    old(ctx).voter@,
                    old(ctx).election_key@,
                    candidate_indices@,
                )
                &&& final(ctx).voter == old(ctx).voter
                &&& final(ctx).election_key == old(ctx).election_key
                &&& final(ctx).unix_timestamp == old(ctx).unix_timestamp
            },
        },
        old(ctx).election_account.wf() ==> final(ctx).election_account.wf(),
        old(ctx).voter_state_account.wf(&old(ctx).election_account)
            ==> final(ctx).voter_state_account.wf(&final(ctx).election_account),
{
    instructions::cast_vote::handler(ctx, candidate_indices)
}

/// Tallies the election after its window has closed and finalizes it, or
/// rejects the request and changes nothing. The caller must be the
/// election's authority.
pub fn tally_results(ctx: &mut TallyResults) -> (r: Result<Option<ElectionFinalized>, ElectionError>)
    requires
        old(ctx).authority@ == old(ctx).election_account.authority@,
        old(ctx).election_account.candidates@.len() <= 256,
    ensures
        match tally_check(old(ctx).election_account@, old(ctx).unix_timestamp as int) {
            Err(e) => r == Err::<Option<ElectionFinalized>, ElectionError>(e)
                && *final(ctx) == *old(ctx),
            Ok(_) => {
                &&& r matches Ok(event)
                &&& match event {
                    Some(ev) => Some(ev@),
                    None => None,
                } == election_finalized(
                    old(ctx).election_account@,
                    old(ctx).election_key@,
                    old(ctx).unix_timestamp as int,
                )
                &&& final(ctx).election_account@ == election_after_tally(old(ctx).election_account@)
                &&& final(ctx).election_key == old(ctx).election_key
                &&& final(ctx).authority == old(ctx).authority
                &&& final(ctx).unix_timestamp == old(ctx).unix_timestamp
            },
        },
        old(ctx).election_account.wf() ==> final(ctx).election_account.wf(),
{
    instructions::tally_results::handler(ctx)
}

} // verus!
