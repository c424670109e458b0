//! Election creation: checking the candidate list and filling a new
//! election record.

use vstd::prelude::*;
use crate::errors::ElectionError;
use crate::state::{
    candidate_views, name_len, votes_allowed, Candidate, CandidateView, ElectionAccount, ElectionView,
    Identity, MAX_CANDIDATE_NAME_LEN, THREE_VOTE_THRESHOLD,
};

verus! {

/// What one creation request works on: the record to fill and the caller,
/// who becomes the election's authority.
#[derive(Clone, Debug, PartialEq, Eq)]
pub struct InitializeElection {
    /// The record that receives the new election.
    pub election_account: ElectionAccount,
    /// The identity of the caller.
    pub authority: Identity,
}

/// The characters of each name, position by position.
pub open spec fn name_views(names: Seq<String>) -> Seq<Seq<char>> {
    names.map_values(|name: String| name@)
}

/// The verdict on a creation request: the declared count must equal the
/// number of names, and no name may exceed the length cap.
pub open spec fn creation_check(names: Seq<Seq<char>>, candidate_count: u8) -> Result<(), ElectionError> {
    if candidate_count != names.len() {
        Err(ElectionError::CandidateCountMismatch)
    } else if exists|i: int| 0 <= i < names.len() && name_len(#[trigger] names[i]) > MAX_CANDIDATE_NAME_LEN {
        Err(ElectionError::CandidateNameTooLong)
    } else {
        Ok(())
    }
}

/// The candidate list of a new election: the given names in order, each with
/// no votes.
pub open spec fn fresh_candidates(names: Seq<Seq<char>>) -> Seq<CandidateView> {
    names.map_values(|name: Seq<char>| CandidateView { name, vote_count: 0 })
}

/// The election that a creation request produces.
pub open spec fn new_election(
    authority: Seq<u8>,
    start_timestamp: int,
    end_timestamp: int,
    names: Seq<Seq<char>>,
) -> ElectionView {
    ElectionView {
        authority,
        start_timestamp,
        end_timestamp,
        votes_per_voter: votes_allowed(names.len()),
        is_finalized: false,
        winner_index: None,
        candidates: fresh_candidates(names),
    }
}

/// Creates an election in the record of `ctx`, or rejects the request and
/// changes nothing.
///
/// The new election has the caller as authority, the given window, one
/// candidate per name with no votes, an allowance of three votes per voter
/// from seven candidates on and two below, and is open: not finalized, no
/// winner.
#[verifier::loop_isolation(false)]
pub fn handler(
    ctx: &mut InitializeElection,
    start_timestamp: i64,
    end_timestamp: i64,
    candidate_names: Vec<String>,
    candidate_count: u8,
) -> (r: Result<(), ElectionError>)
    ensures
        match creation_check(name_views(candidate_names@), candidate_count) {
            Err(e) => r == Err::<(), ElectionError>(e) && *final(ctx) == *old(ctx),
            Ok(_) => {
                &&& r is Ok
                &&& final(ctx).election_account@ == new_election(
                    old(ctx).authority@,
                    start_timestamp as int,
                    end_timestamp as int,
                    name_views(candidate_names@),
                )
                &&& final(ctx).authority == old(ctx).authority
                &&& final(ctx).election_account.wf()
                &&& final(ctx).election_account.votes_per_voter == (if candidate_count >= 7 {
                    3u8
                } else {
                    2u8
                })
            },
        },
{
    if candidate_count as usize != candidate_names.len() {
        return Err(ElectionError::CandidateCountMismatch);
    }
    let num_candidates: usize = candidate_names.len();
    let calculated_votes: u8 = if num_candidates >= THREE_VOTE_THRESHOLD {
        3
    } else {
        2
    };
    let ghost names = name_views(candidate_names@);
    let mut candidates: Vec<Candidate> = Vec::new();
    for name in it: candidate_names
        invariant
            names == name_views(it.seq()),
            candidate_views(candidates@) == fresh_candidates(names.take(it.index() as int)),
            forall|k: int|
                0 <= k < it.index() ==> name_len(#[trigger] names[k]) <= MAX_CANDIDATE_NAME_LEN,
    {
        let ghost i = it.index() as int;
        if name.as_str().as_bytes().len() > MAX_CANDIDATE_NAME_LEN {
            assert(name_len(names[i]) > MAX_CANDIDATE_NAME_LEN);
            return Err(ElectionError::CandidateNameTooLong);
        }
        let ghost filled = candidates@;
        candidates.push(Candidate { name, vote_count: 0 });
        proof {
            assert forall|k: int| 0 <= k < i + 1 implies candidate_views(candidates@)[k]
                == fresh_candidates(names.take(i + 1))[k] by {
                if k < i {
                    assert(candidate_views(filled)[k] == fresh_candidates(names.take(i))[k]);
                }
            }
        }
    }
    proof {
        assert(names.take(names.len() as int) =~= names);
    }
    ctx.election_account.authority = ctx.authority;
    ctx.election_account.start_timestamp = start_timestamp;
    ctx.election_account.end_timestamp = end_timestamp;
    ctx.election_account.votes_per_voter = calculated_votes;
    ctx.election_account.is_finalized = false;
    ctx.election_account.winner_index = None;
    ctx.election_account.candidates = candidates;
    Ok(())
}

} // verus!
