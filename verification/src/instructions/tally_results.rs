//! Tally and finalization: picking the winner once the window has closed and
//! freezing the election.

use vstd::prelude::*;
use crate::errors::ElectionError;
use crate::events::{ElectionFinalized, ElectionFinalizedView};
use crate::state::{
    candidate_views, leads, winner, BallotView, Candidate, CandidateView, ElectionAccount,
    ElectionView, Identity,
};

verus! {

/// What one tally request works on: the election and its address, the caller,
/// and the current time.
#[derive(Clone, Debug, PartialEq, Eq)]
pub struct TallyResults {
    /// The election to finalize.
    pub election_account: ElectionAccount,
    /// The address under which the election is stored.
    pub election_key: Identity,
    /// The identity of the caller, who must be the election's authority.
    pub authority: Identity,
    /// The current time.
    pub unix_timestamp: i64,
}

/// The verdict on a tally request at time `now`: the window must have closed,
/// and the election must not be finalized yet.
pub open spec fn tally_check(e: ElectionView, now: int) -> Result<(), ElectionError> {
    if now <= e.end_timestamp {
        Err(ElectionError::TallyNotAllowedYet)
    } else if e.is_finalized {
        Err(ElectionError::ElectionAlreadyFinalized)
    } else {
        Ok(())
    }
}

/// The election after a tally: finalized, with the winner recorded.
pub open spec fn election_after_tally(e: ElectionView) -> ElectionView {
    ElectionView { is_finalized: true, winner_index: winner(e.candidates), ..e }
}

/// The notification of a tally at time `now` of the election stored under
/// `election_key`: present when there is a winner, and then carrying the
/// winner's index, name and votes.
pub open spec fn election_finalized(e: ElectionView, election_key: Seq<u8>, now: int) -> Option<
    ElectionFinalizedView,
> {
    match winner(e.candidates) {
        Some(w) => Some(
            ElectionFinalizedView {
                election: election_key,
                winner_index: w,
                winner_name: e.candidates[w as int].name,
                winner_vote_count: e.candidates[w as int].vote_count,
                timestamp: now,
            },
        ),
        None => None,
    }
}

/// A tally keeps the election well formed, and every ballot that was well
/// formed in the election before is well formed in the election after.
pub proof fn lemma_tally_keeps_wf(e: ElectionView, other: BallotView)
    ensures
        e.wf() ==> election_after_tally(e).wf(),
        other.wf(e) ==> other.wf(election_after_tally(e)),
{
}

/// A tally happens once: after a tally was accepted, a later request is
/// rejected because the election is finalized, and a request at any time is
/// rejected. What the first tally recorded stays.
pub proof fn lemma_tally_once(e: ElectionView, first: int, second: int)
    requires
        tally_check(e, first) is Ok,
    ensures
        tally_check(election_after_tally(e), second) is Err,
        first <= second ==> tally_check(election_after_tally(e), second) == Err::<(), ElectionError>(
            ElectionError::ElectionAlreadyFinalized,
        ),
{
}

/// An election in which no candidate has a vote has no winner.
pub proof fn lemma_no_votes_no_winner(candidates: Seq<CandidateView>)
    requires
        forall|i: int| 0 <= i < candidates.len() ==> (#[trigger] candidates[i]).vote_count == 0,
    ensures
        winner(candidates) is None,
{
}

/// The winner leads: it has a vote, no candidate has more, and every
/// candidate with a lower index has fewer. In a list that a one-byte index
/// can address, there is a winner as soon as any candidate has a vote.
pub proof fn lemma_winner_leads(candidates: Seq<CandidateView>)
    ensures
        winner(candidates) matches Some(w) ==> leads(candidates, w as int),
        candidates.len() <= 256 && winner(candidates) is None ==> forall|i: int|
            0 <= i < candidates.len() ==> (#[trigger] candidates[i]).vote_count == 0,
{
    if candidates.len() <= 256 && winner(candidates) is None {
        assert forall|w: int| !leads(candidates, w) by {
            if leads(candidates, w) {
                assert(leads(candidates, (w as u8) as int));
            }
        }
        lemma_no_leader(candidates);
    }
}

/// At most one candidate leads.
pub proof fn lemma_leader_unique(candidates: Seq<CandidateView>, v: int, w: int)
    requires
        leads(candidates, v),
        leads(candidates, w),
    ensures
        v == w,
{
}

/// The candidate that leads is the winner.
pub proof fn lemma_leader_wins(candidates: Seq<CandidateView>, w: u8)
    requires
        leads(candidates, w as int),
    ensures
        winner(candidates) == Some(w),
{
    let v = choose|v: u8| leads(candidates, v as int);
    lemma_leader_unique(candidates, v as int, w as int);
}

/// Nobody leads exactly when no candidate has a vote.
pub proof fn lemma_no_leader(candidates: Seq<CandidateView>)
    ensures
        (forall|w: int| !leads(candidates, w)) <==> (forall|i: int|
            0 <= i < candidates.len() ==> (#[trigger] candidates[i]).vote_count == 0),
    decreases candidates.len(),
{
    if candidates.len() > 0 {
        let front = candidates.drop_last();
        let last = candidates.len() - 1;
        lemma_no_leader(front);
        if forall|w: int| !leads(candidates, w) {
            if exists|i: int| 0 <= i < candidates.len() && (#[trigger] candidates[i]).vote_count != 0 {
                if forall|w: int| !leads(front, w) {
                    assert forall|i: int| 0 <= i < last implies (#[trigger] candidates[i]).vote_count
                        == 0 by {
                        assert(front[i].vote_count == 0);
                    }
                    assert(leads(candidates, last));
                } else {
                    let v = choose|v: int| leads(front, v);
                    assert forall|j: int| 0 <= j < last implies (#[trigger] candidates[j]).vote_count
                        <= candidates[v].vote_count by {
                        assert(front[j].vote_count <= front[v].vote_count);
                    }
                    assert forall|j: int| 0 <= j < v implies (#[trigger] candidates[j]).vote_count
                        < candidates[v].vote_count by {
                        assert(front[j].vote_count < front[v].vote_count);
                    }
                    if candidates[last].vote_count > candidates[v].vote_count {
                        assert(leads(candidates, last));
                    } else {
                        assert(leads(candidates, v));
                    }
                }
            }
        }
    }
}

/// Finds the winner: the first candidate, in index order, whose count is the
/// highest and above zero.
fn find_winner(candidates: &Vec<Candidate>) -> (r: Option<u8>)
    requires
        candidates@.len() <= 256,
    ensures
        r == winner(candidate_views(candidates@)),
{
    let ghost views = candidate_views(candidates@);
    let mut max_votes: u64 = 0;
    let mut winner_index: Option<u8> = None;
    let mut i: usize = 0;
    while i < candidates.len()
        invariant
            i <= candidates.len(),
            candidates@.len() <= 256,
            views == candidate_views(candidates@),
            match winner_index {
                Some(w) => leads(views.take(i as int), w as int) && max_votes == views[w as int].vote_count,
                None => max_votes == 0 && forall|j: int|
                    0 <= j < i ==> (#[trigger] views[j]).vote_count == 0,
            },
        decreases candidates.len() - i,
    {
        let ghost before = views.take(i as int);
        let ghost after = views.take(i + 1);
        proof {
            // The longer prefix agrees with the shorter one on all but its
            // last candidate.
            assert(forall|j: int| 0 <= j < i ==> before[j] == after[j]);
        }
        if candidates[i].vote_count > max_votes {
            max_votes = candidates[i].vote_count;
            winner_index = Some(i as u8);
        }
        i += 1;
    }
    proof {
        assert(views.take(i as int) =~= views);
        match winner_index {
            Some(w) => {
                lemma_leader_wins(views, w);
            },
            None => {
                lemma_no_leader(views);
            },
        }
    }
    winner_index
}

/// Finalizes the election, or rejects the request and changes nothing.
///
/// A request made after the window has closed, on an election that is not
/// finalized, marks the election finalized and records the winner. It returns
/// the notification to deliver when there is a winner, and none when no
/// candidate has a vote.
pub fn handler(ctx: &mut TallyResults) -> (r: Result<Option<ElectionFinalized>, ElectionError>)
    requires
        old(ctx).authority@ == old(ctx).election_account.authority@,
        old(ctx).election_account.candidates@.len() <= 256,
    ensures
        match tally_check(old(ctx).election_account@, old(ctx).unix_timestamp as int) {
            Err(e) => r == Err::<Option<ElectionFinalized>, ElectionError>(e)
                && *final(ctx) == *old(ctx),
            Ok(_) => {
                &&& r matches Ok(event)
                &&& match event {
                    Some(ev) => Some(ev@),
                    None => None,
                } == election_finalized(
                    old(ctx).election_account@,
                    old(ctx).election_key@,
                    old(ctx).unix_timestamp as int,
                )
                &&& final(ctx).election_account@ == election_after_tally(old(ctx).election_account@)
                &&& final(ctx).election_key == old(ctx).election_key
                &&& final(ctx).authority == old(ctx).authority
                &&& final(ctx).unix_timestamp == old(ctx).unix_timestamp
            },
        },
        old(ctx).election_account.wf() ==> final(ctx).election_account.wf(),
{
    let current_timestamp: i64 = ctx.unix_timestamp;
    if current_timestamp <= ctx.election_account.end_timestamp {
        return Err(ElectionError::TallyNotAllowedYet);
    }
    if ctx.election_account.is_finalized {
        return Err(ElectionError::ElectionAlreadyFinalized);
    }
    let winner_index: Option<u8> = find_winner(&ctx.election_account.candidates);
    ctx.election_account.is_finalized = true;
    ctx.election_account.winner_index = winner_index;
    match winner_index {
        Some(index) => {
            let winner = &ctx.election_account.candidates[index as usize];
            Ok(
                Some(
                    ElectionFinalized {
                        election: ctx.election_key,
                        winner_index: index,
                        winner_name: winner.name.clone(),
                        winner_vote_count: winner.vote_count,
                        timestamp: current_timestamp,
                    },
                ),
            )
        },
        None => Ok(None),
    }
}

} // verus!
