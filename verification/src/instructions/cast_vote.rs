//! Vote casting: the checks a request must pass and the effect of a request
//! that passes them.

use vstd::prelude::*;
use crate::errors::ElectionError;
use crate::events::{VoteCasted, VoteCastedView};
use crate::state::{
    candidate_views, lemma_total_votes_update, total_votes, BallotView, Candidate, CandidateView,
    ElectionAccount, ElectionView, Identity, VoterStateAccount,
};

verus! {

/// What one vote-casting request works on: the election and its address, the
/// voter and the voter's ballot, and the current time.
#[derive(Clone, Debug, PartialEq, Eq)]
pub struct CastVote {
    /// The election voted in.
    pub election_account: ElectionAccount,
    /// The ballot of `voter` in this election; blank before the first vote.
    pub voter_state_account: VoterStateAccount,
    /// The identity of the caller.
    pub voter: Identity,
    /// The address under which the election is stored.
    pub election_key: Identity,
    /// The current time.
    pub unix_timestamp: i64,
}

/// The ballot `b` can give a vote to the candidate `index` of `e`: the index
/// is in range and the ballot has not used it.
pub open spec fn selectable(e: ElectionView, b: BallotView, index: u8) -> bool {
    index < e.candidates.len() && !b.voted_for.contains(index)
}

/// Position `j` holds the first index of the request that cannot be voted for.
pub open spec fn first_rejected(e: ElectionView, b: BallotView, indices: Seq<u8>, j: int) -> bool {
    &&& 0 <= j < indices.len()
    &&& !selectable(e, b, indices[j])
    &&& forall|k: int| 0 <= k < j ==> selectable(e, b, #[trigger] indices[k])
}

/// Why `index` cannot be voted for: out of range first, already used second.
pub open spec fn rejection(e: ElectionView, index: u8) -> ElectionError {
    if index >= e.candidates.len() {
        ElectionError::InvalidCandidateIndex
    } else {
        ElectionError::AlreadyVotedForCandidate
    }
}

/// The verdict on a request to vote for `indices` at time `now`. The checks
/// run in this order and the first that fails decides: the window has
/// opened, the window has not closed, the election is not finalized, the
/// request is not empty, it names no candidate twice, the ballot has enough
/// votes left, and each index, in request order, is in range and unused.
pub open spec fn vote_check(e: ElectionView, b: BallotView, indices: Seq<u8>, now: int) -> Result<
    (),
    ElectionError,
> {
    if now <= e.start_timestamp {
        Err(ElectionError::ElectionNotStarted)
    } else if now >= e.end_timestamp {
        Err(ElectionError::ElectionAlreadyEnded)
    } else if e.is_finalized {
        Err(ElectionError::ElectionAlreadyFinalized)
    } else if indices.len() == 0 {
        Err(ElectionError::InvalidCandidateIndex)
    } else if !indices.no_duplicates() {
        Err(ElectionError::DuplicateVoteInSingleTx)
    } else if b.votes_cast_count + indices.len() > e.votes_per_voter {
        Err(ElectionError::VotesExhausted)
    } else if exists|j: int| first_rejected(e, b, indices, j) {
        Err(rejection(e, indices[choose|j: int| first_rejected(e, b, indices, j)]))
    } else {
        Ok(())
    }
}

/// The request names the candidate at position `i`.
pub open spec fn names(indices: Seq<u8>, i: int) -> bool {
    exists|j: int| 0 <= j < indices.len() && indices[j] == i
}

/// The candidate list after a request for `indices` was recorded: each named
/// candidate has one vote more, nothing else changes.
pub open spec fn candidates_after_vote(candidates: Seq<CandidateView>, indices: Seq<u8>) -> Seq<
    CandidateView,
> {
    Seq::new(
        candidates.len(),
        |i: int|
            CandidateView {
                name: candidates[i].name,
                vote_count: if names(indices, i) {
                    candidates[i].vote_count + 1
                } else {
                    candidates[i].vote_count
                },
            },
    )
}

/// The election after a request for `indices` was recorded.
pub open spec fn election_after_vote(e: ElectionView, indices: Seq<u8>) -> ElectionView {
    ElectionView { candidates: candidates_after_vote(e.candidates, indices), ..e }
}

/// The ballot after a request for `indices` by `voter` in the election stored
/// under `election_key` was recorded. A ballot that was never claimed is
/// bound to the voter and the election; the indices are appended in request
/// order and counted.
pub open spec fn ballot_after_vote(
    b: BallotView,
    voter: Seq<u8>,
    election_key: Seq<u8>,
    indices: Seq<u8>,
) -> BallotView {
    BallotView {
        voter: if b.is_unclaimed() {
            voter
        } else {
            b.voter
        },
        election: if b.is_unclaimed() {
            election_key
        } else {
            b.election
        },
        votes_cast_count: b.votes_cast_count + indices.len(),
        voted_for: b.voted_for + indices,
    }
}

/// The notification of a recorded request.
pub open spec fn vote_casted(voter: Seq<u8>, election_key: Seq<u8>, indices: Seq<u8>, now: int) -> VoteCastedView {
    VoteCastedView { voter, election: election_key, candidates_voted_for: indices, timestamp: now }
}

/// Every candidate the request names can still count one more vote.
pub open spec fn counters_have_room(candidates: Seq<CandidateView>, indices: Seq<u8>) -> bool {
    forall|j: int|
        0 <= j < indices.len() && indices[j] < candidates.len() ==> (
        #[trigger] candidates[indices[j] as int]).vote_count < u64::MAX
}

/// Unless some position of the request holds a first rejected index, every
/// index before position `k` can be voted for.
proof fn lemma_none_rejected(e: ElectionView, b: BallotView, indices: Seq<u8>, k: int)
    requires
        !exists|j: int| first_rejected(e, b, indices, j),
        0 <= k <= indices.len(),
    ensures
        forall|i: int| 0 <= i < k ==> selectable(e, b, #[trigger] indices[i]),
    decreases k,
{
    if k > 0 {
        lemma_none_rejected(e, b, indices, k - 1);
        if !selectable(e, b, indices[k - 1]) {
            assert(first_rejected(e, b, indices, k - 1));
        }
    }
}

/// A request is accepted exactly when voting is open, the request is not
/// empty and names no candidate twice, the ballot has enough votes left, and
/// every named candidate is in range and unused.
pub proof fn lemma_accepted(e: ElectionView, b: BallotView, indices: Seq<u8>, now: int)
    ensures
        vote_check(e, b, indices, now) is Ok <==> {
            &&& e.accepts_votes_at(now)
            &&& indices.len() > 0
            &&& indices.no_duplicates()
            &&& b.votes_cast_count + indices.len() <= e.votes_per_voter
            &&& forall|k: int| 0 <= k < indices.len() ==> selectable(e, b, #[trigger] indices[k])
        },
{
    if vote_check(e, b, indices, now) is Ok {
        lemma_none_rejected(e, b, indices, indices.len() as int);
    }
}

/// A vote at or before the start of the window is rejected as too early, and
/// a vote at or after its end as too late: both bounds are exclusive.
pub proof fn lemma_window_is_exclusive(e: ElectionView, b: BallotView, indices: Seq<u8>, now: int)
    ensures
        now <= e.start_timestamp ==> vote_check(e, b, indices, now) == Err::<(), ElectionError>(
            ElectionError::ElectionNotStarted,
        ),
        e.start_timestamp < now && e.end_timestamp <= now ==> vote_check(e, b, indices, now) == Err::<
            (),
            ElectionError,
        >(ElectionError::ElectionAlreadyEnded),
{
}

/// A request that names a candidate twice is never accepted, and is rejected
/// as a duplicate whenever voting is open and the request is not empty.
pub proof fn lemma_duplicates_rejected(e: ElectionView, b: BallotView, indices: Seq<u8>, now: int)
    requires
        !indices.no_duplicates(),
    ensures
        vote_check(e, b, indices, now) is Err,
        e.accepts_votes_at(now) ==> vote_check(e, b, indices, now) == Err::<(), ElectionError>(
            ElectionError::DuplicateVoteInSingleTx,
        ),
{
}

/// A ballot with one vote left accepts exactly the requests that name a
/// single candidate, in range and unused, while voting is open.
pub proof fn lemma_last_vote(e: ElectionView, b: BallotView, indices: Seq<u8>, now: int)
    requires
        b.votes_cast_count + 1 == e.votes_per_voter,
    ensures
        vote_check(e, b, indices, now) is Ok <==> {
            &&& e.accepts_votes_at(now)
            &&& indices.len() == 1
            &&& selectable(e, b, indices[0])
        },
{
    lemma_accepted(e, b, indices, now);
}

/// A recorded request raises the total of the election by the number of
/// candidates it names.
pub proof fn lemma_vote_adds_votes(candidates: Seq<CandidateView>, indices: Seq<u8>)
    requires
        indices.no_duplicates(),
        forall|k: int| 0 <= k < indices.len() ==> (#[trigger] indices[k]) < candidates.len(),
    ensures
        total_votes(candidates_after_vote(candidates, indices)) == total_votes(candidates)
            + indices.len(),
    decreases indices.len(),
{
    if indices.len() == 0 {
        assert(candidates_after_vote(candidates, indices) =~= candidates);
    } else {
        let front = indices.drop_last();
        let x = indices.last() as int;
        let mid = candidates_after_vote(candidates, front);
        lemma_vote_adds_votes(candidates, front);
        let bumped = CandidateView { name: candidates[x].name, vote_count: candidates[x].vote_count + 1 };
        assert forall|i: int| 0 <= i < candidates.len() implies (names(indices, i) <==> names(front, i)
            || i == x) by {
            if names(indices, i) {
                let k = choose|k: int| 0 <= k < indices.len() && indices[k] == i;
                if k < front.len() {
                    assert(front[k] == i);
                }
            }
        }
        assert(candidates_after_vote(candidates, indices) =~= mid.update(x, bumped));
        lemma_total_votes_update(mid, x, bumped);
    }
}

/// Recording an accepted request keeps the election and the ballot well
/// formed, and every ballot that was well formed in the election before is
/// well formed in the election after.
pub proof fn lemma_vote_keeps_wf(
    e: ElectionView,
    b: BallotView,
    voter: Seq<u8>,
    election_key: Seq<u8>,
    indices: Seq<u8>,
    now: int,
    other: BallotView,
)
    requires
        vote_check(e, b, indices, now) is Ok,
    ensures
        e.wf() ==> election_after_vote(e, indices).wf(),
        b.wf(e) ==> ballot_after_vote(b, voter, election_key, indices).wf(
            election_after_vote(e, indices),
        ),
        other.wf(e) ==> other.wf(election_after_vote(e, indices)),
{
    lemma_accepted(e, b, indices, now);
    let after = ballot_after_vote(b, voter, election_key, indices);
    if b.wf(e) {
        // Both parts are free of repetitions, and no index of the request
        // is on the ballot already.
        assert forall|i: int, j: int|
            0 <= i < j < after.voted_for.len() implies after.voted_for[i] != after.voted_for[j] by {
            let n = b.voted_for.len() as int;
            if i < n <= j {
                assert(selectable(e, b, indices[j - n]));
            }
        }
    }
}

/// Tells whether `v` holds some value twice.
fn has_duplicates(v: &Vec<u8>) -> (r: bool)
    ensures
        r == !v@.no_duplicates(),
{
    let mut seen: [bool; 256] = [false; 256];
    let mut i: usize = 0;
    while i < v.len()
        invariant
            i <= v.len(),
            v@.take(i as int).no_duplicates(),
            forall|x: int| 0 <= x < 256 ==> (#[trigger] seen@[x] <==> v@.take(i as int).contains(x as u8)),
        decreases v.len() - i,
    {
        let x: u8 = v[i];
        if seen[x as usize] {
            proof {
                let k = choose|k: int| 0 <= k < i && v@.take(i as int)[k] == x;
                assert(v@[k] == v@[i as int] && k != i);
            }
            return true;
        }
        seen.set(x as usize, true);
        proof {
            let before = v@.take(i as int);
            let after = v@.take(i + 1);
            assert(after =~= before.push(x));
            assert forall|y: int| 0 <= y < 256 implies (#[trigger] seen@[y] <==> after.contains(y as u8)) by {
                if y == x {
                    assert(after[i as int] == x);
                } else if before.contains(y as u8) {
                    let k = choose|k: int| 0 <= k < before.len() && before[k] == y as u8;
                    assert(after[k] == y as u8);
                }
            }
        }
        i += 1;
    }
    assert(v@.take(i as int) =~= v@);
    false
}

/// Tells whether `v` holds `x`.
fn holds(v: &Vec<u8>, x: u8) -> (r: bool)
    ensures
        r == v@.contains(x),
{
    let mut i: usize = 0;
    while i < v.len()
        invariant
            i <= v.len(),
            forall|k: int| 0 <= k < i ==> v@[k] != x,
        decreases v.len() - i,
    {
        if v[i] == x {
            return true;
        }
        i += 1;
    }
    false
}

/// Runs every check on a request without changing anything.
#[verifier::loop_isolation(false)]
pub fn validate(ctx: &CastVote, candidate_indices: &Vec<u8>) -> (r: Result<(), ElectionError>)
    ensures
        r == vote_check(
            ctx.election_account@,
            ctx.voter_state_account@,
            candidate_indices@,
            ctx.unix_timestamp as int,
        ),
{
    let election = &ctx.election_account;
    let voter_state = &ctx.voter_state_account;
    let now: i64 = ctx.unix_timestamp;
    if now <= election.start_timestamp {
        return Err(ElectionError::ElectionNotStarted);
    }
    if now >= election.end_timestamp {
        return Err(ElectionError::ElectionAlreadyEnded);
    }
    if election.is_finalized {
        return Err(ElectionError::ElectionAlreadyFinalized);
    }
    if candidate_indices.len() == 0 {
        return Err(ElectionError::InvalidCandidateIndex);
    }
    if has_duplicates(candidate_indices) {
        return Err(ElectionError::DuplicateVoteInSingleTx);
    }
    let allowed: usize = election.votes_per_voter as usize;
    let used: usize = voter_state.votes_cast_count as usize;
    if candidate_indices.len() > allowed || used + candidate_indices.len() > allowed {
        return Err(ElectionError::VotesExhausted);
    }
    let ghost e = election@;
    let ghost b = voter_state@;
    let mut j: usize = 0;
    while j < candidate_indices.len()
        invariant
            j <= candidate_indices.len(),
            e == election@,
            b == voter_state@,
            forall|k: int| 0 <= k < j ==> selectable(e, b, #[trigger] candidate_indices@[k]),
        decreases candidate_indices.len() - j,
    {
        let index: u8 = candidate_indices[j];
        if index as usize >= election.candidates.len() {
            assert(first_rejected(e, b, candidate_indices@, j as int));
            return Err(ElectionError::InvalidCandidateIndex);
        }
        if holds(&voter_state.voted_for_indices, index) {
            assert(first_rejected(e, b, candidate_indices@, j as int));
            return Err(ElectionError::AlreadyVotedForCandidate);
        }
        j += 1;
    }
    Ok(())
}

/// Tells whether every candidate that the request names can still count one
/// more vote. Indices out of range are passed over.
pub fn has_room(ctx: &CastVote, candidate_indices: &Vec<u8>) -> (r: bool)
    ensures
        r == counters_have_room(ctx.election_account@.candidates, candidate_indices@),
{
    let ghost views = ctx.election_account@.candidates;
    let mut j: usize = 0;
    while j < candidate_indices.len()
        invariant
            j <= candidate_indices.len(),
            views == ctx.election_account@.candidates,
            forall|k: int|
                0 <= k < j && candidate_indices@[k] < views.len() ==> (
                #[trigger] views[candidate_indices@[k] as int]).vote_count < u64::MAX,
        decreases candidate_indices.len() - j,
    {
        let slot: usize = candidate_indices[j] as usize;
        if slot < ctx.election_account.candidates.len() && ctx.election_account.candidates[slot].vote_count
            == u64::MAX {
            assert(views[candidate_indices@[j as int] as int].vote_count == u64::MAX);
            return false;
        }
        j += 1;
    }
    true
}

/// Adds one vote to each candidate that `indices` names and appends the
/// indices to `voted_for`, in request order.
fn record_votes(candidates: &mut Vec<Candidate>, voted_for: &mut Vec<u8>, indices: &Vec<u8>)
    requires
        indices@.no_duplicates(),
        forall|k: int| 0 <= k < indices@.len() ==> (#[trigger] indices@[k]) < old(candidates)@.len(),
        counters_have_room(candidate_views(old(candidates)@), indices@),
    ensures
        candidate_views(final(candidates)@) == candidates_after_vote(
            candidate_views(old(candidates)@),
            indices@,
        ),
        final(voted_for)@ == old(voted_for)@ + indices@,
{
    let ghost candidates0 = candidates@;
    let ghost voted_for0 = voted_for@;
    let mut j: usize = 0;
    while j < indices.len()
        invariant
            j <= indices.len(),
            indices@.no_duplicates(),
            forall|k: int| 0 <= k < indices@.len() ==> (#[trigger] indices@[k]) < candidates0.len(),
            counters_have_room(candidate_views(candidates0), indices@),
            candidates@.len() == candidates0.len(),
            forall|i: int|
                0 <= i < candidates0.len() ==> {
                    &&& (#[trigger] candidates@[i]).name == candidates0[i].name
                    &&& candidates@[i].vote_count == candidates0[i].vote_count + if names(
                        indices@.take(j as int),
                        i,
                    ) {
                        1int
                    } else {
                        0int
                    }
                },
            voted_for@ == voted_for0 + indices@.take(j as int),
        decreases indices.len() - j,
    {
        let index: u8 = indices[j];
        let slot: usize = index as usize;
        proof {
            // The request names this candidate for the first time, so its
            // count is still the one it had at the start.
            let before = indices@.take(j as int);
            if names(before, slot as int) {
                let k = choose|k: int| 0 <= k < before.len() && before[k] == slot as int;
                assert(indices@[k] == indices@[j as int]);
            }
            assert(candidate_views(candidates0)[indices@[j as int] as int].vote_count < u64::MAX);
        }
        candidates[slot].vote_count += 1;
        voted_for.push(index);
        proof {
            let before = indices@.take(j as int);
            let after = indices@.take(j + 1);
            assert(after =~= before.push(index));
            assert forall|i: int| 0 <= i < candidates0.len() implies (names(after, i) <==> names(before, i)
                || i == slot) by {
                if names(before, i) {
                    let k = choose|k: int| 0 <= k < before.len() && before[k] == i;
                    assert(after[k] == i);
                }
                if i == slot {
                    assert(after[j as int] == i);
                }
            }
        }
        j += 1;
    }
    proof {
        assert(indices@.take(j as int) =~= indices@);
        assert(candidate_views(candidates@) =~= candidates_after_vote(
            candidate_views(candidates0),
            indices@,
        ));
    }
}

/// Casts one vote for each candidate in `candidate_indices`, or rejects the
/// whole request and changes nothing.
///
/// A request that passes every check adds one vote to each named candidate,
/// appends the indices to the ballot, counts them on it, binds a ballot that
/// was never claimed to the voter and the election, and returns the
/// notification to deliver.
pub fn handler(ctx: &mut CastVote, candidate_indices: Vec<u8>) -> (r: Result<VoteCasted, ElectionError>)
    requires
        vote_check(
            old(ctx).election_account@,
            old(ctx).voter_state_account@,
            candidate_indices@,
            old(ctx).unix_timestamp as int,
        ) is Ok ==> counters_have_room(old(ctx).election_account@.candidates, candidate_indices@),
    ensures
        match vote_check(
            old(ctx).election_account@,
            old(ctx).voter_state_account@,
            candidate_indices@,
            old(ctx).unix_timestamp as int,
        ) {
            Err(e) => r == Err::<VoteCasted, ElectionError>(e) && *final(ctx) == *old(ctx),
            Ok(_) => {
                &&& r matches Ok(event)
                &&& event@ == vote_casted(
                    old(ctx).voter@,
                    old(ctx).election_key@,
                    candidate_indices@,
                    old(ctx).unix_timestamp as int,
                )
                &&& final(ctx).election_account@ == election_after_vote(
                    old(ctx).election_account@,
                    candidate_indices@,
                )
                &&& final(ctx).voter_state_account@ == ballot_after_vote(
                    old(ctx).voter_state_account@,
                    old(ctx).voter@,
                    old(ctx).election_key@,
                    candidate_indices@,
                )
                &&& final(ctx).voter == old(ctx).voter
                &&& final(ctx).election_key == old(ctx).election_key
                &&& final(ctx).unix_timestamp == old(ctx).unix_timestamp
            },
        },
        old(ctx).election_account.wf() ==> final(ctx).election_account.wf(),
        old(ctx).voter_state_account.wf(&old(ctx).election_account)
            ==> final(ctx).voter_state_account.wf(&final(ctx).election_account),
{
    match validate(ctx, &candidate_indices) {
        Err(e) => {
            return Err(e);
        },
        Ok(_) => {},
    }
    proof {
        lemma_accepted(
            ctx.election_account@,
            ctx.voter_state_account@,
            candidate_indices@,
            ctx.unix_timestamp as int,
        );
        lemma_vote_keeps_wf(
            ctx.election_account@,
            ctx.voter_state_account@,
            ctx.voter@,
            ctx.election_key@,
            candidate_indices@,
            ctx.unix_timestamp as int,
            ctx.voter_state_account@,
        );
    }
    let votes_to_cast: u8 = candidate_indices.len() as u8;
    let new_vote_count: u8 = ctx.voter_state_account.votes_cast_count + votes_to_cast;
    let unclaimed: bool = ctx.voter_state_account.votes_cast_count == 0
        && ctx.voter_state_account.voter_pubkey.is_default();
    if unclaimed {
        ctx.voter_state_account.voter_pubkey = ctx.voter;
        ctx.voter_state_account.election_pubkey = ctx.election_key;
    }
    record_votes(
        &mut ctx.election_account.candidates,
        &mut ctx.voter_state_account.voted_for_indices,
        &candidate_indices,
    );
    ctx.voter_state_account.votes_cast_count = new_vote_count;
    Ok(
        VoteCasted {
            voter: ctx.voter,
            election: ctx.election_key,
            candidates_voted_for: candidate_indices,
            timestamp: ctx.unix_timestamp,
        },
    )
}

} // verus!
