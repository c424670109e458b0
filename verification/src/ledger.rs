//! One election together with the ballots of all its voters, and what holds
//! of them after any sequence of requests.
//!
//! Storage keeps one ballot per voter and election. Here the voters of one
//! election are numbered, and the ballot of voter `i` stands at position `i`.
//! One step of the ledger is what one call of `cast_vote` or `tally_results`
//! does to the records it is handed: both are stated over the same
//! functions.

use vstd::prelude::*;
use vstd::set_lib::lemma_set_disjoint_lens;
use crate::instructions::cast_vote::{
    ballot_after_vote, election_after_vote, lemma_accepted, lemma_vote_adds_votes,
    lemma_vote_keeps_wf, vote_check,
};
use crate::instructions::initialize_election::{creation_check, fresh_candidates, new_election};
use crate::instructions::tally_results::{election_after_tally, lemma_tally_keeps_wf, tally_check};
use crate::state::{blank_ballot, total_votes, BallotView, ElectionView};

verus! {

/// An election and the ballots of its voters.
pub struct Ledger {
    pub election: ElectionView,
    /// The address under which the election is stored.
    pub election_key: Seq<u8>,
    pub ballots: Seq<BallotView>,
}

/// A request that reaches the election.
pub enum Request {
    /// The voter with the ballot at position `ballot` votes for `indices`.
    Vote { ballot: int, voter: Seq<u8>, indices: Seq<u8>, now: int },
    /// `caller` asks for the tally. Storage lets only the election's
    /// authority through.
    Tally { caller: Seq<u8>, now: int },
}

/// The ledger of a newly created election with `voters` voters.
pub open spec fn opened(election: ElectionView, election_key: Seq<u8>, voters: nat) -> Ledger {
    Ledger { election, election_key, ballots: Seq::new(voters, |i: int| blank_ballot()) }
}

/// The number of votes recorded on all ballots together: one for each pair
/// of a voter and a candidate that the voter voted for.
pub open spec fn recorded_votes(ballots: Seq<BallotView>) -> nat
    decreases ballots.len(),
{
    if ballots.len() == 0 {
        0
    } else {
        recorded_votes(ballots.drop_last()) + ballots.last().voted_for.len()
    }
}

/// The pairs of a voter and a candidate that the ballots record: voter `v`
/// is paired with every candidate on the ballot at position `v`.
pub open spec fn recorded_pairs(ballots: Seq<BallotView>) -> Set<(int, u8)> {
    Set::new(
        |pair: (int, u8)| 0 <= pair.0 < ballots.len() && ballots[pair.0].voted_for.contains(pair.1),
    )
}

/// The pairs of the voter `v` with the candidates in `voted_for`.
pub open spec fn pairs_of(v: int, voted_for: Seq<u8>) -> Set<(int, u8)> {
    Set::new(|pair: (int, u8)| pair.0 == v && voted_for.contains(pair.1))
}

/// The ledger after one request. A rejected request changes nothing, and a
/// tally that does not come from the authority is rejected. An accepted vote
/// changes the election and the voter's ballot, an accepted tally the
/// election.
pub open spec fn step(l: Ledger, request: Request) -> Ledger {
    match request {
        Request::Vote { ballot, voter, indices, now } => {
            if 0 <= ballot < l.ballots.len() && vote_check(l.election, l.ballots[ballot], indices, now)
                is Ok {
                Ledger {
                    election: election_after_vote(l.election, indices),
                    ballots: l.ballots.update(
                        ballot,
                        ballot_after_vote(l.ballots[ballot], voter, l.election_key, indices),
                    ),
                    ..l
                }
            } else {
                l
            }
        },
        Request::Tally { caller, now } => {
            if caller == l.election.authority && tally_check(l.election, now) is Ok {
                Ledger { election: election_after_tally(l.election), ..l }
            } else {
                l
            }
        },
    }
}

/// The ledger after a sequence of requests, applied in order.
pub open spec fn run(l: Ledger, requests: Seq<Request>) -> Ledger
    decreases requests.len(),
{
    if requests.len() == 0 {
        l
    } else {
        step(run(l, requests.drop_last()), requests.last())
    }
}

/// What holds of a ledger at all times: the election is well formed, every
/// ballot is well formed in it, and the votes counted for the candidates are
/// exactly the votes recorded on the ballots.
pub open spec fn consistent(l: Ledger) -> bool {
    &&& l.election.wf()
    &&& forall|i: int| 0 <= i < l.ballots.len() ==> (#[trigger] l.ballots[i]).wf(l.election)
    &&& total_votes(l.election.candidates) == recorded_votes(l.ballots)
}

/// What never changes in an election, and what changes in one direction
/// only: the authority, the window, the allowance and the candidates' names
/// are fixed; a finalized election stays finalized; no count goes down.
pub open spec fn succeeds(later: ElectionView, earlier: ElectionView) -> bool {
    &&& later.authority == earlier.authority
    &&& later.start_timestamp == earlier.start_timestamp
    &&& later.end_timestamp == earlier.end_timestamp
    &&& later.votes_per_voter == earlier.votes_per_voter
    &&& later.candidates.len() == earlier.candidates.len()
    &&& earlier.is_finalized ==> later == earlier
    &&& forall|i: int|
        0 <= i < earlier.candidates.len() ==> {
            &&& (#[trigger] later.candidates[i]).name == earlier.candidates[i].name
            &&& later.candidates[i].vote_count >= earlier.candidates[i].vote_count
        }
}

/// What never changes on a ballot, and what changes in one direction only:
/// a ballot that has a vote keeps its voter and its election, and the list
/// of candidates voted for only grows at its end.
pub open spec fn ballot_succeeds(later: BallotView, earlier: BallotView) -> bool {
    &&& earlier.votes_cast_count > 0 ==> later.voter == earlier.voter && later.election
        == earlier.election
    &&& later.votes_cast_count >= earlier.votes_cast_count
    &&& earlier.voted_for.is_prefix_of(later.voted_for)
}

/// Candidates without votes total zero.
proof fn lemma_fresh_total(names: Seq<Seq<char>>)
    ensures
        total_votes(fresh_candidates(names)) == 0,
    decreases names.len(),
{
    if names.len() > 0 {
        assert(fresh_candidates(names).drop_last() =~= fresh_candidates(names.drop_last()));
        lemma_fresh_total(names.drop_last());
    }
}

/// Blank ballots record nothing.
proof fn lemma_blank_total(voters: nat)
    ensures
        recorded_votes(Seq::new(voters, |i: int| blank_ballot())) == 0,
    decreases voters,
{
    if voters > 0 {
        assert(Seq::new(voters, |i: int| blank_ballot()).drop_last() =~= Seq::new(
            (voters - 1) as nat,
            |i: int| blank_ballot(),
        ));
        lemma_blank_total((voters - 1) as nat);
    }
}

/// Replacing one ballot changes the recorded votes by the difference of the
/// two ballots.
proof fn lemma_recorded_votes_update(ballots: Seq<BallotView>, i: int, b: BallotView)
    requires
        0 <= i < ballots.len(),
    ensures
        recorded_votes(ballots.update(i, b)) == recorded_votes(ballots) - ballots[i].voted_for.len()
            + b.voted_for.len(),
    decreases ballots.len(),
{
    if i == ballots.len() - 1 {
        assert(ballots.update(i, b).drop_last() =~= ballots.drop_last());
    } else {
        assert(ballots.update(i, b).drop_last() =~= ballots.drop_last().update(i, b));
        lemma_recorded_votes_update(ballots.drop_last(), i, b);
    }
}

/// A ballot without repetitions pairs its voter with as many candidates as
/// it lists.
proof fn lemma_pairs_of_len(v: int, voted_for: Seq<u8>)
    requires
        voted_for.no_duplicates(),
    ensures
        pairs_of(v, voted_for).finite(),
        pairs_of(v, voted_for).len() == voted_for.len(),
    decreases voted_for.len(),
{
    if voted_for.len() == 0 {
        assert(pairs_of(v, voted_for) =~= Set::empty());
    } else {
        let front = voted_for.drop_last();
        let x = voted_for.last();
        lemma_pairs_of_len(v, front);
        // The last candidate is not among the earlier ones, so its pair is
        // new.
        assert(!front.contains(x)) by {
            if front.contains(x) {
                let k = choose|k: int| 0 <= k < front.len() && front[k] == x;
                assert(voted_for[k] == voted_for[voted_for.len() - 1]);
            }
        }
        assert forall|pair: (int, u8)| pairs_of(v, voted_for).contains(pair) <==> pairs_of(
            v,
            front,
        ).insert((v, x)).contains(pair) by {
            if pair.0 == v && voted_for.contains(pair.1) {
                let k = choose|k: int| 0 <= k < voted_for.len() && voted_for[k] == pair.1;
                if k < front.len() {
                    assert(front[k] == pair.1);
                }
            }
        }
        assert(pairs_of(v, voted_for) =~= pairs_of(v, front).insert((v, x)));
    }
}

/// When no ballot lists a candidate twice, the votes recorded on the ballots
/// are as many as the pairs of a voter and a candidate that they record.
pub proof fn lemma_recorded_votes_count_pairs(ballots: Seq<BallotView>)
    requires
        forall|i: int| 0 <= i < ballots.len() ==> (#[trigger] ballots[i]).voted_for.no_duplicates(),
    ensures
        recorded_pairs(ballots).finite(),
        recorded_pairs(ballots).len() == recorded_votes(ballots),
    decreases ballots.len(),
{
    if ballots.len() == 0 {
        assert(recorded_pairs(ballots) =~= Set::empty());
    } else {
        let front = ballots.drop_last();
        let last = ballots.len() - 1;
        let row = pairs_of(last, ballots[last].voted_for);
        lemma_recorded_votes_count_pairs(front);
        lemma_pairs_of_len(last, ballots[last].voted_for);
        // The pairs of the last voter are apart from the pairs of the others.
        assert(recorded_pairs(ballots) =~= recorded_pairs(front) + row);
        assert(recorded_pairs(front).disjoint(row));
        lemma_set_disjoint_lens(recorded_pairs(front), row);
    }
}

/// In a consistent ledger the votes counted for the candidates are as many as
/// the pairs of a voter and a candidate that the ballots record.
pub proof fn lemma_counted_votes_are_recorded_pairs(l: Ledger)
    requires
        consistent(l),
    ensures
        recorded_pairs(l.ballots).finite(),
        total_votes(l.election.candidates) == recorded_pairs(l.ballots).len(),
{
    lemma_recorded_votes_count_pairs(l.ballots);
}

/// A created election is well formed, open, without votes, and gives each
/// voter three votes exactly when it has seven candidates or more, and two
/// otherwise. Its ledger with blank ballots is consistent.
pub proof fn lemma_creation_is_consistent(
    authority: Seq<u8>,
    start_timestamp: int,
    end_timestamp: int,
    names: Seq<Seq<char>>,
    candidate_count: u8,
    election_key: Seq<u8>,
    voters: nat,
)
    requires
        creation_check(names, candidate_count) is Ok,
    ensures
        ({
            let e = new_election(authority, start_timestamp, end_timestamp, names);
            &&& e.wf()
            &&& !e.is_finalized
            &&& e.winner_index is None
            &&& e.candidates.len() == candidate_count
            &&& total_votes(e.candidates) == 0
            &&& (e.votes_per_voter == 3 <==> candidate_count >= 7)
            &&& (e.votes_per_voter == 2 <==> candidate_count < 7)
            &&& consistent(opened(e, election_key, voters))
        }),
{
    lemma_fresh_total(names);
    lemma_blank_total(voters);
}

/// An election becomes finalized in one way only: by a tally that its
/// authority asks for after the window has closed.
pub proof fn lemma_only_authority_finalizes(l: Ledger, request: Request)
    requires
        !l.election.is_finalized,
        step(l, request).election.is_finalized,
    ensures
        request matches Request::Tally { caller, now } && caller == l.election.authority && now
            > l.election.end_timestamp,
{
}

/// A vote changes no ballot but the one it is cast with, and a tally changes
/// no ballot at all.
pub proof fn lemma_other_ballots_untouched(l: Ledger, request: Request, i: int)
    requires
        0 <= i < l.ballots.len(),
        request matches Request::Vote { ballot, .. } ==> ballot != i,
    ensures
        step(l, request).ballots[i] == l.ballots[i],
{
}

/// One request keeps a consistent ledger consistent, and the election after
/// it succeeds the election before it. A finalized election is frozen: no
/// request changes it or any ballot.
pub proof fn lemma_step_keeps_consistent(l: Ledger, request: Request)
    ensures
        consistent(l) ==> consistent(step(l, request)),
        succeeds(step(l, request).election, l.election),
        step(l, request).election_key == l.election_key,
        step(l, request).ballots.len() == l.ballots.len(),
        forall|i: int|
            0 <= i < l.ballots.len() ==> ballot_succeeds(
                #[trigger] step(l, request).ballots[i],
                l.ballots[i],
            ),
        l.election.is_finalized ==> step(l, request) == l,
{
    let after = step(l, request);
    match request {
        Request::Vote { ballot, voter, indices, now } => {
            if 0 <= ballot < l.ballots.len() && vote_check(l.election, l.ballots[ballot], indices, now)
                is Ok {
                let b = l.ballots[ballot];
                lemma_accepted(l.election, b, indices, now);
                lemma_vote_adds_votes(l.election.candidates, indices);
                lemma_recorded_votes_update(l.ballots, ballot, after.ballots[ballot]);
                if consistent(l) {
                    assert forall|i: int| 0 <= i < after.ballots.len() implies (
                    #[trigger] after.ballots[i]).wf(after.election) by {
                        lemma_vote_keeps_wf(
                            l.election,
                            b,
                            voter,
                            l.election_key,
                            indices,
                            now,
                            l.ballots[i],
                        );
                    }
                    lemma_vote_keeps_wf(l.election, b, voter, l.election_key, indices, now, b);
                }
            }
        },
        Request::Tally { caller, now } => {
            if caller == l.election.authority && tally_check(l.election, now) is Ok {
                if consistent(l) {
                    assert forall|i: int| 0 <= i < after.ballots.len() implies (
                    #[trigger] after.ballots[i]).wf(after.election) by {
                        lemma_tally_keeps_wf(l.election, l.ballots[i]);
                    }
                    lemma_tally_keeps_wf(l.election, blank_ballot());
                }
            }
        },
    }
}

/// After any sequence of requests a consistent ledger is consistent: on
/// every ballot the counter equals the number of recorded candidates and
/// stays within the allowance, no ballot records a candidate twice, and the
/// votes counted for the candidates are the votes recorded on the ballots.
/// The election after the requests succeeds the election before them, and a
/// finalized election is frozen.
pub proof fn lemma_run_keeps_consistent(l: Ledger, requests: Seq<Request>)
    ensures
        consistent(l) ==> consistent(run(l, requests)),
        succeeds(run(l, requests).election, l.election),
        run(l, requests).election_key == l.election_key,
        run(l, requests).ballots.len() == l.ballots.len(),
        forall|i: int|
            0 <= i < l.ballots.len() ==> ballot_succeeds(
                #[trigger] run(l, requests).ballots[i],
                l.ballots[i],
            ),
        l.election.is_finalized ==> run(l, requests) == l,
    decreases requests.len(),
{
    if requests.len() > 0 {
        let before = run(l, requests.drop_last());
        lemma_run_keeps_consistent(l, requests.drop_last());
        lemma_step_keeps_consistent(before, requests.last());
        assert forall|i: int| 0 <= i < l.ballots.len() implies ballot_succeeds(
            #[trigger] run(l, requests).ballots[i],
            l.ballots[i],
        ) by {
            assert(ballot_succeeds(before.ballots[i], l.ballots[i]));
            assert(ballot_succeeds(step(before, requests.last()).ballots[i], before.ballots[i]));
        }
    }
}

} // verus!
