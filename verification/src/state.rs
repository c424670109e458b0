//! The persistent records of an election, their mathematical views and the
//! space each record occupies in storage.

use vstd::prelude::*;
use vstd::std_specs::cmp::PartialEqSpecImpl;
use vstd::utf8::encode_utf8;

verus! {

/// Upper bound on the byte length of a candidate's display name.
pub const MAX_CANDIDATE_NAME_LEN: usize = 50;

/// The largest per-voter vote allowance any election grants.
pub const MAX_VOTES_PER_VOTER: u8 = 3;

/// Number of candidates from which voters get three votes instead of two.
pub const THREE_VOTE_THRESHOLD: usize = 7;

/// Bytes of the tag that precedes every stored record.
pub const DISCRIMINATOR_LEN: usize = 8;

/// Bytes reserved for one stored candidate: a length-prefixed name and a counter.
pub const CANDIDATE_SPACE: usize = (4 + MAX_CANDIDATE_NAME_LEN) + 8;

/// The bytes of the identity that stands for nobody: thirty-two zeros.
pub open spec fn unset_identity() -> Seq<u8> {
    Seq::new(32, |i: int| 0u8)
}

/// A 32-byte identity: an authority, a voter, or the address of a record.
///
/// Its view is the sequence of its bytes.
#[derive(Clone, Copy, Debug)]
pub struct Identity {
    pub bytes: [u8; 32],
}

impl View for Identity {
    type V = Seq<u8>;

    open spec fn view(&self) -> Seq<u8> {
        self.bytes@
    }
}

impl Identity {
    /// True when every byte is zero: the value a freshly allocated record holds.
    pub open spec fn is_unset(&self) -> bool {
        self@ == unset_identity()
    }

    /// Tells whether this identity is still the all-zero placeholder.
    pub fn is_default(&self) -> (r: bool)
        ensures
            r == self.is_unset(),
    {
        let mut i: usize = 0;
        while i < 32
            invariant
                i <= 32,
                forall|j: int| 0 <= j < i ==> self@[j] == 0u8,
            decreases 32 - i,
        {
            if self.bytes[i] != 0 {
                return false;
            }
            i += 1;
        }
        assert(self@ =~= unset_identity());
        true
    }
}

impl Default for Identity {
    /// The all-zero identity.
    fn default() -> (r: Identity)
        ensures
            r@ == unset_identity(),
    {
        Identity { bytes: [0u8; 32] }
    }
}

impl PartialEq for Identity {
    /// Two identities are equal when they hold the same bytes.
    fn eq(&self, other: &Identity) -> (r: bool) {
        let mut i: usize = 0;
        while i < 32
            invariant
                i <= 32,
                forall|j: int| 0 <= j < i ==> self@[j] == other@[j],
            decreases 32 - i,
        {
            if self.bytes[i] != other.bytes[i] {
                return false;
            }
            i += 1;
        }
        assert(self@ =~= other@);
        true
    }
}

impl PartialEqSpecImpl for Identity {
    open spec fn obeys_eq_spec() -> bool {
        true
    }

    open spec fn eq_spec(&self, other: &Identity) -> bool {
        self@ == other@
    }
}

impl Eq for Identity {

}

/// One entry of an election's candidate list.
#[derive(Clone, Debug, PartialEq, Eq)]
pub struct Candidate {
    pub name: String,
    pub vote_count: u64,
}

/// A candidate as a mathematical value: the characters of the name and the
/// number of votes received.
pub struct CandidateView {
    pub name: Seq<char>,
    pub vote_count: nat,
}

impl View for Candidate {
    type V = CandidateView;

    open spec fn view(&self) -> CandidateView {
        CandidateView { name: self.name@, vote_count: self.vote_count as nat }
    }
}

/// The views of a list of candidates, position by position.
pub open spec fn candidate_views(candidates: Seq<Candidate>) -> Seq<CandidateView> {
    candidates.map_values(|c: Candidate| c@)
}

/// Number of bytes a name occupies when stored.
pub open spec fn name_len(name: Seq<char>) -> nat {
    encode_utf8(name).len()
}

/// The vote allowance of an election with `candidate_count` candidates.
pub open spec fn votes_allowed(candidate_count: nat) -> nat {
    if candidate_count >= THREE_VOTE_THRESHOLD {
        3
    } else {
        2
    }
}

/// The sum of the vote counts of all candidates.
pub open spec fn total_votes(candidates: Seq<CandidateView>) -> nat
    decreases candidates.len(),
{
    if candidates.len() == 0 {
        0
    } else {
        total_votes(candidates.drop_last()) + candidates.last().vote_count
    }
}

/// `w` leads the tally: it holds at least one vote, no candidate has more, and
/// every candidate before it has strictly fewer.
pub open spec fn leads(candidates: Seq<CandidateView>, w: int) -> bool {
    &&& 0 <= w < candidates.len()
    &&& candidates[w].vote_count > 0
    &&& forall|j: int| 0 <= j < candidates.len() ==> candidates[j].vote_count <= candidates[w].vote_count
    &&& forall|j: int| 0 <= j < w ==> candidates[j].vote_count < candidates[w].vote_count
}

/// The winner of a tally: the candidate that leads, if any candidate has a
/// vote.
pub open spec fn winner(candidates: Seq<CandidateView>) -> Option<u8> {
    if exists|w: u8| leads(candidates, w as int) {
        Some(choose|w: u8| leads(candidates, w as int))
    } else {
        None
    }
}

/// Replacing one candidate changes the total by the difference of the counts.
pub proof fn lemma_total_votes_update(candidates: Seq<CandidateView>, i: int, c: CandidateView)
    requires
        0 <= i < candidates.len(),
    ensures
        total_votes(candidates.update(i, c)) == total_votes(candidates) - candidates[i].vote_count
            + c.vote_count,
    decreases candidates.len(),
{
    if i == candidates.len() - 1 {
        assert(candidates.update(i, c).drop_last() =~= candidates.drop_last());
    } else {
        assert(candidates.update(i, c).drop_last() =~= candidates.drop_last().update(i, c));
        lemma_total_votes_update(candidates.drop_last(), i, c);
    }
}

/// The bytes that a list of candidates occupies when stored, without its
/// length prefix: for each candidate a length-prefixed name and a counter.
pub open spec fn candidates_stored_len(candidates: Seq<CandidateView>) -> nat
    decreases candidates.len(),
{
    if candidates.len() == 0 {
        0
    } else {
        candidates_stored_len(candidates.drop_last()) + 4 + name_len(candidates.last().name) + 8
    }
}

/// The shared record of one election.
#[derive(Clone, Debug, PartialEq, Eq)]
pub struct ElectionAccount {
    /// The identity that created the election and may finalize it.
    pub authority: Identity,
    /// Voting is open strictly after this timestamp.
    pub start_timestamp: i64,
    /// Voting is open strictly before this timestamp.
    pub end_timestamp: i64,
    /// The number of votes each voter may distribute.
    pub votes_per_voter: u8,
    /// Whether the result has been declared.
    pub is_finalized: bool,
    /// The index of the winning candidate, once finalized with a winner.
    pub winner_index: Option<u8>,
    /// All candidates, in ballot order.
    pub candidates: Vec<Candidate>,
}

/// An election as a mathematical value.
pub struct ElectionView {
    pub authority: Seq<u8>,
    pub start_timestamp: int,
    pub end_timestamp: int,
    pub votes_per_voter: nat,
    pub is_finalized: bool,
    pub winner_index: Option<u8>,
    pub candidates: Seq<CandidateView>,
}

impl View for ElectionAccount {
    type V = ElectionView;

    open spec fn view(&self) -> ElectionView {
        ElectionView {
            authority: self.authority@,
            start_timestamp: self.start_timestamp as int,
            end_timestamp: self.end_timestamp as int,
            votes_per_voter: self.votes_per_voter as nat,
            is_finalized: self.is_finalized,
            winner_index: self.winner_index,
            candidates: candidate_views(self.candidates@),
        }
    }
}

impl ElectionView {
    /// The invariant of every election that was created and then only voted in
    /// and tallied: the candidate list fits the one-byte count it was created
    /// with, names respect the length cap, the allowance follows from the
    /// number of candidates, and the recorded winner is the winner of the
    /// tally once finalized and absent before.
    pub open spec fn wf(self) -> bool {
        &&& self.candidates.len() <= u8::MAX
        &&& forall|i: int|
            0 <= i < self.candidates.len() ==> name_len(#[trigger] self.candidates[i].name)
                <= MAX_CANDIDATE_NAME_LEN
        &&& self.votes_per_voter == votes_allowed(self.candidates.len())
        &&& if self.is_finalized {
            self.winner_index == winner(self.candidates)
        } else {
            self.winner_index is None
        }
    }

    /// The bytes that the election occupies when stored: the tag, the
    /// authority, both timestamps, the allowance, the finalized flag, the
    /// winner as a presence flag and, if present, one byte, and the
    /// length-prefixed candidate list.
    pub open spec fn stored_len(self) -> nat {
        DISCRIMINATOR_LEN as nat + 32 + 8 + 8 + 1 + 1 + 1 + (if self.winner_index is Some {
            1nat
        } else {
            0nat
        }) + 4 + candidates_stored_len(self.candidates)
    }

    /// Voting is open at `now`: strictly inside the window and not finalized.
    pub open spec fn accepts_votes_at(self, now: int) -> bool {
        self.start_timestamp < now < self.end_timestamp && !self.is_finalized
    }
}

impl ElectionAccount {
    /// The invariant of the record, stated on its view.
    pub open spec fn wf(&self) -> bool {
        self@.wf()
    }

    /// The bytes reserved for the record of an election with
    /// `candidate_count` candidates: room for the tag, the authority, both
    /// timestamps, the allowance, the finalized flag, a winner, and the
    /// length-prefixed list of candidates with names of full length.
    pub open spec fn space(candidate_count: nat) -> nat {
        (DISCRIMINATOR_LEN + 32 + 8 + 8 + 1 + 1 + (1 + 1) + 4 + candidate_count
            * CANDIDATE_SPACE) as nat
    }

    /// Computes the space to reserve for an election with `candidate_count`
    /// candidates.
    pub fn get_space(candidate_count: u8) -> (r: usize)
        ensures
            r == Self::space(candidate_count as nat),
            r == 64 + 62 * candidate_count,
    {
        let count: usize = candidate_count as usize;
        assert(CANDIDATE_SPACE == 62);
        DISCRIMINATOR_LEN + 32 + 8 + 8 + 1 + 1 + 1 + 1 + 4 + (count * CANDIDATE_SPACE)
    }
}

/// The record of one voter in one election.
#[derive(Clone, Debug, PartialEq, Eq)]
pub struct VoterStateAccount {
    /// The voter the ballot belongs to.
    pub voter_pubkey: Identity,
    /// The election the ballot is for.
    pub election_pubkey: Identity,
    /// How many votes the voter has used so far.
    pub votes_cast_count: u8,
    /// The candidate indices the voter has already voted for.
    pub voted_for_indices: Vec<u8>,
}

/// A ballot before its first use: no voter, no election, no votes.
pub open spec fn blank_ballot() -> BallotView {
    BallotView {
        voter: unset_identity(),
        election: unset_identity(),
        votes_cast_count: 0,
        voted_for: Seq::empty(),
    }
}

/// A ballot as a mathematical value.
pub struct BallotView {
    pub voter: Seq<u8>,
    pub election: Seq<u8>,
    pub votes_cast_count: nat,
    pub voted_for: Seq<u8>,
}

impl View for VoterStateAccount {
    type V = BallotView;

    open spec fn view(&self) -> BallotView {
        BallotView {
            voter: self.voter_pubkey@,
            election: self.election_pubkey@,
            votes_cast_count: self.votes_cast_count as nat,
            voted_for: self.voted_for_indices@,
        }
    }
}

impl BallotView {
    /// The ballot has never been bound to a voter: no vote is counted on it
    /// and its voter is the all-zero identity.
    pub open spec fn is_unclaimed(self) -> bool {
        &&& self.votes_cast_count == 0
        &&& self.voter == unset_identity()
    }

    /// The bytes that the ballot occupies when stored: the tag, both
    /// identities, the counter, and the length-prefixed list of one-byte
    /// indices.
    pub open spec fn stored_len(self) -> nat {
        DISCRIMINATOR_LEN as nat + 32 + 32 + 1 + 4 + self.voted_for.len()
    }

    /// The invariant of a ballot in the election `e`: the counter equals the
    /// number of recorded indices, stays within the allowance, and no
    /// candidate is recorded twice.
    pub open spec fn wf(self, e: ElectionView) -> bool {
        &&& self.votes_cast_count == self.voted_for.len()
        &&& self.votes_cast_count <= e.votes_per_voter
        &&& self.voted_for.no_duplicates()
        &&& forall|i: int|
            0 <= i < self.voted_for.len() ==> (#[trigger] self.voted_for[i]) < e.candidates.len()
    }
}

impl VoterStateAccount {
    /// The invariant of the record in the election `e`, stated on its view.
    pub open spec fn wf(&self, e: &ElectionAccount) -> bool {
        self@.wf(e@)
    }

    /// The bytes reserved for a ballot: room for the tag, both identities,
    /// the counter, and the length-prefixed list of `MAX_VOTES_PER_VOTER`
    /// one-byte indices.
    pub open spec fn space() -> nat {
        (DISCRIMINATOR_LEN + 32 + 32 + 1 + 4 + MAX_VOTES_PER_VOTER) as nat
    }

    /// Computes the space to reserve for a ballot.
    pub fn get_space() -> (r: usize)
        ensures
            r == Self::space(),
            r == 80,
    {
        DISCRIMINATOR_LEN + 32 + 32 + 1 + 4 + (MAX_VOTES_PER_VOTER as usize)
    }
}

/// Candidates whose names respect the length cap fit the space reserved for
/// as many candidates.
proof fn lemma_candidates_fit(candidates: Seq<CandidateView>)
    requires
        forall|i: int|
            0 <= i < candidates.len() ==> name_len(#[trigger] candidates[i].name)
                <= MAX_CANDIDATE_NAME_LEN,
    ensures
        candidates_stored_len(candidates) <= candidates.len() * CANDIDATE_SPACE,
    decreases candidates.len(),
{
    if candidates.len() > 0 {
        let front = candidates.drop_last();
        lemma_candidates_fit(front);
        assert(candidates.len() * CANDIDATE_SPACE == front.len() * CANDIDATE_SPACE + CANDIDATE_SPACE)
            by (nonlinear_arith)
            requires
                candidates.len() == front.len() + 1,
        ;
    }
}

/// A well-formed election fits the space computed for its number of
/// candidates.
pub proof fn lemma_election_fits(e: ElectionView)
    requires
        e.wf(),
    ensures
        e.stored_len() <= ElectionAccount::space(e.candidates.len()),
{
    lemma_candidates_fit(e.candidates);
}

/// A ballot that is well formed in a well-formed election fits the space
/// computed for a ballot: no election grants more than `MAX_VOTES_PER_VOTER`
/// votes.
pub proof fn lemma_ballot_fits(e: ElectionView, b: BallotView)
    requires
        e.wf(),
        b.wf(e),
    ensures
        b.voted_for.len() <= MAX_VOTES_PER_VOTER,
        b.stored_len() <= VoterStateAccount::space(),
{
}

impl Default for VoterStateAccount {
    /// The ballot as storage hands it out before its first use: no voter, no
    /// election, no votes.
    fn default() -> (r: VoterStateAccount)
        ensures
            r@ == blank_ballot(),
    {
        VoterStateAccount {
            voter_pubkey: Identity::default(),
            election_pubkey: Identity::default(),
            votes_cast_count: 0,
            voted_for_indices: Vec::new(),
        }
    }
}

} // verus!
