use single_winner_d21_voting::cast_vote;
use single_winner_d21_voting::errors::ElectionError;
use single_winner_d21_voting::events::VoteCasted;
use single_winner_d21_voting::instructions::cast_vote::{handler, has_room, validate, CastVote};
use single_winner_d21_voting::state::{Candidate, ElectionAccount, Identity, VoterStateAccount};

const START: i64 = 1_000;
const END: i64 = 2_000;

fn id(byte: u8) -> Identity {
    Identity { bytes: [byte; 32] }
}

fn election(candidates: usize) -> ElectionAccount {
    ElectionAccount {
        authority: id(7),
        start_timestamp: START,
        end_timestamp: END,
        votes_per_voter: if candidates >= 7 { 3 } else { 2 },
        is_finalized: false,
        winner_index: None,
        candidates: (0..candidates)
            .map(|i| Candidate { name: format!("candidate {}", i), vote_count: 0 })
            .collect(),
    }
}

fn request(candidates: usize, now: i64) -> CastVote {
    CastVote {
        election_account: election(candidates),
        voter_state_account: VoterStateAccount::default(),
        voter: id(1),
        election_key: id(9),
        unix_timestamp: now,
    }
}

fn counts(ctx: &CastVote) -> Vec<u64> {
    ctx.election_account.candidates.iter().map(|c| c.vote_count).collect()
}

fn rejected(mut ctx: CastVote, indices: Vec<u8>, error: ElectionError) {
    let before = ctx.clone();
    assert_eq!(validate(&ctx, &indices), Err(error));
    assert_eq!(handler(&mut ctx, indices), Err(error));
    assert_eq!(ctx, before);
}

#[test]
fn two_votes_are_recorded() {
    let mut ctx = request(3, 1_500);
    let r = handler(&mut ctx, vec![2, 0]);
    assert_eq!(
        r,
        Ok(VoteCasted { voter: id(1), election: id(9), candidates_voted_for: vec![2, 0], timestamp: 1_500 })
    );
    assert_eq!(counts(&ctx), vec![1, 0, 1]);
    assert_eq!(ctx.voter_state_account.votes_cast_count, 2);
    assert_eq!(ctx.voter_state_account.voted_for_indices, vec![2, 0]);
    assert_eq!(ctx.voter_state_account.voter_pubkey, id(1));
    assert_eq!(ctx.voter_state_account.election_pubkey, id(9));
    assert_eq!(ctx.election_account.candidates[0].name, "candidate 0");
    assert!(!ctx.election_account.is_finalized);
    assert_eq!(ctx.election_account.winner_index, None);
    assert_eq!(ctx.election_account.votes_per_voter, 2);
    assert_eq!(ctx.voter, id(1));
    assert_eq!(ctx.election_key, id(9));
    assert_eq!(ctx.unix_timestamp, 1_500);
}

#[test]
fn validation_accepts_what_the_handler_records() {
    let ctx = request(3, 1_500);
    assert_eq!(validate(&ctx, &vec![1]), Ok(()));
    assert_eq!(validate(&ctx, &vec![1, 2]), Ok(()));
}

#[test]
fn votes_may_be_spread_over_several_requests() {
    let mut ctx = request(8, 1_500);
    assert!(handler(&mut ctx, vec![5]).is_ok());
    ctx.unix_timestamp = 1_600;
    assert!(handler(&mut ctx, vec![0, 7]).is_ok());
    assert_eq!(counts(&ctx), vec![1, 0, 0, 0, 0, 1, 0, 1]);
    assert_eq!(ctx.voter_state_account.votes_cast_count, 3);
    assert_eq!(ctx.voter_state_account.voted_for_indices, vec![5, 0, 7]);
}

#[test]
fn a_claimed_ballot_keeps_its_owner() {
    let mut ctx = request(8, 1_500);
    assert!(handler(&mut ctx, vec![5]).is_ok());
    ctx.voter = id(2);
    ctx.election_key = id(3);
    let r = handler(&mut ctx, vec![6]).unwrap();
    assert_eq!(r.voter, id(2));
    assert_eq!(r.election, id(3));
    assert_eq!(ctx.voter_state_account.voter_pubkey, id(1));
    assert_eq!(ctx.voter_state_account.election_pubkey, id(9));
}

#[test]
fn a_ballot_with_a_voter_but_no_votes_is_not_claimed_again() {
    let mut ctx = request(3, 1_500);
    ctx.voter_state_account.voter_pubkey = id(4);
    ctx.voter_state_account.election_pubkey = id(5);
    assert!(handler(&mut ctx, vec![0]).is_ok());
    assert_eq!(ctx.voter_state_account.voter_pubkey, id(4));
    assert_eq!(ctx.voter_state_account.election_pubkey, id(5));
}

#[test]
fn voting_before_the_start_is_rejected() {
    rejected(request(3, START - 1), vec![0], ElectionError::ElectionNotStarted);
    rejected(request(3, i64::MIN), vec![0], ElectionError::ElectionNotStarted);
}

#[test]
fn voting_exactly_at_the_start_is_rejected() {
    rejected(request(3, START), vec![0], ElectionError::ElectionNotStarted);
}

#[test]
fn voting_just_after_the_start_is_accepted() {
    let mut ctx = request(3, START + 1);
    assert!(handler(&mut ctx, vec![0]).is_ok());
}

#[test]
fn voting_just_before_the_end_is_accepted() {
    let mut ctx = request(3, END - 1);
    assert!(handler(&mut ctx, vec![0]).is_ok());
}

#[test]
fn voting_exactly_at_the_end_is_rejected() {
    rejected(request(3, END), vec![0], ElectionError::ElectionAlreadyEnded);
}

#[test]
fn voting_after_the_end_is_rejected() {
    rejected(request(3, END + 1), vec![0], ElectionError::ElectionAlreadyEnded);
    rejected(request(3, i64::MAX), vec![0], ElectionError::ElectionAlreadyEnded);
}

#[test]
fn an_inverted_window_never_accepts_votes() {
    for now in [i64::MIN, 0, 99, 100, 150, 200, 201, i64::MAX] {
        let mut ctx = request(3, now);
        ctx.election_account.start_timestamp = 200;
        ctx.election_account.end_timestamp = 100;
        assert!(handler(&mut ctx, vec![0]).is_err());
    }
}

#[test]
fn voting_in_a_finalized_election_is_rejected() {
    let mut ctx = request(3, 1_500);
    ctx.election_account.is_finalized = true;
    rejected(ctx, vec![0], ElectionError::ElectionAlreadyFinalized);
}

#[test]
fn an_empty_request_is_rejected() {
    rejected(request(3, 1_500), Vec::new(), ElectionError::InvalidCandidateIndex);
}

#[test]
fn the_same_candidate_twice_in_one_request_is_rejected() {
    rejected(request(3, 1_500), vec![0, 0], ElectionError::DuplicateVoteInSingleTx);
    rejected(request(8, 1_500), vec![3, 1, 3], ElectionError::DuplicateVoteInSingleTx);
}

#[test]
fn more_votes_than_the_allowance_are_rejected() {
    rejected(request(3, 1_500), vec![0, 1, 2], ElectionError::VotesExhausted);
    rejected(request(8, 1_500), vec![0, 1, 2, 3], ElectionError::VotesExhausted);
}

#[test]
fn a_used_up_ballot_is_rejected() {
    let mut ctx = request(3, 1_500);
    assert!(handler(&mut ctx, vec![0, 1]).is_ok());
    rejected(ctx, vec![2], ElectionError::VotesExhausted);
}

#[test]
fn all_two_hundred_fifty_six_indices_exhaust_the_ballot() {
    let all: Vec<u8> = (0..=255u8).collect();
    assert_eq!(all.len(), 256);
    rejected(request(8, 1_500), all, ElectionError::VotesExhausted);
}

#[test]
fn a_counter_at_its_limit_exhausts_the_ballot() {
    let mut ctx = request(8, 1_500);
    ctx.voter_state_account.votes_cast_count = 255;
    rejected(ctx, vec![0], ElectionError::VotesExhausted);
}

#[test]
fn an_index_out_of_range_is_rejected() {
    rejected(request(3, 1_500), vec![3], ElectionError::InvalidCandidateIndex);
    rejected(request(3, 1_500), vec![255], ElectionError::InvalidCandidateIndex);
    rejected(request(0, 1_500), vec![0], ElectionError::InvalidCandidateIndex);
}

#[test]
fn a_candidate_already_voted_for_is_rejected() {
    let mut ctx = request(3, 1_500);
    assert!(handler(&mut ctx, vec![1]).is_ok());
    rejected(ctx, vec![1], ElectionError::AlreadyVotedForCandidate);
}

#[test]
fn a_rejected_batch_records_none_of_its_votes() {
    let mut ctx = request(3, 1_500);
    let before = ctx.clone();
    assert_eq!(handler(&mut ctx, vec![1, 9]), Err(ElectionError::InvalidCandidateIndex));
    assert_eq!(counts(&ctx), vec![0, 0, 0]);
    assert_eq!(ctx, before);
    let mut ctx = request(8, 1_500);
    assert!(handler(&mut ctx, vec![4]).is_ok());
    let before = ctx.clone();
    assert_eq!(handler(&mut ctx, vec![2, 4]), Err(ElectionError::AlreadyVotedForCandidate));
    assert_eq!(counts(&ctx), vec![0, 0, 0, 0, 1, 0, 0, 0]);
    assert_eq!(ctx, before);
}

#[test]
fn the_first_failing_check_decides() {
    let mut finalized_early = request(3, START);
    finalized_early.election_account.is_finalized = true;
    rejected(finalized_early, Vec::new(), ElectionError::ElectionNotStarted);
    let mut finalized_late = request(3, END);
    finalized_late.election_account.is_finalized = true;
    rejected(finalized_late, Vec::new(), ElectionError::ElectionAlreadyEnded);
    let mut finalized = request(3, 1_500);
    finalized.election_account.is_finalized = true;
    rejected(finalized, Vec::new(), ElectionError::ElectionAlreadyFinalized);
    rejected(request(3, 1_500), vec![9, 9, 9], ElectionError::DuplicateVoteInSingleTx);
    rejected(request(3, 1_500), vec![7, 8, 9], ElectionError::VotesExhausted);
}

#[test]
fn the_first_failing_index_decides() {
    let mut ctx = request(8, 1_500);
    assert!(handler(&mut ctx, vec![0]).is_ok());
    rejected(ctx.clone(), vec![9, 0], ElectionError::InvalidCandidateIndex);
    rejected(ctx.clone(), vec![0, 9], ElectionError::AlreadyVotedForCandidate);
    rejected(ctx, vec![1, 0], ElectionError::AlreadyVotedForCandidate);
}

#[test]
fn with_one_vote_left_only_a_single_unused_candidate_is_accepted() {
    let mut used = request(3, 1_500);
    assert_eq!(used.election_account.votes_per_voter, 2);
    assert!(handler(&mut used, vec![0]).is_ok());
    rejected(used.clone(), vec![1, 2], ElectionError::VotesExhausted);
    rejected(used.clone(), vec![0], ElectionError::AlreadyVotedForCandidate);
    rejected(used.clone(), vec![1, 1], ElectionError::DuplicateVoteInSingleTx);
    rejected(used.clone(), vec![0, 0], ElectionError::DuplicateVoteInSingleTx);
    rejected(used.clone(), vec![3], ElectionError::InvalidCandidateIndex);
    let mut ctx = used;
    assert!(handler(&mut ctx, vec![1]).is_ok());
    assert_eq!(counts(&ctx), vec![1, 1, 0]);
    assert_eq!(ctx.voter_state_account.votes_cast_count, 2);
}

#[test]
fn casting_the_same_candidate_twice_on_a_fresh_ballot_is_a_duplicate() {
    rejected(request(3, 1_500), vec![0, 0], ElectionError::DuplicateVoteInSingleTx);
}

#[test]
fn ballots_never_exceed_the_allowance_nor_repeat_a_candidate() {
    let requests: Vec<Vec<u8>> = vec![
        vec![0],
        vec![0],
        vec![1, 1],
        vec![9],
        vec![1, 2, 3],
        vec![1],
        vec![],
        vec![2],
        vec![3],
        vec![4, 5],
    ];
    let mut ctx = request(8, 1_500);
    for indices in requests {
        let _ = handler(&mut ctx, indices);
        let ballot = &ctx.voter_state_account;
        assert_eq!(ballot.votes_cast_count as usize, ballot.voted_for_indices.len());
        assert!(ballot.votes_cast_count <= ctx.election_account.votes_per_voter);
        let mut seen = ballot.voted_for_indices.clone();
        seen.sort();
        seen.dedup();
        assert_eq!(seen.len(), ballot.voted_for_indices.len());
    }
    assert_eq!(ctx.voter_state_account.voted_for_indices, vec![0, 1, 2]);
    assert_eq!(counts(&ctx), vec![1, 1, 1, 0, 0, 0, 0, 0]);
}

#[test]
fn counted_votes_equal_the_votes_recorded_on_all_ballots() {
    let mut election = election(8);
    let mut ballots: Vec<VoterStateAccount> = (0..4).map(|_| VoterStateAccount::default()).collect();
    let requests: Vec<(usize, Vec<u8>)> = vec![
        (0, vec![0, 1]),
        (1, vec![0]),
        (2, vec![7, 7]),
        (1, vec![1, 2]),
        (3, vec![8]),
        (0, vec![0]),
        (0, vec![5]),
        (2, vec![0, 1, 5]),
        (3, vec![4, 5, 6, 7]),
        (1, vec![3]),
    ];
    for (voter, indices) in requests {
        let mut ctx = CastVote {
            election_account: election,
            voter_state_account: ballots[voter].clone(),
            voter: id(voter as u8 + 1),
            election_key: id(9),
            unix_timestamp: 1_500,
        };
        let _ = handler(&mut ctx, indices);
        election = ctx.election_account;
        ballots[voter] = ctx.voter_state_account;
        let counted: u64 = election.candidates.iter().map(|c| c.vote_count).sum();
        let recorded: usize = ballots.iter().map(|b| b.voted_for_indices.len()).sum();
        assert_eq!(counted, recorded as u64);
    }
    let final_counts: Vec<u64> = election.candidates.iter().map(|c| c.vote_count).collect();
    assert_eq!(final_counts, vec![3, 3, 1, 0, 0, 2, 0, 0]);
    assert_eq!(ballots[0].voted_for_indices, vec![0, 1, 5]);
    assert_eq!(ballots[1].voted_for_indices, vec![0, 1, 2]);
    assert_eq!(ballots[2].voted_for_indices, vec![0, 1, 5]);
    assert!(ballots[3].voted_for_indices.is_empty());
    assert_eq!(ballots[3].voter_pubkey, Identity::default());
    assert_eq!(ballots[0].voter_pubkey, id(1));
}

#[test]
fn existing_counts_are_kept_and_raised() {
    let mut ctx = request(3, 1_500);
    ctx.election_account.candidates[1].vote_count = 41;
    ctx.election_account.candidates[2].vote_count = u64::MAX - 1;
    assert!(handler(&mut ctx, vec![2, 1]).is_ok());
    assert_eq!(counts(&ctx), vec![0, 42, u64::MAX]);
}

#[test]
fn crate_level_vote_does_the_same() {
    let mut a = request(3, 1_500);
    let mut b = request(3, 1_500);
    assert_eq!(cast_vote(&mut a, vec![1, 0]), handler(&mut b, vec![1, 0]));
    assert_eq!(a, b);
    assert_eq!(cast_vote(&mut a, vec![2]), Err(ElectionError::VotesExhausted));
    assert_eq!(a, b);
}

#[test]
fn counters_below_their_limit_have_room() {
    let mut ctx = request(3, 1_500);
    assert!(has_room(&ctx, &vec![0, 1, 2]));
    assert!(has_room(&ctx, &Vec::new()));
    ctx.election_account.candidates[1].vote_count = u64::MAX - 1;
    assert!(has_room(&ctx, &vec![1]));
}

#[test]
fn a_counter_at_its_limit_has_no_room() {
    let mut ctx = request(3, 1_500);
    ctx.election_account.candidates[1].vote_count = u64::MAX;
    assert!(!has_room(&ctx, &vec![1]));
    assert!(!has_room(&ctx, &vec![0, 1]));
    assert!(!has_room(&ctx, &vec![1, 1]));
    assert!(has_room(&ctx, &vec![0, 2]));
}

#[test]
fn indices_out_of_range_need_no_room() {
    let mut ctx = request(3, 1_500);
    ctx.election_account.candidates[1].vote_count = u64::MAX;
    assert!(has_room(&ctx, &vec![3, 200, 255]));
    assert!(!has_room(&ctx, &vec![3, 1]));
}

#[test]
fn a_full_counter_does_not_matter_to_a_rejected_request() {
    let mut ctx = request(3, START);
    ctx.election_account.candidates[0].vote_count = u64::MAX;
    assert!(!has_room(&ctx, &vec![0]));
    rejected(ctx, vec![0], ElectionError::ElectionNotStarted);
}
