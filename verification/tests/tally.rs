use single_winner_d21_voting::errors::ElectionError;
use single_winner_d21_voting::events::ElectionFinalized;
use single_winner_d21_voting::instructions::cast_vote::CastVote;
use single_winner_d21_voting::instructions::initialize_election::InitializeElection;
use single_winner_d21_voting::instructions::tally_results::{handler, TallyResults};
use single_winner_d21_voting::state::{Candidate, ElectionAccount, Identity, VoterStateAccount};
use single_winner_d21_voting::{cast_vote, initialize_election, tally_results};

const START: i64 = 1_000;
const END: i64 = 2_000;

fn id(byte: u8) -> Identity {
    Identity { bytes: [byte; 32] }
}

fn election(counts: &[u64]) -> ElectionAccount {
    ElectionAccount {
        authority: id(7),
        start_timestamp: START,
        end_timestamp: END,
        votes_per_voter: if counts.len() >= 7 { 3 } else { 2 },
        is_finalized: false,
        winner_index: None,
        candidates: counts
            .iter()
            .enumerate()
            .map(|(i, n)| Candidate { name: format!("candidate {}", i), vote_count: *n })
            .collect(),
    }
}

fn request(counts: &[u64], now: i64) -> TallyResults {
    TallyResults {
        election_account: election(counts),
        election_key: id(9),
        authority: id(7),
        unix_timestamp: now,
    }
}

fn winner_of(counts: &[u64]) -> Option<u8> {
    let mut ctx = request(counts, END + 1);
    let r = handler(&mut ctx).unwrap();
    assert!(ctx.election_account.is_finalized);
    assert_eq!(r.map(|event| event.winner_index), ctx.election_account.winner_index);
    ctx.election_account.winner_index
}

#[test]
fn a_tie_goes_to_the_lower_index() {
    assert_eq!(winner_of(&[5, 5, 3]), Some(0));
}

#[test]
fn the_highest_count_wins() {
    assert_eq!(winner_of(&[1, 3, 2]), Some(1));
    assert_eq!(winner_of(&[0, 0, 1]), Some(2));
    assert_eq!(winner_of(&[4]), Some(0));
}

#[test]
fn later_equal_or_lower_counts_never_displace_the_leader() {
    assert_eq!(winner_of(&[2, 7, 7, 1, 7]), Some(1));
    assert_eq!(winner_of(&[0, 6, 2, 6, 5, 6]), Some(1));
    assert_eq!(winner_of(&[u64::MAX, u64::MAX]), Some(0));
}

#[test]
fn no_votes_finalize_without_a_winner() {
    let mut ctx = request(&[0, 0, 0], END + 1);
    assert_eq!(handler(&mut ctx), Ok(None));
    assert!(ctx.election_account.is_finalized);
    assert_eq!(ctx.election_account.winner_index, None);
}

#[test]
fn no_candidates_finalize_without_a_winner() {
    let mut ctx = request(&[], END + 1);
    assert_eq!(handler(&mut ctx), Ok(None));
    assert!(ctx.election_account.is_finalized);
    assert_eq!(ctx.election_account.winner_index, None);
}

#[test]
fn the_last_of_two_hundred_fifty_six_candidates_can_win() {
    let mut counts = vec![0u64; 256];
    counts[255] = 1;
    assert_eq!(winner_of(&counts), Some(255));
}

#[test]
fn the_notification_describes_the_winner() {
    let mut ctx = request(&[2, 9, 4], END + 5);
    let r = handler(&mut ctx);
    assert_eq!(
        r,
        Ok(Some(ElectionFinalized {
            election: id(9),
            winner_index: 1,
            winner_name: "candidate 1".to_string(),
            winner_vote_count: 9,
            timestamp: END + 5,
        }))
    );
    assert_eq!(ctx.election_account.winner_index, Some(1));
    assert!(ctx.election_account.is_finalized);
}

#[test]
fn a_tally_changes_nothing_but_the_outcome() {
    let mut ctx = request(&[2, 9, 4], END + 5);
    let before = ctx.clone();
    assert!(handler(&mut ctx).is_ok());
    let mut expected = before;
    expected.election_account.is_finalized = true;
    expected.election_account.winner_index = Some(1);
    assert_eq!(ctx, expected);
}

#[test]
fn a_tally_before_the_end_is_rejected() {
    let mut ctx = request(&[1, 2], END - 1);
    let before = ctx.clone();
    assert_eq!(handler(&mut ctx), Err(ElectionError::TallyNotAllowedYet));
    assert_eq!(ctx, before);
    let mut ctx = request(&[1, 2], START);
    assert_eq!(handler(&mut ctx), Err(ElectionError::TallyNotAllowedYet));
}

#[test]
fn a_tally_exactly_at_the_end_is_rejected() {
    let mut ctx = request(&[1, 2], END);
    let before = ctx.clone();
    assert_eq!(handler(&mut ctx), Err(ElectionError::TallyNotAllowedYet));
    assert_eq!(ctx, before);
}

#[test]
fn a_tally_just_after_the_end_is_accepted() {
    let mut ctx = request(&[1, 2], END + 1);
    assert!(handler(&mut ctx).is_ok());
}

#[test]
fn a_second_tally_is_rejected_and_keeps_the_winner() {
    let mut ctx = request(&[5, 5, 3], END + 1);
    assert!(handler(&mut ctx).is_ok());
    let after_first = ctx.clone();
    ctx.unix_timestamp = END + 2;
    assert_eq!(handler(&mut ctx), Err(ElectionError::ElectionAlreadyFinalized));
    assert_eq!(ctx.election_account, after_first.election_account);
    assert_eq!(ctx.election_account.winner_index, Some(0));
}

#[test]
fn a_second_tally_without_a_winner_is_rejected_too() {
    let mut ctx = request(&[0, 0], END + 1);
    assert_eq!(handler(&mut ctx), Ok(None));
    assert_eq!(handler(&mut ctx), Err(ElectionError::ElectionAlreadyFinalized));
    assert_eq!(ctx.election_account.winner_index, None);
    assert!(ctx.election_account.is_finalized);
}

#[test]
fn a_finalized_election_is_not_tallied_again_after_counts_change() {
    let mut ctx = request(&[5, 5, 3], END + 1);
    assert!(handler(&mut ctx).is_ok());
    ctx.election_account.candidates[2].vote_count = 100;
    assert_eq!(handler(&mut ctx), Err(ElectionError::ElectionAlreadyFinalized));
    assert_eq!(ctx.election_account.winner_index, Some(0));
}

#[test]
fn the_time_is_checked_before_finalization() {
    let mut ctx = request(&[1], END);
    ctx.election_account.is_finalized = true;
    assert_eq!(handler(&mut ctx), Err(ElectionError::TallyNotAllowedYet));
}

#[test]
fn a_stale_winner_is_cleared_when_nobody_has_a_vote() {
    let mut ctx = request(&[0, 0], END + 1);
    ctx.election_account.winner_index = Some(1);
    assert_eq!(handler(&mut ctx), Ok(None));
    assert_eq!(ctx.election_account.winner_index, None);
}

#[test]
fn crate_level_tally_does_the_same() {
    let mut a = request(&[1, 4, 4], END + 1);
    let mut b = request(&[1, 4, 4], END + 1);
    assert_eq!(tally_results(&mut a), handler(&mut b));
    assert_eq!(a, b);
    assert_eq!(a.election_account.winner_index, Some(1));
}

#[test]
fn an_election_from_creation_to_tally() {
    let names: Vec<String> = (0..7).map(|i| format!("candidate {}", i)).collect();
    let mut creation = InitializeElection {
        election_account: ElectionAccount {
            authority: Identity::default(),
            start_timestamp: 0,
            end_timestamp: 0,
            votes_per_voter: 0,
            is_finalized: false,
            winner_index: None,
            candidates: Vec::new(),
        },
        authority: id(7),
    };
    assert_eq!(initialize_election(&mut creation, START, END, names, 7), Ok(()));
    let mut election = creation.election_account;
    assert_eq!(election.votes_per_voter, 3);

    let votes: Vec<Vec<u8>> = vec![vec![3, 4, 5], vec![4, 3], vec![6], vec![4, 3, 0]];
    for (voter, indices) in votes.into_iter().enumerate() {
        let mut ctx = CastVote {
            election_account: election,
            voter_state_account: VoterStateAccount::default(),
            voter: id(voter as u8 + 1),
            election_key: id(9),
            unix_timestamp: START + 1 + voter as i64,
        };
        assert!(cast_vote(&mut ctx, indices).is_ok());
        election = ctx.election_account;
    }
    let counts: Vec<u64> = election.candidates.iter().map(|c| c.vote_count).collect();
    assert_eq!(counts, vec![1, 0, 0, 3, 3, 1, 1]);

    let mut tally = TallyResults {
        election_account: election,
        election_key: id(9),
        authority: id(7),
        unix_timestamp: END + 1,
    };
    let event = tally_results(&mut tally).unwrap().unwrap();
    assert_eq!(event.winner_index, 3);
    assert_eq!(event.winner_name, "candidate 3");
    assert_eq!(event.winner_vote_count, 3);
    assert_eq!(tally.election_account.winner_index, Some(3));

    let mut late = CastVote {
        election_account: tally.election_account.clone(),
        voter_state_account: VoterStateAccount::default(),
        voter: id(40),
        election_key: id(9),
        unix_timestamp: END + 2,
    };
    assert_eq!(cast_vote(&mut late, vec![0]), Err(ElectionError::ElectionAlreadyEnded));
    assert_eq!(late.election_account, tally.election_account);
}
