use election::{
    apply, change_stage, create_election, register, vote, Apply, CandidateData,
    CandidateIdentity, ChangeStage, CreateElection, ElectionData, ElectionError, ElectionStage,
    Identity, MyVote, Register, Vote,
};

fn key(n: u8) -> Identity {
    Identity { bytes: [n; 32] }
}

fn new_election(winners: u8, initiator: Identity) -> ElectionData {
    let mut ctx = CreateElection { election_data: None, signer: initiator };
    assert_eq!(create_election(&mut ctx, winners), Ok(()));
    ctx.election_data.unwrap()
}

fn apply_as(election: ElectionData, signer: Identity) -> (ElectionData, CandidateIdentity) {
    let mut ctx = Apply { candidate_identity: None, election_data: election, signer };
    assert_eq!(apply(&mut ctx), Ok(()));
    (ctx.election_data, ctx.candidate_identity.unwrap())
}

fn register_as(identity: CandidateIdentity, signer: Identity) -> CandidateData {
    let mut ctx = Register { candidate_data: None, candidate_identity: identity, signer };
    assert_eq!(register(&mut ctx), Ok(()));
    ctx.candidate_data.unwrap()
}

fn to_stage(
    election: ElectionData,
    signer: Identity,
    stage: ElectionStage,
) -> (ElectionData, Result<(), ElectionError>) {
    let mut ctx = ChangeStage { election_data: election, signer };
    let r = change_stage(&mut ctx, stage);
    (ctx.election_data, r)
}

fn cast(
    election: ElectionData,
    candidate: CandidateData,
    voter: Identity,
) -> (ElectionData, CandidateData, Result<(), ElectionError>) {
    let mut ctx = Vote { my_vote: None, candidate_data: candidate, signer: voter, election_data: election };
    let r = vote(&mut ctx);
    (ctx.election_data, ctx.candidate_data, r)
}

/// An election in the voting phase with `n` registered candidates.
fn voting_election(winners: u8, n: u8) -> (ElectionData, Vec<CandidateData>) {
    let mut election = new_election(winners, key(0));
    let mut candidates = Vec::new();
    for i in 1..=n {
        let (e, identity) = apply_as(election, key(i));
        election = e;
        candidates.push(register_as(identity, key(i)));
    }
    let (election, r) = to_stage(election, key(0), ElectionStage::Voting);
    assert_eq!(r, Ok(()));
    assert_eq!(election.stage, ElectionStage::Voting);
    (election, candidates)
}

/// Casts `times` votes for candidate `c`, each from a new voter.
fn cast_many(
    mut election: ElectionData,
    candidates: &mut Vec<CandidateData>,
    c: usize,
    times: u64,
) -> ElectionData {
    for _ in 0..times {
        let (e, cand, r) = cast(election, candidates[c], key(200));
        assert_eq!(r, Ok(()));
        election = e;
        candidates[c] = cand;
    }
    election
}

fn board(election: &ElectionData) -> Vec<(u64, u64)> {
    election.winners_id.iter().cloned().zip(election.winners_votes.iter().cloned()).collect()
}

fn assert_board_ok(election: &ElectionData) {
    assert!(election.winners_id.len() <= election.winners_num as usize);
    assert_eq!(election.winners_id.len(), election.winners_votes.len());
    for i in 1..election.winners_votes.len() {
        assert!(election.winners_votes[i - 1] >= election.winners_votes[i]);
    }
}

#[test]
fn create_sets_initial_state() {
    let e = new_election(3, key(7));
    assert_eq!(e.candidates, 0);
    assert_eq!(e.stage, ElectionStage::Application);
    assert_eq!(e.initiator, key(7));
    assert_eq!(e.winners_num, 3);
    assert!(e.winners_id.is_empty());
    assert!(e.winners_votes.is_empty());
}

#[test]
fn create_rejects_zero_winners() {
    let mut ctx = CreateElection { election_data: None, signer: key(1) };
    assert_eq!(create_election(&mut ctx, 0), Err(ElectionError::WinnerCountNotAllowed));
    assert!(ctx.election_data.is_none());
}

#[test]
fn create_refuses_existing_election() {
    let mut ctx = CreateElection { election_data: Some(new_election(2, key(1))), signer: key(2) };
    assert_eq!(create_election(&mut ctx, 4), Err(ElectionError::AccountInUse));
    let e = ctx.election_data.unwrap();
    assert_eq!(e.winners_num, 2);
    assert_eq!(e.initiator, key(1));
}

#[test]
fn apply_assigns_sequential_ids() {
    let e = new_election(2, key(0));
    let (e, a) = apply_as(e, key(1));
    let (e, b) = apply_as(e, key(2));
    let (e, c) = apply_as(e, key(3));
    assert_eq!((a.id, b.id, c.id), (1, 2, 3));
    assert_eq!(a.pubkey, key(1));
    assert_eq!(c.pubkey, key(3));
    assert_eq!(e.candidates, 3);
}

#[test]
fn apply_refused_during_voting() {
    let (election, _) = voting_election(1, 2);
    let mut ctx = Apply { candidate_identity: None, election_data: election, signer: key(9) };
    assert_eq!(apply(&mut ctx), Err(ElectionError::ApplicationIsClosed));
    assert_eq!(ctx.election_data.candidates, 2);
    assert!(ctx.candidate_identity.is_none());
}

#[test]
fn apply_refused_twice_for_same_applicant() {
    let e = new_election(2, key(0));
    let (e, first) = apply_as(e, key(1));
    let mut ctx = Apply { candidate_identity: Some(first), election_data: e, signer: key(1) };
    assert_eq!(apply(&mut ctx), Err(ElectionError::AccountInUse));
    assert_eq!(ctx.election_data.candidates, 1);
    assert_eq!(ctx.candidate_identity, Some(first));
}

#[test]
fn register_starts_with_no_votes() {
    let e = new_election(2, key(0));
    let (_, identity) = apply_as(e, key(4));
    let c = register_as(identity, key(4));
    assert_eq!(c, CandidateData { votes: 0, id: 1, pubkey: key(4) });
}

#[test]
fn register_twice_fails_and_keeps_first_record() {
    let e = new_election(2, key(0));
    let (_, identity) = apply_as(e, key(4));
    let mut ctx = Register { candidate_data: None, candidate_identity: identity, signer: key(4) };
    assert_eq!(register(&mut ctx), Ok(()));
    let first = ctx.candidate_data;
    assert_eq!(register(&mut ctx), Err(ElectionError::AccountInUse));
    assert_eq!(ctx.candidate_data, first);
    assert_eq!(first, Some(CandidateData { votes: 0, id: 1, pubkey: key(4) }));
}

#[test]
fn register_by_other_key_fails() {
    let e = new_election(2, key(0));
    let (_, identity) = apply_as(e, key(4));
    let mut ctx = Register { candidate_data: None, candidate_identity: identity, signer: key(5) };
    assert_eq!(register(&mut ctx), Err(ElectionError::WrongPublicKey));
    assert!(ctx.candidate_data.is_none());
}

#[test]
fn register_allowed_after_close() {
    let e = new_election(2, key(0));
    let (e, identity) = apply_as(e, key(4));
    let (e, r) = to_stage(e, key(0), ElectionStage::Voting);
    assert_eq!(r, Ok(()));
    assert_eq!(e.stage, ElectionStage::Closed);
    let c = register_as(identity, key(4));
    assert_eq!(c.id, 1);
}

#[test]
fn early_close_with_few_candidates() {
    let mut e = new_election(5, key(0));
    for i in 1..=3 {
        e = apply_as(e, key(i)).0;
    }
    let (e, r) = to_stage(e, key(0), ElectionStage::Voting);
    assert_eq!(r, Ok(()));
    assert_eq!(e.stage, ElectionStage::Closed);
    assert_eq!(e.winners_id, vec![1, 2, 3]);
    assert!(e.winners_votes.is_empty());
}

#[test]
fn voting_opens_with_many_candidates() {
    let mut e = new_election(5, key(0));
    for i in 1..=7 {
        e = apply_as(e, key(i)).0;
    }
    let (e, r) = to_stage(e, key(0), ElectionStage::Voting);
    assert_eq!(r, Ok(()));
    assert_eq!(e.stage, ElectionStage::Voting);
    assert!(e.winners_id.is_empty());
    assert!(e.winners_votes.is_empty());
}

#[test]
fn early_close_with_no_candidates() {
    let mut e = new_election(2, key(0));
    assert_eq!(e.close_application(), Ok(()));
    assert_eq!(e.stage, ElectionStage::Closed);
    assert!(e.winners_id.is_empty());
}

#[test]
fn candidates_equal_to_capacity_close_early() {
    let mut e = new_election(2, key(0));
    for i in 1..=2 {
        e = apply_as(e, key(i)).0;
    }
    assert_eq!(e.close_application(), Ok(()));
    assert_eq!(e.stage, ElectionStage::Closed);
    assert_eq!(e.winners_id, vec![1, 2]);
}

#[test]
fn change_stage_by_non_initiator_fails() {
    let e = new_election(2, key(0));
    let (e, r) = to_stage(e, key(1), ElectionStage::Voting);
    assert_eq!(r, Err(ElectionError::NotInitiator));
    assert_eq!(e.stage, ElectionStage::Application);
}

#[test]
fn change_stage_on_closed_election_fails() {
    let (e, _) = voting_election(1, 2);
    let (e, r) = to_stage(e, key(0), ElectionStage::Closed);
    assert_eq!(r, Ok(()));
    assert_eq!(e.stage, ElectionStage::Closed);
    let (e, r) = to_stage(e, key(0), ElectionStage::Voting);
    assert_eq!(r, Err(ElectionError::ElectionIsClosed));
    assert_eq!(e.stage, ElectionStage::Closed);
}

#[test]
fn change_stage_back_to_application_fails() {
    let e = new_election(2, key(0));
    let (e, r) = to_stage(e, key(0), ElectionStage::Application);
    assert_eq!(r, Err(ElectionError::PrivilegeNotAllowed));
    assert_eq!(e.stage, ElectionStage::Application);
    let (e, _) = voting_election(1, 2);
    let (e, r) = to_stage(e, key(0), ElectionStage::Application);
    assert_eq!(r, Err(ElectionError::PrivilegeNotAllowed));
    assert_eq!(e.stage, ElectionStage::Voting);
}

#[test]
fn closing_from_application_fails() {
    let e = new_election(2, key(0));
    let (e, r) = to_stage(e, key(0), ElectionStage::Closed);
    assert_eq!(r, Err(ElectionError::NotAtVotingStage));
    assert_eq!(e.stage, ElectionStage::Application);
}

#[test]
fn opening_voting_twice_fails() {
    let (mut e, _) = voting_election(1, 2);
    assert_eq!(e.close_application(), Err(ElectionError::ApplicationIsClosed));
    assert_eq!(e.stage, ElectionStage::Voting);
}

#[test]
fn close_voting_outside_voting_fails() {
    let mut e = new_election(2, key(0));
    assert_eq!(e.close_voting(), Err(ElectionError::NotAtVotingStage));
    assert_eq!(e.stage, ElectionStage::Application);
}

#[test]
fn vote_outside_voting_fails() {
    let e = new_election(2, key(0));
    let (e, identity) = apply_as(e, key(1));
    let c = register_as(identity, key(1));
    let (e, c, r) = cast(e, c, key(9));
    assert_eq!(r, Err(ElectionError::NotAtVotingStage));
    assert_eq!(c.votes, 0);
    assert!(e.winners_id.is_empty());
}

#[test]
fn second_vote_by_same_voter_fails() {
    let (e, cands) = voting_election(1, 2);
    let mut ctx = Vote {
        my_vote: Some(MyVote { id: 2 }),
        candidate_data: cands[0],
        signer: key(9),
        election_data: e,
    };
    assert_eq!(vote(&mut ctx), Err(ElectionError::AccountInUse));
    assert_eq!(ctx.candidate_data.votes, 0);
    assert_eq!(ctx.my_vote, Some(MyVote { id: 2 }));
    assert!(ctx.election_data.winners_id.is_empty());
}

#[test]
fn vote_counts_and_writes_receipt() {
    let (e, cands) = voting_election(1, 2);
    let mut ctx = Vote { my_vote: None, candidate_data: cands[1], signer: key(9), election_data: e };
    assert_eq!(vote(&mut ctx), Ok(()));
    assert_eq!(ctx.candidate_data.votes, 1);
    assert_eq!(ctx.my_vote, Some(MyVote { id: 2 }));
    assert_eq!(board(&ctx.election_data), vec![(2, 1)]);
}

#[test]
fn scenario_capacity_two_third_candidate_never_enters() {
    let (e, mut cands) = voting_election(2, 3);
    // candidates[0] is A, [1] is B, [2] is C
    let e = cast_many(e, &mut cands, 1, 5);
    let e = cast_many(e, &mut cands, 2, 4);
    assert_eq!(board(&e), vec![(2, 5), (3, 4)]);
    let mut e = e;
    for _ in 0..3 {
        e = cast_many(e, &mut cands, 0, 1);
        assert!(!e.winners_id.contains(&1));
    }
    assert_eq!(cands[0].votes, 3);
    assert_eq!(board(&e), vec![(2, 5), (3, 4)]);
}

#[test]
fn scenario_capacity_one_tie_does_not_evict() {
    let (e, mut cands) = voting_election(1, 2);
    let e = cast_many(e, &mut cands, 0, 2);
    assert_eq!(board(&e), vec![(1, 2)]);
    let e = cast_many(e, &mut cands, 1, 2);
    assert_eq!(board(&e), vec![(1, 2)]);
    let e = cast_many(e, &mut cands, 1, 1);
    assert_eq!(board(&e), vec![(2, 3)]);
}

#[test]
fn full_board_admits_only_above_minimum() {
    let (e, mut cands) = voting_election(2, 3);
    let e = cast_many(e, &mut cands, 0, 2);
    let e = cast_many(e, &mut cands, 1, 3);
    assert_eq!(board(&e), vec![(2, 3), (1, 2)]);
    let e = cast_many(e, &mut cands, 2, 2);
    assert_eq!(board(&e), vec![(2, 3), (1, 2)]);
    let e = cast_many(e, &mut cands, 2, 1);
    assert_eq!(board(&e), vec![(2, 3), (3, 3)]);
}

#[test]
fn ties_keep_arrival_order() {
    let (e, mut cands) = voting_election(3, 4);
    let e = cast_many(e, &mut cands, 0, 1);
    let e = cast_many(e, &mut cands, 1, 1);
    let e = cast_many(e, &mut cands, 2, 1);
    assert_eq!(board(&e), vec![(1, 1), (2, 1), (3, 1)]);
    let e = cast_many(e, &mut cands, 2, 1);
    assert_eq!(board(&e), vec![(3, 2), (1, 1), (2, 1)]);
    let e = cast_many(e, &mut cands, 1, 1);
    assert_eq!(board(&e), vec![(3, 2), (2, 2), (1, 1)]);
}

#[test]
fn board_stays_bounded_and_ranked() {
    let (mut e, mut cands) = voting_election(3, 6);
    let pattern = [0usize, 5, 3, 3, 1, 5, 5, 2, 4, 4, 4, 0, 0, 0, 1, 2, 3, 3, 3, 5];
    for &c in pattern.iter() {
        e = cast_many(e, &mut cands, c, 1);
        assert_board_ok(&e);
    }
    assert_eq!(board(&e), vec![(4, 5), (1, 4), (6, 4)]);
}

#[test]
fn record_vote_increments_stored_count() {
    let (mut e, _) = voting_election(2, 3);
    e.record_vote(3, 7);
    assert_eq!(board(&e), vec![(3, 7)]);
    e.record_vote(3, 50);
    assert_eq!(board(&e), vec![(3, 8)]);
    e.record_vote(1, 2);
    assert_eq!(board(&e), vec![(3, 8), (1, 2)]);
    e.record_vote(1, 40);
    assert_eq!(board(&e), vec![(3, 8), (1, 3)]);
}

#[test]
fn identity_comparison() {
    let a = key(3);
    let mut b = key(3);
    assert!(a.same_as(&b));
    b.bytes[31] = 4;
    assert!(!a.same_as(&b));
}

fn raw_election(stage: ElectionStage, ids: Vec<u64>, votes: Vec<u64>) -> ElectionData {
    ElectionData {
        candidates: 4,
        stage,
        initiator: key(0),
        winners_num: 3,
        winners_id: ids,
        winners_votes: votes,
    }
}

#[test]
fn well_formed_accepts_reachable_states() {
    assert!(new_election(2, key(0)).well_formed());
    let (e, mut cands) = voting_election(2, 3);
    let e = cast_many(e, &mut cands, 2, 2);
    assert!(e.well_formed());
    assert!(raw_election(ElectionStage::Closed, vec![1, 2, 3], vec![]).well_formed());
    assert!(raw_election(ElectionStage::Voting, vec![4, 2, 1], vec![5, 5, 1]).well_formed());
}

#[test]
fn well_formed_rejects_broken_states() {
    let mut e = raw_election(ElectionStage::Voting, vec![], vec![]);
    e.winners_num = 0;
    assert!(!e.well_formed());
    assert!(!raw_election(ElectionStage::Voting, vec![1, 2, 3, 4], vec![4, 3, 2, 1]).well_formed());
    assert!(!raw_election(ElectionStage::Application, vec![1], vec![1]).well_formed());
    assert!(!raw_election(ElectionStage::Voting, vec![1, 2], vec![1, 2]).well_formed());
    assert!(!raw_election(ElectionStage::Voting, vec![1, 1], vec![2, 2]).well_formed());
    assert!(!raw_election(ElectionStage::Voting, vec![1, 2], vec![]).well_formed());
    assert!(!raw_election(ElectionStage::Closed, vec![1, 3], vec![]).well_formed());
    assert!(!raw_election(ElectionStage::Closed, vec![1, 2], vec![5]).well_formed());
}

#[test]
fn room_for_one_more_vote() {
    let e = raw_election(ElectionStage::Voting, vec![4, 2], vec![u64::MAX, 7]);
    assert!(!e.has_room_for(4));
    assert!(e.has_room_for(2));
    assert!(e.has_room_for(9));
}
