//! The requests that act on an election, each with the records it reads and
//! writes. A one-time record (an application, a registration, a vote receipt)
//! is a slot that the request fills; a filled slot refuses a second request.
use vstd::prelude::*;

use crate::election::{ElectionData, ElectionError, ElectionModel, ElectionStage, outcome};
use crate::identity::Identity;
use crate::leaderboard::has_room;

verus! {

/// What an applicant receives: a candidate id, bound to the applicant's key.
#[derive(Clone, Copy, Debug, PartialEq, Eq)]
pub struct CandidateIdentity {
    pub id: u64,
    pub pubkey: Identity,
}

/// A registered candidate and its vote count.
#[derive(Clone, Copy, Debug, PartialEq, Eq)]
pub struct CandidateData {
    pub votes: u64,
    pub id: u64,
    pub pubkey: Identity,
}

/// The receipt of one voter's vote: the candidate it went to.
#[derive(Clone, Copy, Debug, PartialEq, Eq)]
pub struct MyVote {
    pub id: u64,
}

/// The records of a request that starts an election.
pub struct CreateElection {
    pub election_data: Option<ElectionData>,
    pub signer: Identity,
}

/// The records of an application: the slot for the applicant's candidate
/// identity in this election.
pub struct Apply {
    pub candidate_identity: Option<CandidateIdentity>,
    pub election_data: ElectionData,
    pub signer: Identity,
}

/// The records of a registration: the slot for the candidate's record.
pub struct Register {
    pub candidate_data: Option<CandidateData>,
    pub candidate_identity: CandidateIdentity,
    pub signer: Identity,
}

/// The records of a phase change.
pub struct ChangeStage {
    pub election_data: ElectionData,
    pub signer: Identity,
}

/// The records of a vote: the slot for the voter's receipt in this election.
pub struct Vote {
    pub my_vote: Option<MyVote>,
    pub candidate_data: CandidateData,
    pub signer: Identity,
    pub election_data: ElectionData,
}

/// Starts an election with `winners` winner places, with the signer as its
/// initiator.
pub fn create_election(ctx: &mut CreateElection, winners: u8) -> (r: Result<(), ElectionError>)
    ensures
        old(ctx).election_data.is_some() ==> r == Err::<(), ElectionError>(
            ElectionError::AccountInUse,
        ) && *final(ctx) == *old(ctx),
        old(ctx).election_data.is_none() && winners == 0 ==> r == Err::<(), ElectionError>(
            ElectionError::WinnerCountNotAllowed,
        ) && *final(ctx) == *old(ctx),
        old(ctx).election_data.is_none() && winners > 0 ==> r == Ok::<(), ElectionError>(())
            && final(ctx).signer == old(ctx).signer && final(ctx).election_data.is_some()
            && final(ctx).election_data.unwrap()@ == ElectionModel::created(old(ctx).signer, winners),
        r.is_ok() ==> final(ctx).election_data.unwrap()@.wf(),
{
    if ctx.election_data.is_some() {
        return Err(ElectionError::AccountInUse);
    }
    if winners == 0 {
        return Err(ElectionError::WinnerCountNotAllowed);
    }
    ctx.election_data = Some(
        ElectionData {
            candidates: 0,
            stage: ElectionStage::Application,
            initiator: ctx.signer,
            winners_num: winners,
            winners_id: Vec::new(),
            winners_votes: Vec::new(),
        },
    );
    proof {
        let m = ctx.election_data.unwrap()@;
        assert(m.board() =~= Seq::<(u64, u64)>::empty());
        assert(m == ElectionModel::created(old(ctx).signer, winners));
    }
    Ok(())
}

/// Applies the signer as a candidate: the election counts one more candidate,
/// and the signer's candidate identity gets the new count as its id.
pub fn apply(ctx: &mut Apply) -> (r: Result<(), ElectionError>)
    requires
        old(ctx).candidate_identity.is_none() && old(ctx).election_data.stage
            == ElectionStage::Application ==> old(ctx).election_data.candidates < u64::MAX,
    ensures
        old(ctx).candidate_identity.is_some() ==> r == Err::<(), ElectionError>(
            ElectionError::AccountInUse,
        ) && *final(ctx) == *old(ctx),
        old(ctx).candidate_identity.is_none() && old(ctx).election_data.stage
            != ElectionStage::Application ==> r == Err::<(), ElectionError>(
            ElectionError::ApplicationIsClosed,
        ) && *final(ctx) == *old(ctx),
        old(ctx).candidate_identity.is_none() && old(ctx).election_data.stage
            == ElectionStage::Application ==> r == Ok::<(), ElectionError>(())
            && final(ctx).signer == old(ctx).signer
            && final(ctx).election_data@ == (ElectionModel {
                candidates: (old(ctx).election_data.candidates + 1) as u64,
                ..old(ctx).election_data@
            })
            && final(ctx).candidate_identity == Some(
            CandidateIdentity {
                id: (old(ctx).election_data.candidates + 1) as u64,
                pubkey: old(ctx).signer,
            },
        ),
        old(ctx).election_data@.wf() ==> final(ctx).election_data@.wf(),
{
    if ctx.candidate_identity.is_some() {
        return Err(ElectionError::AccountInUse);
    }
    if ctx.election_data.stage != ElectionStage::Application {
        return Err(ElectionError::ApplicationIsClosed);
    }
    ctx.election_data.candidates = ctx.election_data.candidates + 1;
    ctx.candidate_identity = Some(
        CandidateIdentity { id: ctx.election_data.candidates, pubkey: ctx.signer },
    );
    Ok(())
}

/// Registers the candidate with no votes, by the key that applied for it.
pub fn register(ctx: &mut Register) -> (r: Result<(), ElectionError>)
    ensures
        old(ctx).candidate_data.is_some() ==> r == Err::<(), ElectionError>(
            ElectionError::AccountInUse,
        ) && *final(ctx) == *old(ctx),
        old(ctx).candidate_data.is_none() && old(ctx).signer != old(
            ctx,
        ).candidate_identity.pubkey ==> r == Err::<(), ElectionError>(
            ElectionError::WrongPublicKey,
        ) && *final(ctx) == *old(ctx),
        old(ctx).candidate_data.is_none() && old(ctx).signer == old(ctx).candidate_identity.pubkey
            ==> r == Ok::<(), ElectionError>(()) && final(ctx).signer == old(ctx).signer
            && final(ctx).candidate_identity == old(ctx).candidate_identity
            && final(ctx).candidate_data == Some(
            CandidateData { votes: 0, id: old(ctx).candidate_identity.id, pubkey: old(ctx).signer },
        ),
{
    if ctx.candidate_data.is_some() {
        return Err(ElectionError::AccountInUse);
    }
    if !ctx.signer.same_as(&ctx.candidate_identity.pubkey) {
        return Err(ElectionError::WrongPublicKey);
    }
    ctx.candidate_data = Some(
        CandidateData { votes: 0, id: ctx.candidate_identity.id, pubkey: ctx.signer },
    );
    Ok(())
}

/// Moves the election to `new_stage`, on the initiator's request. A closed
/// election stays closed, and no election goes back to the application phase.
pub fn change_stage(ctx: &mut ChangeStage, new_stage: ElectionStage) -> (r: Result<
    (),
    ElectionError,
>)
    ensures
        final(ctx).signer == old(ctx).signer,
        outcome(
            old(ctx).election_data@,
            final(ctx).election_data@,
            r,
            old(ctx).election_data@.change_stage_step(old(ctx).signer, new_stage),
        ),
        old(ctx).election_data@.wf() ==> final(ctx).election_data@.wf(),
{
    if !ctx.signer.same_as(&ctx.election_data.initiator) {
        return Err(ElectionError::NotInitiator);
    }
    if ctx.election_data.stage == ElectionStage::Closed {
        return Err(ElectionError::ElectionIsClosed);
    }
    match new_stage {
        ElectionStage::Voting => ctx.election_data.close_application(),
        ElectionStage::Closed => ctx.election_data.close_voting(),
        ElectionStage::Application => Err(ElectionError::PrivilegeNotAllowed),
    }
}

/// Casts the signer's one vote for the candidate: the candidate gains a vote,
/// the receipt names it, and the leaderboard takes the new count.
pub fn vote(ctx: &mut Vote) -> (r: Result<(), ElectionError>)
    requires
        old(ctx).election_data@.wf(),
        old(ctx).my_vote.is_none() && old(ctx).election_data.stage == ElectionStage::Voting ==> {
            &&& old(ctx).candidate_data.votes < u64::MAX
            &&& has_room(old(ctx).election_data@.board(), old(ctx).candidate_data.id)
        },
    ensures
        old(ctx).my_vote.is_some() ==> r == Err::<(), ElectionError>(ElectionError::AccountInUse)
            && *final(ctx) == *old(ctx),
        old(ctx).my_vote.is_none() && old(ctx).election_data.stage != ElectionStage::Voting ==> r
            == Err::<(), ElectionError>(ElectionError::NotAtVotingStage) && *final(ctx) == *old(
            ctx,
        ),
        old(ctx).my_vote.is_none() && old(ctx).election_data.stage == ElectionStage::Voting ==> {
            let c = old(ctx).candidate_data;
            &&& r == Ok::<(), ElectionError>(())
            &&& final(ctx).signer == old(ctx).signer
            &&& final(ctx).candidate_data == (CandidateData { votes: (c.votes + 1) as u64, ..c })
            &&& final(ctx).my_vote == Some(MyVote { id: c.id })
            &&& final(ctx).election_data@ == old(ctx).election_data@.voted(
                c.id,
                (c.votes + 1) as u64,
            )
        },
        final(ctx).election_data@.wf(),
{
    if ctx.my_vote.is_some() {
        return Err(ElectionError::AccountInUse);
    }
    if ctx.election_data.stage != ElectionStage::Voting {
        return Err(ElectionError::NotAtVotingStage);
    }
    ctx.candidate_data.votes = ctx.candidate_data.votes + 1;
    ctx.my_vote = Some(MyVote { id: ctx.candidate_data.id });
    ctx.election_data.record_vote(ctx.candidate_data.id, ctx.candidate_data.votes);
    Ok(())
}

} // verus!
