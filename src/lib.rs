//! A single-election voting process: an application phase, a voting phase and
//! a closed phase, with a bounded leaderboard of the candidates that lead in
//! votes.
use vstd::prelude::*;

pub mod election;
pub mod identity;
pub mod leaderboard;
pub mod program;

pub use election::{ElectionData, ElectionError, ElectionStage};
pub use identity::Identity;
pub use program::{
    apply, change_stage, create_election, register, vote, Apply, CandidateData,
    CandidateIdentity, ChangeStage, CreateElection, MyVote, Register, Vote,
};

verus! {

} // verus!
