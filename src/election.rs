//! The election record, its model, and the transitions and vote recording
//! that change it.
use vstd::prelude::*;

use crate::identity::Identity;
use crate::leaderboard::{
    board_ok, has_room, lemma_settle_point, lemma_settle_point_stop, lemma_settle_point_take,
    lemma_vote_keeps_board, ranked, recorded, settle, settle_point, unique_ids, Entry,
};

verus! {

/// The phase of an election. It only moves forward: from `Application` to
/// `Voting` or straight to `Closed`, and from `Voting` to `Closed`.
#[derive(Clone, Copy, Debug, PartialEq, Eq, Structural)]
pub enum ElectionStage {
    Application,
    Voting,
    Closed,
}

/// Why a request was refused. A refused request changes nothing.
#[derive(Clone, Copy, Debug, PartialEq, Eq, Structural)]
pub enum ElectionError {
    /// An election asked for with no winner places.
    WinnerCountNotAllowed,
    /// An application-phase request outside the application phase.
    ApplicationIsClosed,
    /// A registration by someone else than the applicant.
    WrongPublicKey,
    /// A request to move an election back to the application phase.
    PrivilegeNotAllowed,
    /// A phase change on a closed election.
    ElectionIsClosed,
    /// A voting-phase request outside the voting phase.
    NotAtVotingStage,
    /// A phase change asked for by someone else than the initiator.
    NotInitiator,
    /// A one-time record (an application, a registration, a vote receipt)
    /// that already exists.
    AccountInUse,
}

/// One election: its phase, how many candidates applied, who started it, how
/// many winner places it has, and its leaderboard as two parallel lists of
/// candidate ids and vote counts.
///
/// An election closed early, at the end of the application phase, lists its
/// winner ids with no vote counts.
pub struct ElectionData {
    pub candidates: u64,
    pub stage: ElectionStage,
    pub initiator: Identity,
    pub winners_num: u8,
    pub winners_id: Vec<u64>,
    pub winners_votes: Vec<u64>,
}

/// The fields of an `ElectionData`, with its lists as sequences.
pub struct ElectionModel {
    pub candidates: u64,
    pub stage: ElectionStage,
    pub initiator: Identity,
    pub winners_num: u8,
    pub winners_id: Seq<u64>,
    pub winners_votes: Seq<u64>,
}

impl View for ElectionData {
    type V = ElectionModel;

    open spec fn view(&self) -> ElectionModel {
        ElectionModel {
            candidates: self.candidates,
            stage: self.stage,
            initiator: self.initiator,
            winners_num: self.winners_num,
            winners_id: self.winners_id@,
            winners_votes: self.winners_votes@,
        }
    }
}

/// The ids 1 to `n`, in order.
pub open spec fn ids_upto(n: u64) -> Seq<u64> {
    Seq::new(n as nat, |i: int| (i + 1) as u64)
}

impl ElectionModel {
    /// The leaderboard as (candidate id, votes) pairs, as far as both lists reach.
    pub open spec fn board(self) -> Seq<Entry> {
        Seq::new(
            if self.winners_id.len() <= self.winners_votes.len() {
                self.winners_id.len()
            } else {
                self.winners_votes.len()
            },
            |i: int| (self.winners_id[i], self.winners_votes[i]),
        )
    }

    /// This election with its leaderboard replaced by `b`.
    pub open spec fn with_board(self, b: Seq<Entry>) -> ElectionModel {
        ElectionModel {
            winners_id: b.map_values(|e: Entry| e.0),
            winners_votes: b.map_values(|e: Entry| e.1),
            ..self
        }
    }

    /// The invariant of an election. It has at least one winner place and no
    /// more winners than places. Before voting it has no winners. Its
    /// leaderboard is ranked by votes and free of repeated candidates, unless
    /// it closed early: then it lists the ids 1 to n without vote counts.
    pub open spec fn wf(self) -> bool {
        &&& self.winners_num > 0
        &&& self.winners_id.len() <= self.winners_num
        &&& (self.stage == ElectionStage::Application ==> self.winners_id.len() == 0
            && self.winners_votes.len() == 0)
        &&& if self.winners_votes.len() == self.winners_id.len() {
            board_ok(self.board(), self.winners_num as nat)
        } else {
            &&& self.stage == ElectionStage::Closed
            &&& self.winners_votes.len() == 0
            &&& self.winners_id == ids_upto(self.winners_id.len() as u64)
        }
    }

    /// The election that `signer` starts with `winners` winner places.
    pub open spec fn created(signer: Identity, winners: u8) -> ElectionModel {
        ElectionModel {
            candidates: 0,
            stage: ElectionStage::Application,
            initiator: signer,
            winners_num: winners,
            winners_id: Seq::empty(),
            winners_votes: Seq::empty(),
        }
    }

    /// Ending the application phase: with no more candidates than winner
    /// places, every candidate wins and the election closes; otherwise voting
    /// opens.
    pub open spec fn close_application_step(self) -> Result<ElectionModel, ElectionError> {
        if self.stage != ElectionStage::Application {
            Err(ElectionError::ApplicationIsClosed)
        } else if self.candidates <= self.winners_num {
            Ok(
                ElectionModel {
                    stage: ElectionStage::Closed,
                    winners_id: self.winners_id + ids_upto(self.candidates),
                    ..self
                },
            )
        } else {
            Ok(ElectionModel { stage: ElectionStage::Voting, ..self })
        }
    }

    /// Ending the voting phase.
    pub open spec fn close_voting_step(self) -> Result<ElectionModel, ElectionError> {
        if self.stage != ElectionStage::Voting {
            Err(ElectionError::NotAtVotingStage)
        } else {
            Ok(ElectionModel { stage: ElectionStage::Closed, ..self })
        }
    }

    /// A phase change that `signer` asks for.
    pub open spec fn change_stage_step(self, signer: Identity, new_stage: ElectionStage) -> Result<
        ElectionModel,
        ElectionError,
    > {
        if signer != self.initiator {
            Err(ElectionError::NotInitiator)
        } else if self.stage == ElectionStage::Closed {
            Err(ElectionError::ElectionIsClosed)
        } else {
            match new_stage {
                ElectionStage::Voting => self.close_application_step(),
                ElectionStage::Closed => self.close_voting_step(),
                ElectionStage::Application => Err(ElectionError::PrivilegeNotAllowed),
            }
        }
    }

    /// The election after candidate `id` reached `votes` votes.
    pub open spec fn voted(self, id: u64, votes: u64) -> ElectionModel {
        self.with_board(recorded(self.board(), self.winners_num as nat, id, votes))
    }
}

/// The election after a run of votes, each one bringing a candidate (the
/// first of the pair) to a vote count (the second).
pub open spec fn voted_all(m: ElectionModel, ballots: Seq<(u64, u64)>) -> ElectionModel
    decreases ballots.len(),
{
    if ballots.len() == 0 {
        m
    } else {
        voted_all(m, ballots.drop_last()).voted(ballots.last().0, ballots.last().1)
    }
}

/// Any run of votes on an election in its voting phase keeps the election's
/// invariant: the leaderboard never holds more places than the election has,
/// stays ranked by votes, and lists no candidate twice. Each vote needs room
/// for one more vote on the voted candidate's place.
pub proof fn lemma_votes_keep_invariant(m: ElectionModel, ballots: Seq<(u64, u64)>)
    requires
        m.wf(),
        m.stage == ElectionStage::Voting,
        forall|i: int|
            0 <= i < ballots.len() ==> has_room(
                #[trigger] voted_all(m, ballots.take(i)).board(),
                ballots[i].0,
            ),
    ensures
        voted_all(m, ballots).wf(),
        voted_all(m, ballots).stage == ElectionStage::Voting,
        voted_all(m, ballots).winners_num == m.winners_num,
        voted_all(m, ballots).winners_id.len() <= m.winners_num,
        ranked(voted_all(m, ballots).board()),
    decreases ballots.len(),
{
    if ballots.len() > 0 {
        let rest = ballots.drop_last();
        assert forall|i: int| 0 <= i < rest.len() implies has_room(
            #[trigger] voted_all(m, rest.take(i)).board(),
            rest[i].0,
        ) by {
            assert(rest.take(i) == ballots.take(i));
            assert(has_room(voted_all(m, ballots.take(i)).board(), ballots[i].0));
        }
        lemma_votes_keep_invariant(m, rest);
        let before = voted_all(m, rest);
        let (id, votes) = ballots.last();
        assert(ballots.take(rest.len() as int) == rest);
        assert(has_room(voted_all(m, ballots.take(rest.len() as int)).board(), ballots[rest.len() as int].0));
        lemma_vote_keeps_board(before.board(), before.winners_num as nat, id, votes);
        let r = recorded(before.board(), before.winners_num as nat, id, votes);
        let after = before.voted(id, votes);
        assert(after.board() =~= r);
    }
}

/// A request's effect on an election: on success the election becomes what
/// `step` gives, on failure it stays as it was and the error is that of `step`.
pub open spec fn outcome(
    before: ElectionModel,
    after: ElectionModel,
    r: Result<(), ElectionError>,
    step: Result<ElectionModel, ElectionError>,
) -> bool {
    match step {
        Ok(m) => r == Ok::<(), ElectionError>(()) && after == m,
        Err(e) => r == Err::<(), ElectionError>(e) && after == before,
    }
}

/// The first place of `id` in `ids`, if any.
fn position_of(ids: &Vec<u64>, id: u64) -> (r: Option<usize>)
    ensures
        match r {
            Some(k) => k < ids.len() && ids[k as int] == id,
            None => forall|i: int| 0 <= i < ids.len() ==> ids[i] != id,
        },
{
    let mut i: usize = 0;
    while i < ids.len()
        invariant
            i <= ids.len(),
            forall|m: int| 0 <= m < i ==> ids[m] != id,
        decreases ids.len() - i,
    {
        if ids[i] == id {
            return Some(i);
        }
        i = i + 1;
    }
    None
}

impl ElectionData {
    /// Whether this election satisfies its invariant.
    pub fn well_formed(&self) -> (r: bool)
        ensures
            r == self@.wf(),
    {
        let n = self.winners_id.len();
        if self.winners_num == 0 || n > self.winners_num as usize {
            return false;
        }
        if self.stage == ElectionStage::Application && (n != 0 || self.winners_votes.len() != 0) {
            return false;
        }
        if self.winners_votes.len() == n {
            let ghost b = self@.board();
            let mut i: usize = 0;
            while i < n
                invariant
                    n == self.winners_id.len() == self.winners_votes.len() == b.len(),
                    b == self@.board(),
                    i <= n,
                    forall|a: int, c: int| 0 <= a < c < i ==> b[a].1 >= b[c].1,
                    forall|a: int, c: int| 0 <= a < i && 0 <= c < i && a != c ==> b[a].0 != b[c].0,
                decreases n - i,
            {
                let mut j: usize = 0;
                while j < i
                    invariant
                        n == self.winners_id.len() == self.winners_votes.len() == b.len(),
                        b == self@.board(),
                        j <= i < n,
                        forall|a: int, c: int| 0 <= a < c < i ==> b[a].1 >= b[c].1,
                        forall|a: int, c: int|
                            0 <= a < i && 0 <= c < i && a != c ==> b[a].0 != b[c].0,
                        forall|a: int| 0 <= a < j ==> b[a].1 >= b[i as int].1 && b[a].0 != b[i as int].0,
                    decreases i - j,
                {
                    if self.winners_votes[j] < self.winners_votes[i] {
                        assert(!ranked(b)) by {
                            assert(b[j as int].1 < b[i as int].1);
                        }
                        return false;
                    }
                    if self.winners_id[j] == self.winners_id[i] {
                        assert(!unique_ids(b)) by {
                            assert(b[j as int].0 == b[i as int].0);
                        }
                        return false;
                    }
                    j = j + 1;
                }
                i = i + 1;
            }
            true
        } else {
            if self.stage != ElectionStage::Closed || self.winners_votes.len() != 0 {
                return false;
            }
            let mut i: usize = 0;
            while i < n
                invariant
                    n == self.winners_id.len() <= u8::MAX,
                    self.winners_num > 0,
                    self.stage == ElectionStage::Closed,
                    self.winners_votes.len() == 0,
                    n != 0,
                    i <= n,
                    forall|a: int| 0 <= a < i ==> self.winners_id[a] == a + 1,
                decreases n - i,
            {
                if self.winners_id[i] != (i + 1) as u64 {
                    assert(self@.winners_id != ids_upto(self@.winners_id.len() as u64)) by {
                        assert(ids_upto(n as u64)[i as int] == (i + 1) as u64);
                        assert(self@.winners_id[i as int] != (i + 1) as u64);
                    }
                    return false;
                }
                i = i + 1;
            }
            assert(self.winners_id@ =~= ids_upto(n as u64));
            true
        }
    }

    /// Whether every place of candidate `id` on the leaderboard can take one
    /// more vote.
    pub fn has_room_for(&self, id: u64) -> (r: bool)
        ensures
            r == has_room(self@.board(), id),
    {
        let ghost b = self@.board();
        let mut i: usize = 0;
        while i < self.winners_id.len() && i < self.winners_votes.len()
            invariant
                b == self@.board(),
                i <= b.len(),
                forall|k: int| 0 <= k < i && b[k].0 == id ==> b[k].1 < u64::MAX,
            decreases self.winners_id.len() - i,
        {
            if self.winners_id[i] == id && self.winners_votes[i] == u64::MAX {
                assert(b[i as int].0 == id);
                return false;
            }
            i = i + 1;
        }
        true
    }

    /// Ends the application phase. With no more candidates than winner places
    /// every candidate id is declared a winner, with no vote counts, and the
    /// election closes; otherwise voting opens.
    pub fn close_application(&mut self) -> (r: Result<(), ElectionError>)
        ensures
            outcome(old(self)@, final(self)@, r, old(self)@.close_application_step()),
            old(self)@.wf() ==> final(self)@.wf(),
    {
        if self.stage != ElectionStage::Application {
            return Err(ElectionError::ApplicationIsClosed);
        }
        if self.candidates <= self.winners_num as u64 {
            let ghost ids0 = self.winners_id@;
            let mut i: u64 = 1;
            while i <= self.candidates
                invariant
                    1 <= i <= self.candidates + 1,
                    self.candidates <= u8::MAX,
                    self.winners_id@ == ids0 + ids_upto((i - 1) as u64),
                    self.candidates == old(self).candidates,
                    self.stage == old(self).stage,
                    self.initiator == old(self).initiator,
                    self.winners_num == old(self).winners_num,
                    self.winners_votes@ == old(self).winners_votes@,
                    ids0 == old(self).winners_id@,
                decreases self.candidates + 1 - i,
            {
                self.winners_id.push(i);
                assert(ids_upto(i) =~= ids_upto((i - 1) as u64).push(i));
                i = i + 1;
            }
            self.stage = ElectionStage::Closed;
        } else {
            self.stage = ElectionStage::Voting;
        }
        proof {
            if old(self)@.wf() && self.winners_votes.len() == self.winners_id.len() {
                assert(self@.board() =~= Seq::<Entry>::empty());
            }
            if old(self)@.wf() {
                assert(self.winners_id@ =~= ids_upto(self.winners_id.len() as u64));
            }
        }
        Ok(())
    }

    /// Ends the voting phase.
    pub fn close_voting(&mut self) -> (r: Result<(), ElectionError>)
        ensures
            outcome(old(self)@, final(self)@, r, old(self)@.close_voting_step()),
            old(self)@.wf() ==> final(self)@.wf(),
    {
        if self.stage != ElectionStage::Voting {
            return Err(ElectionError::NotAtVotingStage);
        }
        self.stage = ElectionStage::Closed;
        Ok(())
    }

    /// Records that candidate `id` now holds `votes` votes. A candidate
    /// already on the leaderboard gains one vote on its own place; another
    /// joins while there is room, or on a full board replaces the last place
    /// when it has strictly more votes. The changed place then moves up past
    /// every place with strictly fewer votes.
    pub fn record_vote(&mut self, id: u64, votes: u64)
        requires
            old(self).winners_id.len() == old(self).winners_votes.len(),
            board_ok(old(self)@.board(), old(self).winners_num as nat),
            has_room(old(self)@.board(), id),
        ensures
            final(self)@ == old(self)@.voted(id, votes),
            final(self).winners_id.len() == final(self).winners_votes.len(),
            board_ok(final(self)@.board(), final(self).winners_num as nat),
    {
        let ghost s = self@.board();
        let ghost n = s.len();
        let ghost cap = self.winners_num as nat;
        let ghost e: Entry;
        let ghost rest: Seq<Entry>;
        let k: usize;
        match position_of(&self.winners_id, id) {
            Some(index) => {
                assert(s[index as int].0 == id);
                let v = self.winners_votes[index] + 1;
                self.winners_votes.set(index, v);
                k = index;
                proof {
                    e = (id, v);
                    rest = s.skip(k + 1);
                }
            },
            None => {
                assert(!crate::leaderboard::has_id(s, id)) by {
                    if crate::leaderboard::has_id(s, id) {
                        let m = choose|m: int| 0 <= m < s.len() && s[m].0 == id;
                        assert(self.winners_id[m] == id);
                    }
                }
                if self.winners_id.len() < self.winners_num as usize {
                    k = self.winners_id.len();
                    self.winners_id.push(id);
                    self.winners_votes.push(votes);
                } else {
                    let current_last_winner = (self.winners_num - 1) as usize;
                    if votes > self.winners_votes[current_last_winner] {
                        self.winners_id.set(current_last_winner, id);
                        self.winners_votes.set(current_last_winner, votes);
                        k = current_last_winner;
                    } else {
                        assert(self@ == old(self)@.voted(id, votes)) by {
                            assert(s.last() == s[n - 1]);
                            assert(self@.board().map_values(|e: Entry| e.0) =~= self.winners_id@);
                            assert(self@.board().map_values(|e: Entry| e.1) =~= self.winners_votes@);
                        }
                        return;
                    }
                }
                proof {
                    e = (id, votes);
                    rest = Seq::empty();
                }
            },
        }
        let ghost p = s.take(k as int);
        assert(self@.board().len() == p.len() + 1 + rest.len());
        let mut j: usize = k;
        while j > 0 && self.winners_votes[j] > self.winners_votes[j - 1]
            invariant
                k == p.len(),
                j <= k,
                self.winners_id.len() == self.winners_votes.len(),
                self.winners_id.len() == p.len() + 1 + rest.len(),
                forall|i: int| 0 <= i < j ==> #[trigger] self@.board()[i] == p[i],
                self@.board()[j as int] == e,
                forall|i: int| j < i <= k ==> #[trigger] self@.board()[i] == p[i - 1],
                forall|i: int|
                    k < i < self.winners_id.len() ==> #[trigger] self@.board()[i] == rest[i - k - 1],
                forall|i: int| j <= i < k ==> #[trigger] p[i].1 < e.1,
                self.candidates == old(self).candidates,
                self.stage == old(self).stage,
                self.initiator == old(self).initiator,
                self.winners_num == old(self).winners_num,
            decreases j,
        {
            let ghost b0 = self@.board();
            let vote_holder = self.winners_votes[j - 1];
            let id_holder = self.winners_id[j - 1];
            let moving_votes = self.winners_votes[j];
            let moving_id = self.winners_id[j];
            assert(p[j - 1] == self@.board()[j - 1]);
            self.winners_votes.set(j - 1, moving_votes);
            self.winners_votes.set(j, vote_holder);
            self.winners_id.set(j - 1, moving_id);
            self.winners_id.set(j, id_holder);
            assert forall|i: int| 0 <= i < self.winners_id.len() implies #[trigger] self@.board()[i]
                == (if i == j - 1 {
                b0[j as int]
            } else if i == j {
                b0[j - 1]
            } else {
                b0[i]
            }) by {}
            j = j - 1;
        }
        proof {
            let b = self@.board();
            lemma_settle_point(p, e.1);
            lemma_settle_point_take(p, e.1, j as int);
            if j > 0 {
                assert(b[j - 1] == p[j - 1]);
            }
            assert(p.take(j as int).len() == j);
            lemma_settle_point_stop(p.take(j as int), e.1);
            assert(settle_point(p, e.1) == j);
            assert(b =~= settle(p, e) + rest);
            if crate::leaderboard::has_id(s, id) {
                let c = choose|c: int| 0 <= c < s.len() && s[c].0 == id;
                assert(c == k);
            } else if n < cap {
                assert(p =~= s);
                assert(rest + Seq::<Entry>::empty() == rest);
            } else {
                assert(p =~= s.drop_last());
            }
            assert(settle(p, e) + rest =~= recorded(s, cap, id, votes));
            assert(b.map_values(|e: Entry| e.0) =~= self.winners_id@);
            assert(b.map_values(|e: Entry| e.1) =~= self.winners_votes@);
            lemma_vote_keeps_board(s, cap, id, votes);
        }
    }
}

} // verus!
