//! The engine: the ledger's records and the operations on them.

use vstd::prelude::*;
use crate::gate::is_eligible;
use crate::model::{distinct, lemma_submission_at, mission_ok, submission_ok, State};
use crate::rules::{
    lemma_cancel_wf, lemma_payout_wf, lemma_replaced_wf, lemma_submit_wf, lemma_sweep_nothing,
    lemma_sweep_unfolds, new_submission,
    pool_deposit, refunds, stake_deposit, surviving, Operation,
};
use crate::types::{
    Address, Error, MinAsset, Mission, MissionStatus, Party, Reward, Submission,
    SubmissionStatus, Transfer,
};

verus! {

/// The ledger. It owns every mission and submission record and the
/// treasury setting, and changes them only through its operations.
pub struct Engine {
    missions: Vec<Mission>,
    submissions: Vec<Submission>,
    treasury: Option<Address>,
}

impl View for Engine {
    type V = State;

    closed spec fn view(&self) -> State {
        State {
            missions: self.missions@,
            submissions: self.submissions@,
            treasury: self.treasury,
        }
    }
}

/// Whether every mission is consistent on its own and carries the
/// identity of its position.
fn missions_consistent(missions: &Vec<Mission>) -> (r: bool)
    ensures
        r == (forall|i: int|
            0 <= i < missions@.len() ==> mission_ok(#[trigger] missions@[i]) && missions@[i].id
                == i + 1),
{
    let mut i: usize = 0;
    while i < missions.len()
        invariant
            i <= missions.len(),
            forall|k: int|
                0 <= k < i ==> mission_ok(#[trigger] missions@[k]) && missions@[k].id == k + 1,
        decreases missions.len() - i,
    {
        let mission = &missions[i];
        let fits = match mission.reward_amount.checked_mul(mission.max_participants as i128) {
            Some(_) => true,
            None => false,
        };
        let sound = mission.id == i as u64 + 1 && mission.reward_amount > 0
            && mission.participants_count <= mission.max_participants && fits && (
        mission.min_asset_token.is_none() || mission.min_asset_amount > 0);
        if !sound {
            assert(!(mission_ok(missions@[i as int]) && missions@[i as int].id == i + 1));
            return false;
        }
        i += 1;
    }
    true
}

/// Whether every submission is consistent with the missions.
fn submissions_consistent(submissions: &Vec<Submission>, missions: &Vec<Mission>) -> (r: bool)
    ensures
        r == (forall|j: int|
            0 <= j < submissions@.len() ==> submission_ok(#[trigger] submissions@[j], missions@)),
{
    let mut j: usize = 0;
    while j < submissions.len()
        invariant
            j <= submissions.len(),
            forall|k: int| 0 <= k < j ==> submission_ok(#[trigger] submissions@[k], missions@),
        decreases submissions.len() - j,
    {
        let submission = &submissions[j];
        let pending = submission.status == SubmissionStatus::Pending;
        let placed = submission.mission_id >= 1 && submission.mission_id - 1
            < missions.len() as u64;
        let sound = placed && submission.stake_amount > 0 && (!submission.stake_held || pending)
            && (!pending || missions[(submission.mission_id - 1) as usize].status
            != MissionStatus::Cancelled);
        if !sound {
            assert(!submission_ok(submissions@[j as int], missions@));
            return false;
        }
        j += 1;
    }
    true
}

/// Whether no two submissions belong to the same mission and hunter.
fn submissions_distinct(submissions: &Vec<Submission>) -> (r: bool)
    ensures
        r == distinct(submissions@),
{
    let mut b: usize = 0;
    while b < submissions.len()
        invariant
            b <= submissions.len(),
            forall|x: int, y: int|
                0 <= x < y < b ==> !(#[trigger] submissions@[x]).is_for(
                    (#[trigger] submissions@[y]).mission_id,
                    submissions@[y].hunter@,
                ),
        decreases submissions.len() - b,
    {
        let mut a: usize = 0;
        while a < b
            invariant
                a <= b < submissions.len(),
                forall|x: int|
                    0 <= x < a ==> !(#[trigger] submissions@[x]).is_for(
                        submissions@[b as int].mission_id,
                        submissions@[b as int].hunter@,
                    ),
            decreases b - a,
        {
            if submissions[a].mission_id == submissions[b].mission_id && submissions[a].hunter.same(
                &submissions[b].hunter,
            ) {
                assert(submissions@[a as int].is_for(
                    submissions@[b as int].mission_id,
                    submissions@[b as int].hunter@,
                ));
                return false;
            }
            a += 1;
        }
        b += 1;
    }
    true
}

impl Engine {
    /// A ledger without records and without a treasury.
    pub fn new() -> (r: Engine)
        ensures
            r@ == State::empty(),
            r@.wf(),
    {
        Engine { missions: Vec::new(), submissions: Vec::new(), treasury: None }
    }

    /// Rebuilds a ledger from records that were stored away, if they are
    /// consistent. Records that contradict each other are refused, so that
    /// every ledger that exists is consistent.
    pub fn restore(
        missions: Vec<Mission>,
        submissions: Vec<Submission>,
        treasury: Option<Address>,
    ) -> (r: Option<Engine>)
        ensures
            match r {
                Some(engine) => {
                    &&& engine@ == (State {
                        missions: missions@,
                        submissions: submissions@,
                        treasury,
                    })
                    &&& engine@.wf()
                },
                None => !(State { missions: missions@, submissions: submissions@, treasury }).wf(),
            },
    {
        if missions_consistent(&missions) && submissions_consistent(&submissions, &missions)
            && submissions_distinct(&submissions) {
            let count = missions.len();
            proof {
                let state = State { missions: missions@, submissions: submissions@, treasury };
                assert(state.missions.len() == count <= u64::MAX);
                assert forall|i: int| 0 <= i < state.missions.len() implies (
                #[trigger] state.missions[i]).id == i + 1 by {
                    assert(mission_ok(missions@[i]));
                }
                assert(state.wf());
            }
            Some(Engine { missions, submissions, treasury })
        } else {
            None
        }
    }

    /// The mission records, in the order of their identities.
    pub fn missions(&self) -> (r: &Vec<Mission>)
        ensures
            r@ == self@.missions,
    {
        &self.missions
    }

    /// The submission records.
    pub fn submissions(&self) -> (r: &Vec<Submission>)
        ensures
            r@ == self@.submissions,
    {
        &self.submissions
    }

    /// A snapshot of the submission of `hunter` for the mission.
    pub fn get_submission(&self, mission_id: u64, hunter: &Address) -> (r: Result<
        Submission,
        Error,
    >)
        requires
            self@.wf(),
        ensures
            r == if self@.has_submission(mission_id, hunter@) {
                Ok::<Submission, Error>(self@.submission(mission_id, hunter@))
            } else {
                Err::<Submission, Error>(Error::SubmissionNotFound)
            },
    {
        match self.submission_slot(mission_id, hunter) {
            None => Err(Error::SubmissionNotFound),
            Some(j) => Ok(self.submissions[j].clone()),
        }
    }

    /// The position of the mission with identity `id`.
    fn mission_slot(&self, id: u64) -> (r: Option<usize>)
        ensures
            match r {
                Some(i) => self@.has_mission(id) && i == id - 1,
                None => !self@.has_mission(id),
            },
    {
        if id == 0 || id - 1 >= self.missions.len() as u64 {
            None
        } else {
            Some((id - 1) as usize)
        }
    }

    /// The position of the submission of `hunter` for the mission.
    fn submission_slot(&self, mission_id: u64, hunter: &Address) -> (r: Option<usize>)
        requires
            self@.wf(),
        ensures
            match r {
                Some(j) => self@.has_submission(mission_id, hunter@) && j
                    == self@.submission_index(mission_id, hunter@),
                None => !self@.has_submission(mission_id, hunter@),
            },
    {
        let mut j: usize = 0;
        while j < self.submissions.len()
            invariant
                self@.wf(),
                j <= self.submissions.len(),
                forall|k: int|
                    0 <= k < j ==> !(#[trigger] self.submissions@[k]).is_for(mission_id, hunter@),
            decreases self.submissions.len() - j,
        {
            if self.submissions[j].mission_id == mission_id && self.submissions[j].hunter.same(
                hunter,
            ) {
                proof {
                    lemma_submission_at(self@, j as int);
                }
                return Some(j);
            }
            j += 1;
        }
        None
    }

    /// Registers a mission and asks for the deposit of its whole reward
    /// pool, one reward for each of the `max_participants` slots, from
    /// `owner` into escrow. Returns the identity of the new mission.
    ///
    /// Nothing is recorded and no transfer is asked for when the terms are
    /// rejected.
    pub fn create_mission(
        &mut self,
        owner: Address,
        title: String,
        description: String,
        reward: Reward,
        max_participants: u32,
        min_asset: MinAsset,
    ) -> (r: Result<(u64, Transfer), Error>)
        requires
            old(self)@.wf(),
            old(self)@.missions.len() < u64::MAX,
            reward.reward_amount * max_participants <= i128::MAX,
        ensures
            final(self)@.wf(),
            final(self)@ == old(self)@.next((Operation::CreateMission {
                owner,
                title,
                description,
                reward,
                max_participants,
                min_asset,
            })),
            match State::create_rejection(reward, min_asset) {
                Some(e) => r == Err::<(u64, Transfer), Error>(e) && final(self)@ == old(self)@,
                None => {
                    let mission = old(self)@.new_mission(
                        owner,
                        title,
                        description,
                        reward,
                        max_participants,
                        min_asset,
                    );
                    &&& final(self)@ == old(self)@.with_mission(mission)
                    &&& r == Ok::<(u64, Transfer), Error>((mission.id, pool_deposit(mission)))
                },
            },
    {
        if reward.reward_amount <= 0 {
            return Err(Error::InvalidReward);
        }
        if min_asset.min_asset_token.is_some() && min_asset.min_asset_amount <= 0 {
            return Err(Error::InvalidStakeAmount);
        }
        assert(0 <= reward.reward_amount * max_participants) by (nonlinear_arith)
            requires
                reward.reward_amount > 0,
                max_participants >= 0,
        ;
        let id: u64 = self.missions.len() as u64 + 1;
        let deposit = Transfer {
            token: reward.reward_token.clone(),
            from: Party::Account(owner.clone()),
            to: Party::Escrow,
            amount: reward.reward_amount * (max_participants as i128),
        };
        let mission = Mission {
            id,
            owner,
            title,
            description,
            reward_token: reward.reward_token,
            reward_amount: reward.reward_amount,
            max_participants,
            participants_count: 0,
            status: MissionStatus::Open,
            min_asset_token: min_asset.min_asset_token,
            min_asset_amount: min_asset.min_asset_amount,
        };
        self.missions.push(mission);
        Ok((id, deposit))
    }

    /// A snapshot of the mission with identity `id`.
    pub fn get_mission(&self, id: u64) -> (r: Result<Mission, Error>)
        ensures
            r == if self@.has_mission(id) {
                Ok::<Mission, Error>(self@.mission(id))
            } else {
                Err::<Mission, Error>(Error::MissionNotFound)
            },
    {
        match self.mission_slot(id) {
            None => Err(Error::MissionNotFound),
            Some(i) => Ok(self.missions[i].clone()),
        }
    }

    /// The asset whose balance the caller has to query for a hunter before
    /// `submit_feedback`, if the mission is gated.
    pub fn gating_token(&self, id: u64) -> (r: Result<Option<Address>, Error>)
        ensures
            r == if self@.has_mission(id) {
                Ok::<Option<Address>, Error>(self@.mission(id).min_asset_token)
            } else {
                Err::<Option<Address>, Error>(Error::MissionNotFound)
            },
    {
        match self.mission_slot(id) {
            None => Err(Error::MissionNotFound),
            Some(i) => match &self.missions[i].min_asset_token {
                Some(token) => Ok(Some(token.clone())),
                None => Ok(None),
            },
        }
    }

    /// Puts the mission on hold: submissions and updates are rejected until
    /// it is resumed. Pausing a paused mission changes nothing. No funds
    /// move.
    pub fn pause_mission(&mut self, id: u64) -> (r: Result<(), Error>)
        requires
            old(self)@.wf(),
        ensures
            final(self)@.wf(),
            final(self)@ == old(self)@.next((Operation::PauseMission { id })),
            match old(self)@.status_rejection(id) {
                Some(e) => r == Err::<(), Error>(e) && final(self)@ == old(self)@,
                None => r == Ok::<(), Error>(()) && final(self)@ == old(self)@.with_status(
                    id,
                    MissionStatus::Paused,
                ),
            },
    {
        self.set_status(id, MissionStatus::Paused)
    }

    /// Opens a paused mission again. Resuming an open mission changes
    /// nothing. No funds move.
    pub fn resume_mission(&mut self, id: u64) -> (r: Result<(), Error>)
        requires
            old(self)@.wf(),
        ensures
            final(self)@.wf(),
            final(self)@ == old(self)@.next((Operation::ResumeMission { id })),
            match old(self)@.status_rejection(id) {
                Some(e) => r == Err::<(), Error>(e) && final(self)@ == old(self)@,
                None => r == Ok::<(), Error>(()) && final(self)@ == old(self)@.with_status(
                    id,
                    MissionStatus::Open,
                ),
            },
    {
        self.set_status(id, MissionStatus::Open)
    }

    /// Moves a mission that is not cancelled to `status`, which is not
    /// `Cancelled` either.
    fn set_status(&mut self, id: u64, status: MissionStatus) -> (r: Result<(), Error>)
        requires
            old(self)@.wf(),
            status != MissionStatus::Cancelled,
        ensures
            final(self)@.wf(),
            match old(self)@.status_rejection(id) {
                Some(e) => r == Err::<(), Error>(e) && final(self)@ == old(self)@,
                None => r == Ok::<(), Error>(()) && final(self)@ == old(self)@.with_status(
                    id,
                    status,
                ),
            },
    {
        match self.mission_slot(id) {
            None => Err(Error::MissionNotFound),
            Some(i) => {
                if self.missions[i].status == MissionStatus::Cancelled {
                    return Err(Error::MissionNotOpen);
                }
                self.missions[i].status = status;
                Ok(())
            },
        }
    }

    /// Ends a mission that is open or paused, for good. Asks for the refund
    /// of the unpaid part of the reward pool to the owner, and of every
    /// stake still held for a pending submission of this mission to the
    /// hunter who posted it. The pending submissions are removed, so that
    /// the records account for no escrow of this mission any more.
    ///
    /// A mission that is cancelled already is rejected.
    pub fn cancel_mission(&mut self, id: u64) -> (r: Result<Vec<Transfer>, Error>)
        requires
            old(self)@.wf(),
        ensures
            final(self)@.wf(),
            final(self)@ == old(self)@.next((Operation::CancelMission { id })),
            match old(self)@.status_rejection(id) {
                Some(e) => r == Err::<Vec<Transfer>, Error>(e) && final(self)@ == old(self)@,
                None => {
                    &&& r is Ok
                    &&& r->Ok_0@ == old(self)@.cancel_transfers(id)
                    &&& final(self)@ == old(self)@.after_cancel(id)
                },
            },
    {
        let i = match self.mission_slot(id) {
            None => { return Err(Error::MissionNotFound); },
            Some(i) => i,
        };
        if self.missions[i].status == MissionStatus::Cancelled {
            return Err(Error::MissionNotOpen);
        }
        let unpaid: u32 = self.missions[i].max_participants - self.missions[i].participants_count;
        assert(0 <= self.missions[i as int].reward_amount * unpaid
            <= self.missions[i as int].reward_amount * self.missions[i as int].max_participants)
            by (nonlinear_arith)
            requires
                self.missions[i as int].reward_amount > 0,
                0 <= unpaid <= self.missions[i as int].max_participants,
        ;
        let mut transfers: Vec<Transfer> = Vec::new();
        transfers.push(
            Transfer {
                token: self.missions[i].reward_token.clone(),
                from: Party::Escrow,
                to: Party::Account(self.missions[i].owner.clone()),
                amount: self.missions[i].reward_amount * (unpaid as i128),
            },
        );
        let mut kept: Vec<Submission> = Vec::new();
        let mut j: usize = 0;
        proof {
            lemma_sweep_nothing(id);
            assert(self.submissions@.take(0) =~= Seq::<Submission>::empty());
        }
        while j < self.submissions.len()
            invariant
                j <= self.submissions.len(),
                self.submissions@ == old(self)@.submissions,
                kept@ == surviving(self.submissions@.take(j as int), id),
                transfers@ == seq![old(self)@.pool_refund(id)] + refunds(
                    self.submissions@.take(j as int),
                    id,
                ),
            decreases self.submissions.len() - j,
        {
            proof {
                let next = self.submissions@.take(j + 1);
                assert(next.drop_last() =~= self.submissions@.take(j as int));
                assert(next.last() == self.submissions@[j as int]);
                lemma_sweep_unfolds(next, id);
            }
            if self.submissions[j].mission_id == id && self.submissions[j].status
                == SubmissionStatus::Pending {
                if self.submissions[j].stake_held {
                    let ghost before = transfers@;
                    transfers.push(
                        Transfer {
                            token: self.submissions[j].stake_token.clone(),
                            from: Party::Escrow,
                            to: Party::Account(self.submissions[j].hunter.clone()),
                            amount: self.submissions[j].stake_amount,
                        },
                    );
                    assert(transfers@ =~= seq![old(self)@.pool_refund(id)] + refunds(
                        self.submissions@.take(j + 1),
                        id,
                    ));
                }
            } else {
                kept.push(self.submissions[j].clone());
            }
            j += 1;
        }
        assert(self.submissions@.take(j as int) =~= self.submissions@);
        self.submissions = kept;
        self.missions[i].status = MissionStatus::Cancelled;
        proof {
            assert(self.missions@ =~= old(self)@.after_cancel(id).missions);
            lemma_cancel_wf(old(self)@, id);
        }
        Ok(transfers)
    }

    /// Records the work of `hunter` for an open mission and asks for the
    /// deposit of the stake from the hunter into escrow.
    ///
    /// `gate_balance` is the hunter's balance of the asset that
    /// [`Engine::gating_token`] names; it is not looked at when the mission
    /// is not gated. One hunter has at most one submission for a mission,
    /// resolved or not.
    pub fn submit_feedback(
        &mut self,
        mission_id: u64,
        hunter: Address,
        content_id: String,
        stake_token: Address,
        stake_amount: i128,
        gate_balance: i128,
    ) -> (r: Result<Transfer, Error>)
        requires
            old(self)@.wf(),
        ensures
            final(self)@.wf(),
            final(self)@ == old(self)@.next((Operation::SubmitFeedback {
                mission_id,
                hunter,
                content_id,
                stake_token,
                stake_amount,
                gate_balance,
            })),
            match old(self)@.submit_rejection(mission_id, hunter, stake_amount, gate_balance) {
                Some(e) => r == Err::<Transfer, Error>(e) && final(self)@ == old(self)@,
                None => {
                    let submission = new_submission(
                        mission_id,
                        hunter,
                        content_id,
                        stake_token,
                        stake_amount,
                    );
                    &&& final(self)@ == old(self)@.with_submission(submission)
                    &&& r == Ok::<Transfer, Error>(stake_deposit(submission))
                },
            },
    {
        let i = match self.mission_slot(mission_id) {
            None => { return Err(Error::MissionNotFound); },
            Some(i) => i,
        };
        if self.submission_slot(mission_id, &hunter).is_some() {
            return Err(Error::DuplicateSubmission);
        }
        if self.missions[i].status != MissionStatus::Open {
            return Err(Error::MissionNotOpen);
        }
        if stake_amount <= 0 {
            return Err(Error::InvalidStakeAmount);
        }
        if !is_eligible(
            &self.missions[i].min_asset_token,
            self.missions[i].min_asset_amount,
            gate_balance,
        ) {
            return Err(Error::InsufficientGatingBalance);
        }
        let deposit = Transfer {
            token: stake_token.clone(),
            from: Party::Account(hunter.clone()),
            to: Party::Escrow,
            amount: stake_amount,
        };
        let submission = Submission {
            mission_id,
            hunter,
            content_id,
            stake_token,
            stake_amount,
            status: SubmissionStatus::Pending,
            stake_held: true,
        };
        let ghost added = submission;
        self.submissions.push(submission);
        proof {
            lemma_submit_wf(
                old(self)@,
                mission_id,
                added.hunter,
                added.content_id,
                added.stake_token,
                stake_amount,
                gate_balance,
            );
        }
        Ok(deposit)
    }

    /// Replaces the content of a pending submission for an open mission.
    /// No funds move.
    pub fn update_submission(
        &mut self,
        mission_id: u64,
        hunter: Address,
        new_content_id: String,
    ) -> (r: Result<(), Error>)
        requires
            old(self)@.wf(),
        ensures
            final(self)@.wf(),
            final(self)@ == old(self)@.next((Operation::UpdateSubmission {
                mission_id,
                hunter,
                new_content_id,
            })),
            match old(self)@.update_rejection(mission_id, hunter) {
                Some(e) => r == Err::<(), Error>(e) && final(self)@ == old(self)@,
                None => r == Ok::<(), Error>(()) && final(self)@ == old(self)@.after_update(
                    mission_id,
                    hunter,
                    new_content_id,
                ),
            },
    {
        let i = match self.mission_slot(mission_id) {
            None => { return Err(Error::MissionNotFound); },
            Some(i) => i,
        };
        if self.missions[i].status != MissionStatus::Open {
            return Err(Error::MissionNotOpen);
        }
        let j = match self.submission_slot(mission_id, &hunter) {
            None => { return Err(Error::SubmissionNotFound); },
            Some(j) => j,
        };
        if self.submissions[j].status != SubmissionStatus::Pending {
            return Err(Error::AlreadyResolved);
        }
        self.submissions[j].content_id = new_content_id;
        proof {
            lemma_replaced_wf(old(self)@, j as int, self.submissions@[j as int]);
        }
        Ok(())
    }

    /// Pays one reward to the hunter of a pending submission and hands the
    /// stake back, as far as it is still held. The submission is resolved
    /// for good and one more slot of the mission is used up.
    ///
    /// The transfers come in the order reward, stake. A stake that was
    /// slashed before is skipped without an error.
    pub fn payout_participant(&mut self, mission_id: u64, hunter: Address) -> (r: Result<
        Vec<Transfer>,
        Error,
    >)
        requires
            old(self)@.wf(),
        ensures
            final(self)@.wf(),
            final(self)@ == old(self)@.next((Operation::PayoutParticipant { mission_id, hunter })),
            match old(self)@.payout_rejection(mission_id, hunter) {
                Some(e) => r == Err::<Vec<Transfer>, Error>(e) && final(self)@ == old(self)@,
                None => {
                    &&& r is Ok
                    &&& r->Ok_0@ == old(self)@.payout_transfers(mission_id, hunter)
                    &&& final(self)@ == old(self)@.after_payout(mission_id, hunter)
                },
            },
    {
        let i = match self.mission_slot(mission_id) {
            None => { return Err(Error::MissionNotFound); },
            Some(i) => i,
        };
        let j = match self.submission_slot(mission_id, &hunter) {
            None => { return Err(Error::SubmissionNotFound); },
            Some(j) => j,
        };
        if self.submissions[j].status != SubmissionStatus::Pending {
            return Err(Error::AlreadyResolved);
        }
        if self.missions[i].participants_count >= self.missions[i].max_participants {
            return Err(Error::MissionFull);
        }
        let mut transfers: Vec<Transfer> = Vec::new();
        transfers.push(
            Transfer {
                token: self.missions[i].reward_token.clone(),
                from: Party::Escrow,
                to: Party::Account(self.submissions[j].hunter.clone()),
                amount: self.missions[i].reward_amount,
            },
        );
        if self.submissions[j].stake_held {
            transfers.push(
                Transfer {
                    token: self.submissions[j].stake_token.clone(),
                    from: Party::Escrow,
                    to: Party::Account(self.submissions[j].hunter.clone()),
                    amount: self.submissions[j].stake_amount,
                },
            );
        }
        let paid: u32 = self.missions[i].participants_count + 1;
        self.missions[i].participants_count = paid;
        self.submissions[j].status = SubmissionStatus::Paid;
        self.submissions[j].stake_held = false;
        proof {
            assert(transfers@ =~= old(self)@.payout_transfers(mission_id, hunter));
            assert(self.missions@ =~= old(self)@.after_payout(mission_id, hunter).missions);
            assert(self.submissions@ =~= old(self)@.after_payout(mission_id, hunter).submissions);
            lemma_payout_wf(old(self)@, mission_id, hunter);
        }
        Ok(transfers)
    }

    /// Forfeits the stake that `hunter` posted for the mission in
    /// `stake_token`: asks for its transfer to the treasury. The submission
    /// stays on record without a stake, and can still be paid out.
    pub fn slash_hunter_stake(
        &mut self,
        mission_id: u64,
        hunter: Address,
        stake_token: Address,
    ) -> (r: Result<Transfer, Error>)
        requires
            old(self)@.wf(),
        ensures
            final(self)@.wf(),
            final(self)@ == old(self)@.next((Operation::SlashHunterStake {
                mission_id,
                hunter,
                stake_token,
            })),
            match old(self)@.slash_rejection(mission_id, hunter, stake_token) {
                Some(e) => r == Err::<Transfer, Error>(e) && final(self)@ == old(self)@,
                None => {
                    &&& r == Ok::<Transfer, Error>(old(self)@.slash_transfer(mission_id, hunter))
                    &&& final(self)@ == old(self)@.after_slash(mission_id, hunter)
                },
            },
    {
        let treasury = match &self.treasury {
            None => { return Err(Error::TreasuryNotSet); },
            Some(address) => address.clone(),
        };
        let j = match self.submission_slot(mission_id, &hunter) {
            None => { return Err(Error::StakeNotFound); },
            Some(j) => j,
        };
        if !self.submissions[j].stake_held || !self.submissions[j].stake_token.same(&stake_token) {
            return Err(Error::StakeNotFound);
        }
        let transfer = Transfer {
            token: self.submissions[j].stake_token.clone(),
            from: Party::Escrow,
            to: Party::Account(treasury),
            amount: self.submissions[j].stake_amount,
        };
        self.submissions[j].stake_held = false;
        proof {
            lemma_replaced_wf(old(self)@, j as int, self.submissions@[j as int]);
        }
        Ok(transfer)
    }

    /// Names the principal that receives slashed stakes. The last call
    /// wins.
    pub fn set_treasury(&mut self, address: Address)
        requires
            old(self)@.wf(),
        ensures
            final(self)@.wf(),
            final(self)@ == old(self)@.next((Operation::SetTreasury { address })),
            final(self)@ == old(self)@.with_treasury(address),
    {
        self.treasury = Some(address);
    }

    /// The principal that receives slashed stakes.
    pub fn get_treasury(&self) -> (r: Result<Address, Error>)
        ensures
            r == match self@.treasury {
                Some(address) => Ok::<Address, Error>(address),
                None => Err::<Address, Error>(Error::TreasuryNotSet),
            },
    {
        match &self.treasury {
            Some(address) => Ok(address.clone()),
            None => Err(Error::TreasuryNotSet),
        }
    }
}

} // verus!
