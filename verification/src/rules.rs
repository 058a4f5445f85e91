//! What each operation decides: on which inputs it is rejected and with
//! which error, which records it leaves behind, and which transfers it asks
//! for.

use vstd::prelude::*;
use crate::gate::qualifies;
use crate::model::{distinct, mission_ok, submission_ok, State};
use crate::types::{
    Address, Error, MinAsset, Mission, MissionStatus, Reward, Submission, SubmissionStatus,
    Transfer,
};

verus! {

/// Whether cancelling the mission `id` removes `submission`: it does when
/// the submission belongs to the mission and is still pending.
pub open spec fn swept_by(submission: Submission, id: u64) -> bool {
    submission.mission_id == id && submission.status == SubmissionStatus::Pending
}

/// The submissions that remain after the mission `id` was cancelled, in
/// their old order.
pub open spec fn surviving(submissions: Seq<Submission>, id: u64) -> Seq<Submission> {
    submissions.filter(|s: Submission| !swept_by(s, id))
}

/// The deposit of the whole reward pool of a new `mission` by its owner.
pub open spec fn pool_deposit(mission: Mission) -> Transfer {
    Transfer::deposit(mission.reward_token, mission.owner, mission.pool() as i128)
}

/// The deposit of the stake of `submission` by the hunter who posts it.
pub open spec fn stake_deposit(submission: Submission) -> Transfer {
    Transfer::deposit(submission.stake_token, submission.hunter, submission.stake_amount)
}

/// The record that `submit_feedback` adds: pending, with its stake held.
pub open spec fn new_submission(
    mission_id: u64,
    hunter: Address,
    content_id: String,
    stake_token: Address,
    stake_amount: i128,
) -> Submission {
    Submission {
        mission_id,
        hunter,
        content_id,
        stake_token,
        stake_amount,
        status: SubmissionStatus::Pending,
        stake_held: true,
    }
}

/// The refund of the stake of `submission` to the hunter who posted it.
pub open spec fn stake_refund(submission: Submission) -> Transfer {
    Transfer::release(submission.stake_token, submission.hunter, submission.stake_amount)
}

/// The stake refunds that cancelling the mission `id` asks for: one for
/// every removed submission whose stake is still held, in the order of the
/// submissions.
pub open spec fn refunds(submissions: Seq<Submission>, id: u64) -> Seq<Transfer> {
    submissions.filter(|s: Submission| swept_by(s, id) && s.stake_held).map_values(
        |s: Submission| stake_refund(s),
    )
}

/// How a cancellation deals with the submissions one by one: what it does
/// to the last of them, after what it does to those before.
pub(crate) proof fn lemma_sweep_unfolds(submissions: Seq<Submission>, id: u64)
    requires
        submissions.len() > 0,
    ensures
        surviving(submissions, id) == if swept_by(submissions.last(), id) {
            surviving(submissions.drop_last(), id)
        } else {
            surviving(submissions.drop_last(), id).push(submissions.last())
        },
        refunds(submissions, id) == if swept_by(submissions.last(), id)
            && submissions.last().stake_held {
            refunds(submissions.drop_last(), id).push(stake_refund(submissions.last()))
        } else {
            refunds(submissions.drop_last(), id)
        },
{
    reveal(Seq::filter);
    let due = |s: Submission| swept_by(s, id) && s.stake_held;
    let refund = |s: Submission| stake_refund(s);
    let before = submissions.drop_last().filter(due);
    if due(submissions.last()) {
        assert(before.push(submissions.last()).map_values(refund) =~= before.map_values(
            refund,
        ).push(stake_refund(submissions.last())));
    }
}

/// A cancellation finds nothing to do where there are no submissions.
pub(crate) proof fn lemma_sweep_nothing(id: u64)
    ensures
        surviving(Seq::empty(), id) == Seq::<Submission>::empty(),
        refunds(Seq::empty(), id) == Seq::<Transfer>::empty(),
{
    reveal(Seq::filter);
    let due = |s: Submission| swept_by(s, id) && s.stake_held;
    assert(Seq::<Submission>::empty().filter(due).map_values(|s: Submission| stake_refund(s))
        =~= Seq::<Transfer>::empty());
}

impl State {
    /// Why `create_mission` rejects these terms, if it does: the reward must
    /// be positive, and so must the threshold of a gate that names an asset.
    pub open spec fn create_rejection(reward: Reward, min_asset: MinAsset) -> Option<Error> {
        if reward.reward_amount <= 0 {
            Some(Error::InvalidReward)
        } else if min_asset.min_asset_token is Some && min_asset.min_asset_amount <= 0 {
            Some(Error::InvalidStakeAmount)
        } else {
            None
        }
    }

    /// The record that `create_mission` adds: open, nobody paid yet, under
    /// the next free identity.
    pub open spec fn new_mission(
        self,
        owner: Address,
        title: String,
        description: String,
        reward: Reward,
        max_participants: u32,
        min_asset: MinAsset,
    ) -> Mission {
        Mission {
            id: (self.missions.len() + 1) as u64,
            owner,
            title,
            description,
            reward_token: reward.reward_token,
            reward_amount: reward.reward_amount,
            max_participants,
            participants_count: 0,
            status: MissionStatus::Open,
            min_asset_token: min_asset.min_asset_token,
            min_asset_amount: min_asset.min_asset_amount,
        }
    }

    /// The ledger after `mission` was added.
    pub open spec fn with_mission(self, mission: Mission) -> State {
        State { missions: self.missions.push(mission), ..self }
    }

    /// Why a change of status is rejected, if it is: the mission must exist
    /// and must not be cancelled, which is terminal.
    pub open spec fn status_rejection(self, id: u64) -> Option<Error> {
        if !self.has_mission(id) {
            Some(Error::MissionNotFound)
        } else if self.mission(id).status == MissionStatus::Cancelled {
            Some(Error::MissionNotOpen)
        } else {
            None
        }
    }

    /// The ledger after the mission `id` took on `status`.
    pub open spec fn with_status(self, id: u64, status: MissionStatus) -> State {
        State {
            missions: self.missions.update(id - 1, Mission { status, ..self.mission(id) }),
            ..self
        }
    }

    /// The refund of the unpaid part of the reward pool to the owner.
    pub open spec fn pool_refund(self, id: u64) -> Transfer {
        Transfer::release(
            self.mission(id).reward_token,
            self.mission(id).owner,
            self.mission(id).pool() as i128,
        )
    }

    /// The transfers that `cancel_mission` asks for: the pool refund, then
    /// the refund of every pending stake.
    pub open spec fn cancel_transfers(self, id: u64) -> Seq<Transfer> {
        seq![self.pool_refund(id)] + refunds(self.submissions, id)
    }

    /// The ledger after the mission `id` was cancelled: the mission is
    /// marked, and its pending submissions are gone.
    pub open spec fn after_cancel(self, id: u64) -> State {
        State {
            missions: self.missions.update(
                id - 1,
                Mission { status: MissionStatus::Cancelled, ..self.mission(id) },
            ),
            submissions: surviving(self.submissions, id),
            ..self
        }
    }

    /// Why `submit_feedback` rejects, if it does. `gate_balance` is the
    /// hunter's balance of the mission's gating asset.
    pub open spec fn submit_rejection(
        self,
        mission_id: u64,
        hunter: Address,
        stake_amount: i128,
        gate_balance: i128,
    ) -> Option<Error> {
        if !self.has_mission(mission_id) {
            Some(Error::MissionNotFound)
        } else if self.has_submission(mission_id, hunter@) {
            Some(Error::DuplicateSubmission)
        } else if self.mission(mission_id).status != MissionStatus::Open {
            Some(Error::MissionNotOpen)
        } else if stake_amount <= 0 {
            Some(Error::InvalidStakeAmount)
        } else if !qualifies(
            self.mission(mission_id).min_asset_token,
            self.mission(mission_id).min_asset_amount,
            gate_balance,
        ) {
            Some(Error::InsufficientGatingBalance)
        } else {
            None
        }
    }

    /// The ledger after `submission` was added.
    pub open spec fn with_submission(self, submission: Submission) -> State {
        State { submissions: self.submissions.push(submission), ..self }
    }

    /// Why `update_submission` rejects, if it does.
    pub open spec fn update_rejection(self, mission_id: u64, hunter: Address) -> Option<Error> {
        if !self.has_mission(mission_id) {
            Some(Error::MissionNotFound)
        } else if self.mission(mission_id).status != MissionStatus::Open {
            Some(Error::MissionNotOpen)
        } else if !self.has_submission(mission_id, hunter@) {
            Some(Error::SubmissionNotFound)
        } else if self.submission(mission_id, hunter@).status != SubmissionStatus::Pending {
            Some(Error::AlreadyResolved)
        } else {
            None
        }
    }

    /// The ledger after the submission of `hunter` was replaced by
    /// `submission`.
    pub open spec fn with_replaced(
        self,
        mission_id: u64,
        hunter: Address,
        submission: Submission,
    ) -> State {
        State {
            submissions: self.submissions.update(
                self.submission_index(mission_id, hunter@),
                submission,
            ),
            ..self
        }
    }

    /// The ledger after the content of the submission of `hunter` was
    /// replaced.
    pub open spec fn after_update(
        self,
        mission_id: u64,
        hunter: Address,
        new_content_id: String,
    ) -> State {
        self.with_replaced(
            mission_id,
            hunter,
            Submission { content_id: new_content_id, ..self.submission(mission_id, hunter@) },
        )
    }

    /// The ledger after `address` was named as the treasury.
    pub open spec fn with_treasury(self, address: Address) -> State {
        State { treasury: Some(address), ..self }
    }

    /// Why `payout_participant` rejects, if it does.
    pub open spec fn payout_rejection(self, mission_id: u64, hunter: Address) -> Option<Error> {
        if !self.has_mission(mission_id) {
            Some(Error::MissionNotFound)
        } else if !self.has_submission(mission_id, hunter@) {
            Some(Error::SubmissionNotFound)
        } else if self.submission(mission_id, hunter@).status != SubmissionStatus::Pending {
            Some(Error::AlreadyResolved)
        } else if self.mission(mission_id).participants_count >= self.mission(
            mission_id,
        ).max_participants {
            Some(Error::MissionFull)
        } else {
            None
        }
    }

    /// The payment of one reward to the hunter on record.
    pub open spec fn reward_payment(self, mission_id: u64, hunter: Address) -> Transfer {
        Transfer::release(
            self.mission(mission_id).reward_token,
            self.submission(mission_id, hunter@).hunter,
            self.mission(mission_id).reward_amount,
        )
    }

    /// The transfers that `payout_participant` asks for: the reward, then
    /// the refund of the stake if it is still held. A stake that was slashed
    /// before is skipped.
    pub open spec fn payout_transfers(self, mission_id: u64, hunter: Address) -> Seq<Transfer> {
        if self.submission(mission_id, hunter@).stake_held {
            seq![
                self.reward_payment(mission_id, hunter),
                stake_refund(self.submission(mission_id, hunter@)),
            ]
        } else {
            seq![self.reward_payment(mission_id, hunter)]
        }
    }

    /// The ledger after the payout: one more participant is counted, the
    /// submission is paid and its stake has left escrow.
    pub open spec fn after_payout(self, mission_id: u64, hunter: Address) -> State {
        State {
            missions: self.missions.update(
                mission_id - 1,
                Mission {
                    participants_count: (self.mission(mission_id).participants_count + 1) as u32,
                    ..self.mission(mission_id)
                },
            ),
            submissions: self.submissions.update(
                self.submission_index(mission_id, hunter@),
                Submission {
                    status: SubmissionStatus::Paid,
                    stake_held: false,
                    ..self.submission(mission_id, hunter@)
                },
            ),
            ..self
        }
    }

    /// Whether escrow holds a stake of `hunter` for the mission in
    /// `stake_token`.
    pub open spec fn has_stake(
        self,
        mission_id: u64,
        hunter: Address,
        stake_token: Address,
    ) -> bool {
        &&& self.has_submission(mission_id, hunter@)
        &&& self.submission(mission_id, hunter@).stake_held
        &&& self.submission(mission_id, hunter@).stake_token@ == stake_token@
    }

    /// Why `slash_hunter_stake` rejects, if it does.
    pub open spec fn slash_rejection(
        self,
        mission_id: u64,
        hunter: Address,
        stake_token: Address,
    ) -> Option<Error> {
        if self.treasury is None {
            Some(Error::TreasuryNotSet)
        } else if !self.has_stake(mission_id, hunter, stake_token) {
            Some(Error::StakeNotFound)
        } else {
            None
        }
    }

    /// The forwarding of the whole stake to the treasury.
    pub open spec fn slash_transfer(self, mission_id: u64, hunter: Address) -> Transfer {
        Transfer::release(
            self.submission(mission_id, hunter@).stake_token,
            self.treasury->0,
            self.submission(mission_id, hunter@).stake_amount,
        )
    }

    /// The ledger after the stake was slashed: the stake has left escrow,
    /// the submission itself stays.
    pub open spec fn after_slash(self, mission_id: u64, hunter: Address) -> State {
        self.with_replaced(
            mission_id,
            hunter,
            Submission { stake_held: false, ..self.submission(mission_id, hunter@) },
        )
    }
}

/// One call of an operation of the engine, with its arguments.
pub enum Operation {
    CreateMission {
        owner: Address,
        title: String,
        description: String,
        reward: Reward,
        max_participants: u32,
        min_asset: MinAsset,
    },
    PauseMission { id: u64 },
    ResumeMission { id: u64 },
    CancelMission { id: u64 },
    SubmitFeedback {
        mission_id: u64,
        hunter: Address,
        content_id: String,
        stake_token: Address,
        stake_amount: i128,
        gate_balance: i128,
    },
    UpdateSubmission { mission_id: u64, hunter: Address, new_content_id: String },
    PayoutParticipant { mission_id: u64, hunter: Address },
    SlashHunterStake { mission_id: u64, hunter: Address, stake_token: Address },
    SetTreasury { address: Address },
}

impl State {
    /// Whether the operation stays within the limits of the machine: there
    /// is an identity left for a new mission, and its reward pool can be
    /// written down.
    pub open spec fn admits(self, op: Operation) -> bool {
        match op {
            Operation::CreateMission { reward, max_participants, .. } => {
                &&& self.missions.len() < u64::MAX
                &&& reward.reward_amount * max_participants <= i128::MAX
            },
            _ => true,
        }
    }

    /// Why the operation is rejected, if it is.
    pub open spec fn rejection(self, op: Operation) -> Option<Error> {
        match op {
            Operation::CreateMission { reward, min_asset, .. } => State::create_rejection(
                reward,
                min_asset,
            ),
            Operation::PauseMission { id } => self.status_rejection(id),
            Operation::ResumeMission { id } => self.status_rejection(id),
            Operation::CancelMission { id } => self.status_rejection(id),
            Operation::SubmitFeedback { mission_id, hunter, stake_amount, gate_balance, .. } => {
                self.submit_rejection(mission_id, hunter, stake_amount, gate_balance)
            },
            Operation::UpdateSubmission { mission_id, hunter, .. } => self.update_rejection(
                mission_id,
                hunter,
            ),
            Operation::PayoutParticipant { mission_id, hunter } => self.payout_rejection(
                mission_id,
                hunter,
            ),
            Operation::SlashHunterStake { mission_id, hunter, stake_token } => {
                self.slash_rejection(mission_id, hunter, stake_token)
            },
            Operation::SetTreasury { .. } => None,
        }
    }

    /// The ledger after the operation. A rejected operation changes nothing.
    pub open spec fn next(self, op: Operation) -> State {
        if self.rejection(op) is Some {
            self
        } else {
            match op {
                Operation::CreateMission {
                    owner,
                    title,
                    description,
                    reward,
                    max_participants,
                    min_asset,
                } => {
                    let mission = self.new_mission(
                        owner,
                        title,
                        description,
                        reward,
                        max_participants,
                        min_asset,
                    );
                    self.with_mission(mission)
                },
                Operation::PauseMission { id } => self.with_status(id, MissionStatus::Paused),
                Operation::ResumeMission { id } => self.with_status(id, MissionStatus::Open),
                Operation::CancelMission { id } => self.after_cancel(id),
                Operation::SubmitFeedback {
                    mission_id,
                    hunter,
                    content_id,
                    stake_token,
                    stake_amount,
                    ..
                } => self.with_submission(
                    new_submission(mission_id, hunter, content_id, stake_token, stake_amount),
                ),
                Operation::UpdateSubmission { mission_id, hunter, new_content_id } => {
                    self.after_update(mission_id, hunter, new_content_id)
                },
                Operation::PayoutParticipant { mission_id, hunter } => self.after_payout(
                    mission_id,
                    hunter,
                ),
                Operation::SlashHunterStake { mission_id, hunter, .. } => self.after_slash(
                    mission_id,
                    hunter,
                ),
                Operation::SetTreasury { address } => self.with_treasury(address),
            }
        }
    }

    /// The transfers that the operation asks for. A rejected operation asks
    /// for none.
    pub open spec fn transfers(self, op: Operation) -> Seq<Transfer> {
        if self.rejection(op) is Some {
            Seq::empty()
        } else {
            match op {
                Operation::CreateMission {
                    owner,
                    title,
                    description,
                    reward,
                    max_participants,
                    min_asset,
                } => {
                    let mission = self.new_mission(
                        owner,
                        title,
                        description,
                        reward,
                        max_participants,
                        min_asset,
                    );
                    seq![pool_deposit(mission)]
                },
                Operation::CancelMission { id } => self.cancel_transfers(id),
                Operation::SubmitFeedback {
                    mission_id,
                    hunter,
                    content_id,
                    stake_token,
                    stake_amount,
                    ..
                } => seq![
                    stake_deposit(
                        new_submission(mission_id, hunter, content_id, stake_token, stake_amount),
                    ),
                ],
                Operation::PayoutParticipant { mission_id, hunter } => self.payout_transfers(
                    mission_id,
                    hunter,
                ),
                Operation::SlashHunterStake { mission_id, hunter, .. } => seq![
                    self.slash_transfer(mission_id, hunter),
                ],
                _ => Seq::empty(),
            }
        }
    }

    /// Whether the submission of `hunter` for the mission was paid out.
    pub open spec fn is_paid(self, mission_id: u64, hunter: Seq<char>) -> bool {
        self.has_submission(mission_id, hunter) && self.submission(mission_id, hunter).status
            == SubmissionStatus::Paid
    }
}

/// Every submission that survives a cancellation stood in the ledger
/// before, and is not one that the cancellation removes.
pub(crate) proof fn lemma_surviving_members(submissions: Seq<Submission>, id: u64)
    ensures
        forall|k: int|
            0 <= k < surviving(submissions, id).len() ==> {
                &&& !swept_by(#[trigger] surviving(submissions, id)[k], id)
                &&& submissions.contains(surviving(submissions, id)[k])
            },
    decreases submissions.len(),
{
    if submissions.len() == 0 {
        lemma_sweep_nothing(id);
    } else {
        let rest = submissions.drop_last();
        lemma_sweep_unfolds(submissions, id);
        lemma_surviving_members(rest, id);
        assert forall|k: int| 0 <= k < surviving(submissions, id).len() implies {
            &&& !swept_by(#[trigger] surviving(submissions, id)[k], id)
            &&& submissions.contains(surviving(submissions, id)[k])
        } by {
            if k < surviving(rest, id).len() {
                let x = surviving(rest, id)[k];
                assert(rest.contains(x));
                let i = choose|i: int| 0 <= i < rest.len() && rest[i] == x;
                assert(submissions[i] == x);
            } else {
                assert(submissions[submissions.len() - 1] == submissions.last());
            }
        }
    }
}

/// Removing submissions leaves no two for the same mission and hunter.
pub(crate) proof fn lemma_surviving_distinct(submissions: Seq<Submission>, id: u64)
    requires
        distinct(submissions),
    ensures
        distinct(surviving(submissions, id)),
    decreases submissions.len(),
{
    if submissions.len() == 0 {
        lemma_sweep_nothing(id);
    } else {
        let rest = submissions.drop_last();
        let last = submissions.last();
        lemma_sweep_unfolds(submissions, id);
        assert forall|a: int, b: int| 0 <= a < b < rest.len() implies !(#[trigger] rest[a]).is_for(
            (#[trigger] rest[b]).mission_id,
            rest[b].hunter@,
        ) by {
            assert(!submissions[a].is_for(submissions[b].mission_id, submissions[b].hunter@));
        }
        lemma_surviving_distinct(rest, id);
        lemma_surviving_members(rest, id);
        let after = surviving(submissions, id);
        assert forall|a: int, b: int| 0 <= a < b < after.len() implies !(
        #[trigger] after[a]).is_for((#[trigger] after[b]).mission_id, after[b].hunter@) by {
            if b < surviving(rest, id).len() {
                assert(!surviving(rest, id)[a].is_for(
                    surviving(rest, id)[b].mission_id,
                    surviving(rest, id)[b].hunter@,
                ));
            } else {
                let x = surviving(rest, id)[a];
                assert(rest.contains(x));
                let i = choose|i: int| 0 <= i < rest.len() && rest[i] == x;
                assert(!submissions[i].is_for(
                    submissions[submissions.len() - 1].mission_id,
                    submissions[submissions.len() - 1].hunter@,
                ));
            }
        }
    }
}

/// A cancellation that is not rejected keeps the ledger consistent.
pub(crate) proof fn lemma_cancel_wf(state: State, id: u64)
    requires
        state.wf(),
        state.status_rejection(id) is None,
    ensures
        state.after_cancel(id).wf(),
{
    let after = state.after_cancel(id);
    lemma_surviving_members(state.submissions, id);
    lemma_surviving_distinct(state.submissions, id);
    assert forall|i: int| 0 <= i < after.missions.len() implies mission_ok(
        #[trigger] after.missions[i],
    ) && after.missions[i].id == i + 1 by {
        assert(mission_ok(state.missions[i]));
    }
    assert forall|k: int| 0 <= k < after.submissions.len() implies submission_ok(
        #[trigger] after.submissions[k],
        after.missions,
    ) by {
        let x = after.submissions[k];
        assert(state.submissions.contains(x));
        let j = choose|j: int| 0 <= j < state.submissions.len() && state.submissions[j] == x;
        assert(submission_ok(state.submissions[j], state.missions));
        assert(!swept_by(x, id));
    }
}

/// Every submission that a cancellation does not remove survives it.
pub(crate) proof fn lemma_surviving_keeps(submissions: Seq<Submission>, id: u64, j: int)
    requires
        0 <= j < submissions.len(),
        !swept_by(submissions[j], id),
    ensures
        surviving(submissions, id).contains(submissions[j]),
    decreases submissions.len(),
{
    let rest = submissions.drop_last();
    let after = surviving(submissions, id);
    lemma_sweep_unfolds(submissions, id);
    if j == submissions.len() - 1 {
        assert(after[after.len() - 1] == submissions[j]);
    } else {
        lemma_surviving_keeps(rest, id, j);
        let kept = surviving(rest, id);
        let k = choose|k: int| 0 <= k < kept.len() && kept[k] == rest[j];
        assert(after[k] == submissions[j]);
    }
}

/// A submission that is accepted keeps the ledger consistent.
pub(crate) proof fn lemma_submit_wf(
    state: State,
    mission_id: u64,
    hunter: Address,
    content_id: String,
    stake_token: Address,
    stake_amount: i128,
    gate_balance: i128,
)
    requires
        state.wf(),
        state.submit_rejection(mission_id, hunter, stake_amount, gate_balance) is None,
    ensures
        state.with_submission(
            new_submission(mission_id, hunter, content_id, stake_token, stake_amount),
        ).wf(),
{
    let added = new_submission(mission_id, hunter, content_id, stake_token, stake_amount);
    let after = state.with_submission(added);
    assert forall|k: int| 0 <= k < after.submissions.len() implies submission_ok(
        #[trigger] after.submissions[k],
        after.missions,
    ) by {
        if k < state.submissions.len() {
            assert(submission_ok(state.submissions[k], state.missions));
        }
    }
    assert forall|a: int, b: int| 0 <= a < b < after.submissions.len() implies !(
    #[trigger] after.submissions[a]).is_for(
        (#[trigger] after.submissions[b]).mission_id,
        after.submissions[b].hunter@,
    ) by {
        assert(after.submissions[a] == state.submissions[a]);
        if b < state.submissions.len() {
            assert(after.submissions[b] == state.submissions[b]);
        }
    }
}

/// A mission that is accepted keeps the ledger consistent, as long as
/// there is an identity left for it and its reward pool can be written
/// down.
pub(crate) proof fn lemma_create_wf(state: State, mission: Mission)
    requires
        state.wf(),
        state.missions.len() < u64::MAX,
        mission_ok(mission),
        mission.id == state.missions.len() + 1,
        mission.status == MissionStatus::Open,
    ensures
        state.with_mission(mission).wf(),
{
    let after = state.with_mission(mission);
    assert forall|k: int| 0 <= k < after.submissions.len() implies submission_ok(
        #[trigger] after.submissions[k],
        after.missions,
    ) by {
        assert(submission_ok(state.submissions[k], state.missions));
    }
    assert forall|i: int| 0 <= i < after.missions.len() implies mission_ok(
        #[trigger] after.missions[i],
    ) && after.missions[i].id == i + 1 by {
        if i < state.missions.len() {
            assert(mission_ok(state.missions[i]));
        }
    }
}

/// A change of status that is not rejected keeps the ledger consistent,
/// as long as the new status is not `Cancelled`.
pub(crate) proof fn lemma_status_wf(state: State, id: u64, status: MissionStatus)
    requires
        state.wf(),
        state.status_rejection(id) is None,
        status != MissionStatus::Cancelled,
    ensures
        state.with_status(id, status).wf(),
{
    let after = state.with_status(id, status);
    assert forall|k: int| 0 <= k < after.submissions.len() implies submission_ok(
        #[trigger] after.submissions[k],
        after.missions,
    ) by {
        assert(submission_ok(state.submissions[k], state.missions));
    }
    assert forall|i: int| 0 <= i < after.missions.len() implies mission_ok(
        #[trigger] after.missions[i],
    ) && after.missions[i].id == i + 1 by {
        assert(mission_ok(state.missions[i]));
    }
}

/// Replacing a submission by one for the same mission and hunter, with the
/// same standing and no stake that the old one did not hold, keeps the
/// ledger consistent.
pub(crate) proof fn lemma_replaced_wf(state: State, j: int, submission: Submission)
    requires
        state.wf(),
        0 <= j < state.submissions.len(),
        submission.mission_id == state.submissions[j].mission_id,
        submission.hunter@ == state.submissions[j].hunter@,
        submission.stake_amount == state.submissions[j].stake_amount,
        submission.status == state.submissions[j].status,
        submission.stake_held ==> state.submissions[j].stake_held,
    ensures
        (State { submissions: state.submissions.update(j, submission), ..state }).wf(),
{
    let after = State { submissions: state.submissions.update(j, submission), ..state };
    assert forall|k: int| 0 <= k < after.submissions.len() implies submission_ok(
        #[trigger] after.submissions[k],
        after.missions,
    ) by {
        assert(submission_ok(state.submissions[k], state.missions));
    }
    assert forall|a: int, b: int| 0 <= a < b < after.submissions.len() implies !(
    #[trigger] after.submissions[a]).is_for(
        (#[trigger] after.submissions[b]).mission_id,
        after.submissions[b].hunter@,
    ) by {
        assert(!state.submissions[a].is_for(
            state.submissions[b].mission_id,
            state.submissions[b].hunter@,
        ));
    }
}

/// A payout that is not rejected keeps the ledger consistent.
pub(crate) proof fn lemma_payout_wf(state: State, mission_id: u64, hunter: Address)
    requires
        state.wf(),
        state.payout_rejection(mission_id, hunter) is None,
    ensures
        state.after_payout(mission_id, hunter).wf(),
{
    let after = state.after_payout(mission_id, hunter);
    let j = state.submission_index(mission_id, hunter@);
    assert forall|k: int| 0 <= k < after.submissions.len() implies submission_ok(
        #[trigger] after.submissions[k],
        after.missions,
    ) by {
        assert(submission_ok(state.submissions[k], state.missions));
    }
    assert forall|a: int, b: int| 0 <= a < b < after.submissions.len() implies !(
    #[trigger] after.submissions[a]).is_for(
        (#[trigger] after.submissions[b]).mission_id,
        after.submissions[b].hunter@,
    ) by {
        assert(!state.submissions[a].is_for(
            state.submissions[b].mission_id,
            state.submissions[b].hunter@,
        ));
    }
    assert forall|i: int| 0 <= i < after.missions.len() implies mission_ok(
        #[trigger] after.missions[i],
    ) && after.missions[i].id == i + 1 by {
        assert(mission_ok(state.missions[i]));
    }
}

} // verus!
