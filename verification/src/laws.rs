//! What holds of the ledger under every sequence of operations.
//!
//! The laws are proved of the step function `State::next`, which every
//! operation of the engine follows: a step keeps the records consistent,
//! the transfers it asks for are exactly the change of the escrow that the
//! records account for, and a resolved submission stays resolved.

use vstd::prelude::*;
use crate::model::{
    lemma_inflow_concat, lemma_inflow_push, lemma_inflow_small, lemma_pools_push,
    lemma_pools_update, lemma_stakes_push, lemma_stakes_update, lemma_submission_at,
    lemma_sum_nonnegative, mission_ok, net_inflow, pool_in, stake_in, stakes, submission_ok,
    State,
};
use crate::rules::{
    lemma_cancel_wf, lemma_create_wf, lemma_payout_wf, lemma_replaced_wf, lemma_status_wf,
    lemma_submit_wf, lemma_surviving_keeps, lemma_sweep_nothing, lemma_sweep_unfolds,
    new_submission, pool_deposit, refunds, stake_deposit, stake_refund, surviving, swept_by,
    Operation,
};
use crate::types::{
    Address, Error, MinAsset, Mission, MissionStatus, Reward, Submission, Transfer,
};

verus! {

/// Every operation leaves consistent records consistent.
pub proof fn step_keeps_consistency(state: State, op: Operation)
    requires
        state.wf(),
        state.admits(op),
    ensures
        state.next(op).wf(),
{
    if state.rejection(op) is None {
        match op {
            Operation::CreateMission {
                owner,
                title,
                description,
                reward,
                max_participants,
                min_asset,
            } => {
                let mission = state.new_mission(
                    owner,
                    title,
                    description,
                    reward,
                    max_participants,
                    min_asset,
                );
                lemma_create_wf(state, mission);
            },
            Operation::PauseMission { id } => {
                lemma_status_wf(state, id, MissionStatus::Paused);
            },
            Operation::ResumeMission { id } => {
                lemma_status_wf(state, id, MissionStatus::Open);
            },
            Operation::CancelMission { id } => {
                lemma_cancel_wf(state, id);
            },
            Operation::SubmitFeedback {
                mission_id,
                hunter,
                content_id,
                stake_token,
                stake_amount,
                gate_balance,
            } => {
                lemma_submit_wf(
                    state,
                    mission_id,
                    hunter,
                    content_id,
                    stake_token,
                    stake_amount,
                    gate_balance,
                );
            },
            Operation::UpdateSubmission { mission_id, hunter, new_content_id } => {
                let j = state.submission_index(mission_id, hunter@);
                let after = state.after_update(mission_id, hunter, new_content_id);
                lemma_replaced_wf(state, j, after.submissions[j]);
            },
            Operation::PayoutParticipant { mission_id, hunter } => {
                lemma_payout_wf(state, mission_id, hunter);
            },
            Operation::SlashHunterStake { mission_id, hunter, .. } => {
                lemma_replaced_wf(
                    state,
                    state.submission_index(mission_id, hunter@),
                    Submission { stake_held: false, ..state.submission(mission_id, hunter@) },
                );
            },
            Operation::SetTreasury { .. } => {},
        }
    }
}

/// The stakes that a cancellation takes off the records are the stakes
/// that it refunds.
proof fn lemma_sweep_conserves(submissions: Seq<Submission>, id: u64, token: Seq<char>)
    ensures
        stakes(surviving(submissions, id), token) == stakes(submissions, token) + net_inflow(
            refunds(submissions, id),
            token,
        ),
    decreases submissions.len(),
{
    if submissions.len() == 0 {
        lemma_sweep_nothing(id);
        lemma_inflow_small(arbitrary(), arbitrary(), token);
    } else {
        let rest = submissions.drop_last();
        let last = submissions.last();
        lemma_sweep_unfolds(submissions, id);
        assert(submissions =~= rest.push(last));
        lemma_sweep_conserves(rest, id, token);
        lemma_stakes_push(rest, last, token);
        if swept_by(last, id) {
            if last.stake_held {
                lemma_inflow_push(refunds(rest, id), stake_refund(last), token);
            }
        } else {
            lemma_stakes_push(surviving(rest, id), last, token);
        }
    }
}

/// The pool of a consistent mission can be written down.
proof fn lemma_pool_fits(mission: Mission)
    requires
        mission.reward_amount > 0,
        mission.participants_count <= mission.max_participants,
        mission.reward_amount * mission.max_participants <= i128::MAX,
    ensures
        0 <= mission.pool() <= i128::MAX,
        mission.status != MissionStatus::Cancelled && mission.participants_count
            < mission.max_participants ==> mission.pool() == mission.reward_amount
            * (mission.max_participants - (mission.participants_count + 1))
            + mission.reward_amount,
{
    let r = mission.reward_amount as int;
    let m = mission.max_participants as int;
    let c = mission.participants_count as int;
    assert(0 <= r * (m - c) <= r * m) by (nonlinear_arith)
        requires
            r > 0,
            0 <= c <= m,
    ;
    assert(r * (m - c) == r * (m - (c + 1)) + r) by (nonlinear_arith);
}

/// Conservation of funds: what an operation moves into escrow, less what
/// it moves out, is exactly the change of what the records account for.
///
/// The records account for `reward_amount * (max_participants -
/// participants_count)` for every mission that is not cancelled, nothing
/// for a cancelled one, and for every stake that is still held.
pub proof fn step_conserves_escrow(state: State, op: Operation, token: Seq<char>)
    requires
        state.wf(),
        state.admits(op),
    ensures
        state.next(op).escrow(token) == state.escrow(token) + net_inflow(
            state.transfers(op),
            token,
        ),
{
    lemma_inflow_small(arbitrary(), arbitrary(), token);
    if state.rejection(op) is None {
        match op {
            Operation::CreateMission {
                owner,
                title,
                description,
                reward,
                max_participants,
                min_asset,
            } => {
                let mission = state.new_mission(
                    owner,
                    title,
                    description,
                    reward,
                    max_participants,
                    min_asset,
                );
                lemma_pool_fits(mission);
                lemma_pools_push(state.missions, mission, token);
                lemma_inflow_small(state.transfers(op)[0], arbitrary(), token);
                assert(state.transfers(op) =~= seq![state.transfers(op)[0]]);
            },
            Operation::PauseMission { id } => {
                lemma_pools_update(
                    state.missions,
                    id - 1,
                    state.with_status(id, MissionStatus::Paused).mission(id),
                    token,
                );
            },
            Operation::ResumeMission { id } => {
                lemma_pools_update(
                    state.missions,
                    id - 1,
                    state.with_status(id, MissionStatus::Open).mission(id),
                    token,
                );
            },
            Operation::CancelMission { id } => {
                lemma_pool_fits(state.mission(id));
                let after = state.after_cancel(id);
                lemma_pools_update(state.missions, id - 1, after.mission(id), token);
                lemma_sweep_conserves(state.submissions, id, token);
                let stakes_back = refunds(state.submissions, id);
                lemma_inflow_concat(seq![state.pool_refund(id)], stakes_back, token);
                lemma_inflow_small(state.pool_refund(id), arbitrary(), token);
            },
            Operation::SubmitFeedback {
                mission_id,
                hunter,
                content_id,
                stake_token,
                stake_amount,
                ..
            } => {
                let added = new_submission(
                    mission_id,
                    hunter,
                    content_id,
                    stake_token,
                    stake_amount,
                );
                lemma_stakes_push(state.submissions, added, token);
                lemma_inflow_small(stake_deposit(added), arbitrary(), token);
            },
            Operation::UpdateSubmission { mission_id, hunter, new_content_id } => {
                let j = state.submission_index(mission_id, hunter@);
                lemma_stakes_update(
                    state.submissions,
                    j,
                    state.after_update(mission_id, hunter, new_content_id).submissions[j],
                    token,
                );
            },
            Operation::PayoutParticipant { mission_id, hunter } => {
                let j = state.submission_index(mission_id, hunter@);
                let after = state.after_payout(mission_id, hunter);
                lemma_pool_fits(state.mission(mission_id));
                let paid = after.mission(mission_id);
                lemma_pools_update(state.missions, mission_id - 1, paid, token);
                lemma_stakes_update(state.submissions, j, after.submissions[j], token);
                lemma_inflow_small(
                    state.reward_payment(mission_id, hunter),
                    stake_refund(state.submission(mission_id, hunter@)),
                    token,
                );
                assert(submission_ok(state.submissions[j], state.missions));
            },
            Operation::SlashHunterStake { mission_id, hunter, .. } => {
                let j = state.submission_index(mission_id, hunter@);
                lemma_stakes_update(
                    state.submissions,
                    j,
                    state.after_slash(mission_id, hunter).submissions[j],
                    token,
                );
                lemma_inflow_small(state.slash_transfer(mission_id, hunter), arbitrary(), token);
            },
            Operation::SetTreasury { .. } => {},
        }
    }
}

impl State {
    /// Whether the operation takes the submission of `hunter` for the
    /// mission off the records. Only the cancellation of its mission does,
    /// and only while the submission is pending.
    pub open spec fn removes(self, op: Operation, mission_id: u64, hunter: Seq<char>) -> bool {
        match op {
            Operation::CancelMission { id } => self.rejection(op) is None && swept_by(
                self.submission(mission_id, hunter),
                id,
            ),
            _ => false,
        }
    }
}

/// A submission stays on record under every operation that does not
/// remove it, and once it is paid it stays paid.
pub proof fn submission_stays_on_record(
    state: State,
    op: Operation,
    mission_id: u64,
    hunter: Seq<char>,
)
    requires
        state.wf(),
        state.admits(op),
        state.has_submission(mission_id, hunter),
        !state.removes(op, mission_id, hunter),
    ensures
        state.next(op).has_submission(mission_id, hunter),
        state.is_paid(mission_id, hunter) ==> state.next(op).is_paid(mission_id, hunter),
{
    let after = state.next(op);
    let j = state.submission_index(mission_id, hunter);
    let x = state.submissions[j];
    step_keeps_consistency(state, op);
    if state.rejection(op) is None {
        match op {
            Operation::CancelMission { id } => {
                lemma_surviving_keeps(state.submissions, id, j);
                let kept = after.submissions;
                let k = choose|k: int| 0 <= k < kept.len() && kept[k] == x;
                assert(after.submissions[k].is_for(mission_id, hunter));
                lemma_submission_at(after, k);
            },
            Operation::SubmitFeedback { .. } => {
                assert(after.submissions[j] == x);
                assert(after.submissions[j].is_for(mission_id, hunter));
                lemma_submission_at(after, j);
            },
            Operation::UpdateSubmission { mission_id: m, hunter: h, .. } => {
                lemma_submission_at(state, state.submission_index(m, h@));
                assert(after.submissions[j].is_for(mission_id, hunter));
                lemma_submission_at(after, j);
            },
            Operation::PayoutParticipant { mission_id: m, hunter: h } => {
                lemma_submission_at(state, state.submission_index(m, h@));
                assert(after.submissions[j].is_for(mission_id, hunter));
                lemma_submission_at(after, j);
            },
            Operation::SlashHunterStake { mission_id: m, hunter: h, .. } => {
                lemma_submission_at(state, state.submission_index(m, h@));
                assert(after.submissions[j].is_for(mission_id, hunter));
                lemma_submission_at(after, j);
            },
            _ => {
                assert(after.submissions == state.submissions);
            },
        }
    }
}

/// While a hunter's submission for a mission is on record, every further
/// submission of that hunter for that mission is rejected as a duplicate,
/// whatever else it says.
pub proof fn second_submission_is_duplicate(
    state: State,
    mission_id: u64,
    hunter: Address,
    stake_amount: i128,
    gate_balance: i128,
)
    requires
        state.wf(),
        state.has_submission(mission_id, hunter@),
    ensures
        state.submit_rejection(mission_id, hunter, stake_amount, gate_balance) == Some(
            Error::DuplicateSubmission,
        ),
{
    let j = state.submission_index(mission_id, hunter@);
    assert(submission_ok(state.submissions[j], state.missions));
}

/// An accepted submission is on record afterwards.
pub proof fn submission_is_recorded(
    state: State,
    mission_id: u64,
    hunter: Address,
    content_id: String,
    stake_token: Address,
    stake_amount: i128,
    gate_balance: i128,
)
    requires
        state.wf(),
        state.submit_rejection(mission_id, hunter, stake_amount, gate_balance) is None,
    ensures
        state.with_submission(
            new_submission(mission_id, hunter, content_id, stake_token, stake_amount),
        ).has_submission(mission_id, hunter@),
{
    let after = state.with_submission(
        new_submission(mission_id, hunter, content_id, stake_token, stake_amount),
    );
    assert(after.submissions[state.submissions.len() as int].is_for(mission_id, hunter@));
}

/// A payout marks the submission as paid.
pub proof fn payout_marks_paid(state: State, mission_id: u64, hunter: Address)
    requires
        state.wf(),
        state.payout_rejection(mission_id, hunter) is None,
    ensures
        state.after_payout(mission_id, hunter).is_paid(mission_id, hunter@),
{
    let after = state.after_payout(mission_id, hunter);
    let j = state.submission_index(mission_id, hunter@);
    lemma_payout_wf(state, mission_id, hunter);
    assert(after.submissions[j].is_for(mission_id, hunter@));
    lemma_submission_at(after, j);
}

/// A submission that was paid is never paid again: every further payout
/// for the same mission and hunter is rejected as already resolved.
pub proof fn second_payout_is_rejected(state: State, mission_id: u64, hunter: Address)
    requires
        state.wf(),
        state.is_paid(mission_id, hunter@),
    ensures
        state.payout_rejection(mission_id, hunter) == Some(Error::AlreadyResolved),
{
    let j = state.submission_index(mission_id, hunter@);
    assert(submission_ok(state.submissions[j], state.missions));
}

/// A stake is slashed at most once: after a slash, escrow holds no stake
/// of that hunter for that mission, in whichever asset.
pub proof fn second_slash_is_rejected(
    state: State,
    mission_id: u64,
    hunter: Address,
    stake_token: Address,
    again_token: Address,
)
    requires
        state.wf(),
        state.slash_rejection(mission_id, hunter, stake_token) is None,
    ensures
        state.after_slash(mission_id, hunter).slash_rejection(mission_id, hunter, again_token)
            == Some(Error::StakeNotFound),
{
    let after = state.after_slash(mission_id, hunter);
    let j = state.submission_index(mission_id, hunter@);
    lemma_replaced_wf(state, j, after.submissions[j]);
    assert(after.submissions[j].is_for(mission_id, hunter@));
    lemma_submission_at(after, j);
}

/// The gating threshold of a mission is inclusive. A submission that
/// nothing else speaks against is accepted with a balance equal to the
/// threshold, and rejected for an insufficient balance with one unit less.
pub proof fn gate_threshold_is_inclusive(
    state: State,
    mission_id: u64,
    hunter: Address,
    stake_amount: i128,
)
    requires
        state.wf(),
        state.has_mission(mission_id),
        state.mission(mission_id).gated(),
        state.mission(mission_id).status == MissionStatus::Open,
        !state.has_submission(mission_id, hunter@),
        stake_amount > 0,
    ensures
        state.submit_rejection(
            mission_id,
            hunter,
            stake_amount,
            state.mission(mission_id).min_asset_amount,
        ) is None,
        state.submit_rejection(
            mission_id,
            hunter,
            stake_amount,
            (state.mission(mission_id).min_asset_amount - 1) as i128,
        ) == Some(Error::InsufficientGatingBalance),
{
    assert(mission_ok(state.missions[mission_id - 1]));
}

/// A cancellation settles the mission: its pool is empty, none of its
/// submissions holds a stake any more, and it cannot be cancelled again.
pub proof fn cancel_settles_mission(state: State, id: u64)
    requires
        state.wf(),
        state.status_rejection(id) is None,
    ensures
        state.after_cancel(id).mission(id).pool() == 0,
        forall|k: int|
            0 <= k < state.after_cancel(id).submissions.len() && (
            #[trigger] state.after_cancel(id).submissions[k]).mission_id == id
                ==> state.after_cancel(id).submissions[k].escrowed() == 0,
        state.after_cancel(id).status_rejection(id) == Some(Error::MissionNotOpen),
{
    let after = state.after_cancel(id);
    lemma_cancel_wf(state, id);
    assert forall|k: int|
        0 <= k < after.submissions.len() && (#[trigger] after.submissions[k]).mission_id
            == id implies after.submissions[k].escrowed() == 0 by {
        assert(submission_ok(after.submissions[k], after.missions));
    }
}

/// A mission is never deleted and keeps its terms: under every operation
/// it stays on record under its identity, with the same owner, reward and
/// number of slots. The number of hunters paid never goes down, and a
/// cancelled mission stays cancelled.
pub proof fn mission_stays_on_record(state: State, op: Operation, id: u64)
    requires
        state.wf(),
        state.admits(op),
        state.has_mission(id),
    ensures
        state.next(op).has_mission(id),
        state.next(op).mission(id).id == id,
        state.next(op).mission(id).owner == state.mission(id).owner,
        state.next(op).mission(id).reward_token == state.mission(id).reward_token,
        state.next(op).mission(id).reward_amount == state.mission(id).reward_amount,
        state.next(op).mission(id).max_participants == state.mission(id).max_participants,
        state.next(op).mission(id).participants_count >= state.mission(id).participants_count,
        state.mission(id).status == MissionStatus::Cancelled ==> state.next(op).mission(id).status
            == MissionStatus::Cancelled,
{
    assert(mission_ok(state.missions[id - 1]));
    step_keeps_consistency(state, op);
    if state.rejection(op) is None {
        match op {
            Operation::PayoutParticipant { mission_id, hunter } => {
                let j = state.submission_index(mission_id, hunter@);
                assert(submission_ok(state.submissions[j], state.missions));
            },
            _ => {},
        }
    }
}

/// The records never account for a negative escrow. Together with the
/// conservation of funds this means that the engine never asks for more
/// out of escrow than was paid in.
pub proof fn escrow_is_never_negative(state: State, token: Seq<char>)
    requires
        state.wf(),
    ensures
        state.escrow(token) >= 0,
{
    let pool = |m: Mission| pool_in(m, token);
    let stake = |s: Submission| stake_in(s, token);
    assert forall|i: int| 0 <= i < state.missions.len() implies state.missions.map_values(
        pool,
    )[i] >= 0 by {
        assert(mission_ok(state.missions[i]));
        lemma_pool_fits(state.missions[i]);
    }
    assert forall|j: int| 0 <= j < state.submissions.len() implies state.submissions.map_values(
        stake,
    )[j] >= 0 by {
        assert(submission_ok(state.submissions[j], state.missions));
    }
    lemma_sum_nonnegative(state.missions.map_values(pool));
    lemma_sum_nonnegative(state.submissions.map_values(stake));
}

impl State {
    /// The ledger after the operations `ops`, one after the other.
    pub open spec fn after(self, ops: Seq<Operation>) -> State
        decreases ops.len(),
    {
        if ops.len() == 0 {
            self
        } else {
            self.after(ops.drop_last()).next(ops.last())
        }
    }

    /// All the transfers that the operations `ops` ask for, in their order.
    pub open spec fn asked(self, ops: Seq<Operation>) -> Seq<Transfer>
        decreases ops.len(),
    {
        if ops.len() == 0 {
            Seq::empty()
        } else {
            self.asked(ops.drop_last()) + self.after(ops.drop_last()).transfers(ops.last())
        }
    }

    /// Whether each of the operations `ops` stays within the limits of the
    /// machine when its turn comes.
    pub open spec fn admits_all(self, ops: Seq<Operation>) -> bool
        decreases ops.len(),
    {
        ops.len() == 0 || (self.admits_all(ops.drop_last()) && self.after(
            ops.drop_last(),
        ).admits(ops.last()))
    }
}

/// At every point of every history the records are consistent, and the
/// escrow they account for is what the transfers asked for so far have
/// paid in, less what they have paid out: nothing is lost, nothing is paid
/// twice. A ledger that starts empty with an empty escrow account
/// therefore always accounts for exactly what the account holds.
pub proof fn history_conserves_escrow(state: State, ops: Seq<Operation>, token: Seq<char>)
    requires
        state.wf(),
        state.admits_all(ops),
    ensures
        state.after(ops).wf(),
        state.after(ops).escrow(token) == state.escrow(token) + net_inflow(
            state.asked(ops),
            token,
        ),
        net_inflow(state.asked(ops), token) >= -state.escrow(token),
    decreases ops.len(),
{
    if ops.len() == 0 {
        lemma_inflow_small(arbitrary(), arbitrary(), token);
    } else {
        let before = state.after(ops.drop_last());
        history_conserves_escrow(state, ops.drop_last(), token);
        step_keeps_consistency(before, ops.last());
        step_conserves_escrow(before, ops.last(), token);
        lemma_inflow_concat(state.asked(ops.drop_last()), before.transfers(ops.last()), token);
    }
    escrow_is_never_negative(state.after(ops), token);
}

impl State {
    /// What the operation pays out of the reward pool of the mission `id`:
    /// one reward when it pays out a hunter of that mission, the whole
    /// remaining pool when it cancels the mission, and nothing otherwise.
    pub open spec fn paid_from_pool(self, op: Operation, id: u64) -> int {
        if self.rejection(op) is Some {
            0
        } else {
            match op {
                Operation::PayoutParticipant { mission_id, .. } => if mission_id == id {
                    self.mission(id).reward_amount as int
                } else {
                    0
                },
                Operation::CancelMission { id: cancelled } => if cancelled == id {
                    self.mission(id).pool()
                } else {
                    0
                },
                _ => 0,
            }
        }
    }
}

/// The reward pool of a new mission is the deposit that its creation asks
/// for: one reward for each slot.
pub proof fn pool_starts_with_the_deposit(
    state: State,
    owner: Address,
    title: String,
    description: String,
    reward: Reward,
    max_participants: u32,
    min_asset: MinAsset,
)
    requires
        State::create_rejection(reward, min_asset) is None,
        reward.reward_amount * max_participants <= i128::MAX,
    ensures
        ({
            let mission = state.new_mission(
                owner,
                title,
                description,
                reward,
                max_participants,
                min_asset,
            );
            &&& mission.pool() == reward.reward_amount * max_participants
            &&& pool_deposit(mission).amount == mission.pool()
        }),
{
    let mission = state.new_mission(
        owner,
        title,
        description,
        reward,
        max_participants,
        min_asset,
    );
    lemma_pool_fits(mission);
}

/// The reward pool of a mission changes only by what is paid out of it,
/// and what is paid out of it is what the transfers carry. So as long as
/// the mission is not cancelled, its share of the escrow is always
/// `reward_amount * (max_participants - participants_count)`.
pub proof fn pool_follows_payments(state: State, op: Operation, id: u64)
    requires
        state.wf(),
        state.admits(op),
        state.has_mission(id),
    ensures
        state.next(op).mission(id).pool() == state.mission(id).pool() - state.paid_from_pool(
            op,
            id,
        ),
        state.mission(id).status != MissionStatus::Cancelled ==> state.mission(id).pool()
            == state.mission(id).reward_amount * (state.mission(id).max_participants
            - state.mission(id).participants_count),
        state.rejection(op) is None ==> match op {
            Operation::PayoutParticipant { mission_id, hunter } => state.reward_payment(
                mission_id,
                hunter,
            ).amount == state.paid_from_pool(op, mission_id),
            Operation::CancelMission { id: cancelled } => state.pool_refund(cancelled).amount
                == state.paid_from_pool(op, cancelled),
            _ => true,
        },
{
    assert(mission_ok(state.missions[id - 1]));
    lemma_pool_fits(state.mission(id));
    if state.rejection(op) is None {
        match op {
            Operation::PayoutParticipant { mission_id, hunter } => {
                let j = state.submission_index(mission_id, hunter@);
                assert(submission_ok(state.submissions[j], state.missions));
                assert(mission_ok(state.missions[mission_id - 1]));
                lemma_pool_fits(state.mission(mission_id));
            },
            Operation::CancelMission { id: cancelled } => {
                assert(mission_ok(state.missions[cancelled - 1]));
                lemma_pool_fits(state.mission(cancelled));
            },
            _ => {},
        }
    }
}

} // verus!
