//! The ledger as a mathematical value: what its records are, when they are
//! consistent, and how much escrow they account for.

use vstd::prelude::*;
use crate::types::{Address, Mission, MissionStatus, Submission, SubmissionStatus, Transfer};

verus! {

/// The records of the ledger.
///
/// Missions are never deleted and carry the identities `1, 2, 3, ...` in
/// the order of their creation, so the mission with identity `id` stands at
/// position `id - 1`.
pub struct State {
    pub missions: Seq<Mission>,
    pub submissions: Seq<Submission>,
    pub treasury: Option<Address>,
}

/// The sum of a sequence of integers.
pub open spec fn sum(s: Seq<int>) -> int
    decreases s.len(),
{
    if s.len() == 0 {
        0
    } else {
        sum(s.drop_last()) + s.last()
    }
}

/// What `mission` holds in escrow of `token`.
pub open spec fn pool_in(mission: Mission, token: Seq<char>) -> int {
    if mission.reward_token@ == token {
        mission.pool()
    } else {
        0
    }
}

/// What escrow holds of `token` as the stake of `submission`.
pub open spec fn stake_in(submission: Submission, token: Seq<char>) -> int {
    if submission.stake_token@ == token {
        submission.escrowed()
    } else {
        0
    }
}

/// The reward pools that `missions` hold in escrow of `token`.
pub open spec fn pools(missions: Seq<Mission>, token: Seq<char>) -> int {
    sum(missions.map_values(|m: Mission| pool_in(m, token)))
}

/// The stakes that `submissions` hold in escrow of `token`.
pub open spec fn stakes(submissions: Seq<Submission>, token: Seq<char>) -> int {
    sum(submissions.map_values(|s: Submission| stake_in(s, token)))
}

/// By how much executing `transfers` raises the escrow balance of `token`.
pub open spec fn net_inflow(transfers: Seq<Transfer>, token: Seq<char>) -> int {
    sum(transfers.map_values(|t: Transfer| t.inflow(token)))
}

/// Whether a mission record is consistent on its own.
pub open spec fn mission_ok(mission: Mission) -> bool {
    &&& mission.reward_amount > 0
    &&& mission.participants_count <= mission.max_participants
    &&& mission.reward_amount * mission.max_participants <= i128::MAX
    &&& mission.gated() ==> mission.min_asset_amount > 0
}

/// Whether a submission record is consistent with the missions.
pub open spec fn submission_ok(submission: Submission, missions: Seq<Mission>) -> bool {
    &&& 1 <= submission.mission_id <= missions.len()
    &&& submission.stake_amount > 0
    &&& submission.stake_held ==> submission.status == SubmissionStatus::Pending
    &&& submission.status == SubmissionStatus::Pending ==> missions[submission.mission_id
        - 1].status != MissionStatus::Cancelled
}

/// Whether no two of `submissions` belong to the same mission and hunter.
pub open spec fn distinct(submissions: Seq<Submission>) -> bool {
    forall|a: int, b: int|
        0 <= a < b < submissions.len() ==> !(#[trigger] submissions[a]).is_for(
            (#[trigger] submissions[b]).mission_id,
            submissions[b].hunter@,
        )
}

impl State {
    /// The ledger before anything has happened.
    pub open spec fn empty() -> State {
        State { missions: Seq::empty(), submissions: Seq::empty(), treasury: None }
    }

    /// Whether the records are consistent.
    pub open spec fn wf(self) -> bool {
        &&& self.missions.len() <= u64::MAX
        &&& forall|i: int|
            0 <= i < self.missions.len() ==> (#[trigger] self.missions[i]).id == i + 1
        &&& forall|i: int| 0 <= i < self.missions.len() ==> mission_ok(#[trigger] self.missions[i])
        &&& forall|j: int|
            0 <= j < self.submissions.len() ==> submission_ok(
                #[trigger] self.submissions[j],
                self.missions,
            )
        &&& distinct(self.submissions)
    }

    /// Whether a mission with this identity was created.
    pub open spec fn has_mission(self, id: u64) -> bool {
        1 <= id <= self.missions.len()
    }

    /// The mission with this identity.
    pub open spec fn mission(self, id: u64) -> Mission
        recommends
            self.has_mission(id),
    {
        self.missions[id - 1]
    }

    /// Whether `hunter` has a submission on record for the mission.
    pub open spec fn has_submission(self, mission_id: u64, hunter: Seq<char>) -> bool {
        exists|j: int|
            0 <= j < self.submissions.len() && (#[trigger] self.submissions[j]).is_for(
                mission_id,
                hunter,
            )
    }

    /// Where the submission of `hunter` for the mission stands.
    pub open spec fn submission_index(self, mission_id: u64, hunter: Seq<char>) -> int
        recommends
            self.has_submission(mission_id, hunter),
    {
        choose|j: int|
            0 <= j < self.submissions.len() && (#[trigger] self.submissions[j]).is_for(
                mission_id,
                hunter,
            )
    }

    /// The submission of `hunter` for the mission.
    pub open spec fn submission(self, mission_id: u64, hunter: Seq<char>) -> Submission
        recommends
            self.has_submission(mission_id, hunter),
    {
        self.submissions[self.submission_index(mission_id, hunter)]
    }

    /// What the records account for in escrow of `token`: the unpaid part
    /// of every reward pool and every stake that is still held.
    pub open spec fn escrow(self, token: Seq<char>) -> int {
        pools(self.missions, token) + stakes(self.submissions, token)
    }
}

/// Appending a term adds it to the sum.
pub(crate) proof fn lemma_sum_push(s: Seq<int>, x: int)
    ensures
        sum(s.push(x)) == sum(s) + x,
{
    assert(s.push(x).drop_last() =~= s);
}

/// Replacing a term changes the sum by the difference.
pub(crate) proof fn lemma_sum_update(s: Seq<int>, i: int, x: int)
    requires
        0 <= i < s.len(),
    ensures
        sum(s.update(i, x)) == sum(s) - s[i] + x,
    decreases s.len(),
{
    if i == s.len() - 1 {
        assert(s.update(i, x).drop_last() =~= s.drop_last());
    } else {
        assert(s.update(i, x).drop_last() =~= s.drop_last().update(i, x));
        lemma_sum_update(s.drop_last(), i, x);
    }
}

/// A sum of terms that are not negative is not negative.
pub(crate) proof fn lemma_sum_nonnegative(s: Seq<int>)
    requires
        forall|i: int| 0 <= i < s.len() ==> s[i] >= 0,
    ensures
        sum(s) >= 0,
    decreases s.len(),
{
    if s.len() > 0 {
        lemma_sum_nonnegative(s.drop_last());
    }
}

/// The sum of two sequences laid end to end.
pub(crate) proof fn lemma_sum_concat(s: Seq<int>, t: Seq<int>)
    ensures
        sum(s + t) == sum(s) + sum(t),
    decreases t.len(),
{
    if t.len() == 0 {
        assert(s + t =~= s);
    } else {
        assert((s + t).drop_last() =~= s + t.drop_last());
        lemma_sum_concat(s, t.drop_last());
    }
}

/// The inflow of two lists of transfers laid end to end.
pub(crate) proof fn lemma_inflow_concat(
    first: Seq<Transfer>,
    second: Seq<Transfer>,
    token: Seq<char>,
)
    ensures
        net_inflow(first + second, token) == net_inflow(first, token) + net_inflow(second, token),
{
    let f = |t: Transfer| t.inflow(token);
    assert((first + second).map_values(f) =~= first.map_values(f) + second.map_values(f));
    lemma_sum_concat(first.map_values(f), second.map_values(f));
}

/// The escrow of the pools after a mission was appended.
pub(crate) proof fn lemma_pools_push(missions: Seq<Mission>, mission: Mission, token: Seq<char>)
    ensures
        pools(missions.push(mission), token) == pools(missions, token) + pool_in(mission, token),
{
    let f = |m: Mission| pool_in(m, token);
    assert(missions.push(mission).map_values(f) =~= missions.map_values(f).push(f(mission)));
    lemma_sum_push(missions.map_values(f), f(mission));
}

/// The escrow of the pools after a mission was replaced.
pub(crate) proof fn lemma_pools_update(
    missions: Seq<Mission>,
    i: int,
    mission: Mission,
    token: Seq<char>,
)
    requires
        0 <= i < missions.len(),
    ensures
        pools(missions.update(i, mission), token) == pools(missions, token) - pool_in(
            missions[i],
            token,
        ) + pool_in(mission, token),
{
    let f = |m: Mission| pool_in(m, token);
    assert(missions.update(i, mission).map_values(f) =~= missions.map_values(f).update(
        i,
        f(mission),
    ));
    lemma_sum_update(missions.map_values(f), i, f(mission));
}

/// The escrow of the stakes after a submission was appended.
pub(crate) proof fn lemma_stakes_push(
    submissions: Seq<Submission>,
    submission: Submission,
    token: Seq<char>,
)
    ensures
        stakes(submissions.push(submission), token) == stakes(submissions, token) + stake_in(
            submission,
            token,
        ),
{
    let f = |s: Submission| stake_in(s, token);
    assert(submissions.push(submission).map_values(f) =~= submissions.map_values(f).push(
        f(submission),
    ));
    lemma_sum_push(submissions.map_values(f), f(submission));
}

/// The escrow of the stakes after a submission was replaced.
pub(crate) proof fn lemma_stakes_update(
    submissions: Seq<Submission>,
    j: int,
    submission: Submission,
    token: Seq<char>,
)
    requires
        0 <= j < submissions.len(),
    ensures
        stakes(submissions.update(j, submission), token) == stakes(submissions, token) - stake_in(
            submissions[j],
            token,
        ) + stake_in(submission, token),
{
    let f = |s: Submission| stake_in(s, token);
    assert(submissions.update(j, submission).map_values(f) =~= submissions.map_values(f).update(
        j,
        f(submission),
    ));
    lemma_sum_update(submissions.map_values(f), j, f(submission));
}

/// The inflow of a list of transfers after one more was appended.
pub(crate) proof fn lemma_inflow_push(
    transfers: Seq<Transfer>,
    transfer: Transfer,
    token: Seq<char>,
)
    ensures
        net_inflow(transfers.push(transfer), token) == net_inflow(transfers, token)
            + transfer.inflow(token),
{
    let f = |t: Transfer| t.inflow(token);
    assert(transfers.push(transfer).map_values(f) =~= transfers.map_values(f).push(f(transfer)));
    lemma_sum_push(transfers.map_values(f), f(transfer));
}

/// The inflow of no transfer, of one and of two.
pub(crate) proof fn lemma_inflow_small(first: Transfer, second: Transfer, token: Seq<char>)
    ensures
        net_inflow(Seq::empty(), token) == 0,
        net_inflow(seq![first], token) == first.inflow(token),
        net_inflow(seq![first, second], token) == first.inflow(token) + second.inflow(token),
{
    let f = |t: Transfer| t.inflow(token);
    assert(Seq::<Transfer>::empty().map_values(f) =~= Seq::<int>::empty());
    assert(seq![first] =~= Seq::<Transfer>::empty().push(first));
    lemma_inflow_push(Seq::empty(), first, token);
    assert(seq![first, second] =~= seq![first].push(second));
    lemma_inflow_push(seq![first], second, token);
}

/// In a consistent ledger a hunter's submission for a mission stands at
/// exactly one position.
pub(crate) proof fn lemma_submission_at(state: State, j: int)
    requires
        distinct(state.submissions),
        0 <= j < state.submissions.len(),
    ensures
        state.has_submission(state.submissions[j].mission_id, state.submissions[j].hunter@),
        state.submission_index(state.submissions[j].mission_id, state.submissions[j].hunter@)
            == j,
{
    let s = state.submissions[j];
    assert(s.is_for(s.mission_id, s.hunter@));
    let k = state.submission_index(s.mission_id, s.hunter@);
    assert(state.submissions[k].is_for(s.mission_id, s.hunter@));
    if k < j {
        assert(!state.submissions[k].is_for(s.mission_id, s.hunter@));
    } else if j < k {
        let t = state.submissions[k];
        assert(!s.is_for(t.mission_id, t.hunter@));
    }
}

} // verus!
