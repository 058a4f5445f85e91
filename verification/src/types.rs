//! The records of the ledger and the values that cross its boundary.

use vstd::prelude::*;

verus! {

/// A principal or an asset, identified by its textual key.
///
/// Two addresses denote the same party exactly when their keys hold the same
/// characters, which is what the view exposes.
#[derive(Debug, PartialEq, Eq)]
pub struct Address {
    pub key: String,
}

impl View for Address {
    type V = Seq<char>;

    open spec fn view(&self) -> Seq<char> {
        self.key@
    }
}

impl Clone for Address {
    fn clone(&self) -> (r: Address)
        ensures
            r == *self,
    {
        Address { key: self.key.clone() }
    }
}

impl Address {
    /// Wraps an owned key.
    pub fn new(key: String) -> (r: Address)
        ensures
            r.key == key,
    {
        Address { key }
    }

    /// Copies a borrowed key.
    pub fn from_str(key: &str) -> (r: Address)
        ensures
            r@ == key@,
    {
        Address { key: key.to_owned() }
    }

    /// The key as text.
    pub fn as_str(&self) -> (r: &str)
        ensures
            r@ == self@,
    {
        self.key.as_str()
    }

    /// Whether both addresses denote the same party.
    pub fn same(&self, other: &Address) -> (r: bool)
        ensures
            r == (self@ == other@),
    {
        self.key == other.key
    }
}

/// Lifecycle of a mission. `Cancelled` is terminal.
#[derive(Clone, Copy, Debug, PartialEq, Eq, Structural)]
pub enum MissionStatus {
    Open,
    Paused,
    Cancelled,
}

/// Resolution of a submission.
#[derive(Clone, Copy, Debug, PartialEq, Eq, Structural)]
pub enum SubmissionStatus {
    Pending,
    Paid,
}

/// Why an operation was rejected. A rejected operation changes nothing.
#[derive(Clone, Copy, Debug, PartialEq, Eq, Structural)]
pub enum Error {
    MissionNotFound,
    MissionFull,
    DuplicateSubmission,
    InvalidReward,
    AlreadyResolved,
    MissionNotOpen,
    SubmissionNotFound,
    InvalidStakeAmount,
    TreasuryNotSet,
    StakeNotFound,
    InsufficientGatingBalance,
}

impl Error {
    /// The stable number under which callers of the deployed service see
    /// this kind of failure.
    pub open spec fn spec_code(self) -> u32 {
        match self {
            Error::MissionNotFound => 1,
            Error::MissionFull => 2,
            Error::DuplicateSubmission => 4,
            Error::InvalidReward => 7,
            Error::AlreadyResolved => 9,
            Error::MissionNotOpen => 10,
            Error::SubmissionNotFound => 11,
            Error::InvalidStakeAmount => 13,
            Error::TreasuryNotSet => 14,
            Error::StakeNotFound => 15,
            Error::InsufficientGatingBalance => 16,
        }
    }

    /// See [`Error::spec_code`].
    pub fn code(self) -> (r: u32)
        ensures
            r == self.spec_code(),
    {
        match self {
            Error::MissionNotFound => 1,
            Error::MissionFull => 2,
            Error::DuplicateSubmission => 4,
            Error::InvalidReward => 7,
            Error::AlreadyResolved => 9,
            Error::MissionNotOpen => 10,
            Error::SubmissionNotFound => 11,
            Error::InvalidStakeAmount => 13,
            Error::TreasuryNotSet => 14,
            Error::StakeNotFound => 15,
            Error::InsufficientGatingBalance => 16,
        }
    }
}

/// The reward of a mission: the asset and the amount paid for each slot.
#[derive(Debug, PartialEq, Eq)]
pub struct Reward {
    pub reward_token: Address,
    pub reward_amount: i128,
}

impl Clone for Reward {
    fn clone(&self) -> (r: Reward)
        ensures
            r == *self,
    {
        Reward { reward_token: self.reward_token.clone(), reward_amount: self.reward_amount }
    }
}

/// The eligibility gate of a mission: hunters must hold at least
/// `min_asset_amount` of `min_asset_token`. The amount means nothing when
/// no token is given.
#[derive(Debug, PartialEq, Eq)]
pub struct MinAsset {
    pub min_asset_token: Option<Address>,
    pub min_asset_amount: i128,
}

impl Clone for MinAsset {
    fn clone(&self) -> (r: MinAsset)
        ensures
            r == *self,
    {
        let min_asset_token = match &self.min_asset_token {
            Some(token) => Some(token.clone()),
            None => None,
        };
        MinAsset { min_asset_token, min_asset_amount: self.min_asset_amount }
    }
}

/// A sponsored task with a fixed number of reward slots.
#[derive(Debug, PartialEq, Eq)]
pub struct Mission {
    pub id: u64,
    pub owner: Address,
    pub title: String,
    pub description: String,
    pub reward_token: Address,
    pub reward_amount: i128,
    pub max_participants: u32,
    /// Hunters that have been paid out, not merely submitted.
    pub participants_count: u32,
    pub status: MissionStatus,
    pub min_asset_token: Option<Address>,
    pub min_asset_amount: i128,
}

impl Mission {
    /// The part of the reward pool that is still held in escrow: one reward
    /// for every slot not yet paid out, and nothing once the mission is
    /// cancelled.
    pub open spec fn pool(self) -> int {
        if self.status == MissionStatus::Cancelled {
            0
        } else {
            self.reward_amount * (self.max_participants - self.participants_count)
        }
    }

    /// Whether the mission restricts who may submit.
    pub open spec fn gated(self) -> bool {
        self.min_asset_token is Some
    }
}

impl Clone for Mission {
    fn clone(&self) -> (r: Mission)
        ensures
            r == *self,
    {
        let min_asset_token = match &self.min_asset_token {
            Some(token) => Some(token.clone()),
            None => None,
        };
        Mission {
            id: self.id,
            owner: self.owner.clone(),
            title: self.title.clone(),
            description: self.description.clone(),
            reward_token: self.reward_token.clone(),
            reward_amount: self.reward_amount,
            max_participants: self.max_participants,
            participants_count: self.participants_count,
            status: self.status,
            min_asset_token,
            min_asset_amount: self.min_asset_amount,
        }
    }
}

/// The work one hunter handed in for one mission, with the stake posted
/// for it.
#[derive(Debug, PartialEq, Eq)]
pub struct Submission {
    pub mission_id: u64,
    pub hunter: Address,
    pub content_id: String,
    pub stake_token: Address,
    pub stake_amount: i128,
    pub status: SubmissionStatus,
    /// Whether the stake is still held in escrow. It leaves escrow when the
    /// hunter is paid out or the stake is slashed.
    pub stake_held: bool,
}

impl Submission {
    /// Whether this is the submission of `hunter` for `mission_id`.
    pub open spec fn is_for(self, mission_id: u64, hunter: Seq<char>) -> bool {
        self.mission_id == mission_id && self.hunter@ == hunter
    }

    /// The stake that escrow holds for this submission.
    pub open spec fn escrowed(self) -> int {
        if self.stake_held {
            self.stake_amount as int
        } else {
            0
        }
    }
}

impl Clone for Submission {
    fn clone(&self) -> (r: Submission)
        ensures
            r == *self,
    {
        Submission {
            mission_id: self.mission_id,
            hunter: self.hunter.clone(),
            content_id: self.content_id.clone(),
            stake_token: self.stake_token.clone(),
            stake_amount: self.stake_amount,
            status: self.status,
            stake_held: self.stake_held,
        }
    }
}

/// One end of a transfer.
#[derive(Debug, PartialEq, Eq)]
pub enum Party {
    /// The account in which the engine's funds are held.
    Escrow,
    /// Any other principal.
    Account(Address),
}

impl Clone for Party {
    fn clone(&self) -> (r: Party)
        ensures
            r == *self,
    {
        match self {
            Party::Escrow => Party::Escrow,
            Party::Account(address) => Party::Account(address.clone()),
        }
    }
}

/// A movement of funds that the caller has to execute against the token
/// service as part of the operation that returned it.
#[derive(Debug, PartialEq, Eq)]
pub struct Transfer {
    pub token: Address,
    pub from: Party,
    pub to: Party,
    pub amount: i128,
}

impl Clone for Transfer {
    fn clone(&self) -> (r: Transfer)
        ensures
            r == *self,
    {
        Transfer {
            token: self.token.clone(),
            from: self.from.clone(),
            to: self.to.clone(),
            amount: self.amount,
        }
    }
}

impl Transfer {
    /// By how much executing this transfer raises the escrow balance of
    /// `token`.
    pub open spec fn inflow(self, token: Seq<char>) -> int {
        if self.token@ != token {
            0
        } else if self.from is Account && self.to is Escrow {
            self.amount as int
        } else if self.from is Escrow && self.to is Account {
            -self.amount
        } else {
            0
        }
    }

    /// A transfer of `amount` from `from` into escrow.
    pub open spec fn deposit(token: Address, from: Address, amount: i128) -> Transfer {
        Transfer { token, from: Party::Account(from), to: Party::Escrow, amount }
    }

    /// A transfer of `amount` out of escrow to `to`.
    pub open spec fn release(token: Address, to: Address, amount: i128) -> Transfer {
        Transfer { token, from: Party::Escrow, to: Party::Account(to), amount }
    }
}

} // verus!
