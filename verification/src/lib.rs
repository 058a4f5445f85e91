//! Escrow and incentive accounting for sponsored missions.
//!
//! A sponsor funds a mission with a pool of per-slot rewards, hunters post a
//! refundable stake with each submission, and the [`Engine`] reconciles
//! rewards, stakes, refunds and slashing as missions are paused, paid out
//! and cancelled.
//!
//! The engine holds records, not funds. Every operation either is rejected
//! with an [`Error`] and changes nothing, or changes the records and returns
//! the [`Transfer`]s that the caller has to execute against the token
//! service in the same unit of work. Balances that a decision depends on are
//! queried by the caller and handed in.
//!
//! - [`types`]: the records, the transfers and the errors.
//! - [`gate`]: who may submit to a gated mission.
//! - [`model`]: the ledger as a mathematical value, its consistency and the
//!   escrow it accounts for.
//! - [`rules`]: what each operation decides, and the step function that
//!   gathers the operations.
//! - [`engine`]: the executable ledger, proved to follow the rules.
//! - [`laws`]: what holds under every sequence of operations, above all
//!   that the transfers asked for always equal the change of the escrow
//!   that the records account for.

pub mod engine;
pub mod gate;
pub mod laws;
pub mod model;
pub mod rules;
pub mod types;

pub use engine::Engine;
pub use gate::is_eligible;
pub use model::State;
pub use rules::Operation;
pub use types::{
    Address, Error, MinAsset, Mission, MissionStatus, Party, Reward, Submission,
    SubmissionStatus, Transfer,
};
