//! The eligibility gate of a mission.

use vstd::prelude::*;
use crate::types::Address;

verus! {

/// Whether a balance meets the eligibility requirement of a mission: it
/// does when no gating asset is named, or when the balance reaches the
/// threshold. A balance equal to the threshold qualifies.
pub open spec fn qualifies(
    min_asset_token: Option<Address>,
    min_asset_amount: i128,
    balance: i128,
) -> bool {
    min_asset_token is None || balance >= min_asset_amount
}

/// Decides whether a principal may take part in a mission gated by
/// `min_asset_token` and `min_asset_amount`, given the principal's balance
/// of the gating asset. The balance is not looked at when there is no
/// gating asset.
pub fn is_eligible(
    min_asset_token: &Option<Address>,
    min_asset_amount: i128,
    balance: i128,
) -> (r: bool)
    ensures
        r == qualifies(*min_asset_token, min_asset_amount, balance),
{
    match min_asset_token {
        None => true,
        Some(_) => balance >= min_asset_amount,
    }
}

/// The threshold is inclusive: a balance equal to it qualifies, one unit
/// less does not.
pub proof fn gate_is_inclusive(token: Address, min_asset_amount: i128)
    requires
        min_asset_amount > i128::MIN,
    ensures
        qualifies(Some(token), min_asset_amount, min_asset_amount),
        !qualifies(Some(token), min_asset_amount, (min_asset_amount - 1) as i128),
{
}

} // verus!
