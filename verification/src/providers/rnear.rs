//! Staking the native coin into rNEAR.

use vstd::prelude::*;

use super::amounts::answers;
use super::staking::{is_stake, make_stake_route, stake_route, stakes};
use crate::network::Network;
use crate::types::{opt_route, DexId, Route, SwapRequest};

verus! {

/// The contract of the pool.
pub const RNEAR_CONTRACT: &'static str = "lst.rhealab.near";

/// Routes that stake the native coin into rNEAR.
pub struct RNearProvider;

impl RNearProvider {
    /// The name of the exchange.
    pub fn dex_id(&self) -> (r: DexId)
        ensures
            r == DexId::RNear,
    {
        DexId::RNear
    }

    /// Whether the price of the pool is needed for a route.
    pub fn needs_price(&self, request: &SwapRequest) -> (r: bool)
        ensures
            r == stakes(RNEAR_CONTRACT@, request@),
    {
        is_stake(RNEAR_CONTRACT, request)
    }

    /// The route at the price of the pool, if that is known.
    pub fn route(&self, request: &SwapRequest, network: &Network, price: Option<u128>) -> (r: Option<Route>)
        ensures
            opt_route(r) == stake_route(DexId::RNear, RNEAR_CONTRACT@, request@, network@, price),
            r matches Some(route) ==> answers(request@.amount, route@),
    {
        make_stake_route(DexId::RNear, RNEAR_CONTRACT, request, network, price)
    }
}

} // verus!
