//! Moving a token to another of its locations.

use vstd::prelude::*;

use super::amounts::{answers, fixed_amount, make_route, open_side, other_side, route_of};
use crate::ident::Ident;
use crate::shared_utils::{base_of, base_token, is_near, near_token, no_instructions, none, BaseTokenId};
use crate::types::{opt_route, Amount, DexId, RequestView, Route, RouteView, SwapRequest, TokenId, TokenIdView};

verus! {

/// Routes between the locations of one token. The route itself does nothing:
/// its output is brought to its place as that of any other route.
pub struct WrapProvider;

/// Whether both are locations of one token.
pub open spec fn same_token(a: TokenIdView, b: TokenIdView) -> bool {
    (near_token(a) && near_token(b)) || (base_of(a) is Some && base_of(a) == base_of(b))
}

/// Whether both are locations of one token.
pub fn is_same_token(a: &TokenId, b: &TokenId) -> (r: bool)
    ensures
        r == same_token(a@, b@),
{
    if is_near(a) && is_near(b) {
        return true;
    }
    match (base_token(a), base_token(b)) {
        (Some(a), Some(b)) => match (a, b) {
            (BaseTokenId::Near, BaseTokenId::Near) => true,
            (BaseTokenId::Nep141(a), BaseTokenId::Nep141(b)) => a.same(&b),
            _ => false,
        },
        _ => false,
    }
}

/// The route between two locations of one token: one for one, with the token
/// where it came from.
pub open spec fn wrap_route(request: RequestView) -> Option<RouteView> {
    if same_token(request.token_in, request.token_out) {
        let amount = fixed_amount(request.amount);
        let open = open_side(request.amount, amount, amount);
        Some(route_of(DexId::Wrap, false, open, open, none(), request.token_in))
    } else {
        None
    }
}

impl WrapProvider {
    /// The name of the exchange.
    pub fn dex_id(&self) -> (r: DexId)
        ensures
            r == DexId::Wrap,
    {
        DexId::Wrap
    }

    /// The route between two locations of one token.
    pub fn route(&self, request: &SwapRequest) -> (r: Option<Route>)
        ensures
            opt_route(r) == wrap_route(request@),
            r matches Some(route) ==> answers(request@.amount, route@),
    {
        if !is_same_token(&request.token_in, &request.token_out) {
            return None;
        }
        let amount: u128 = match request.amount {
            Amount::AmountIn(amount) => amount,
            Amount::AmountOut(amount) => amount,
        };
        let open: Amount = other_side(request.amount, amount, amount);
        Some(make_route(DexId::Wrap, false, open, open, no_instructions(), request.token_in.duplicate()))
    }
}

} // verus!
