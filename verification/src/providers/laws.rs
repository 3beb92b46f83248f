//! What routes promise.

use vstd::prelude::*;

use super::amounts::{answers, exact, fixed_amount, nep141, ONE_24};
use super::near_intents::{intents_route, QuoteView};
use super::staking::stake_route;
use super::wrap::{same_token, wrap_route};
use super::xrhea::{staking, staking_and_unstaking_never_gain, xrhea_route, ONE_8};
use crate::merging::{merging_keeps_the_steps, steps};
use crate::network::NetworkState;
use crate::router::{delivered, finished, known_output};
use crate::shared_utils::{conversion, none};
use crate::types::{Amount, DexId, RequestView, RouteView};
use crate::wide::ratio;

verus! {

/// Staking has no slippage.
pub proof fn staking_is_exact(
    dex_id: DexId,
    pool: Seq<char>,
    request: RequestView,
    network: NetworkState,
    price: Option<u128>,
)
    ensures
        stake_route(dex_id, pool, request, network, price) matches Some(route) ==> exact(route) && route.dex_id
            == dex_id && route.token_output == nep141(pool),
{
}

/// Staking and unstaking RHEA have no slippage.
pub proof fn xrhea_is_exact(request: RequestView, network: NetworkState, quoted: Option<u128>)
    ensures
        xrhea_route(request, network, quoted) matches Some(route) ==> exact(route),
{
}

/// Without a fee, RHEA for xRHEA and back comes to the price, rounded down,
/// wherever that fits.
pub proof fn xrhea_comes_to_the_price(request: RequestView, network: NetworkState, amount: u128, quoted: u128)
    requires
        staking(request) is Some,
        request.amount == Amount::AmountIn(amount),
    ensures
        ({
            let out = if staking(request)->0 {
                ratio(amount as nat, ONE_8 as nat, quoted as nat)
            } else {
                ratio(amount as nat, quoted as nat, ONE_8 as nat)
            };
            match xrhea_route(request, network, Some(quoted)) {
                Some(route) => out is Some && exact(route) && route.estimated == Amount::AmountOut(out->0),
                None => out is None,
            }
        }),
{
}

/// Whoever stakes RHEA and unstakes all that it brought, at one price, gets no
/// more back.
pub proof fn xrhea_round_trip_never_gains(
    stake: RequestView,
    unstake: RequestView,
    network: NetworkState,
    amount: u128,
    quoted: u128,
)
    requires
        staking(stake) == Some(true),
        staking(unstake) == Some(false),
        stake.amount == Amount::AmountIn(amount),
    ensures
        xrhea_route(stake, network, Some(quoted)) matches Some(there) ==> (there.estimated matches Amount::AmountOut(
            brought,
        ) && (unstake.amount == Amount::AmountIn(brought) ==> (xrhea_route(unstake, network, Some(quoted)) matches Some(
            back,
        ) && (back.estimated matches Amount::AmountOut(given) && given <= amount)))),
{
    staking_and_unstaking_never_gain(amount, quoted);
}

/// Staking comes to the price, rounded down and one less for what the pool
/// rounds itself.
pub proof fn staking_comes_to_the_price(
    dex_id: DexId,
    pool: Seq<char>,
    request: RequestView,
    network: NetworkState,
    amount: u128,
    price: u128,
)
    requires
        request.amount == Amount::AmountIn(amount),
    ensures
        stake_route(dex_id, pool, request, network, Some(price)) matches Some(route) ==> {
            let whole = amount * ONE_24 / (price as int);
            &&& price > 0
            &&& route.estimated == Amount::AmountOut(if whole > 0 {
                (whole - 1) as u128
            } else {
                0
            })
        },
{
}

/// A solver's offer has no slippage.
pub proof fn intents_are_exact(
    request: RequestView,
    network: NetworkState,
    quotes: Seq<QuoteView>,
    has_key: Option<bool>,
)
    ensures
        intents_route(request, network, quotes, has_key) matches Some(route) ==> exact(route),
{
}

/// Moving a token between its locations is one for one and has no slippage,
/// and there is a route between any two locations of one token.
pub proof fn moving_is_one_for_one(request: RequestView)
    ensures
        same_token(request.token_in, request.token_out) <==> wrap_route(request) is Some,
        wrap_route(request) matches Some(route) ==> {
            let amount = fixed_amount(request.amount);
            &&& exact(route)
            &&& route.estimated == match request.amount {
                Amount::AmountIn(_) => Amount::AmountOut(amount),
                Amount::AmountOut(_) => Amount::AmountIn(amount),
            }
        },
{
}

/// What a finished route between two locations does is bring the amount from
/// the one to the other, and nothing else.
pub proof fn moving_delivers(request: RequestView, network: NetworkState)
    ensures
        wrap_route(request) matches Some(route) ==> steps(finished(request, network, route).instructions) == steps(
            conversion(
                network,
                request.token_in,
                request.token_out,
                fixed_amount(request.amount),
                request.trader,
            ),
        ),
{
    match wrap_route(request) {
        Some(route) => {
            let all = delivered(request, network, route);
            merging_keeps_the_steps(all);
            assert(all =~= conversion(
                network,
                request.token_in,
                request.token_out,
                fixed_amount(request.amount),
                request.trader,
            ));
        },
        None => {},
    }
}

/// Finishing a route keeps everything that it does, in order, and only adds
/// what brings a known output to where it is wanted.
pub proof fn finishing_keeps_the_steps(request: RequestView, network: NetworkState, route: RouteView)
    ensures
        steps(finished(request, network, route).instructions) == steps(delivered(request, network, route)),
        known_output(request.amount, route) is None ==> delivered(request, network, route) == route.instructions,
        route.token_output == request.token_out ==> delivered(request, network, route) == route.instructions,
{
    merging_keeps_the_steps(delivered(request, network, route));
    if route.token_output == request.token_out {
        assert(route.instructions + none() =~= route.instructions);
    }
}

/// The output of a route is known where the request fixes it, and where the
/// route is exact.
pub proof fn output_is_known(request: RequestView, route: RouteView)
    requires
        answers(request.amount, route),
        request.amount is AmountOut || exact(route),
    ensures
        known_output(request.amount, route) is Some,
        request.amount matches Amount::AmountOut(amount) ==> known_output(request.amount, route) == Some(amount),
{
}

} // verus!
