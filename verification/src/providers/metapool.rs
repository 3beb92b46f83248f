//! Staking the native coin into stNEAR, and selling it back.

use vstd::arithmetic::power::{lemma_pow0, lemma_pow_positive, pow};
use vstd::prelude::*;

use super::amounts::{
    answers, bought_at, less_one, make_route, one_less, open_side, other_side, route_of, units_bought, units_worth,
    worst_is_no_better, worth_at,
};
use super::staking::{is_stake, make_stake_route, stake_route, stake_taken, stakes};
use super::views::{ask_with, asked_with, ViewCall};
use crate::decimal::{
    divide, divided, largest_input, lemma_quotient_exact, lemma_quotient_ratio, lemma_short, lemma_sign,
    lemma_small_powers, max_input, one_minus, one_plus, quotient, sum_of, whole, Decimal, DecimalView,
};
use crate::json::{no_fields, Json, JsonObject, JsonView};
use crate::network::{Network, NetworkState};
use crate::shared_utils::{
    amount_json, amount_text, call, call_action, contract, convert_to_nep141, followed_by, input_instructions,
    is_near, near_token, nep141_of, one_transaction, transaction, wallet_token,
};
use crate::slippage::{get_slippage, slippage_of, Market, MarketView};
use crate::types::{
    opt_route, Action, ActionView, Amount, DexId, ExecutionInstruction, RequestView, Route, RouteView, SwapRequest,
    TokenId, TokenIdView,
};
use crate::wide::ratio;

verus! {

/// The contract of the pool.
pub const METAPOOL_CONTRACT: &'static str = "meta-pool.near";

/// The least of the native coin that is staked.
pub const MIN_DEPOSIT: u128 = 1_000_000_000_000_000_000_000_000;

/// The least stNEAR that is sold back.
pub const MIN_UNSTAKE: u128 = 1_000_000_000_000_000_000_000_000;

/// The whole in basis points.
pub const WHOLE_BP: u128 = 10_000;

/// Routes between the native coin and stNEAR.
pub struct MetapoolProvider;

/// What the pool says of itself.
#[derive(Clone, Copy, Debug, PartialEq, Eq, Structural)]
pub struct MetapoolContractState {
    pub st_near_price: u128,
    pub nslp_liquidity: u128,
}

/// Whether the request sells stNEAR back.
pub open spec fn unstakes(request: RequestView) -> bool {
    !near_token(request.token_in) && near_token(request.token_out) && nep141_of(request.token_in) == Some(
        METAPOOL_CONTRACT@,
    )
}

/// Whether the request sells stNEAR back.
fn is_unstake(request: &SwapRequest) -> (r: bool)
    ensures
        r == unstakes(request@),
{
    if is_near(&request.token_in) || !is_near(&request.token_out) {
        return false;
    }
    match wallet_token(&request.token_in) {
        Some(token) => token.is(METAPOOL_CONTRACT),
        None => false,
    }
}

/// The stNEAR that is sold, before the discount; none where it is too little
/// or more than the pool can take.
pub open spec fn stnear_sold(amount: Amount, state: MetapoolContractState) -> Option<u128> {
    let sold = match amount {
        Amount::AmountIn(amount) => Some(amount),
        Amount::AmountOut(amount) => bought_at(amount, state.st_near_price),
    };
    match sold {
        Some(sold) => if sold < MIN_UNSTAKE || sold > state.nslp_liquidity {
            None
        } else {
            Some(sold)
        },
        None => None,
    }
}

/// The stNEAR that is sold, before the discount.
fn sold_stnear(amount: Amount, state: MetapoolContractState) -> (r: Option<u128>)
    ensures
        r == stnear_sold(amount, state),
{
    let sold: Option<u128> = match amount {
        Amount::AmountIn(amount) => Some(amount),
        Amount::AmountOut(amount) => units_bought(amount, state.st_near_price),
    };
    match sold {
        Some(sold) => {
            if sold < MIN_UNSTAKE || sold > state.nslp_liquidity {
                None
            } else {
                Some(sold)
            }
        },
        None => None,
    }
}

/// What is left of an amount that holds a discount: rounded down.
pub open spec fn less_discount(amount: u128, basis_points: u16) -> Option<u128> {
    ratio(amount as nat, WHOLE_BP as nat, (WHOLE_BP + basis_points) as nat)
}

/// What an amount is before a discount: rounded down; none where the discount
/// is the whole or more.
pub open spec fn before_discount(amount: u128, basis_points: u16) -> Option<u128> {
    if basis_points >= WHOLE_BP {
        None
    } else {
        ratio(amount as nat, WHOLE_BP as nat, (WHOLE_BP - basis_points) as nat)
    }
}

/// A discount as a number.
fn discount_of(basis_points: u16) -> (r: Decimal)
    ensures
        0 <= r@.scale <= 4,
        r@.digits * WHOLE_BP == basis_points * pow(10, r@.scale as nat),
        r@.digits == 0 ==> r@.scale == 0 && basis_points == 0,
{
    proof {
        lemma_short();
        lemma_small_powers();
        lemma_quotient_exact(basis_points as nat, 4);
    }
    quotient(&Decimal::from_u128(basis_points as u128), &Decimal::from_u128(WHOLE_BP))
}

/// What is left of an amount that holds a discount.
fn take_discount(amount: u128, basis_points: u16) -> (r: Option<u128>)
    ensures
        r == less_discount(amount, basis_points),
        r matches Some(left) ==> left <= amount,
{
    let discount: Decimal = discount_of(basis_points);
    let by: Decimal = one_plus(&discount);
    proof {
        lemma_pow0(10);
        let g = pow(10, discount@.scale as nat);
        lemma_pow_positive(10, discount@.scale as nat);
        let d = discount@.digits;
        assert(1 * g == g);
        assert(d * pow(10, 0) == d);
        assert(by@.digits == g + d);
        assert(d >= 0) by (nonlinear_arith)
            requires
                d * WHOLE_BP == basis_points * g,
                g > 0,
                basis_points >= 0,
        ;
        assert((g + d) * WHOLE_BP == (WHOLE_BP + basis_points) * g) by (nonlinear_arith)
            requires
                d * WHOLE_BP == basis_points * g,
        ;
        lemma_quotient_ratio(amount, by@, WHOLE_BP as nat, (WHOLE_BP + basis_points) as nat);
        lemma_sign(discount@);
    }
    divide(amount, &by)
}

/// What an amount is before a discount.
fn add_discount(amount: u128, basis_points: u16) -> (r: Option<u128>)
    requires
        amount > 0,
    ensures
        r == before_discount(amount, basis_points),
{
    if basis_points as u128 >= WHOLE_BP {
        return None;
    }
    let discount: Decimal = discount_of(basis_points);
    let by: Decimal = one_minus(&discount);
    proof {
        lemma_pow0(10);
        let g = pow(10, discount@.scale as nat);
        lemma_pow_positive(10, discount@.scale as nat);
        let d = discount@.digits;
        assert(1 * g == g);
        assert(d * pow(10, 0) == d);
        assert(by@.digits == g - d && by@.scale == discount@.scale);
        assert((g - d) * WHOLE_BP == (WHOLE_BP - basis_points) * g) by (nonlinear_arith)
            requires
                d * WHOLE_BP == basis_points * g,
        ;
        assert(g - d > 0) by (nonlinear_arith)
            requires
                (g - d) * WHOLE_BP == (WHOLE_BP - basis_points) * g,
                g > 0,
                basis_points < WHOLE_BP,
                WHOLE_BP > 0,
        ;
        lemma_quotient_ratio(amount, by@, WHOLE_BP as nat, (WHOLE_BP - basis_points) as nat);
    }
    divide(amount, &by)
}

/// What the sale takes and gives at most and at least.
pub struct UnstakeAmounts {
    pub taken: u128,
    pub given: u128,
    pub most_taken: u128,
    pub least_given: u128,
}

/// What the sale takes and gives, with the discount, and with the slippage.
pub open spec fn unstake_amounts(
    amount: Amount,
    state: MetapoolContractState,
    basis_points: u16,
    slippage: DecimalView,
) -> Option<UnstakeAmounts> {
    match stnear_sold(amount, state) {
        None => None,
        Some(sold) => match amount {
            Amount::AmountIn(_) => match less_one(worth_at(sold, state.st_near_price)) {
                None => None,
                Some(full) => match less_discount(full, basis_points) {
                    None => None,
                    Some(given) => match divided(given, sum_of(whole(1), slippage)) {
                        None => None,
                        Some(least_given) => Some(
                            UnstakeAmounts { taken: sold, given, most_taken: sold, least_given },
                        ),
                    },
                },
            },
            Amount::AmountOut(given) => match before_discount(sold, basis_points) {
                None => None,
                Some(taken) => match largest_input(taken, slippage) {
                    None => None,
                    Some(most_taken) => Some(
                        UnstakeAmounts { taken, given, most_taken, least_given: given },
                    ),
                },
            },
        },
    }
}

/// What the sale takes and gives.
fn amounts_of_unstake(amount: Amount, state: MetapoolContractState, basis_points: u16, slippage: &Decimal) -> (r: Option<
    UnstakeAmounts,
>)
    requires
        slippage@.bounded(),
        0 as real <= slippage@.value(),
        slippage@.value() * (1_000_000 as real) <= 999_901 as real,
    ensures
        r == unstake_amounts(amount, state, basis_points, slippage@),
        r matches Some(amounts) ==> amounts.least_given <= amounts.given && amounts.most_taken >= amounts.taken,
{
    let sold: u128 = match sold_stnear(amount, state) {
        Some(sold) => sold,
        None => {
            return None;
        },
    };
    match amount {
        Amount::AmountIn(_) => {
            let full: u128 = match one_less(units_worth(sold, state.st_near_price)) {
                Some(full) => full,
                None => {
                    return None;
                },
            };
            let given: u128 = match take_discount(full, basis_points) {
                Some(given) => given,
                None => {
                    return None;
                },
            };
            match divide(given, &one_plus(slippage)) {
                Some(least_given) => Some(UnstakeAmounts { taken: sold, given, most_taken: sold, least_given }),
                None => None,
            }
        },
        Amount::AmountOut(given) => {
            let taken: u128 = match add_discount(sold, basis_points) {
                Some(taken) => taken,
                None => {
                    return None;
                },
            };
            match max_input(taken, slippage) {
                Some(most_taken) => Some(UnstakeAmounts { taken, given, most_taken, least_given: given }),
                None => None,
            }
        },
    }
}

/// What sells stNEAR back.
pub open spec fn unstake_action(most_taken: u128, least_given: u128) -> ActionView {
    call(
        "liquid_unstake"@,
        JsonView::Object(
            no_fields().push(("st_near_to_burn"@, amount_json(most_taken))).push(
                ("min_expected_near"@, amount_json(least_given)),
            ),
        ),
        10,
        0,
    )
}

/// What sells stNEAR back.
fn create_unstake_action(most_taken: u128, least_given: u128) -> (r: Action)
    ensures
        r@ == unstake_action(most_taken, least_given),
{
    let args: Json = JsonObject::new().with("st_near_to_burn", amount_text(most_taken)).with(
        "min_expected_near",
        amount_text(least_given),
    ).done();
    call_action("liquid_unstake", args, 10, 0)
}

/// The route that sells stNEAR back.
pub open spec fn unstake_route(
    request: RequestView,
    market: MarketView,
    state: MetapoolContractState,
    basis_points: Option<u16>,
) -> Option<RouteView> {
    let slippage = slippage_of(market, request.slippage, request.token_in, request.token_out);
    match basis_points {
        None => None,
        Some(basis_points) => match unstake_amounts(request.amount, state, basis_points, slippage) {
            None => None,
            Some(amounts) => Some(
                route_of(
                    DexId::MetaPool,
                    true,
                    open_side(request.amount, amounts.taken, amounts.given),
                    open_side(request.amount, amounts.most_taken, amounts.least_given),
                    input_instructions(request.token_in, amounts.most_taken) + transaction(
                        METAPOOL_CONTRACT@,
                        unstake_action(amounts.most_taken, amounts.least_given),
                    ),
                    TokenIdView::Near,
                ),
            ),
        },
    }
}

/// The route between the native coin and stNEAR.
pub open spec fn metapool_route(
    request: RequestView,
    network: NetworkState,
    market: MarketView,
    state: Option<MetapoolContractState>,
    basis_points: Option<u16>,
) -> Option<RouteView> {
    match state {
        None => None,
        Some(state) => if stakes(METAPOOL_CONTRACT@, request) {
            match stake_taken(request.amount, state.st_near_price) {
                Some(taken) => if taken < MIN_DEPOSIT {
                    None
                } else {
                    stake_route(
                        DexId::MetaPool,
                        METAPOOL_CONTRACT@,
                        request,
                        network,
                        Some(state.st_near_price),
                    )
                },
                None => None,
            }
        } else if unstakes(request) {
            unstake_route(request, market, state, basis_points)
        } else {
            None
        },
    }
}

impl MetapoolProvider {
    /// The name of the exchange.
    pub fn dex_id(&self) -> (r: DexId)
        ensures
            r == DexId::MetaPool,
    {
        DexId::MetaPool
    }

    /// Whether the state of the pool is needed for a route.
    pub fn needs_state(&self, request: &SwapRequest) -> (r: bool)
        ensures
            r == (stakes(METAPOOL_CONTRACT@, request@) || unstakes(request@)),
    {
        is_stake(METAPOOL_CONTRACT, request) || is_unstake(request)
    }

    /// The stNEAR that the discount is asked for, if it is.
    pub fn discounted_amount(&self, request: &SwapRequest, state: MetapoolContractState) -> (r: Option<u128>)
        ensures
            r == if unstakes(request@) {
                stnear_sold(request@.amount, state)
            } else {
                None
            },
    {
        if is_unstake(request) {
            sold_stnear(request.amount, state)
        } else {
            None
        }
    }

    /// What the contract is asked about the discount for an amount of stNEAR.
    pub fn discount_call(&self, amount: u128) -> (r: ViewCall)
        ensures
            r@ == asked_with(
                "nslp_get_discount_basis_points"@,
                JsonView::Object(no_fields().push(("stnear_to_sell"@, amount_json(amount)))),
            ),
    {
        ask_with(
            "nslp_get_discount_basis_points",
            JsonObject::new().with("stnear_to_sell", amount_text(amount)).done(),
        )
    }

    /// The route at the state of the pool and its discount, as far as they
    /// are known.
    pub fn route(
        &self,
        request: &SwapRequest,
        network: &Network,
        market: &Market,
        state: Option<MetapoolContractState>,
        basis_points: Option<u16>,
    ) -> (r: Option<Route>)
        requires
            market@.valid(),
            request@.slippage.valid(),
        ensures
            opt_route(r) == metapool_route(request@, network@, market@, state, basis_points),
            r matches Some(route) ==> answers(request@.amount, route@),
            r matches Some(route) ==> worst_is_no_better(route@),
    {
        let state: MetapoolContractState = match state {
            Some(state) => state,
            None => {
                return None;
            },
        };
        if is_stake(METAPOOL_CONTRACT, request) {
            let taken: Option<u128> = match request.amount {
                Amount::AmountIn(amount) => Some(amount),
                Amount::AmountOut(amount) => units_worth(amount, state.st_near_price),
            };
            return match taken {
                Some(taken) => {
                    if taken < MIN_DEPOSIT {
                        None
                    } else {
                        make_stake_route(
                            DexId::MetaPool,
                            METAPOOL_CONTRACT,
                            request,
                            network,
                            Some(state.st_near_price),
                        )
                    }
                },
                None => None,
            };
        }
        if !is_unstake(request) {
            return None;
        }
        let basis_points: u16 = match basis_points {
            Some(basis_points) => basis_points,
            None => {
                return None;
            },
        };
        let slippage: Decimal = get_slippage(market, &request.slippage, &request.token_in, &request.token_out);
        let amounts: UnstakeAmounts = match amounts_of_unstake(request.amount, state, basis_points, &slippage) {
            Some(amounts) => amounts,
            None => {
                return None;
            },
        };
        let input: Vec<ExecutionInstruction> = match convert_to_nep141(&request.token_in, amounts.most_taken) {
            Some((input, _)) => input,
            None => {
                return None;
            },
        };
        let sale: Vec<ExecutionInstruction> = one_transaction(
            &contract(METAPOOL_CONTRACT),
            create_unstake_action(amounts.most_taken, amounts.least_given),
        );
        Some(
            make_route(
                DexId::MetaPool,
                true,
                other_side(request.amount, amounts.taken, amounts.given),
                other_side(request.amount, amounts.most_taken, amounts.least_given),
                followed_by(input, sale),
                TokenId::Near,
            ),
        )
    }
}

} // verus!
