//! What routes do with the tokens of a trader.

use vstd::prelude::*;

use super::aidols::{aidols_route, AidolsEmulateSwap};
use super::metapool::{less_discount, metapool_route, stnear_sold, unstake_amounts, MetapoolContractState};
use super::staking::stake_route;
use super::wrap::wrap_route;
use super::xrhea::xrhea_route;
use crate::account::direct_sub_account;
use crate::json::{json_text, JsonView};
use crate::ledger::{
    all_written, called, can_hold, form_of, moved_along, native_form_is_reached, opens, pays_own_storage,
    storage_is_paid_where_it_is_missing, wallet_form_is_reached, Move,
};
use crate::network::NetworkState;
use crate::shared_utils::{
    contract_storage_if_needed, input_instructions, near_token, storage_if_needed, to_native, to_nep141,
};
use crate::slippage::{slippage_is_never_all_or_nothing, slippage_of, MarketView};
use crate::text::decimal_text;
use crate::tolerance::the_largest_input_is_more_by_the_slippage;
use crate::types::{Amount, DexId, InstructionView, RequestView, RouteView, TokenIdView};

verus! {

/// What lets a trader who is known hold a token, where that is missing.
pub open spec fn opened(network: NetworkState, trader: Option<Seq<char>>, token: TokenIdView) -> Seq<InstructionView> {
    if trader is Some && !can_hold(network, trader->0, token) {
        opens(token)
    } else {
        Seq::empty()
    }
}

/// What pays for a known trader's storage on a contract, where that is missing.
pub open spec fn opened_on(
    network: NetworkState,
    trader: Option<Seq<char>>,
    contract: Seq<char>,
    deposit: u128,
) -> Seq<InstructionView> {
    if trader is Some && !can_hold(network, trader->0, TokenIdView::Nep141(contract)) {
        seq![InstructionView::Transaction { receiver: contract, actions: seq![pays_own_storage(deposit, true)] }]
    } else {
        Seq::empty()
    }
}

/// A key and its value.
pub type Field = (Seq<char>, JsonView);

/// An object with one field.
pub open spec fn with_one(a: Field) -> JsonView {
    JsonView::Object(Seq::empty().push(a))
}

/// An object with two fields.
pub open spec fn with_two(a: Field, b: Field) -> JsonView {
    JsonView::Object(Seq::empty().push(a).push(b))
}

/// An object with three fields.
pub open spec fn with_three(a: Field, b: Field, c: Field) -> JsonView {
    JsonView::Object(Seq::empty().push(a).push(b).push(c))
}

/// An object with four fields.
pub open spec fn with_four(a: Field, b: Field, c: Field, d: Field) -> JsonView {
    JsonView::Object(Seq::empty().push(a).push(b).push(c).push(d))
}

/// An object with five fields.
pub open spec fn with_five(a: Field, b: Field, c: Field, d: Field, e: Field) -> JsonView {
    JsonView::Object(Seq::empty().push(a).push(b).push(c).push(d).push(e))
}

/// An amount in its decimal digits.
pub open spec fn digits(amount: u128) -> JsonView {
    JsonView::Text(decimal_text(amount as nat))
}

/// A fungible token in the wallet.
pub open spec fn in_wallet(contract: Seq<char>) -> TokenIdView {
    TokenIdView::Nep141(contract)
}

/// Whether instructions bring an amount from one place to another, behind some
/// that come first and before some that come last.
pub open spec fn does(
    instructions: Seq<InstructionView>,
    first: Seq<InstructionView>,
    moves: Seq<Move>,
    from: TokenIdView,
    to: TokenIdView,
    amount: u128,
    last: Seq<InstructionView>,
) -> bool {
    &&& instructions == first + all_written(moves, amount) + last
    &&& moved_along(from, moves) == Some(to)
}

/// Whether instructions bring an amount from one place to another, by some
/// moves, behind some that come first and before some that come last.
pub open spec fn brings_then(
    instructions: Seq<InstructionView>,
    first: Seq<InstructionView>,
    from: TokenIdView,
    to: TokenIdView,
    amount: u128,
    last: Seq<InstructionView>,
) -> bool {
    exists|moves: Seq<Move>| #[trigger] does(instructions, first, moves, from, to, amount, last)
}

/// One instruction.
pub open spec fn only(instruction: InstructionView) -> Seq<InstructionView> {
    seq![instruction]
}

/// The call that sends an amount of a fungible token to a contract with a
/// message.
pub open spec fn transfers(
    token: Seq<char>,
    receiver: Seq<char>,
    amount: u128,
    message: JsonView,
    tgas: u64,
) -> InstructionView {
    called(
        token,
        "ft_transfer_call"@,
        with_three(
            ("receiver_id"@, JsonView::Text(receiver)),
            ("amount"@, digits(amount)),
            ("msg"@, JsonView::Text(json_text(message))),
        ),
        tgas,
        1,
    )
}

/// Who refers a swap: whom the request names, or the aggregator.
pub open spec fn referred_by(request: RequestView) -> Seq<char> {
    if request.referrer is Some {
        request.referrer->0
    } else {
        "dex-aggregator.intear.near"@
    }
}

/// The moves that bring an amount into the wallet as a fungible token.
pub(crate) proof fn lemma_input(token: TokenIdView, amount: u128) -> (moves: Seq<Move>)
    requires
        form_of(token) is Some,
        amount > 0,
    ensures
        input_instructions(token, amount) == all_written(moves, amount),
        moved_along(token, moves) == Some(in_wallet(form_of(token)->0)),
{
    wallet_form_is_reached(token, amount);
    let instructions = (to_nep141(token, amount)->0).0;
    let to = TokenIdView::Nep141(form_of(token)->0);
    let moves = choose|moves: Seq<Move>| #[trigger]
        crate::ledger::brings(instructions, Seq::empty(), moves, token, to, amount);
    assert(Seq::<InstructionView>::empty() + all_written(moves, amount) =~= all_written(moves, amount));
    moves
}

/// The moves that turn an amount into the native coin.
pub(crate) proof fn lemma_native(token: TokenIdView, amount: u128) -> (moves: Seq<Move>)
    requires
        to_native(token, amount) is Some,
    ensures
        to_native(token, amount)->0 == all_written(moves, amount),
        moved_along(token, moves) == Some(TokenIdView::Near),
{
    native_form_is_reached(token, amount);
    let instructions = to_native(token, amount)->0;
    let moves = choose|moves: Seq<Move>| #[trigger]
        crate::ledger::brings(instructions, Seq::empty(), moves, token, TokenIdView::Near, amount);
    assert(Seq::<InstructionView>::empty() + all_written(moves, amount) =~= all_written(moves, amount));
    moves
}

/// What opens is what is paid where it is missing.
pub(crate) proof fn lemma_opened(network: NetworkState, trader: Option<Seq<char>>, token: TokenIdView)
    ensures
        storage_if_needed(network, token, trader) == opened(network, trader, token),
{
    storage_is_paid_where_it_is_missing(network, token, trader, Seq::empty(), 0);
}

/// What opens on a contract is what is paid there where it is missing.
pub(crate) proof fn lemma_opened_on(network: NetworkState, trader: Option<Seq<char>>, contract: Seq<char>, deposit: u128)
    ensures
        contract_storage_if_needed(network, contract, trader, deposit) == opened_on(
            network,
            trader,
            contract,
            deposit,
        ),
{
    storage_is_paid_where_it_is_missing(network, TokenIdView::Near, trader, contract, deposit);
}

/// The input of a route: what the request fixes, or what the route takes at
/// most.
pub open spec fn input_of(request: RequestView, route: RouteView) -> u128 {
    match request.amount {
        Amount::AmountIn(amount) => amount,
        Amount::AmountOut(_) => route.worst_case->AmountIn_0,
    }
}

/// Staking turns the input into the native coin, lets the trader hold the
/// pool's token, and stakes the whole input. It is for the native coin, in any
/// of its forms, against the pool's token, in any of its forms.
pub proof fn staking_stakes_the_input(
    dex_id: DexId,
    pool: Seq<char>,
    request: RequestView,
    network: NetworkState,
    price: Option<u128>,
)
    ensures
        stake_route(dex_id, pool, request, network, price) matches Some(route) ==> {
            let taken = input_of(request, route);
            &&& form_of(request.token_in) == Some("wrap.near"@)
            &&& form_of(request.token_out) == Some(pool)
            &&& price is Some
            &&& brings_then(
                route.instructions,
                Seq::empty(),
                request.token_in,
                TokenIdView::Near,
                taken,
                opened(network, request.trader, in_wallet(pool)) + only(
                    called(pool, "deposit_and_stake"@, JsonView::Object(Seq::empty()), 10, taken),
                ),
            )
        },
{
    match stake_route(dex_id, pool, request, network, price) {
        Some(route) => {
            let taken = input_of(request, route);
            let moves = lemma_native(request.token_in, taken);
            lemma_opened(network, request.trader, in_wallet(pool));
            let last = opened(network, request.trader, in_wallet(pool)) + only(
                called(pool, "deposit_and_stake"@, JsonView::Object(Seq::empty()), 10, taken),
            );
            assert(route.instructions =~= Seq::<InstructionView>::empty() + all_written(moves, taken) + last);
            assert(does(
                route.instructions,
                Seq::empty(),
                moves,
                request.token_in,
                TokenIdView::Near,
                taken,
                last,
            ));
        },
        None => {},
    }
}

/// Staking RHEA lets the trader hold xRHEA, brings the input into the wallet
/// as RHEA and sends it to the contract of xRHEA to be staked; unstaking goes
/// the other way.
#[verifier::rlimit(50)]
pub proof fn xrhea_stakes_or_unstakes_the_input(request: RequestView, network: NetworkState, quoted: Option<u128>)
    ensures
        xrhea_route(request, network, quoted) matches Some(route) ==> {
            let taken = input_of(request, route);
            let rhea = "token.rhealab.near"@;
            let xrhea = "xtoken.rhealab.near"@;
            let stakes = form_of(request.token_in) == Some(rhea);
            let (from, to) = if stakes {
                (rhea, xrhea)
            } else {
                (xrhea, rhea)
            };
            let last = if stakes {
                transfers(
                    rhea,
                    xrhea,
                    taken,
                    with_one(("Stake"@, JsonView::Object(Seq::empty()))),
                    50,
                )
            } else {
                called(
                    xrhea,
                    "unstake"@,
                    with_two(("amount"@, digits(taken)), ("msg"@, JsonView::Text(""@))),
                    50,
                    1,
                )
            };
            &&& form_of(request.token_in) == Some(from)
            &&& form_of(request.token_out) == Some(to)
            &&& route.token_output == in_wallet(to)
            &&& taken > 0 ==> brings_then(
                route.instructions,
                opened(network, request.trader, in_wallet(to)),
                request.token_in,
                in_wallet(from),
                taken,
                only(last),
            )
        },
{
    match xrhea_route(request, network, quoted) {
        Some(route) => {
            let taken = input_of(request, route);
            let to = route.token_output;
            lemma_opened(network, request.trader, to);
            if taken > 0 {
                let moves = lemma_input(request.token_in, taken);
                assert(does(
                    route.instructions,
                    opened(network, request.trader, to),
                    moves,
                    request.token_in,
                    in_wallet(form_of(request.token_in)->0),
                    taken,
                    only(route.instructions.last()),
                ));
            }
        },
        None => {},
    }
}

/// Whether a part is what is left of an amount that holds a number of
/// hundredths of a percent more: rounded down.
pub open spec fn without_markup(part: int, amount: int, basis_points: int) -> bool {
    part * (10_000 + basis_points) <= amount * 10_000 < (part + 1) * (10_000 + basis_points)
}

/// A rounded quotient in terms of its product.
proof fn lemma_ratio(a: nat, b: nat, d: nat)
    requires
        d > 0,
    ensures
        (a * b / d) * d <= a * b < (a * b / d + 1) * d,
{
    let num = (a * b) as int;
    assert(num >= 0) by (nonlinear_arith)
        requires
            num == a * b,
            a >= 0,
            b >= 0,
    ;
    let den = d as int;
    vstd::arithmetic::div_mod::lemma_fundamental_div_mod(num, den);
    vstd::arithmetic::div_mod::lemma_mod_bound(num, den);
    let q = num / den;
    assert(q * den <= num < (q + 1) * den) by (nonlinear_arith)
        requires
            den * q + num % den == num,
            0 <= num % den < den,
    ;
}

/// The call that burns stNEAR for the native coin.
pub open spec fn burns(most: u128, least: u128) -> InstructionView {
    called(
        "meta-pool.near"@,
        "liquid_unstake"@,
        with_two(("st_near_to_burn"@, digits(most)), ("min_expected_near"@, digits(least))),
        10,
        0,
    )
}

/// Selling stNEAR back brings the input into the wallet and burns at most what
/// the route takes for at least what it gives. The input is at least one coin
/// and no more than there is liquidity, and an exact one gives one unit less
/// than it is worth, without the markup of the pool.
#[verifier::rlimit(50)]
pub proof fn metapool_sells_back_the_input(
    request: RequestView,
    network: NetworkState,
    market: MarketView,
    state: MetapoolContractState,
    basis_points: Option<u16>,
)
    requires
        form_of(request.token_in) == Some("meta-pool.near"@),
    ensures
        metapool_route(request, network, market, Some(state), basis_points) matches Some(route) ==> {
            let most = input_of(request, route);
            let least = match request.amount {
                Amount::AmountIn(_) => route.worst_case->AmountOut_0,
                Amount::AmountOut(amount) => amount,
            };
            &&& form_of(request.token_out) == Some("wrap.near"@)
            &&& route.token_output is Near
            &&& basis_points is Some
            &&& request.amount matches Amount::AmountIn(amount) ==> {
                &&& 1_000_000_000_000_000_000_000_000 <= amount <= state.nslp_liquidity
                &&& route.estimated is AmountOut
                &&& exists|full: int|
                    {
                        &&& amount * state.st_near_price >= 1_000_000_000_000_000_000_000_000 ==> (full + 1)
                            * 1_000_000_000_000_000_000_000_000 <= amount * state.st_near_price < (full + 2)
                            * 1_000_000_000_000_000_000_000_000
                        &&& #[trigger] without_markup(
                            route.estimated->AmountOut_0 as int,
                            full,
                            basis_points->0 as int,
                        )
                    }
            }
            &&& most > 0 ==> brings_then(
                route.instructions,
                Seq::empty(),
                request.token_in,
                in_wallet("meta-pool.near"@),
                most,
                only(burns(most, least)),
            )
        },
{
    reveal_strlit("meta-pool.near");
    reveal_strlit("wrap.near");
    assert("meta-pool.near"@.len() != "wrap.near"@.len());
    match metapool_route(request, network, market, Some(state), basis_points) {
        Some(route) => {
            let most = input_of(request, route);
            match request.amount {
                Amount::AmountIn(amount) => {
                    let worth = amount * state.st_near_price / 1_000_000_000_000_000_000_000_000;
                    let full = if worth > 0 {
                        worth - 1
                    } else {
                        0
                    };
                    lemma_ratio(amount as nat, state.st_near_price as nat, 1_000_000_000_000_000_000_000_000);
                    let slippage = slippage_of(market, request.slippage, request.token_in, request.token_out);
                    let bp = basis_points->0;
                    let amounts = unstake_amounts(request.amount, state, bp, slippage)->0;
                    assert(less_discount(full as u128, bp) == Some(amounts.given));
                    lemma_ratio(full as nat, 10_000, (10_000 + bp) as nat);
                    assert(without_markup(route.estimated->AmountOut_0 as int, full, bp as int));
                },
                Amount::AmountOut(_) => {},
            }
            if most > 0 {
                let moves = lemma_input(request.token_in, most);
                let last = only(route.instructions.last());
                assert(route.instructions =~= Seq::<InstructionView>::empty() + all_written(moves, most) + last);
                assert(does(
                    route.instructions,
                    Seq::empty(),
                    moves,
                    request.token_in,
                    in_wallet("meta-pool.near"@),
                    most,
                    last,
                ));
            }
        },
        None => {},
    }
}

/// A route over Aidols lets the trader hold both tokens, brings the input into
/// the wallet, and sends it to the contract with what is bought, the bound and
/// the referrer. The token that is traded for the native coin is one of the
/// contract's.
#[verifier::rlimit(50)]
pub proof fn aidols_trades_the_input(
    request: RequestView,
    network: NetworkState,
    market: MarketView,
    quote: AidolsEmulateSwap,
)
    ensures
        aidols_route(request, network, market, Some(quote)) matches Some(route) ==> {
            let sent = input_of(request, route);
            let from = form_of(request.token_in)->0;
            let to = form_of(request.token_out)->0;
            let buys = from == "wrap.near"@;
            let token = if buys {
                JsonView::Text(to)
            } else {
                JsonView::Null
            };
            let message = match request.amount {
                Amount::AmountIn(_) => with_three(
                    ("token"@, token),
                    ("min_swap_amount"@, digits(route.worst_case->AmountOut_0)),
                    ("referral"@, JsonView::Text(referred_by(request))),
                ),
                Amount::AmountOut(amount) => with_four(
                    ("token"@, token),
                    ("amount_out"@, digits(amount)),
                    ("min_swap_amount"@, digits(u128::MAX)),
                    ("referral"@, JsonView::Text(referred_by(request))),
                ),
            };
            &&& quote.is_tradable
            &&& form_of(request.token_in) is Some && form_of(request.token_out) is Some
            &&& direct_sub_account(
                if buys {
                    to
                } else {
                    from
                },
                "aidols.near"@,
            )
            &&& route.token_output == in_wallet(to)
            &&& request.amount is AmountIn ==> route.estimated == Amount::AmountOut(quote.amount)
            &&& request.amount is AmountOut ==> route.estimated == Amount::AmountIn(quote.amount)
            &&& sent > 0 ==> brings_then(
                route.instructions,
                opened(network, request.trader, in_wallet(to)) + opened(network, request.trader, in_wallet(from)),
                request.token_in,
                in_wallet(from),
                sent,
                only(transfers(from, "aidols.near"@, sent, message, 50)),
            )
        },
{
    wallet_form_is_reached(request.token_in, 0);
    wallet_form_is_reached(request.token_out, 0);
    match aidols_route(request, network, market, Some(quote)) {
        Some(route) => {
            let sent = input_of(request, route);
            let from = form_of(request.token_in)->0;
            let to = form_of(request.token_out)->0;
            lemma_opened(network, request.trader, in_wallet(to));
            lemma_opened(network, request.trader, in_wallet(from));
            if sent > 0 {
                let moves = lemma_input(request.token_in, sent);
                assert(does(
                    route.instructions,
                    opened(network, request.trader, in_wallet(to)) + opened(network, request.trader, in_wallet(from)),
                    moves,
                    request.token_in,
                    in_wallet(from),
                    sent,
                    only(route.instructions.last()),
                ));
            }
        },
        None => {},
    }
}

/// A token is the native coin in one of its forms exactly where it is a form of
/// the wrapped coin, and there is a way between two tokens that leaves their
/// amount as it is exactly where they are forms of one.
pub proof fn forms_of_one_token_are_moved(request: RequestView)
    ensures
        near_token(request.token_in) <==> form_of(request.token_in) == Some("wrap.near"@),
        wrap_route(request) is Some <==> form_of(request.token_in) is Some && form_of(request.token_in) == form_of(
            request.token_out,
        ),
        wrap_route(request) matches Some(route) ==> {
            &&& route.token_output == request.token_in
            &&& route.instructions.len() == 0
            &&& request.amount matches Amount::AmountIn(amount) ==> route.estimated == Amount::AmountOut(amount)
                && route.worst_case == route.estimated
            &&& request.amount matches Amount::AmountOut(amount) ==> route.estimated == Amount::AmountIn(amount)
                && route.worst_case == route.estimated
        },
{
}

/// Whether a part is what an amount was before a number of hundredths of a
/// percent were taken off: rounded down.
pub open spec fn before_cut(part: int, amount: int, basis_points: int) -> bool {
    part * (10_000 - basis_points) <= amount * 10_000 < (part + 1) * (10_000 - basis_points)
}

/// Whether stNEAR is what an amount of the native coin buys at a price: rounded
/// down.
pub open spec fn buys_stnear(sold: int, amount: int, price: int) -> bool {
    sold * price <= amount * 1_000_000_000_000_000_000_000_000 < (sold + 1) * price
}

/// For an exact output Meta Pool sells back the stNEAR that the output buys,
/// as it was before the discount of the pool, and at most what the slippage
/// brings down to that.
#[verifier::rlimit(50)]
pub proof fn metapool_sells_back_for_the_output(
    request: RequestView,
    network: NetworkState,
    market: MarketView,
    state: MetapoolContractState,
    basis_points: Option<u16>,
)
    requires
        form_of(request.token_in) == Some("meta-pool.near"@),
        request.amount is AmountOut,
    ensures
        metapool_route(request, network, market, Some(state), basis_points) matches Some(route) ==> {
            let slippage = slippage_of(market, request.slippage, request.token_in, request.token_out);
            let left = 1real - slippage.value();
            let taken = route.estimated->AmountIn_0;
            let most = route.worst_case->AmountIn_0;
            &&& route.estimated is AmountIn && route.worst_case is AmountIn
            &&& basis_points is Some && basis_points->0 < 10_000
            &&& exists|sold: int|
                {
                    &&& #[trigger] buys_stnear(
                        sold,
                        request.amount->AmountOut_0 as int,
                        state.st_near_price as int,
                    )
                    &&& 1_000_000_000_000_000_000_000_000 <= sold <= state.nslp_liquidity
                    &&& before_cut(taken as int, sold, basis_points->0 as int)
                }
            &&& 0 <= slippage.scale <= 48 ==> (most as real) * left <= (taken as real) < ((most as real) + 1real)
                * left
        },
{
    reveal_strlit("meta-pool.near");
    reveal_strlit("wrap.near");
    assert("meta-pool.near"@.len() != "wrap.near"@.len());
    match metapool_route(request, network, market, Some(state), basis_points) {
        Some(route) => {
            let slippage = slippage_of(market, request.slippage, request.token_in, request.token_out);
            slippage_is_never_all_or_nothing(market, request.slippage, request.token_in, request.token_out);
            let amount = request.amount->AmountOut_0;
            let bp = basis_points->0;
            let sold = stnear_sold(request.amount, state)->0;
            lemma_ratio(
                amount as nat,
                1_000_000_000_000_000_000_000_000,
                state.st_near_price as nat,
            );
            lemma_ratio(sold as nat, 10_000, (10_000 - bp) as nat);
            assert(buys_stnear(sold as int, amount as int, state.st_near_price as int));
            if 0 <= slippage.scale <= 48 {
                the_largest_input_is_more_by_the_slippage(route.estimated->AmountIn_0, slippage);
            }
        },
        None => {},
    }
}

/// Meta Pool stakes no less than one coin, and otherwise as any pool does.
pub proof fn metapool_stakes_one_coin_or_more(
    request: RequestView,
    network: NetworkState,
    market: MarketView,
    state: MetapoolContractState,
    basis_points: Option<u16>,
)
    requires
        form_of(request.token_in) == Some("wrap.near"@),
        form_of(request.token_out) == Some("meta-pool.near"@),
    ensures
        ({
            let route = metapool_route(request, network, market, Some(state), basis_points);
            let staked = stake_route(
                DexId::MetaPool,
                "meta-pool.near"@,
                request,
                network,
                Some(state.st_near_price),
            );
            &&& route is Some ==> route == staked && input_of(request, route->0)
                >= 1_000_000_000_000_000_000_000_000
            &&& staked is Some && input_of(request, staked->0) >= 1_000_000_000_000_000_000_000_000 ==> route is Some
        }),
{
    wallet_form_is_reached(request.token_out, 0);
}

/// Whether a number is a quotient, rounded down.
pub open spec fn rounds_to(q: int, top: int, bottom: int) -> bool {
    q * bottom <= top < (q + 1) * bottom
}

/// Staking RHEA and unstaking xRHEA follow the price of xRHEA, which is quoted
/// in parts of ten to the eighth: what is given for an exact input, and what is
/// taken for an exact output, is what that is worth, rounded down.
pub proof fn xrhea_follows_the_price(request: RequestView, network: NetworkState, quoted: u128)
    ensures
        xrhea_route(request, network, Some(quoted)) matches Some(route) ==> {
            let stakes = form_of(request.token_in) == Some("token.rhealab.near"@);
            let price = quoted as int;
            &&& request.amount matches Amount::AmountIn(amount) ==> {
                let given = route.estimated->AmountOut_0 as int;
                &&& route.estimated is AmountOut
                &&& stakes ==> rounds_to(given, amount * 100_000_000, price)
                &&& !stakes ==> rounds_to(given, amount * price, 100_000_000)
            }
            &&& request.amount matches Amount::AmountOut(amount) ==> {
                let taken = route.estimated->AmountIn_0 as int;
                &&& route.estimated is AmountIn
                &&& stakes ==> rounds_to(taken, amount * price, 100_000_000)
                &&& !stakes ==> rounds_to(taken, amount * 100_000_000, price)
            }
        },
{
    reveal_strlit("token.rhealab.near");
    reveal_strlit("xtoken.rhealab.near");
    assert("token.rhealab.near"@.len() != "xtoken.rhealab.near"@.len());
    wallet_form_is_reached(request.token_in, 0);
    wallet_form_is_reached(request.token_out, 0);
    let amount = match request.amount {
        Amount::AmountIn(amount) => amount,
        Amount::AmountOut(amount) => amount,
    };
    lemma_ratio(amount as nat, quoted as nat, 100_000_000);
    if quoted > 0 {
        lemma_ratio(amount as nat, 100_000_000, quoted as nat);
    }
}

/// Staking follows the price of the pool's token, which is in parts of ten to
/// the twenty-fourth: an exact input gives one unit less than it buys, and an
/// exact output takes what it is worth, rounded down.
pub proof fn staking_follows_the_price(
    dex_id: DexId,
    pool: Seq<char>,
    request: RequestView,
    network: NetworkState,
    price: u128,
)
    ensures
        stake_route(dex_id, pool, request, network, Some(price)) matches Some(route) ==> {
            &&& request.amount matches Amount::AmountIn(amount) ==> {
                let given = route.estimated->AmountOut_0 as int;
                let top = amount * 1_000_000_000_000_000_000_000_000;
                &&& route.estimated is AmountOut
                &&& rounds_to(given + 1, top, price as int) || (given == 0 && top < price)
            }
            &&& request.amount matches Amount::AmountOut(amount) ==> {
                &&& route.estimated is AmountIn
                &&& rounds_to(
                    route.estimated->AmountIn_0 as int,
                    amount * price,
                    1_000_000_000_000_000_000_000_000,
                )
            }
        },
{
    let amount = match request.amount {
        Amount::AmountIn(amount) => amount,
        Amount::AmountOut(amount) => amount,
    };
    lemma_ratio(amount as nat, price as nat, 1_000_000_000_000_000_000_000_000);
    if price > 0 {
        lemma_ratio(amount as nat, 1_000_000_000_000_000_000_000_000, price as nat);
        let bought = amount * 1_000_000_000_000_000_000_000_000 / (price as int);
        if bought == 0 {
            assert((bought + 1) * price == price) by (nonlinear_arith)
                requires
                    bought == 0,
            ;
        }
        vstd::arithmetic::div_mod::lemma_div_pos_is_pos(
            amount * 1_000_000_000_000_000_000_000_000,
            price as int,
        );
    }
}

} // verus!
