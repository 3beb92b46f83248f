//! What routes tell the exchanges to do.

use vstd::prelude::*;

use super::aidols::{aidols_route, AidolsEmulateSwap};
use super::amounts::referrer_of;
use super::deeds::{
    brings_then, digits, does, in_wallet, input_of, lemma_input, lemma_native, lemma_opened, lemma_opened_on, only,
    opened, opened_on, referred_by, transfers, with_five, with_four, with_one, with_three, with_two,
};
use super::grafun::{grafun_route, GraFunQuote};
use super::intear_plach::{
    amount_sent, in_operations, in_steps, out_operations, out_steps, plach_assets, plach_operations, plach_route,
    plach_swaps, referred, registration,
};
use super::near_intents::{intents_route, QuoteView};
use super::rhea::{rhea_route, rhea_steps, step_fields, step_of, steps_of, RheaOfferView, RheaRouteView};
use super::rhea_dcl::{best_quote, best_quote_is_best, dcl_pool, dcl_route};
use super::veax::{veax_route, VeaxQuote};
use crate::account::direct_sub_account;
use crate::asset::{asset_text, AssetIdView};
use crate::decimal::{largest_input, least_output, DecimalView};
use crate::encoding::{base64_text, le_bytes};
use crate::json::{json_text, JsonView};
use crate::ledger::{
    action, all_written, called, can_hold, form_of, pays_own_storage, wallet_form_is_reached,
};
use crate::network::NetworkState;
use crate::plach::api::{InPoolView, InRouteView, OfferView, OutPoolView, OutRouteView};
use crate::slippage::{slippage_is_never_all_or_nothing, slippage_of, MarketView};
use crate::text::{decimal_text, u64_of_text};
use crate::tolerance::{the_largest_input_is_more_by_the_slippage, the_least_output_is_less_by_the_slippage};
use crate::types::{ActionView, Amount, InstructionView, RequestView, RouteView, TokenIdView};

verus! {

/// A field that is not passed on: an input of nothing.
pub open spec fn is_no_input(field: (Seq<char>, JsonView)) -> bool {
    field.0 == "amount_in"@ && field.1 == JsonView::Text("0"@)
}

/// A field as it is passed on: the number of a pool as a number, where it is
/// one, and anything else as it is.
pub open spec fn passed_on(field: (Seq<char>, JsonView)) -> (Seq<char>, JsonView) {
    if field.0 == "pool_id"@ && field.1 is Text && u64_of_text(field.1->Text_0) is Some {
        (field.0, JsonView::Number(u64_of_text(field.1->Text_0)->0))
    } else {
        field
    }
}

/// A step is passed on field by field, in order, without an input of nothing;
/// what is not an object is passed on as it is.
pub proof fn steps_are_passed_on_field_by_field(step: JsonView)
    ensures
        step matches JsonView::Object(fields) ==> step_of(step) == JsonView::Object(
            fields.filter(|field: (Seq<char>, JsonView)| !is_no_input(field)).map_values(
                |field: (Seq<char>, JsonView)| passed_on(field),
            ),
        ),
        step !is Object ==> step_of(step) == step,
{
    match step {
        JsonView::Object(fields) => {
            lemma_step_fields(fields, fields.len() as int);
            assert(fields.take(fields.len() as int) =~= fields);
        },
        _ => {},
    }
}

/// The first fields of a step.
proof fn lemma_step_fields(fields: Seq<(Seq<char>, JsonView)>, k: int)
    requires
        0 <= k <= fields.len(),
    ensures
        step_fields(fields, k) == fields.take(k).filter(
            |field: (Seq<char>, JsonView)| !is_no_input(field),
        ).map_values(|field: (Seq<char>, JsonView)| passed_on(field)),
    decreases k,
{
    let kept = |field: (Seq<char>, JsonView)| !is_no_input(field);
    let passed = |field: (Seq<char>, JsonView)| passed_on(field);
    reveal(Seq::filter);
    reveal_strlit("amount_in");
    reveal_strlit("pool_id");
    assert("amount_in"@.len() != "pool_id"@.len());
    if k > 0 {
        lemma_step_fields(fields, k - 1);
        assert(fields.take(k).drop_last() =~= fields.take(k - 1));
        assert(fields.take(k).last() == fields[k - 1]);
        let before = fields.take(k - 1).filter(kept);
        let after = fields.take(k).filter(kept);
        if kept(fields[k - 1]) {
            assert(after =~= before.push(fields[k - 1]));
            assert(after.map_values(passed) =~= before.map_values(passed).push(passed_on(fields[k - 1])));
        }
    } else {
        assert(fields.take(0).filter(kept).map_values(passed) =~= Seq::empty());
    }
}

/// The pools of routes, one route after the other.
pub open spec fn pools_of(routes: Seq<RheaRouteView>) -> Seq<JsonView>
    decreases routes.len(),
{
    if routes.len() == 0 {
        Seq::empty()
    } else {
        pools_of(routes.drop_last()) + routes.last().pools
    }
}

/// What routes give at least, together.
pub open spec fn least_of(routes: Seq<RheaRouteView>) -> int
    decreases routes.len(),
{
    if routes.len() == 0 {
        0
    } else {
        least_of(routes.drop_last()) + routes.last().least
    }
}

/// The pools and the least of the first routes.
proof fn lemma_routes(routes: Seq<RheaRouteView>, k: int)
    requires
        0 <= k <= routes.len(),
    ensures
        rhea_steps(routes, k) == pools_of(routes.take(k)),
        super::rhea::least_total(routes, k) == least_of(routes.take(k)),
    decreases k,
{
    if k > 0 {
        lemma_routes(routes, k - 1);
        assert(routes.take(k).drop_last() =~= routes.take(k - 1));
    }
}

/// What Rhea is told to do with what is sent.
pub open spec fn rhea_message(actions: Seq<JsonView>, request: RequestView) -> JsonView {
    with_five(
        ("force"@, JsonView::Number(0)),
        ("actions"@, JsonView::Array(actions)),
        ("skip_degen_price_sync"@, JsonView::Bool(true)),
        ("skip_unwrap_near"@, JsonView::Bool(!(request.token_out is Near))),
        ("referral_id"@, JsonView::Text(referred_by(request))),
    )
}

/// A route over Rhea sells the exact input through the pools of the offer, for
/// what the offer says, and at least what its routes ask for together. Between
/// inner balances it swaps there; otherwise it lets the trader hold the output
/// and the input, brings the input into the wallet and sends it to Rhea, which
/// hands out the native coin where that is wanted.
#[verifier::rlimit(50)]
pub proof fn rhea_sells_the_input(request: RequestView, network: NetworkState, offer: RheaOfferView)
    ensures
        rhea_route(request, network, Some(offer)) matches Some(route) ==> {
            let from = form_of(request.token_in)->0;
            let to = form_of(request.token_out)->0;
            let sent = request.amount->AmountIn_0;
            let actions = pools_of(offer.routes).map_values(|pool: JsonView| step_of(pool));
            let inside = request.token_in is Nep141OnRhea && request.token_out is Nep141OnRhea;
            &&& request.amount is AmountIn
            &&& form_of(request.token_in) is Some && form_of(request.token_out) is Some && from != to
            &&& offer.routes.len() > 0
            &&& route.estimated == Amount::AmountOut(offer.amount_out)
            &&& route.worst_case is AmountOut && route.worst_case->AmountOut_0 == least_of(offer.routes)
            &&& inside ==> {
                &&& route.token_output == request.token_out
                &&& route.instructions == only(
                    called(
                        "v2.ref-finance.near"@,
                        "swap"@,
                        with_two(
                            ("actions"@, JsonView::Array(actions)),
                            ("referral_id"@, JsonView::Text("dex-aggregator.intear.near"@)),
                        ),
                        150,
                        1,
                    ),
                )
            }
            &&& !inside ==> {
                &&& request.token_out is Near ==> route.token_output is Near
                &&& !(request.token_out is Near) ==> route.token_output == in_wallet(to)
                &&& sent > 0 ==> brings_then(
                    route.instructions,
                    opened(network, request.trader, route.token_output) + opened(
                        network,
                        request.trader,
                        in_wallet(from),
                    ),
                    request.token_in,
                    in_wallet(from),
                    sent,
                    only(transfers(from, "v2.ref-finance.near"@, sent, rhea_message(actions, request), 150)),
                )
            }
        },
        request.amount is AmountIn && form_of(request.token_in) is Some && form_of(request.token_out) is Some && form_of(
            request.token_in,
        ) != form_of(request.token_out) && offer.routes.len() > 0 && least_of(offer.routes) <= u128::MAX ==> rhea_route(
            request,
            network,
            Some(offer),
        ) is Some,
{
    wallet_form_is_reached(request.token_in, 0);
    wallet_form_is_reached(request.token_out, 0);
    let n = offer.routes.len() as int;
    lemma_routes(offer.routes, n);
    assert(offer.routes.take(n) =~= offer.routes);
    let actions = pools_of(offer.routes).map_values(|pool: JsonView| step_of(pool));
    assert(steps_of(rhea_steps(offer.routes, n)) =~= actions);
    match rhea_route(request, network, Some(offer)) {
        Some(route) => {
            let from = form_of(request.token_in)->0;
            let sent = request.amount->AmountIn_0;
            lemma_opened(network, request.trader, route.token_output);
            lemma_opened(network, request.trader, in_wallet(from));
            if sent > 0 && !(request.token_in is Nep141OnRhea && request.token_out is Nep141OnRhea) {
                let moves = lemma_input(request.token_in, sent);
                assert(does(
                    route.instructions,
                    opened(network, request.trader, route.token_output) + opened(
                        network,
                        request.trader,
                        in_wallet(from),
                    ),
                    moves,
                    request.token_in,
                    in_wallet(from),
                    sent,
                    only(route.instructions.last()),
                ));
            }
        },
        None => {},
    }
}

/// Whether a quote is one of those that were had, and the best of them: the
/// largest output or the smallest input, but not nothing.
pub open spec fn is_best_quote(quotes: Seq<Option<u128>>, tier: int, quote: u128, largest: bool) -> bool {
    &&& 0 <= tier < quotes.len()
    &&& quotes[tier] == Some(quote)
    &&& quote > 0
    &&& forall|i: int|
        #![trigger quotes[i]]
        0 <= i < quotes.len() && quotes[i] is Some && quotes[i]->0 > 0 ==> if largest {
            quotes[i]->0 <= quote
        } else {
            quotes[i]->0 >= quote
        }
}

/// What the contract of concentrated liquidity is told to do with what is sent.
pub open spec fn dcl_told(
    pool: Seq<char>,
    to: Seq<char>,
    request: RequestView,
    worst: Amount,
) -> JsonView {
    let unwraps = ("skip_unwrap_near"@, JsonView::Bool(!(request.token_out is Near)));
    let pools = ("pool_ids"@, JsonView::Array(Seq::empty().push(JsonView::Text(pool))));
    let output = ("output_token"@, JsonView::Text(to));
    match request.amount {
        Amount::AmountIn(_) => with_one(
            (
                "Swap"@,
                with_four(pools, output, ("min_output_amount"@, digits(worst->AmountOut_0)), unwraps),
            ),
        ),
        Amount::AmountOut(amount) => with_one(
            ("SwapByOutput"@, with_four(pools, output, ("output_amount"@, digits(amount)), unwraps)),
        ),
    }
}

/// Whether a route over concentrated liquidity goes through the pool of a
/// tier.
pub open spec fn goes_through_tier(
    request: RequestView,
    network: NetworkState,
    quotes: Seq<Option<u128>>,
    route: RouteView,
    tier: int,
) -> bool {
    let from = form_of(request.token_in)->0;
    let to = form_of(request.token_out)->0;
    let sent = input_of(request, route);
    let quote = match route.estimated {
        Amount::AmountIn(quote) => quote,
        Amount::AmountOut(quote) => quote,
    };
    &&& is_best_quote(quotes, tier, quote, request.amount is AmountIn)
    &&& sent > 0 ==> brings_then(
        route.instructions,
        opened_on(network, request.trader, "dclv2.ref-labs.near"@, 500_000_000_000_000_000_000_000) + opened(
            network,
            request.trader,
            if request.amount is AmountIn {
                request.token_out
            } else {
                route.token_output
            },
        ) + opened(network, request.trader, in_wallet(from)),
        request.token_in,
        in_wallet(from),
        sent,
        only(
            transfers(
                from,
                "dclv2.ref-labs.near"@,
                sent,
                dcl_told(dcl_pool(from, to, tier), to, request, route.worst_case),
                100,
            ),
        ),
    )
}

/// A route over concentrated liquidity takes the best of the quotes of the
/// tiers. It pays for storage on the contract, lets the trader hold the output
/// and the input, brings the input into the wallet and sends it to the
/// contract to be swapped in the pool of that tier.
#[verifier::rlimit(50)]
pub proof fn dcl_takes_the_best_tier(
    request: RequestView,
    network: NetworkState,
    market: MarketView,
    quotes: Seq<Option<u128>>,
)
    ensures
        dcl_route(request, network, market, quotes) matches Some(route) ==> {
            &&& form_of(request.token_in) is Some && form_of(request.token_out) is Some
            &&& form_of(request.token_in) != form_of(request.token_out)
            &&& request.amount is AmountIn ==> route.estimated is AmountOut && route.worst_case is AmountOut
            &&& request.amount is AmountOut ==> route.estimated is AmountIn && route.worst_case is AmountIn
            &&& request.token_out is Near ==> route.token_output is Near
            &&& !(request.token_out is Near) ==> route.token_output == in_wallet(form_of(request.token_out)->0)
            &&& exists|tier: int| #[trigger] goes_through_tier(request, network, quotes, route, tier)
        },
{
    wallet_form_is_reached(request.token_in, 0);
    wallet_form_is_reached(request.token_out, 0);
    match dcl_route(request, network, market, quotes) {
        Some(route) => {
            let largest = request.amount is AmountIn;
            let n = quotes.len() as int;
            best_quote_is_best(largest, quotes, n);
            let (tier, quote) = best_quote(largest, quotes, n)->0;
            let from = form_of(request.token_in)->0;
            let sent = input_of(request, route);
            let stored = if largest {
                request.token_out
            } else {
                route.token_output
            };
            lemma_opened_on(
                network,
                request.trader,
                "dclv2.ref-labs.near"@,
                500_000_000_000_000_000_000_000,
            );
            lemma_opened(network, request.trader, stored);
            lemma_opened(network, request.trader, in_wallet(from));
            if sent > 0 {
                let moves = lemma_input(request.token_in, sent);
                assert(does(
                    route.instructions,
                    opened_on(network, request.trader, "dclv2.ref-labs.near"@, 500_000_000_000_000_000_000_000)
                        + opened(network, request.trader, stored) + opened(
                        network,
                        request.trader,
                        in_wallet(from),
                    ),
                    moves,
                    request.token_in,
                    in_wallet(from),
                    sent,
                    only(route.instructions.last()),
                ));
            }
            assert(goes_through_tier(request, network, quotes, route, tier));
        },
        None => {},
    }
}

/// Whether a name is that of a pool of two tokens at a fee, whichever way round
/// they are.
pub open spec fn names_pool(name: Seq<char>, a: Seq<char>, b: Seq<char>, fee: nat) -> bool {
    name == a + "|"@ + b + ("|"@ + decimal_text(fee)) || name == b + "|"@ + a + ("|"@ + decimal_text(fee))
}

/// The pools of two tokens are named by them, whichever is sold, and by the
/// fee of their tier: a hundredth, four hundredths, a fifth of a percent, or
/// one percent.
pub proof fn tiers_are_named_by_their_fees(a: Seq<char>, b: Seq<char>)
    ensures
        names_pool(dcl_pool(a, b, 0), a, b, 100),
        names_pool(dcl_pool(a, b, 1), a, b, 400),
        names_pool(dcl_pool(a, b, 2), a, b, 2_000),
        names_pool(dcl_pool(a, b, 3), a, b, 10_000),
        forall|tier: int| #[trigger] dcl_pool(a, b, tier) == dcl_pool(b, a, tier),
{
    lemma_before(a, b);
}

/// Of two different texts one comes first.
proof fn lemma_before(a: Seq<char>, b: Seq<char>)
    ensures
        a == b || super::rhea_dcl::before(a, b) != super::rhea_dcl::before(b, a),
    decreases a.len(),
{
    if a.len() > 0 && b.len() > 0 && a[0] == b[0] {
        let x = a.subrange(1, a.len() as int);
        let y = b.subrange(1, b.len() as int);
        lemma_before(x, y);
        if x == y {
            assert(a =~= seq![a[0]] + x);
            assert(b =~= seq![b[0]] + y);
        }
    } else if a.len() == 0 && b.len() == 0 {
        assert(a =~= b);
    }
}

/// The name that solvers know a token in the wallet by.
pub open spec fn known_as(token: TokenIdView) -> Option<Seq<char>> {
    match token {
        TokenIdView::Near => Some("nep141:"@ + "wrap.near"@),
        TokenIdView::Nep141(contract) => Some("nep141:"@ + contract),
        _ => None,
    }
}

/// Whether an offer is for the two tokens of a request.
pub open spec fn is_for(quote: QuoteView, request: RequestView) -> bool {
    known_as(request.token_in) == Some(quote.asset_in) && known_as(request.token_out) == Some(quote.asset_out)
}

/// Whether an offer is the best of those for a request: none gives more for
/// its input, or takes less for its output, as far as 127 bits can tell.
pub open spec fn is_best_offer(request: RequestView, quotes: Seq<QuoteView>, best: int) -> bool {
    &&& 0 <= best < quotes.len()
    &&& is_for(quotes[best], request)
    &&& forall|i: int|
        #![trigger quotes[i]]
        0 <= i < quotes.len() && is_for(quotes[i], request) ==> match request.amount {
            Amount::AmountIn(_) => quotes[i].amount_out <= quotes[best].amount_out || quotes[best].amount_out
                >= i128::MAX,
            Amount::AmountOut(_) => quotes[i].amount_in >= quotes[best].amount_in || quotes[i].amount_in >= i128::MAX,
        }
}

/// What a trader signs: to give the one asset and take the other, and to have
/// that withdrawn.
pub open spec fn signed(request: RequestView, quote: QuoteView) -> JsonView {
    let trader = JsonView::Text(request.trader->0);
    let diff = with_two(
        (quote.asset_in, JsonView::Text("-"@ + decimal_text(quote.amount_in as nat))),
        (quote.asset_out, digits(quote.amount_out)),
    );
    let swap = with_two(("intent"@, JsonView::Text("token_diff"@)), ("diff"@, diff));
    let withdrawal = match request.token_out {
        TokenIdView::Nep141(contract) => with_four(
            ("intent"@, JsonView::Text("ft_withdraw"@)),
            ("token"@, JsonView::Text(contract)),
            ("receiver_id"@, trader),
            ("amount"@, digits(quote.amount_out)),
        ),
        _ => with_four(
            ("intent"@, JsonView::Text("native_withdraw"@)),
            ("token"@, JsonView::Null),
            ("receiver_id"@, trader),
            ("amount"@, digits(quote.amount_out)),
        ),
    };
    with_three(
        ("deadline"@, JsonView::Text(quote.expiration)),
        ("intents"@, JsonView::Array(Seq::empty().push(swap).push(withdrawal))),
        ("signer_id"@, trader),
    )
}

/// What makes a signing key known, where it is known not to be.
pub open spec fn introduces(key: Option<Seq<char>>, has_key: Option<bool>) -> Seq<InstructionView> {
    if key is Some && has_key == Some(false) {
        only(called("intents.near"@, "add_public_key"@, with_one(("public_key"@, JsonView::Text(key->0))), 5, 1))
    } else {
        Seq::empty()
    }
}

/// What takes an offer of a solver: the input is sent to the contract, and the
/// swap is signed.
pub open spec fn takes_offer(request: RequestView, quote: QuoteView) -> Seq<InstructionView> {
    only(
        called(
            form_of(request.token_in)->0,
            "ft_transfer_call"@,
            with_three(
                ("receiver_id"@, JsonView::Text("intents.near"@)),
                ("amount"@, digits(quote.amount_in)),
                ("msg"@, JsonView::Text(""@)),
            ),
            40,
            1,
        ),
    ) + only(InstructionView::Quote { message: json_text(signed(request, quote)), hash: quote.hash })
}

/// Whether a route takes an offer.
pub open spec fn is_route_for(
    request: RequestView,
    network: NetworkState,
    quotes: Seq<QuoteView>,
    has_key: Option<bool>,
    route: RouteView,
    best: int,
) -> bool {
    let quote = quotes[best];
    &&& is_best_offer(request, quotes, best)
    &&& route.deadline == Some(quote.expiration)
    &&& route.estimated == match request.amount {
        Amount::AmountIn(_) => Amount::AmountOut(quote.amount_out),
        Amount::AmountOut(_) => Amount::AmountIn(quote.amount_in),
    }
    &&& route.worst_case == route.estimated
    &&& quote.amount_in > 0 ==> brings_then(
        route.instructions,
        introduces(request.signing_key, has_key) + opened(network, request.trader, request.token_out) + opened(
            network,
            request.trader,
            request.token_in,
        ),
        request.token_in,
        in_wallet(form_of(request.token_in)->0),
        quote.amount_in,
        takes_offer(request, quote),
    )
}

/// A route over NEAR Intents takes the best offer for the tokens, which are in
/// the wallet of a known trader. There is one wherever there is an offer.
#[verifier::rlimit(50)]
pub proof fn intents_take_the_best_offer(
    request: RequestView,
    network: NetworkState,
    quotes: Seq<QuoteView>,
    has_key: Option<bool>,
)
    ensures
        intents_route(request, network, quotes, has_key) matches Some(route) ==> {
            &&& request.trader is Some
            &&& known_as(request.token_in) is Some && known_as(request.token_out) is Some
            &&& route.token_output == request.token_out
            &&& !route.has_slippage
            &&& exists|best: int| #[trigger] is_route_for(request, network, quotes, has_key, route, best)
        },
        request.trader is Some && (exists|i: int| 0 <= i < quotes.len() && is_for(#[trigger] quotes[i], request))
            ==> intents_route(request, network, quotes, has_key) is Some,
{
    let asset_in = super::near_intents::intents_asset(request.token_in);
    let asset_out = super::near_intents::intents_asset(request.token_out);
    if asset_in is Some && asset_out is Some {
        super::near_intents::best_quote_is_best(
            request.amount,
            asset_in->0,
            asset_out->0,
            quotes,
            quotes.len() as int,
        );
    }
    match intents_route(request, network, quotes, has_key) {
        Some(route) => {
            let best = super::near_intents::best_quote(
                request.amount,
                asset_in->0,
                asset_out->0,
                quotes,
                quotes.len() as int,
            )->0;
            let quote = quotes[best];
            let sent = quote.amount_in;
            lemma_opened(network, request.trader, request.token_out);
            lemma_opened(network, request.trader, request.token_in);
            assert(is_best_offer(request, quotes, best));
            if sent > 0 {
                let moves = lemma_input(request.token_in, sent);
                let first = introduces(request.signing_key, has_key) + opened(
                    network,
                    request.trader,
                    request.token_out,
                ) + opened(network, request.trader, request.token_in);
                let last = takes_offer(request, quote);
                assert(super::near_intents::add_key(request.signing_key, has_key) =~= introduces(
                    request.signing_key,
                    has_key,
                ));
                assert(route.instructions =~= first + all_written(moves, sent) + last);
                assert(does(
                    route.instructions,
                    first,
                    moves,
                    request.token_in,
                    in_wallet(form_of(request.token_in)->0),
                    sent,
                    last,
                ));
            }
            assert(is_route_for(request, network, quotes, has_key, route, best));
        },
        None => {},
    }
}

/// What is done in the transaction that spends the input before it is spent:
/// the native coin is wrapped, and storage for the wrapped one is paid for
/// where it is missing.
pub open spec fn wraps_first(
    network: NetworkState,
    trader: Option<Seq<char>>,
    token: TokenIdView,
    amount: u128,
) -> Seq<ActionView> {
    let wrap = action("near_deposit"@, JsonView::Object(Seq::empty()), 2, amount);
    if !(token is Near) {
        Seq::empty()
    } else if trader is Some && !can_hold(network, trader->0, in_wallet("wrap.near"@)) {
        Seq::empty().push(pays_own_storage(1_250_000_000_000_000_000_000, true)).push(wrap)
    } else {
        Seq::empty().push(wrap)
    }
}

/// The action that sends an amount of a fungible token to a contract with a
/// message.
pub open spec fn sending(receiver: Seq<char>, amount: u128, message: JsonView, tgas: u64) -> ActionView {
    action(
        "ft_transfer_call"@,
        with_three(
            ("receiver_id"@, JsonView::Text(receiver)),
            ("amount"@, digits(amount)),
            ("msg"@, JsonView::Text(json_text(message))),
        ),
        tgas,
        1,
    )
}

/// Whether a token in the wallet is the native coin, wrapped or not.
pub open spec fn is_native(token: TokenIdView) -> bool {
    token is Near || token == in_wallet("wrap.near"@)
}

/// A route over GraFun sells an exact input: the native coin for one of the
/// contract's tokens, or the other way round, which gives the wrapped coin. It
/// lets the trader hold the output, wraps the input where it is the native
/// coin, and sends it to the contract with what is bought and the bound.
#[verifier::rlimit(50)]
pub proof fn grafun_trades_the_input(request: RequestView, network: NetworkState, quote: GraFunQuote)
    ensures
        grafun_route(request, network, Some(quote)) matches Some(route) ==> {
            let buys = is_native(request.token_in);
            let token = if buys {
                request.token_out->Nep141_0
            } else {
                request.token_in->Nep141_0
            };
            let sent = request.amount->AmountIn_0;
            let message = with_two(
                (
                    "token"@,
                    if buys {
                        JsonView::Text(token)
                    } else {
                        JsonView::Null
                    },
                ),
                ("min_swap_amount"@, digits(quote.min_amount_out)),
            );
            &&& quote.is_tradable
            &&& request.amount is AmountIn
            &&& buys ==> request.token_out is Nep141
            &&& !buys ==> request.token_in is Nep141 && is_native(request.token_out)
            &&& direct_sub_account(token, "gra-fun.near"@)
            &&& route.estimated == Amount::AmountOut(quote.amount_out)
            &&& route.worst_case == Amount::AmountOut(quote.min_amount_out)
            &&& route.token_output == in_wallet(
                if buys {
                    token
                } else {
                    "wrap.near"@
                },
            )
            &&& route.instructions == opened(network, request.trader, request.token_out).push(
                InstructionView::Transaction {
                    receiver: if buys {
                        "wrap.near"@
                    } else {
                        token
                    },
                    actions: (if buys {
                        wraps_first(network, request.trader, request.token_in, sent)
                    } else {
                        Seq::empty()
                    }).push(sending("gra-fun.near"@, sent, message, 50)),
                },
            )
        },
{
    lemma_opened(network, request.trader, request.token_out);
}

/// What Veax is told to do with what is sent: to take it in, to swap, and to
/// hand out what there is of both tokens.
pub open spec fn veax_told(request: RequestView, from: Seq<char>, to: Seq<char>, worst: u128) -> JsonView {
    let hand_out = |token: Seq<char>|
        with_one(
            (
                "Withdraw"@,
                JsonView::Array(
                    Seq::empty().push(JsonView::Text(token)).push(JsonView::Text("0"@)).push(JsonView::Null),
                ),
            ),
        );
    let (kind, amount) = match request.amount {
        Amount::AmountIn(amount) => ("SwapExactIn"@, amount),
        Amount::AmountOut(amount) => ("SwapExactOut"@, amount),
    };
    let swap = with_one(
        (
            kind,
            with_four(
                ("token_in"@, JsonView::Text(from)),
                ("token_out"@, JsonView::Text(to)),
                ("amount"@, digits(amount)),
                ("amount_limit"@, digits(worst)),
            ),
        ),
    );
    JsonView::Array(
        Seq::empty().push(JsonView::Text("Deposit"@)).push(swap).push(hand_out(from)).push(hand_out(to)),
    )
}

/// A token in the wallet as Veax knows it.
pub open spec fn on_veax(token: TokenIdView) -> Option<Seq<char>> {
    match token {
        TokenIdView::Near => Some("wrap.near"@),
        TokenIdView::Nep141(contract) => Some(contract),
        _ => None,
    }
}

/// A route over Veax comes to what was quoted. Its last transaction wraps the
/// input where it is the native coin, and sends it to the contract, which
/// swaps it within the bound and hands out what there is.
#[verifier::rlimit(50)]
pub proof fn veax_swaps_the_input(
    request: RequestView,
    network: NetworkState,
    quote: VeaxQuote,
    known: Option<Seq<Seq<char>>>,
)
    ensures
        on_veax(request.token_in) is Some && on_veax(request.token_out) is Some <==> veax_route(
            request,
            network,
            Some(quote),
            known,
        ) is Some,
        veax_route(request, network, Some(quote), known) matches Some(route) ==> {
            let from = on_veax(request.token_in)->0;
            let to = on_veax(request.token_out)->0;
            let sent = input_of(request, route);
            &&& request.amount is AmountIn ==> route.estimated == Amount::AmountOut(quote.estimated)
                && route.worst_case == Amount::AmountOut(quote.worst_case)
            &&& request.amount is AmountOut ==> route.estimated == Amount::AmountIn(quote.estimated)
                && route.worst_case == Amount::AmountIn(quote.worst_case)
            &&& route.token_output == in_wallet(to)
            &&& route.instructions.len() > 0
            &&& route.instructions.last() == (InstructionView::Transaction {
                receiver: from,
                actions: wraps_first(network, request.trader, request.token_in, sent).push(
                    sending(
                        "veax.near"@,
                        sent,
                        veax_told(request, from, to, quote.worst_case),
                        if request.amount is AmountIn {
                            120
                        } else {
                            200
                        },
                    ),
                ),
            })
        },
{
}

/// What a trader on Veax has to do first: to pay for storage there, and to pay
/// for and register those of the two tokens that it is known not to have.
pub open spec fn joins_veax(
    network: NetworkState,
    trader: Seq<char>,
    known: Option<Seq<Seq<char>>>,
    from: Seq<char>,
    to: Seq<char>,
) -> Seq<ActionView> {
    let storage = if can_hold(network, trader, in_wallet("veax.near"@)) {
        Seq::empty()
    } else {
        Seq::empty().push(pays_own_storage(3_660_000_000_000_000_000_000, true))
    };
    let first = if known is Some && !known->0.contains(from) {
        Seq::empty().push(JsonView::Text(from))
    } else {
        Seq::empty()
    };
    let missing = if known is Some && !known->0.contains(to) {
        first.push(JsonView::Text(to))
    } else {
        first
    };
    if missing.len() == 0 {
        storage
    } else {
        storage.push(
            action(
                "storage_deposit"@,
                JsonView::Object(Seq::empty()),
                10,
                (2_840_000_000_000_000_000_000 * missing.len()) as u128,
            ),
        ).push(action("register_tokens"@, with_one(("token_ids"@, JsonView::Array(missing))), 10, 1))
    }
}

/// Before a route over Veax swaps, a known trader joins the contract as far as
/// that is missing; one that is not known does nothing.
#[verifier::rlimit(50)]
pub proof fn veax_is_joined_first(
    request: RequestView,
    network: NetworkState,
    quote: VeaxQuote,
    known: Option<Seq<Seq<char>>>,
)
    ensures
        veax_route(request, network, Some(quote), known) matches Some(route) ==> {
            let from = on_veax(request.token_in)->0;
            let to = on_veax(request.token_out)->0;
            let actions = joins_veax(network, request.trader->0, known, from, to);
            route.instructions.drop_last() == if request.trader is None || actions.len() == 0 {
                Seq::empty()
            } else {
                only(InstructionView::Transaction { receiver: "veax.near"@, actions })
            }
        },
{
    match veax_route(request, network, Some(quote), known) {
        Some(route) => {
            let from = on_veax(request.token_in)->0;
            let to = on_veax(request.token_out)->0;
            if known is Some {
                crate::ident::lemma_found(known->0, from, known->0.len() as int);
                crate::ident::lemma_found(known->0, to, known->0.len() as int);
            }
            let registration = super::veax::veax_registration(network, request.trader, known, from, to);
            assert(route.instructions.drop_last() =~= registration);
        },
        None => {},
    }
}

/// The asset that a token becomes on the Intear DEX: itself where it is there,
/// the native coin for any of its forms, and the fungible token otherwise.
pub open spec fn becomes(token: TokenIdView) -> Option<AssetIdView> {
    match token {
        TokenIdView::TokenOnIntearDex(asset) => Some(asset),
        _ => if form_of(token) == Some("wrap.near"@) {
            Some(AssetIdView::Near)
        } else if form_of(token) is Some {
            Some(AssetIdView::Nep141(form_of(token)->0))
        } else {
            None
        },
    }
}

/// The token that an asset becomes when it is withdrawn.
pub open spec fn leaves_as(asset: AssetIdView) -> Option<TokenIdView> {
    match asset {
        AssetIdView::Near => Some(TokenIdView::Near),
        AssetIdView::Nep141(contract) => Some(in_wallet(contract)),
        _ => None,
    }
}

/// The digits of an amount, or nothing where it is nothing.
pub open spec fn bound(amount: u128) -> JsonView {
    if amount > 0 {
        digits(amount)
    } else {
        JsonView::Null
    }
}

/// The operation that swaps in one pool.
pub open spec fn swaps_in(
    pool_id: u32,
    token_in: AssetIdView,
    token_out: AssetIdView,
    amount: JsonView,
    limit: JsonView,
) -> JsonView {
    with_one(
        (
            "SwapSimple"@,
            JsonView::Object(
                Seq::empty().push(("dex_id"@, JsonView::Text("slimedragon.near/xyk"@))).push(
                    ("message"@, JsonView::Text(base64_text(le_bytes(pool_id)))),
                ).push(("asset_in"@, JsonView::Text(asset_text(token_in)))).push(
                    ("asset_out"@, JsonView::Text(asset_text(token_out))),
                ).push(("amount"@, amount)).push(("constraint"@, limit)),
            ),
        ),
    )
}

/// The swaps of the routes of an offer for an exact input, one after the
/// other: the first of a route is given its amount, and every later one what
/// the one before gave.
pub open spec fn selling(routes: Seq<InRouteView>) -> Seq<JsonView>
    decreases routes.len(),
{
    if routes.len() == 0 {
        Seq::empty()
    } else {
        selling(routes.drop_last()) + routes.last().pools.map_values(
            |pool: InPoolView|
                swaps_in(
                    pool.pool_id,
                    pool.token_in,
                    pool.token_out,
                    if pool.amount_in > 0 {
                        with_one(("Amount"@, with_one(("ExactIn"@, digits(pool.amount_in)))))
                    } else {
                        JsonView::Text("OutputOfLastIn"@)
                    },
                    bound(pool.min_amount_out),
                ),
        )
    }
}

/// The swaps of the routes of an offer for an exact output, one after the
/// other.
pub open spec fn buying(routes: Seq<OutRouteView>) -> Seq<JsonView>
    decreases routes.len(),
{
    if routes.len() == 0 {
        Seq::empty()
    } else {
        buying(routes.drop_last()) + routes.last().pools.map_values(
            |pool: OutPoolView|
                swaps_in(
                    pool.pool_id,
                    pool.token_in,
                    pool.token_out,
                    with_one(("Amount"@, with_one(("ExactOut"@, digits(pool.amount_out))))),
                    bound(pool.max_amount_in),
                ),
        )
    }
}

/// What the routes of an offer give at least, together.
pub open spec fn asked_of(routes: Seq<InRouteView>) -> int
    decreases routes.len(),
{
    if routes.len() == 0 {
        0
    } else {
        asked_of(routes.drop_last()) + routes.last().min_amount_out
    }
}

/// The swaps of the first routes.
proof fn lemma_selling(routes: Seq<InRouteView>, k: int)
    requires
        0 <= k <= routes.len(),
    ensures
        in_operations(in_steps(routes, k)) == selling(routes.take(k)),
        super::intear_plach::least_total(routes, k) == asked_of(routes.take(k)),
    decreases k,
{
    if k > 0 {
        lemma_selling(routes, k - 1);
        assert(routes.take(k).drop_last() =~= routes.take(k - 1));
        let before = in_steps(routes, k - 1);
        let more = routes[k - 1].pools;
        assert(in_operations(before + more) =~= in_operations(before) + in_operations(more));
        let after = selling(routes.take(k));
        assert(after =~= selling(routes.take(k - 1)) + in_operations(more));
    } else {
        assert(in_operations(in_steps(routes, 0)) =~= selling(routes.take(0)));
    }
}

/// The swaps of the first routes.
proof fn lemma_buying(routes: Seq<OutRouteView>, k: int)
    requires
        0 <= k <= routes.len(),
    ensures
        out_operations(out_steps(routes, k)) == buying(routes.take(k)),
    decreases k,
{
    if k > 0 {
        lemma_buying(routes, k - 1);
        assert(routes.take(k).drop_last() =~= routes.take(k - 1));
        let before = out_steps(routes, k - 1);
        let more = routes[k - 1].pools;
        assert(out_operations(before + more) =~= out_operations(before) + out_operations(more));
        assert(buying(routes.take(k)) =~= buying(routes.take(k - 1)) + out_operations(more));
    } else {
        assert(out_operations(out_steps(routes, 0)) =~= buying(routes.take(0)));
    }
}

/// The operation that withdraws an asset to the caller.
pub open spec fn takes_out(asset: AssetIdView, amount: JsonView) -> JsonView {
    with_one(
        (
            "Withdraw"@,
            with_four(
                ("asset_id"@, JsonView::Text(asset_text(asset))),
                ("amount"@, amount),
                ("to"@, JsonView::Null),
                ("rescue_address"@, JsonView::Null),
            ),
        ),
    )
}

/// All that there is of an asset, and at least so much.
pub open spec fn all_of(at_least: JsonView) -> JsonView {
    with_one(("Full"@, with_one(("at_least"@, at_least))))
}

/// Whether the output of a route is withdrawn: always where the input comes
/// from outside, and otherwise where it is exact and wanted outside.
pub open spec fn goes_out(request: RequestView) -> bool {
    !(request.token_in is TokenOnIntearDex) || (request.amount is AmountOut && !(
    request.token_out is TokenOnIntearDex))
}

/// What the Intear DEX is told to do for an offer: to swap, and then to hand
/// out the output, and what is left of the input where it came from outside
/// and may not all be needed.
pub open spec fn plach_told(request: RequestView, offer: OfferView) -> Seq<JsonView> {
    let token_in = becomes(request.token_in)->0;
    let token_out = becomes(request.token_out)->0;
    let swaps = match offer {
        OfferView::ExactIn { routes, .. } => selling(routes),
        OfferView::ExactOut { routes, .. } => buying(routes),
    };
    if !goes_out(request) {
        swaps
    } else {
        match request.amount {
            Amount::AmountIn(_) => swaps.push(
                takes_out(
                    token_out,
                    all_of(
                        digits(
                            match offer {
                                OfferView::ExactIn { routes, .. } => asked_of(routes) as u128,
                                OfferView::ExactOut { .. } => 0,
                            },
                        ),
                    ),
                ),
            ),
            Amount::AmountOut(amount) => if request.token_in is TokenOnIntearDex {
                swaps.push(takes_out(token_out, with_one(("Exact"@, digits(amount)))))
            } else {
                swaps.push(takes_out(token_out, all_of(digits(amount)))).push(
                    takes_out(token_in, all_of(JsonView::Null)),
                )
            },
        }
    }
}

/// What registers a known trader with the Intear DEX for two assets, where
/// that is missing.
pub open spec fn joins_intear(
    network: NetworkState,
    trader: Option<Seq<char>>,
    a: AssetIdView,
    b: AssetIdView,
) -> Seq<InstructionView> {
    let has = |asset: AssetIdView|
        network.intear_registered.contains_key((trader->0, asset)) && network.intear_registered[(trader->0, asset)];
    if trader is None || (has(a) && has(b)) {
        Seq::empty()
    } else {
        only(
            InstructionView::Transaction {
                receiver: "dex.intear.near"@,
                actions: Seq::empty().push(
                    action("storage_deposit"@, JsonView::Object(Seq::empty()), 5, 5_000_000_000_000_000_000_000),
                ).push(
                    action(
                        "register_assets"@,
                        with_one(
                            (
                                "asset_ids"@,
                                JsonView::Array(
                                    Seq::empty().push(JsonView::Text(asset_text(a))).push(
                                        JsonView::Text(asset_text(b)),
                                    ),
                                ),
                            ),
                        ),
                        5,
                        1,
                    ),
                ),
            },
        )
    }
}

/// The operations of an offer, and who refers them.
pub open spec fn plach_message(request: RequestView, offer: OfferView) -> JsonView {
    with_two(
        ("operations"@, JsonView::Array(plach_told(request, offer))),
        ("referrer"@, JsonView::Text(referred_by(request))),
    )
}

/// How much is sent for an offer: the exact input, or the most that it takes.
pub open spec fn sent_for(request: RequestView, offer: OfferView) -> u128 {
    match (request.amount, offer) {
        (Amount::AmountIn(amount), _) => amount,
        (Amount::AmountOut(_), OfferView::ExactOut { max_amount_in, .. }) => max_amount_in,
        (Amount::AmountOut(_), OfferView::ExactIn { .. }) => 0,
    }
}

/// A route over Intear Plach comes to what the offer says, and at worst to what
/// its routes ask for together. It is between two different assets, and ends
/// with the output in the wallet, or on the Intear DEX where it stays there.
#[verifier::rlimit(50)]
pub proof fn plach_comes_to_the_offer(request: RequestView, network: NetworkState, offer: OfferView)
    ensures
        plach_route(request, network, Some(offer)) matches Some(route) ==> {
            let token_in = becomes(request.token_in);
            let token_out = becomes(request.token_out);
            &&& token_in is Some && token_out is Some && token_in != token_out
            &&& match offer {
                OfferView::ExactIn { routes, amount_out, .. } => {
                    &&& routes.len() > 0
                    &&& route.estimated == Amount::AmountOut(amount_out)
                    &&& route.worst_case is AmountOut && route.worst_case->AmountOut_0 == asked_of(routes)
                },
                OfferView::ExactOut { routes, amount_in, max_amount_in, .. } => {
                    &&& routes.len() > 0
                    &&& route.estimated == Amount::AmountIn(amount_in)
                    &&& route.worst_case == Amount::AmountIn(max_amount_in)
                },
            }
            &&& if goes_out(request) {
                leaves_as(token_out->0) == Some(route.token_output)
            } else {
                route.token_output == TokenIdView::TokenOnIntearDex(token_out->0)
            }
        },
{
    wallet_form_is_reached(request.token_in, 0);
    wallet_form_is_reached(request.token_out, 0);
    lemma_swaps(offer);
}

/// What the swaps of an offer are.
proof fn lemma_swaps(offer: OfferView)
    ensures
        plach_swaps(offer) matches Some(swaps) ==> {
            &&& swaps.operations == match offer {
                OfferView::ExactIn { routes, .. } => selling(routes),
                OfferView::ExactOut { routes, .. } => buying(routes),
            }
            &&& offer matches OfferView::ExactIn { routes, .. } ==> swaps.least_out == asked_of(routes)
                && swaps.worst == Amount::AmountOut(swaps.least_out)
            &&& offer is ExactOut ==> swaps.least_out == 0
        },
{
    match offer {
        OfferView::ExactIn { routes, .. } => {
            lemma_selling(routes, routes.len() as int);
            assert(routes.take(routes.len() as int) =~= routes);
        },
        OfferView::ExactOut { routes, .. } => {
            lemma_buying(routes, routes.len() as int);
            assert(routes.take(routes.len() as int) =~= routes);
        },
    }
}

/// The message for an offer.
#[verifier::rlimit(50)]
proof fn lemma_message(request: RequestView, offer: OfferView)
    requires
        plach_assets(request) is Some,
        plach_swaps(offer) is Some,
    ensures
        plach_assets(request) == Some((becomes(request.token_in)->0, becomes(request.token_out)->0)),
        referred(
            plach_operations(
                request,
                becomes(request.token_in)->0,
                becomes(request.token_out)->0,
                plach_swaps(offer)->0,
            ),
            referrer_of(request.referrer),
        ) == plach_message(request, offer),
        amount_sent(request.amount, plach_swaps(offer)->0.most_in) == sent_for(request, offer),
{
    wallet_form_is_reached(request.token_in, 0);
    wallet_form_is_reached(request.token_out, 0);
    lemma_swaps(offer);
}

/// What registers with the Intear DEX.
proof fn lemma_joins(network: NetworkState, trader: Option<Seq<char>>, a: AssetIdView, b: AssetIdView)
    ensures
        registration(network, trader, a, b) == joins_intear(network, trader, a, b),
{
    let registers = registration(network, trader, a, b);
    let joins = joins_intear(network, trader, a, b);
    if registers.len() > 0 {
        assert(registers[0]->actions =~= joins[0]->actions);
    }
    assert(registers =~= joins);
}

/// A route over Intear Plach from the Intear DEX registers the trader and has
/// the operations of the offer carried out there.
pub proof fn plach_swaps_inside(request: RequestView, network: NetworkState, offer: OfferView)
    requires
        request.token_in is TokenOnIntearDex,
    ensures
        plach_route(request, network, Some(offer)) matches Some(route) ==> route.instructions == joins_intear(
            network,
            request.trader,
            becomes(request.token_in)->0,
            becomes(request.token_out)->0,
        ) + only(called("dex.intear.near"@, "execute_operations"@, plach_message(request, offer), 280, 1)),
{
    if plach_route(request, network, Some(offer)) is Some {
        lemma_message(request, offer);
        lemma_joins(
            network,
            request.trader,
            becomes(request.token_in)->0,
            becomes(request.token_out)->0,
        );
    }
}

/// A route over Intear Plach that sells the native coin, in one of its forms
/// outside of the Intear DEX, registers the trader, lets it hold the output,
/// turns the input into the native coin, and deposits it with the operations
/// of the offer.
#[verifier::rlimit(50)]
pub proof fn plach_deposits_the_native_coin(request: RequestView, network: NetworkState, offer: OfferView)
    requires
        !(request.token_in is TokenOnIntearDex),
        becomes(request.token_in) == Some(AssetIdView::Near),
    ensures
        plach_route(request, network, Some(offer)) matches Some(route) ==> {
            let sent = sent_for(request, offer);
            brings_then(
                route.instructions,
                joins_intear(network, request.trader, AssetIdView::Near, becomes(request.token_out)->0) + opened(
                    network,
                    request.trader,
                    route.token_output,
                ),
                request.token_in,
                TokenIdView::Near,
                sent,
                only(
                    called(
                        "dex.intear.near"@,
                        "deposit_near"@,
                        with_one(("operations"@, plach_message(request, offer))),
                        280,
                        sent,
                    ),
                ),
            )
        },
{
    match plach_route(request, network, Some(offer)) {
        Some(route) => {
            let sent = sent_for(request, offer);
            let token_out = becomes(request.token_out)->0;
            lemma_message(request, offer);
            lemma_joins(network, request.trader, AssetIdView::Near, token_out);
            lemma_opened(network, request.trader, route.token_output);
            let moves = lemma_native(request.token_in, sent);
            let first = joins_intear(network, request.trader, AssetIdView::Near, token_out) + opened(
                network,
                request.trader,
                route.token_output,
            );
            let last = only(
                called(
                    "dex.intear.near"@,
                    "deposit_near"@,
                    with_one(("operations"@, plach_message(request, offer))),
                    280,
                    sent,
                ),
            );
            assert(route.instructions =~= first + all_written(moves, sent) + last);
            assert(does(route.instructions, first, moves, request.token_in, TokenIdView::Near, sent, last));
        },
        None => {},
    }
}

/// A route over Intear Plach that sells another token from outside of the
/// Intear DEX registers the trader, lets it hold the output and the input,
/// brings the input into the wallet, and sends it with the operations of the
/// offer.
#[verifier::rlimit(50)]
pub proof fn plach_sends_the_token(request: RequestView, network: NetworkState, offer: OfferView)
    requires
        !(request.token_in is TokenOnIntearDex),
        becomes(request.token_in) != Some(AssetIdView::Near),
        sent_for(request, offer) > 0,
    ensures
        plach_route(request, network, Some(offer)) matches Some(route) ==> {
            let sent = sent_for(request, offer);
            let token = form_of(request.token_in)->0;
            brings_then(
                route.instructions,
                joins_intear(
                    network,
                    request.trader,
                    becomes(request.token_in)->0,
                    becomes(request.token_out)->0,
                ) + opened(network, request.trader, route.token_output) + opened(
                    network,
                    request.trader,
                    in_wallet(token),
                ),
                request.token_in,
                in_wallet(token),
                sent,
                only(transfers(token, "dex.intear.near"@, sent, plach_message(request, offer), 280)),
            )
        },
{
    match plach_route(request, network, Some(offer)) {
        Some(route) => {
            let sent = sent_for(request, offer);
            let token = form_of(request.token_in)->0;
            let token_in = becomes(request.token_in)->0;
            let token_out = becomes(request.token_out)->0;
            lemma_message(request, offer);
            lemma_joins(network, request.trader, token_in, token_out);
            lemma_opened(network, request.trader, route.token_output);
            lemma_opened(network, request.trader, in_wallet(token));
            let moves = lemma_input(request.token_in, sent);
            let first = joins_intear(network, request.trader, token_in, token_out) + opened(
                network,
                request.trader,
                route.token_output,
            ) + opened(network, request.trader, in_wallet(token));
            let last = only(transfers(token, "dex.intear.near"@, sent, plach_message(request, offer), 280));
            assert(route.instructions =~= first + all_written(moves, sent) + last);
            assert(does(route.instructions, first, moves, request.token_in, in_wallet(token), sent, last));
        },
        None => {},
    }
}

/// Whether the worst case of a route is its estimate with a slippage: less
/// output by it, rounded down, or the input that it brings down to the
/// estimate, rounded down.
pub open spec fn allows(route: RouteView, slippage: DecimalView) -> bool {
    let s = slippage.value();
    match (route.estimated, route.worst_case) {
        (Amount::AmountOut(estimate), Amount::AmountOut(least)) => (least as real) <= (estimate as real) * (1real - s)
            < (least as real) + 1real,
        (Amount::AmountIn(estimate), Amount::AmountIn(most)) => 0 <= slippage.scale <= 48 ==> (most as real) * (1real
            - s) <= (estimate as real) < ((most as real) + 1real) * (1real - s),
        _ => false,
    }
}

/// The worst cases of routes over Aidols and over concentrated liquidity are
/// their estimates with the slippage that the request is given; bounds on
/// inputs are stated for slippages of no more than forty-eight places.
pub proof fn worst_cases_allow_the_slippage(
    request: RequestView,
    network: NetworkState,
    market: MarketView,
    quote: Option<AidolsEmulateSwap>,
    quotes: Seq<Option<u128>>,
)
    ensures
        ({
            let slippage = slippage_of(market, request.slippage, request.token_in, request.token_out);
            &&& aidols_route(request, network, market, quote) matches Some(route) ==> allows(route, slippage)
            &&& dcl_route(request, network, market, quotes) matches Some(route) ==> allows(route, slippage)
        }),
{
    let slippage = slippage_of(market, request.slippage, request.token_in, request.token_out);
    slippage_is_never_all_or_nothing(market, request.slippage, request.token_in, request.token_out);
    let s = slippage.value();
    assert(0real <= s < 1real);
    match aidols_route(request, network, market, quote) {
        Some(route) => {
            lemma_allows(route, slippage);
        },
        None => {},
    }
    match dcl_route(request, network, market, quotes) {
        Some(route) => {
            lemma_allows(route, slippage);
        },
        None => {},
    }
}

/// A worst case that is made by the slippage allows it.
proof fn lemma_allows(route: RouteView, slippage: DecimalView)
    requires
        0real <= slippage.value() < 1real,
        match (route.estimated, route.worst_case) {
            (Amount::AmountOut(estimate), Amount::AmountOut(least)) => least_output(estimate, slippage) == Some(
                least,
            ),
            (Amount::AmountIn(estimate), Amount::AmountIn(most)) => largest_input(estimate, slippage) == Some(most),
            _ => false,
        },
    ensures
        allows(route, slippage),
{
    match (route.estimated, route.worst_case) {
        (Amount::AmountOut(estimate), Amount::AmountOut(_)) => {
            the_least_output_is_less_by_the_slippage(estimate, slippage);
        },
        (Amount::AmountIn(estimate), Amount::AmountIn(_)) => {
            if 0 <= slippage.scale <= 48 {
                the_largest_input_is_more_by_the_slippage(estimate, slippage);
            }
        },
        _ => {},
    }
}

/// A trader who would have to pay for storage on the contract of concentrated
/// liquidity, and is known to have less than one coin, is offered no sale
/// there. Otherwise a sale is offered wherever a quote gives something.
pub proof fn dcl_spares_the_poor(
    request: RequestView,
    network: NetworkState,
    market: MarketView,
    quotes: Seq<Option<u128>>,
)
    requires
        request.amount is AmountIn,
        form_of(request.token_in) is Some && form_of(request.token_out) is Some,
        form_of(request.token_in) != form_of(request.token_out),
    ensures
        ({
            let poor = request.trader is Some && !can_hold(
                network,
                request.trader->0,
                in_wallet("dclv2.ref-labs.near"@),
            ) && network.native_balances.contains_key(request.trader->0) && network.native_balances[request.trader->0]
                < 1_000_000_000_000_000_000_000_000;
            dcl_route(request, network, market, quotes) is Some <==> !poor && exists|i: int|
                0 <= i < quotes.len() && (#[trigger] quotes[i]) is Some && quotes[i]->0 > 0
        }),
{
    wallet_form_is_reached(request.token_in, 0);
    wallet_form_is_reached(request.token_out, 0);
    slippage_is_never_all_or_nothing(market, request.slippage, request.token_in, request.token_out);
    let slippage = slippage_of(market, request.slippage, request.token_in, request.token_out);
    let n = quotes.len() as int;
    best_quote_is_best(true, quotes, n);
    match best_quote(true, quotes, n) {
        Some((tier, quote)) => {
            the_least_output_is_less_by_the_slippage(quote, slippage);
            assert(quotes[tier] is Some && quotes[tier]->0 > 0);
        },
        None => {},
    }
}

} // verus!
