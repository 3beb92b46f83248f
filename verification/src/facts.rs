//! What has to be known of the chain before a request is answered.

use vstd::prelude::*;

use crate::account::AccountId;
use crate::asset::{AssetId, AssetIdView};
use crate::ident::{views, Ident, IdentPair};
use crate::network::NetworkState;
use crate::plach::api::OfferView;
use crate::providers::aidols::{aidols_route, AidolsEmulateSwap};
use crate::providers::amounts::nep141;
use crate::providers::grafun::{grafun_route, GraFunQuote};
use crate::providers::intear_plach::{plach_assets, plach_route};
use crate::providers::metapool::{metapool_route, MetapoolContractState};
use crate::providers::near_intents::{intents_route, QuoteView};
use crate::providers::rhea::{rhea_route, RheaOfferView};
use crate::providers::rhea_dcl::{dcl_route, RHEA_DCL_CONTRACT_ID};
use crate::providers::staking::stake_route;
use crate::providers::veax::{veax_route, VeaxQuote, VEAX_CONTRACT_ID};
use crate::providers::xrhea::xrhea_route;
use crate::router::{answer, finished, ranked_routes};
use crate::shared_utils::{
    contract, deposit_registrations, nep141_of, register_instructions, storage_if_needed, wallet_token,
    INTEAR_CONTRACT, RHEA_CONTRACT, WRAP_NEAR,
};
use crate::slippage::MarketView;
use crate::types::{DexId, RequestView, RouteView, SwapRequest, TokenId, TokenIdView};

verus! {

/// What to ask about a request.
pub struct Facts {
    /// Whose whole storage balance, and on which contract.
    pub storage: Vec<IdentPair<AccountId, AccountId>>,
    /// For whom, and which token, may be registered on Rhea.
    pub on_rhea: Vec<IdentPair<AccountId, AccountId>>,
    /// For whom, and which asset, may be registered on the Intear DEX.
    pub on_intear: Vec<IdentPair<AccountId, AssetId>>,
    /// Whose native balance, and whose storage balances on Rhea and on the
    /// Intear DEX that are not used yet.
    pub balances: Vec<AccountId>,
}

/// Whether the storage balance of an account on a contract matters: the
/// trader's where it may hold or hand over a token, and those of the exchanges
/// with inner balances on the token that is wanted.
pub open spec fn reads_storage(request: RequestView, account: Seq<char>, contract: Seq<char>) -> bool {
    ||| request.trader == Some(account) && (contract == WRAP_NEAR@ || contract == RHEA_DCL_CONTRACT_ID@ || contract
        == VEAX_CONTRACT_ID@ || nep141_of(request.token_in) == Some(contract) || nep141_of(request.token_out)
        == Some(contract))
    ||| (account == RHEA_CONTRACT@ || account == INTEAR_CONTRACT@) && nep141_of(request.token_out) == Some(contract)
}

/// Whether it matters if a token is registered on Rhea for an account.
pub open spec fn reads_rhea(request: RequestView, account: Seq<char>, token: Seq<char>) -> bool {
    request.trader == Some(account) && (request.token_in == TokenIdView::Nep141OnRhea(token) || request.token_out
        == TokenIdView::Nep141OnRhea(token))
}

/// The assets on the Intear DEX that a token may be swapped as.
pub open spec fn inner_asset(token: TokenIdView, asset: AssetIdView) -> bool {
    ||| asset is Near
    ||| asset matches AssetIdView::Nep141(contract) && nep141_of(token) == Some(contract)
    ||| token == TokenIdView::TokenOnIntearDex(asset)
}

/// Whether it matters if an asset is registered on the Intear DEX for an
/// account.
pub open spec fn reads_intear(request: RequestView, account: Seq<char>, asset: AssetIdView) -> bool {
    request.trader == Some(account) && (inner_asset(request.token_in, asset) || inner_asset(request.token_out, asset))
}

/// Whether a pair is noted.
fn is_noted<A: Ident, B: Ident>(pairs: &Vec<IdentPair<A, B>>, pair: &IdentPair<A, B>) -> (r: bool)
    ensures
        r == views(pairs@).contains(pair@),
{
    let mut i: usize = 0;
    while i < pairs.len()
        invariant
            i <= pairs@.len(),
            forall|j: int| 0 <= j < i ==> #[trigger] views(pairs@)[j] != pair@,
        decreases pairs@.len() - i,
    {
        if pairs[i].same(pair) {
            assert(views(pairs@)[i as int] == pair@);
            return true;
        }
        i = i + 1;
    }
    false
}

/// Notes a pair, once.
fn note<A: Ident, B: Ident>(pairs: &mut Vec<IdentPair<A, B>>, first: &A, second: B)
    ensures
        views(old(pairs)@).no_duplicates() ==> views(final(pairs)@).no_duplicates(),
        forall|pair: (A::V, B::V)| #[trigger]
            views(final(pairs)@).contains(pair) <==> views(old(pairs)@).contains(pair) || pair == (first@, second@),
{
    let ghost before = views(pairs@);
    let ghost pair = (first@, second@);
    let noted: IdentPair<A, B> = IdentPair { first: first.duplicate(), second };
    if is_noted(pairs, &noted) {
        return;
    }
    pairs.push(noted);
    proof {
        assert(views(pairs@) =~= before.push(pair));
        assert(before.push(pair)[before.len() as int] == pair);
        assert forall|other: (A::V, B::V)| #[trigger]
            views(pairs@).contains(other) <==> before.contains(other) || other == pair by {
            if before.contains(other) {
                let i = choose|i: int| 0 <= i < before.len() && before[i] == other;
                assert(before.push(pair)[i] == other);
            }
        }
    }
}

/// Nothing is noted yet.
proof fn lemma_nothing<A: Ident, B: Ident>(pairs: Seq<IdentPair<A, B>>)
    requires
        pairs.len() == 0,
    ensures
        forall|pair: (A::V, B::V)| !(#[trigger] views(pairs).contains(pair)),
        views(pairs).no_duplicates(),
{
}

/// The storage balances to ask about.
fn storage_facts(request: &SwapRequest) -> (r: Vec<IdentPair<AccountId, AccountId>>)
    ensures
        forall|account: Seq<char>, contract: Seq<char>| #[trigger]
            views(r@).contains((account, contract)) <==> reads_storage(request@, account, contract),
        views(r@).no_duplicates(),
{
    let mut pairs: Vec<IdentPair<AccountId, AccountId>> = Vec::new();
    proof {
        lemma_nothing(pairs@);
    }
    let wanted: Option<AccountId> = wallet_token(&request.token_out);
    match &wanted {
        Some(token) => {
            note(&mut pairs, &contract(RHEA_CONTRACT), token.duplicate());
            note(&mut pairs, &contract(INTEAR_CONTRACT), token.duplicate());
        },
        None => {},
    }
    match &request.trader_account_id {
        Some(trader) => {
            note(&mut pairs, trader, contract(WRAP_NEAR));
            note(&mut pairs, trader, contract(RHEA_DCL_CONTRACT_ID));
            note(&mut pairs, trader, contract(VEAX_CONTRACT_ID));
            match wallet_token(&request.token_in) {
                Some(token) => {
                    note(&mut pairs, trader, token);
                },
                None => {},
            }
            match wanted {
                Some(token) => {
                    note(&mut pairs, trader, token);
                },
                None => {},
            }
        },
        None => {},
    }
    pairs
}

/// Notes a token that is held on Rhea.
fn note_on_rhea(pairs: &mut Vec<IdentPair<AccountId, AccountId>>, trader: &AccountId, token: &TokenId)
    ensures
        forall|account: Seq<char>, contract: Seq<char>| #[trigger]
            views(final(pairs)@).contains((account, contract)) <==> views(old(pairs)@).contains((account, contract)) || (
            account == trader@ && token@ == TokenIdView::Nep141OnRhea(contract)),
        views(old(pairs)@).no_duplicates() ==> views(final(pairs)@).no_duplicates(),
{
    match token {
        TokenId::Nep141OnRhea(contract) => {
            note(pairs, trader, contract.duplicate());
        },
        _ => {},
    }
}

/// The tokens on Rhea to ask about.
fn rhea_facts(request: &SwapRequest) -> (r: Vec<IdentPair<AccountId, AccountId>>)
    ensures
        forall|account: Seq<char>, token: Seq<char>| #[trigger]
            views(r@).contains((account, token)) <==> reads_rhea(request@, account, token),
        views(r@).no_duplicates(),
{
    let mut pairs: Vec<IdentPair<AccountId, AccountId>> = Vec::new();
    proof {
        lemma_nothing(pairs@);
    }
    match &request.trader_account_id {
        Some(trader) => {
            note_on_rhea(&mut pairs, trader, &request.token_in);
            note_on_rhea(&mut pairs, trader, &request.token_out);
        },
        None => {},
    }
    pairs
}

/// Notes the assets on the Intear DEX that a token may be swapped as.
fn note_on_intear(pairs: &mut Vec<IdentPair<AccountId, AssetId>>, trader: &AccountId, token: &TokenId)
    ensures
        forall|account: Seq<char>, asset: AssetIdView| #[trigger]
            views(final(pairs)@).contains((account, asset)) <==> views(old(pairs)@).contains((account, asset)) || (
            account == trader@ && inner_asset(token@, asset)),
        views(old(pairs)@).no_duplicates() ==> views(final(pairs)@).no_duplicates(),
{
    note(pairs, trader, AssetId::Near);
    match wallet_token(token) {
        Some(contract) => {
            note(pairs, trader, AssetId::Nep141(contract));
        },
        None => {},
    }
    match token {
        TokenId::TokenOnIntearDex(asset) => {
            note(pairs, trader, asset.duplicate());
        },
        _ => {},
    }
}

/// The assets on the Intear DEX to ask about.
fn intear_facts(request: &SwapRequest) -> (r: Vec<IdentPair<AccountId, AssetId>>)
    ensures
        forall|account: Seq<char>, asset: AssetIdView| #[trigger]
            views(r@).contains((account, asset)) <==> reads_intear(request@, account, asset),
        views(r@).no_duplicates(),
{
    let mut pairs: Vec<IdentPair<AccountId, AssetId>> = Vec::new();
    proof {
        lemma_nothing(pairs@);
    }
    match &request.trader_account_id {
        Some(trader) => {
            note_on_intear(&mut pairs, trader, &request.token_in);
            note_on_intear(&mut pairs, trader, &request.token_out);
        },
        None => {},
    }
    pairs
}

/// What to ask before a request is answered: all that the routes that answer
/// it rest on, each once.
pub fn facts_for(request: &SwapRequest) -> (r: Facts)
    ensures
        forall|account: Seq<char>, contract: Seq<char>| #[trigger]
            views(r.storage@).contains((account, contract)) <==> reads_storage(request@, account, contract),
        forall|account: Seq<char>, token: Seq<char>| #[trigger]
            views(r.on_rhea@).contains((account, token)) <==> reads_rhea(request@, account, token),
        forall|account: Seq<char>, asset: AssetIdView| #[trigger]
            views(r.on_intear@).contains((account, asset)) <==> reads_intear(request@, account, asset),
        views(r.storage@).no_duplicates(),
        views(r.on_rhea@).no_duplicates(),
        views(r.on_intear@).no_duplicates(),
        views(r.balances@) == match request@.trader {
            Some(trader) => seq![trader],
            None => Seq::empty(),
        },
{
    let mut balances: Vec<AccountId> = Vec::new();
    match &request.trader_account_id {
        Some(trader) => {
            balances.push(trader.duplicate());
        },
        None => {},
    }
    proof {
        assert(views(balances@) =~= match request@.trader {
            Some(trader) => seq![trader],
            None => Seq::empty(),
        });
    }
    Facts {
        storage: storage_facts(request),
        on_rhea: rhea_facts(request),
        on_intear: intear_facts(request),
        balances,
    }
}

/// What is known under a key.
pub open spec fn known<K, T>(answers: Map<K, T>, key: K) -> Option<T> {
    if answers.contains_key(key) {
        Some(answers[key])
    } else {
        None
    }
}

/// Whether the same is known of all that is asked about a request.
pub open spec fn alike(request: RequestView, a: NetworkState, b: NetworkState) -> bool {
    &&& forall|account: Seq<char>, contract: Seq<char>| #[trigger]
        reads_storage(request, account, contract) ==> known(a.storage_totals, (account, contract)) == known(
            b.storage_totals,
            (account, contract),
        )
    &&& forall|account: Seq<char>, token: Seq<char>| #[trigger]
        reads_rhea(request, account, token) ==> known(a.rhea_registered, (account, token)) == known(
            b.rhea_registered,
            (account, token),
        )
    &&& forall|account: Seq<char>, asset: AssetIdView| #[trigger]
        reads_intear(request, account, asset) ==> known(a.intear_registered, (account, asset)) == known(
            b.intear_registered,
            (account, asset),
        )
    &&& request.trader matches Some(trader) ==> {
        &&& known(a.rhea_available, trader) == known(b.rhea_available, trader)
        &&& known(a.intear_available, trader) == known(b.intear_available, trader)
        &&& known(a.native_balances, trader) == known(b.native_balances, trader)
    }
}

/// A token that the trader may have to be able to hold: one of the request's,
/// where it is or in the wallet, or the native coin, wrapped or not.
spec fn held(request: RequestView, token: TokenIdView) -> bool {
    ||| token is Near
    ||| token == nep141(WRAP_NEAR@)
    ||| token == request.token_in
    ||| token == request.token_out
    ||| token matches TokenIdView::Nep141(contract) && (nep141_of(request.token_in) == Some(contract) || nep141_of(
        request.token_out,
    ) == Some(contract))
}

/// What is needed before a token is held is the same.
proof fn lemma_same_storage(request: RequestView, a: NetworkState, b: NetworkState, token: TokenIdView)
    requires
        alike(request, a, b),
        held(request, token),
    ensures
        storage_if_needed(a, token, request.trader) == storage_if_needed(b, token, request.trader),
        request.trader matches Some(trader) ==> a.needs(trader, token) == b.needs(trader, token),
{
    match (request.trader, token) {
        (Some(trader), TokenIdView::Nep141(contract)) => {
            assert(reads_storage(request, trader, contract));
        },
        (Some(trader), TokenIdView::Nep141OnRhea(contract)) => {
            assert(reads_rhea(request, trader, contract));
        },
        (Some(trader), TokenIdView::TokenOnIntearDex(asset)) => {
            assert(reads_intear(request, trader, asset));
        },
        _ => {},
    }
}

/// The trader's storage on a contract is the same.
proof fn lemma_same_on_contract(request: RequestView, a: NetworkState, b: NetworkState, contract: Seq<char>)
    requires
        alike(request, a, b),
        request.trader matches Some(trader) ==> reads_storage(request, trader, contract),
    ensures
        request.trader matches Some(trader) ==> a.needs_on_contract(trader, contract) == b.needs_on_contract(
            trader,
            contract,
        ),
{
}

/// A route is the same on two networks of which the same is known as far as
/// the request is asked about: it rests on nothing else of them.
pub proof fn routes_rest_on_the_facts(
    request: RequestView,
    a: NetworkState,
    b: NetworkState,
    market: MarketView,
    dex_id: DexId,
    pool: Seq<char>,
    price: Option<u128>,
    metapool: Option<MetapoolContractState>,
    basis_points: Option<u16>,
    tiers: Seq<Option<u128>>,
    veax: Option<VeaxQuote>,
    veax_tokens: Option<Seq<Seq<char>>>,
    aidols: Option<AidolsEmulateSwap>,
    solvers: Seq<QuoteView>,
    has_key: Option<bool>,
    grafun: Option<GraFunQuote>,
    rhea: Option<RheaOfferView>,
    plach: Option<OfferView>,
)
    requires
        alike(request, a, b),
    ensures
        stake_route(dex_id, pool, request, a, price) == stake_route(dex_id, pool, request, b, price),
        metapool_route(request, a, market, metapool, basis_points) == metapool_route(
            request,
            b,
            market,
            metapool,
            basis_points,
        ),
        xrhea_route(request, a, price) == xrhea_route(request, b, price),
        dcl_route(request, a, market, tiers) == dcl_route(request, b, market, tiers),
        veax_route(request, a, veax, veax_tokens) == veax_route(request, b, veax, veax_tokens),
        aidols_route(request, a, market, aidols) == aidols_route(request, b, market, aidols),
        intents_route(request, a, solvers, has_key) == intents_route(request, b, solvers, has_key),
        grafun_route(request, a, grafun) == grafun_route(request, b, grafun),
        rhea_route(request, a, rhea) == rhea_route(request, b, rhea),
        plach_route(request, a, plach) == plach_route(request, b, plach),
{
    lemma_same_storage(request, a, b, nep141(WRAP_NEAR@));
    lemma_same_storage(request, a, b, TokenIdView::Near);
    lemma_same_storage(request, a, b, request.token_in);
    lemma_same_storage(request, a, b, request.token_out);
    match nep141_of(request.token_in) {
        Some(contract) => {
            lemma_same_storage(request, a, b, nep141(contract));
        },
        None => {},
    }
    match nep141_of(request.token_out) {
        Some(contract) => {
            lemma_same_storage(request, a, b, nep141(contract));
        },
        None => {},
    }
    lemma_same_on_contract(request, a, b, RHEA_DCL_CONTRACT_ID@);
    lemma_same_on_contract(request, a, b, VEAX_CONTRACT_ID@);
    match (request.trader, plach_assets(request)) {
        (Some(trader), Some((token_in, token_out))) => {
            assert(reads_intear(request, trader, token_in));
            assert(reads_intear(request, trader, token_out));
        },
        _ => {},
    }
}

/// The answer to a request is the same on two networks of which the same is
/// known as far as the request is asked about.
pub proof fn answers_rest_on_the_facts(request: RequestView, a: NetworkState, b: NetworkState, routes: Seq<RouteView>)
    requires
        alike(request, a, b),
    ensures
        answer(request, a, routes) == answer(request, b, routes),
{
    let to = request.token_out;
    lemma_same_storage(request, a, b, to);
    match nep141_of(to) {
        Some(token) => {
            assert(reads_storage(request, RHEA_CONTRACT@, token));
            assert(reads_storage(request, INTEAR_CONTRACT@, token));
            lemma_same_on_contract(request, a, b, token);
            assert(deposit_registrations(a, RHEA_CONTRACT@, token, request.trader) == deposit_registrations(
                b,
                RHEA_CONTRACT@,
                token,
                request.trader,
            ));
            assert(deposit_registrations(a, INTEAR_CONTRACT@, token, request.trader) == deposit_registrations(
                b,
                INTEAR_CONTRACT@,
                token,
                request.trader,
            ));
        },
        None => {},
    }
    assert(register_instructions(a, to, request.trader) == register_instructions(b, to, request.trader));
    let ranked = ranked_routes(routes);
    assert forall|i: int| 0 <= i < ranked.len() implies finished(request, a, #[trigger] ranked[i]) == finished(
        request,
        b,
        ranked[i],
    ) by {}
    assert(answer(request, a, routes) =~= answer(request, b, routes));
}

} // verus!
