//! Checking requests, and putting the routes that answer them in order.

use vstd::prelude::*;

use crate::decimal::{less, Decimal, DecimalView};
use crate::ident::Ident;
use crate::merging::{merged, optimize_execution_instructions};
use crate::network::{Network, NetworkState};
use crate::shared_utils::{conversion, convert_to, followed_by};
use crate::types::{
    opt_dexes, Amount, DexId, ExecutionInstruction, InstructionView, RequestView, Route, RouteView, Slippage,
    SlippageView, SwapRequest,
};

verus! {

/// The longest that a request may wait, in milliseconds.
pub const MAX_WAIT_MS: u64 = 60_000;

/// Why a request is refused.
#[derive(Clone, Copy, Debug, PartialEq, Eq, Structural)]
pub enum RequestError {
    MaxSlippageOutOfRange,
    MinSlippageOutOfRange,
    MaxSlippageBelowMin,
    SlippageOutOfRange,
    SameTokens,
    WaitTooLong,
    NoDexes,
}

impl RequestError {
    /// What the refusal is answered with.
    pub fn message(self) -> (r: &'static str)
        ensures
            r@ == match self {
                RequestError::MaxSlippageOutOfRange => "Max slippage must be between 0.00 and 1.00"@,
                RequestError::MinSlippageOutOfRange => "Min slippage must be between 0.00 and 1.00"@,
                RequestError::MaxSlippageBelowMin => "Max slippage must be greater than min slippage"@,
                RequestError::SlippageOutOfRange => "Slippage must be between 0.00 and 1.00"@,
                RequestError::SameTokens => "Token in and token out must be different"@,
                RequestError::WaitTooLong => "Max wait must be less than 60 seconds"@,
                RequestError::NoDexes => "Dexes must not be an empty array"@,
            },
    {
        match self {
            RequestError::MaxSlippageOutOfRange => "Max slippage must be between 0.00 and 1.00",
            RequestError::MinSlippageOutOfRange => "Min slippage must be between 0.00 and 1.00",
            RequestError::MaxSlippageBelowMin => "Max slippage must be greater than min slippage",
            RequestError::SlippageOutOfRange => "Slippage must be between 0.00 and 1.00",
            RequestError::SameTokens => "Token in and token out must be different",
            RequestError::WaitTooLong => "Max wait must be less than 60 seconds",
            RequestError::NoDexes => "Dexes must not be an empty array",
        }
    }
}

/// Whether a number is from nothing to one.
pub open spec fn fraction(d: DecimalView) -> bool {
    0 as real <= d.value() && d.value() <= 1 as real
}

/// Whether a number is from nothing to one.
fn is_fraction(d: &Decimal) -> (r: bool)
    requires
        d@.usable(),
    ensures
        r == fraction(d@),
{
    !d.is_negative() && !less(&Decimal::from_u128(1), d)
}

/// Why the slippage of a request is refused, if it is.
pub open spec fn slippage_error(slippage: SlippageView) -> Option<RequestError> {
    match slippage {
        SlippageView::Auto { max, min } => if !fraction(max) {
            Some(RequestError::MaxSlippageOutOfRange)
        } else if !fraction(min) {
            Some(RequestError::MinSlippageOutOfRange)
        } else if max.value() < min.value() {
            Some(RequestError::MaxSlippageBelowMin)
        } else {
            None
        },
        SlippageView::Fixed(slippage) => if !fraction(slippage) {
            Some(RequestError::SlippageOutOfRange)
        } else {
            None
        },
    }
}

/// Why a request is refused, if it is.
pub open spec fn request_error(request: RequestView) -> Option<RequestError> {
    match slippage_error(request.slippage) {
        Some(e) => Some(e),
        None => if request.token_in == request.token_out {
            Some(RequestError::SameTokens)
        } else if request.max_wait_ms > MAX_WAIT_MS {
            Some(RequestError::WaitTooLong)
        } else if request.dexes matches Some(dexes) && dexes.len() == 0 {
            Some(RequestError::NoDexes)
        } else {
            None
        },
    }
}

/// Checks the slippage of a request.
fn check_slippage(slippage: &Slippage) -> (r: Option<RequestError>)
    requires
        slippage@.usable(),
    ensures
        r == slippage_error(slippage@),
{
    match slippage {
        Slippage::Auto { max_slippage, min_slippage } => {
            if !is_fraction(max_slippage) {
                Some(RequestError::MaxSlippageOutOfRange)
            } else if !is_fraction(min_slippage) {
                Some(RequestError::MinSlippageOutOfRange)
            } else if less(max_slippage, min_slippage) {
                Some(RequestError::MaxSlippageBelowMin)
            } else {
                None
            }
        },
        Slippage::Fixed { slippage } => {
            if !is_fraction(slippage) {
                Some(RequestError::SlippageOutOfRange)
            } else {
                None
            }
        },
    }
}

/// Checks a request.
pub fn check_request(request: &SwapRequest) -> (r: Result<(), RequestError>)
    requires
        request@.slippage.usable(),
    ensures
        match r {
            Ok(_) => request_error(request@) is None,
            Err(e) => request_error(request@) == Some(e),
        },
{
    match check_slippage(&request.slippage) {
        Some(e) => {
            return Err(e);
        },
        None => {},
    }
    if request.token_in.same(&request.token_out) {
        return Err(RequestError::SameTokens);
    }
    if request.max_wait_ms > MAX_WAIT_MS {
        return Err(RequestError::WaitTooLong);
    }
    match &request.dexes {
        Some(dexes) => {
            if dexes.len() == 0 {
                return Err(RequestError::NoDexes);
            }
        },
        None => {},
    }
    Ok(())
}

/// A request that is not refused can be given a slippage.
pub proof fn checked_slippage_is_valid(slippage: SlippageView)
    requires
        slippage_error(slippage) is None,
        slippage.usable(),
    ensures
        slippage.valid(),
{
}

/// Whether an exchange is asked: all are where the request names none.
pub open spec fn asked(dexes: Option<Seq<DexId>>, dex_id: DexId) -> bool {
    match dexes {
        Some(dexes) => dexes.contains(dex_id),
        None => true,
    }
}

/// Whether a list names an exchange.
fn names(dexes: &Vec<DexId>, dex_id: DexId) -> (r: bool)
    ensures
        r == dexes@.contains(dex_id),
{
    let mut i: usize = 0;
    while i < dexes.len()
        invariant
            i <= dexes@.len(),
            forall|j: int| 0 <= j < i ==> dexes@[j] != dex_id,
        decreases dexes@.len() - i,
    {
        if dexes[i] == dex_id {
            assert(dexes@.contains(dexes@[i as int]));
            return true;
        }
        i = i + 1;
    }
    false
}

/// Whether an exchange is asked.
pub fn is_asked(dexes: &Option<Vec<DexId>>, dex_id: DexId) -> (r: bool)
    ensures
        r == asked(opt_dexes(*dexes), dex_id),
{
    match dexes {
        Some(dexes) => names(dexes, dex_id),
        None => true,
    }
}

/// All exchanges.
pub open spec fn all_exchanges() -> Seq<DexId> {
    seq![
        DexId::Rhea,
        DexId::Aidols,
        DexId::GraFun,
        DexId::NearIntents,
        DexId::Wrap,
        DexId::RheaDcl,
        DexId::Veax,
        DexId::MetaPool,
        DexId::Linear,
        DexId::XRhea,
        DexId::RNear,
        DexId::Plach,
    ]
}

/// The exchanges that a request is put to: those of the first `k` that it
/// names, or all of them where it names none.
pub open spec fn asked_of(dexes: Option<Seq<DexId>>, k: int) -> Seq<DexId>
    decreases k,
{
    if k <= 0 {
        Seq::empty()
    } else {
        let before = asked_of(dexes, k - 1);
        if asked(dexes, all_exchanges()[k - 1]) {
            before.push(all_exchanges()[k - 1])
        } else {
            before
        }
    }
}

/// Every exchange is one of all.
proof fn lemma_all_exchanges(dex_id: DexId)
    ensures
        exists|i: int| 0 <= i < all_exchanges().len() && #[trigger] all_exchanges()[i] == dex_id,
{
    let all = all_exchanges();
    assert(all[0] == DexId::Rhea && all[1] == DexId::Aidols && all[2] == DexId::GraFun && all[3]
        == DexId::NearIntents && all[4] == DexId::Wrap && all[5] == DexId::RheaDcl);
    assert(all[6] == DexId::Veax && all[7] == DexId::MetaPool && all[8] == DexId::Linear && all[9]
        == DexId::XRhea && all[10] == DexId::RNear && all[11] == DexId::Plach);
}

/// Those that are asked of the first `k` stand in the list once, and no others.
proof fn lemma_asked_of(dexes: Option<Seq<DexId>>, k: int)
    requires
        0 <= k <= all_exchanges().len(),
    ensures
        asked_of(dexes, k).no_duplicates(),
        forall|dex_id: DexId| #[trigger]
            asked_of(dexes, k).contains(dex_id) <==> asked(dexes, dex_id) && exists|i: int|
                0 <= i < k && #[trigger] all_exchanges()[i] == dex_id,
    decreases k,
{
    if k > 0 {
        lemma_asked_of(dexes, k - 1);
        let before = asked_of(dexes, k - 1);
        let after = asked_of(dexes, k);
        let next = all_exchanges()[k - 1];
        assert forall|dex_id: DexId| #[trigger]
            after.contains(dex_id) <==> asked(dexes, dex_id) && exists|i: int|
                0 <= i < k && #[trigger] all_exchanges()[i] == dex_id by {
            if after != before {
                assert(after == before.push(next));
                assert(after[before.len() as int] == next);
                if before.contains(dex_id) {
                    let i = choose|i: int| 0 <= i < before.len() && before[i] == dex_id;
                    assert(after[i] == dex_id);
                }
            }
            if asked(dexes, dex_id) && exists|i: int| 0 <= i < k && #[trigger] all_exchanges()[i] == dex_id {
                let i = choose|i: int| 0 <= i < k && #[trigger] all_exchanges()[i] == dex_id;
                if i < k - 1 {
                    assert(before.contains(dex_id));
                }
            }
        }
        if after != before && before.contains(next) {
            let i = choose|i: int| 0 <= i < k - 1 && #[trigger] all_exchanges()[i] == next;
            assert(all_exchanges()[i] != all_exchanges()[k - 1]);
        }
    }
}

/// The exchanges that a request is put to: exactly those that it names, or all
/// of them where it names none, each once.
pub proof fn the_asked_are_those_named(dexes: Option<Seq<DexId>>)
    ensures
        ({
            let list = asked_of(dexes, all_exchanges().len() as int);
            &&& list.no_duplicates()
            &&& forall|dex_id: DexId| #[trigger] list.contains(dex_id) <==> asked(dexes, dex_id)
            &&& dexes is None ==> list == all_exchanges()
        }),
{
    let list = asked_of(dexes, all_exchanges().len() as int);
    lemma_asked_of(dexes, all_exchanges().len() as int);
    assert forall|dex_id: DexId| #[trigger] list.contains(dex_id) <==> asked(dexes, dex_id) by {
        lemma_all_exchanges(dex_id);
    }
    if dexes is None {
        reveal_with_fuel(asked_of, 13);
        assert(list =~= all_exchanges());
    }
}

/// The exchanges that a request is put to.
pub fn exchanges(dexes: &Option<Vec<DexId>>) -> (r: Vec<DexId>)
    ensures
        r@ == asked_of(opt_dexes(*dexes), all_exchanges().len() as int),
        r@.no_duplicates(),
        forall|dex_id: DexId| #[trigger] r@.contains(dex_id) <==> asked(opt_dexes(*dexes), dex_id),
        dexes is None ==> r@ == all_exchanges(),
{
    let all: [DexId; 12] = [
        DexId::Rhea,
        DexId::Aidols,
        DexId::GraFun,
        DexId::NearIntents,
        DexId::Wrap,
        DexId::RheaDcl,
        DexId::Veax,
        DexId::MetaPool,
        DexId::Linear,
        DexId::XRhea,
        DexId::RNear,
        DexId::Plach,
    ];
    assert(all@ =~= all_exchanges());
    let mut out: Vec<DexId> = Vec::new();
    let mut i: usize = 0;
    while i < 12
        invariant
            i <= 12,
            all@ == all_exchanges(),
            out@ == asked_of(opt_dexes(*dexes), i as int),
        decreases 12 - i,
    {
        if is_asked(dexes, all[i]) {
            out.push(all[i]);
        }
        i = i + 1;
    }
    proof {
        the_asked_are_those_named(opt_dexes(*dexes));
    }
    out
}

/// What routes are ordered by: the input that they take, or the output that
/// they give, the largest first; amounts over the largest of 127 bits count
/// as that.
pub open spec fn rank(route: RouteView) -> int {
    match route.estimated {
        Amount::AmountIn(amount) => if amount > i128::MAX {
            i128::MAX as int
        } else {
            amount as int
        },
        Amount::AmountOut(amount) => if amount > i128::MAX {
            -(i128::MAX as int)
        } else {
            -(amount as int)
        },
    }
}

/// What routes are ordered by.
fn rank_of(route: &Route) -> (r: i128)
    ensures
        r == rank(route@),
{
    match route.estimated_amount {
        Amount::AmountIn(amount) => {
            if amount > i128::MAX as u128 {
                i128::MAX
            } else {
                amount as i128
            }
        },
        Amount::AmountOut(amount) => {
            if amount > i128::MAX as u128 {
                -i128::MAX
            } else {
                -(amount as i128)
            }
        },
    }
}

/// How many routes from the front rank no later than another.
pub open spec fn place(routes: Seq<RouteView>, route: RouteView) -> int
    decreases routes.len(),
{
    if routes.len() == 0 {
        0
    } else if rank(routes.last()) <= rank(route) {
        routes.len() as int
    } else {
        place(routes.drop_last(), route)
    }
}

/// The routes by rank, those of one rank as they came.
pub open spec fn ranked_routes(routes: Seq<RouteView>) -> Seq<RouteView>
    decreases routes.len(),
{
    if routes.len() == 0 {
        Seq::empty()
    } else {
        let rest = ranked_routes(routes.drop_last());
        rest.insert(place(rest, routes.last()), routes.last())
    }
}

/// The routes.
pub open spec fn route_views(routes: Seq<Route>) -> Seq<RouteView> {
    Seq::new(routes.len(), |i: int| routes[i]@)
}

/// A place is within the routes.
proof fn lemma_place(routes: Seq<RouteView>, route: RouteView)
    ensures
        0 <= place(routes, route) <= routes.len(),
        place(routes, route) > 0 ==> rank(routes[place(routes, route) - 1]) <= rank(route),
        forall|i: int| place(routes, route) <= i < routes.len() ==> rank(#[trigger] routes[i]) > rank(route),
    decreases routes.len(),
{
    if routes.len() > 0 && rank(routes.last()) > rank(route) {
        let rest = routes.drop_last();
        lemma_place(rest, route);
        assert forall|i: int| place(routes, route) <= i < routes.len() implies rank(#[trigger] routes[i]) > rank(
            route,
        ) by {
            if i < rest.len() {
                assert(rest[i] == routes[i]);
            }
        }
    }
}

/// Puts a route in its place.
fn insert_route(sorted: &mut Vec<Route>, route: Route)
    ensures
        route_views(final(sorted)@) == route_views(old(sorted)@).insert(
            place(route_views(old(sorted)@), route@),
            route@,
        ),
{
    let ghost before = route_views(sorted@);
    let own: i128 = rank_of(&route);
    let mut i: usize = sorted.len();
    assert(before.take(i as int) =~= before);
    while i > 0 && rank_of(&sorted[i - 1]) > own
        invariant
            i <= sorted@.len(),
            before == route_views(sorted@),
            own == rank(route@),
            place(before, route@) == place(before.take(i as int), route@),
        decreases i,
    {
        assert(before.take(i as int).last() == sorted@[i - 1]@);
        assert(before.take(i as int).drop_last() =~= before.take(i - 1));
        i = i - 1;
    }
    proof {
        let head = before.take(i as int);
        if i > 0 {
            assert(head.last() == sorted@[i - 1]@);
        }
        lemma_place(before, route@);
    }
    sorted.insert(i, route);
    assert(route_views(sorted@) =~= before.insert(i as int, route@));
}

/// Puts the routes in order.
pub fn rank_routes(routes: Vec<Route>) -> (r: Vec<Route>)
    ensures
        route_views(r@) == ranked_routes(route_views(routes@)),
{
    let ghost all = route_views(routes@);
    let mut rest: Vec<Route> = routes;
    let mut sorted: Vec<Route> = Vec::new();
    proof {
        assert(all.take(0) =~= Seq::empty());
        assert(route_views(sorted@) =~= ranked_routes(all.take(0)));
    }
    let ghost mut done: int = 0;
    while rest.len() > 0
        invariant
            0 <= done <= all.len(),
            route_views(rest@) == all.subrange(done, all.len() as int),
            route_views(sorted@) == ranked_routes(all.take(done)),
        decreases rest@.len(),
    {
        let ghost before = rest@;
        assert(route_views(before).len() == all.len() - done);
        let route: Route = rest.remove(0);
        proof {
            assert(route@ == route_views(before)[0]);
            assert(route@ == all[done]);
            assert(all.take(done + 1).drop_last() =~= all.take(done));
            assert(route_views(rest@) =~= route_views(before).subrange(1, before.len() as int));
            assert(route_views(rest@) =~= all.subrange(done + 1, all.len() as int));
            done = done + 1;
        }
        insert_route(&mut sorted, route);
    }
    proof {
        assert(route_views(rest@).len() == 0);
        assert(done == all.len());
        assert(all.take(done) =~= all);
    }
    sorted
}

/// The routes come out by rank.
pub proof fn routes_are_in_order(routes: Seq<RouteView>)
    ensures
        forall|i: int, j: int|
            #![trigger ranked_routes(routes)[i], ranked_routes(routes)[j]]
            0 <= i <= j < routes.len() ==> rank(ranked_routes(routes)[i]) <= rank(ranked_routes(routes)[j]),
        ranked_routes(routes).len() == routes.len(),
    decreases routes.len(),
{
    if routes.len() > 0 {
        let next = routes.last();
        let rest = ranked_routes(routes.drop_last());
        routes_are_in_order(routes.drop_last());
        lemma_place(rest, next);
        let p = place(rest, next);
        let all = ranked_routes(routes);
        assert forall|i: int, j: int|
            #![trigger all[i], all[j]]
            0 <= i <= j < routes.len() implies rank(all[i]) <= rank(all[j]) by {
            let a = if i < p {
                i
            } else {
                i - 1
            };
            let b = if j < p {
                j
            } else {
                j - 1
            };
            if i == p && j == p {
            } else if i == p {
                assert(all[j] == rest[b]);
                assert(rank(rest[b]) > rank(next));
            } else if j == p {
                assert(all[i] == rest[a]);
                assert(rank(rest[a]) <= rank(rest[p - 1]));
            } else {
                assert(all[i] == rest[a] && all[j] == rest[b]);
            }
        }
    }
}

/// No route is lost, and none is added.
pub proof fn ranked_routes_are_the_routes(routes: Seq<RouteView>)
    ensures
        ranked_routes(routes).to_multiset() == routes.to_multiset(),
    decreases routes.len(),
{
    if routes.len() == 0 {
        assert(routes =~= Seq::empty());
    } else {
        let next = routes.last();
        let before = routes.drop_last();
        let rest = ranked_routes(before);
        ranked_routes_are_the_routes(before);
        lemma_place(rest, next);
        assert(routes =~= before.push(next));
        vstd::seq_lib::to_multiset_insert(rest, place(rest, next), next);
        vstd::seq_lib::to_multiset_build(before, next);
    }
}

/// The output of a route, where it is known exactly: the request fixes it, or
/// the route's worst case is its estimate.
pub open spec fn known_output(amount: Amount, route: RouteView) -> Option<u128> {
    match (amount, route.estimated, route.worst_case) {
        (Amount::AmountIn(_), Amount::AmountOut(estimated), Amount::AmountOut(worst)) => if estimated == worst {
            Some(estimated)
        } else {
            None
        },
        (Amount::AmountOut(amount), Amount::AmountIn(_), Amount::AmountIn(_)) => Some(amount),
        _ => None,
    }
}

/// The output of a route, where it is known exactly.
fn output_of(amount: Amount, route: &Route) -> (r: Option<u128>)
    ensures
        r == known_output(amount, route@),
{
    match (amount, route.estimated_amount, route.worst_case_amount) {
        (Amount::AmountIn(_), Amount::AmountOut(estimated), Amount::AmountOut(worst)) => {
            if estimated == worst {
                Some(estimated)
            } else {
                None
            }
        },
        (Amount::AmountOut(amount), Amount::AmountIn(_), Amount::AmountIn(_)) => Some(amount),
        _ => None,
    }
}

/// The instructions of a route, with those that bring its output to where it
/// is wanted, if its amount is known.
pub open spec fn delivered(request: RequestView, network: NetworkState, route: RouteView) -> Seq<InstructionView> {
    match known_output(request.amount, route) {
        Some(amount) => if route.needs_unwrap {
            route.instructions
        } else {
            route.instructions + conversion(
                network,
                route.token_output,
                request.token_out,
                amount,
                request.trader,
            )
        },
        None => route.instructions,
    }
}

/// A route as it is answered.
pub open spec fn finished(request: RequestView, network: NetworkState, route: RouteView) -> RouteView {
    RouteView { instructions: merged(delivered(request, network, route)), ..route }
}

/// A route as it is answered: with its output brought to where it is wanted,
/// if that can be, and neighbouring transactions merged.
pub fn finish_route(request: &SwapRequest, network: &Network, route: Route) -> (r: Route)
    ensures
        r@ == finished(request@, network@, route@),
{
    let output: Option<u128> = output_of(request.amount, &route);
    let mut route: Route = route;
    let convert: Option<u128> = if route.deprecated_needs_unwrap_always_false {
        None
    } else {
        output
    };
    let instructions: Vec<ExecutionInstruction> = match convert {
        Some(amount) => {
            let more: Vec<ExecutionInstruction> = convert_to(
                network,
                &route.token_output,
                &request.token_out,
                amount,
                &request.trader_account_id,
            );
            followed_by(route.execution_instructions, more)
        },
        None => route.execution_instructions,
    };
    Route {
        dex_id: route.dex_id,
        deadline: route.deadline,
        has_slippage: route.has_slippage,
        estimated_amount: route.estimated_amount,
        worst_case_amount: route.worst_case_amount,
        execution_instructions: optimize_execution_instructions(&instructions),
        deprecated_needs_unwrap_always_false: route.deprecated_needs_unwrap_always_false,
        token_output: route.token_output,
    }
}

/// The routes as they are answered.
pub open spec fn answer(request: RequestView, network: NetworkState, routes: Seq<RouteView>) -> Seq<RouteView> {
    let ranked = ranked_routes(routes);
    Seq::new(ranked.len(), |i: int| finished(request, network, ranked[i]))
}

/// The answer to a request: the routes that exchanges gave, the best first,
/// each finished.
pub fn answer_routes(request: &SwapRequest, network: &Network, routes: Vec<Route>) -> (r: Vec<Route>)
    ensures
        route_views(r@) == answer(request@, network@, route_views(routes@)),
{
    let ghost ranked = ranked_routes(route_views(routes@));
    let mut rest: Vec<Route> = rank_routes(routes);
    let mut out: Vec<Route> = Vec::new();
    let ghost wanted = answer(request@, network@, route_views(routes@));
    while rest.len() > 0
        invariant
            out@.len() + rest@.len() == ranked.len(),
            route_views(rest@) == ranked.subrange(out@.len() as int, ranked.len() as int),
            wanted == answer(request@, network@, route_views(routes@)),
            ranked == ranked_routes(route_views(routes@)),
            route_views(out@) == wanted.take(out@.len() as int),
        decreases rest@.len(),
    {
        let ghost before = rest@;
        let ghost done = out@;
        let route: Route = rest.remove(0);
        proof {
            assert(route@ == route_views(before)[0]);
            assert(route@ == ranked[done.len() as int]);
            assert(route_views(rest@) =~= route_views(before).subrange(1, before.len() as int));
            assert(route_views(rest@) =~= ranked.subrange(done.len() as int + 1, ranked.len() as int));
        }
        out.push(finish_route(request, network, route));
        assert(route_views(out@) =~= wanted.take(out@.len() as int));
    }
    assert(route_views(out@) =~= wanted);
    out
}

/// Whether one estimate is no worse than another: an output that is no
/// smaller, or an input that is no larger, where those beyond 127 bits are as
/// good as the largest of them.
pub open spec fn no_worse(estimate: Amount, other: Amount) -> bool {
    match (estimate, other) {
        (Amount::AmountOut(given), Amount::AmountOut(other)) => given >= other || given
            >= 0x7fff_ffff_ffff_ffff_ffff_ffff_ffff_ffff,
        (Amount::AmountIn(taken), Amount::AmountIn(other)) => taken <= other || other
            >= 0x7fff_ffff_ffff_ffff_ffff_ffff_ffff_ffff,
        _ => true,
    }
}

/// The answer to a request holds as many routes as there are, the best first:
/// one that comes before another estimates no less output, or no more input.
/// Each is one of the routes, finished.
pub proof fn answers_come_best_first(request: RequestView, network: NetworkState, routes: Seq<RouteView>)
    ensures
        ({
            let answers = answer(request, network, routes);
            &&& answers.len() == routes.len()
            &&& forall|i: int, j: int|
                #![trigger answers[i], answers[j]]
                0 <= i <= j < answers.len() ==> no_worse(answers[i].estimated, answers[j].estimated)
            &&& forall|i: int|
                0 <= i < answers.len() ==> exists|k: int|
                    0 <= k < routes.len() && #[trigger] finished(request, network, routes[k]) == #[trigger] answers[i]
            &&& forall|k: int|
                0 <= k < routes.len() ==> answers.contains(finished(request, network, #[trigger] routes[k]))
        }),
{
    let answers = answer(request, network, routes);
    let ranked = ranked_routes(routes);
    routes_are_in_order(routes);
    ranked_routes_are_the_routes(routes);
    routes.to_multiset_ensures();
    ranked.to_multiset_ensures();
    assert forall|i: int, j: int|
        #![trigger answers[i], answers[j]]
        0 <= i <= j < answers.len() implies no_worse(answers[i].estimated, answers[j].estimated) by {
        assert(rank(ranked[i]) <= rank(ranked[j]));
    }
    assert forall|i: int| 0 <= i < answers.len() implies exists|k: int|
        0 <= k < routes.len() && #[trigger] finished(request, network, routes[k]) == #[trigger] answers[i] by {
        assert(ranked.to_multiset().count(ranked[i]) > 0) by {
            assert(ranked.contains(ranked[i]));
        }
        assert(routes.contains(ranked[i]));
        let k = choose|k: int| 0 <= k < routes.len() && routes[k] == ranked[i];
        assert(finished(request, network, routes[k]) == answers[i]);
    }
    assert forall|k: int| 0 <= k < routes.len() implies answers.contains(
        finished(request, network, #[trigger] routes[k]),
    ) by {
        assert(routes.contains(routes[k]));
        assert(ranked.to_multiset().count(routes[k]) > 0);
        assert(ranked.contains(routes[k]));
        let i = choose|i: int| 0 <= i < ranked.len() && ranked[i] == routes[k];
        assert(answers[i] == finished(request, network, routes[k]));
    }
}

/// Whether a route has an estimate.
pub open spec fn estimates(estimate: Amount) -> spec_fn(RouteView) -> bool {
    |route: RouteView| route.estimated == estimate
}

/// The routes with one estimate.
pub open spec fn estimating(routes: Seq<RouteView>, estimate: Amount) -> Seq<RouteView> {
    routes.filter(estimates(estimate))
}

/// Routes with the same estimate stay in the order in which they came.
#[verifier::rlimit(50)]
pub proof fn equal_routes_keep_their_order(routes: Seq<RouteView>, estimate: Amount)
    ensures
        estimating(ranked_routes(routes), estimate) == estimating(routes, estimate),
    decreases routes.len(),
{
    let same = estimates(estimate);
    if routes.len() > 0 {
        let next = routes.last();
        let before = routes.drop_last();
        let rest = ranked_routes(before);
        equal_routes_keep_their_order(before, estimate);
        lemma_place(rest, next);
        let p = place(rest, next);
        let low = rest.take(p);
        let high = rest.skip(p);
        assert(routes =~= before + seq![next]);
        assert(ranked_routes(routes) =~= low + seq![next] + high);
        assert(rest =~= low + high);
        Seq::filter_distributes_over_add(before, seq![next], same);
        Seq::filter_distributes_over_add(low + seq![next], high, same);
        Seq::filter_distributes_over_add(low, seq![next], same);
        Seq::filter_distributes_over_add(low, high, same);
        if next.estimated == estimate {
            high.filter_lemma(same);
            if high.filter(same).len() > 0 {
                let found = high.filter(same)[0];
                assert(same(found));
                lemma_filtered_member(high, same, 0);
                let i = choose|i: int| 0 <= i < high.len() && high[i] == found;
                assert(rest[p + i] == found);
            }
            assert(high.filter(same) =~= Seq::empty());
            let kept = low.filter(same);
            let one = seq![next].filter(same);
            assert(kept + one + Seq::empty() =~= kept + one);
            assert(kept + Seq::empty() =~= kept);
        } else {
            assert(!same(next));
            assert(seq![next].filter(same) =~= Seq::empty()) by {
                reveal(Seq::filter);
                assert(seq![next].drop_last() =~= Seq::empty());
            }
            let kept = low.filter(same);
            assert(kept + Seq::empty() + high.filter(same) =~= kept + high.filter(same));
            assert(kept + high.filter(same) + Seq::empty() =~= kept + high.filter(same));
        }
        assert(estimating(ranked_routes(routes), estimate) =~= estimating(routes, estimate));
    } else {
        assert(routes =~= ranked_routes(routes));
    }
}

/// What is filtered out of a list was in it.
proof fn lemma_filtered_member<T>(items: Seq<T>, wanted: spec_fn(T) -> bool, i: int)
    requires
        0 <= i < items.filter(wanted).len(),
    ensures
        items.contains(items.filter(wanted)[i]),
    decreases items.len(),
{
    reveal(Seq::filter);
    if items.len() > 0 {
        let before = items.drop_last();
        if i < before.filter(wanted).len() {
            lemma_filtered_member(before, wanted, i);
            let j = choose|j: int| 0 <= j < before.len() && before[j] == before.filter(wanted)[i];
            assert(items[j] == items.filter(wanted)[i]);
        } else {
            assert(items[items.len() - 1] == items.filter(wanted)[i]);
        }
    }
}

/// A request is accepted exactly where its slippage is from nothing to one and
/// not below its least, its tokens differ, it waits no longer than a minute,
/// and it does not ask for no exchange at all.
pub proof fn sound_requests_are_accepted(request: RequestView)
    ensures
        request_error(request) is None <==> {
            &&& match request.slippage {
                SlippageView::Auto { max, min } => 0real <= min.value() <= max.value() <= 1real,
                SlippageView::Fixed(slippage) => 0real <= slippage.value() <= 1real,
            }
            &&& request.token_in != request.token_out
            &&& request.max_wait_ms <= 60_000
            &&& request.dexes is Some ==> request.dexes->0.len() > 0
        },
{
}

} // verus!
