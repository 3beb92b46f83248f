//! Splitting an amount between routes.

use vstd::prelude::*;

use super::laws::lemma_ranked_member;
use super::market::{lemma_views_push, PoolsDelta, SwapPool, TokenView};
use super::route::{route_purchase, route_sale, DeltaView, QuoteAmount, Route, RouteView};
use super::top::{
    lemma_rank_of, lemma_ranked_len, lemma_top_k_views, rank_of, ranked, ranked_falls, select_top_k, top_k,
};
use crate::wide::{mul_div, ratio};
use crate::ident::views;

verus! {

/// How many routes an amount is split between at most.
pub const MAX_SPLITS_COUNT: usize = 2;

/// A route and the share of the amount, in percent, that goes through it.
pub struct SplitRouteStep<'a, P: SwapPool> {
    pub route: Route<'a, P>,
    pub weight: u32,
}

/// What a share of a split is.
pub struct SplitStepView<P: SwapPool> {
    pub route: RouteView<P>,
    pub weight: u32,
}

/// What a split is: its shares in order.
pub type SplitView<P> = Seq<SplitStepView<P>>;

impl<'a, P: SwapPool> View for SplitRouteStep<'a, P> {
    type V = SplitStepView<P>;

    open spec fn view(&self) -> SplitStepView<P> {
        SplitStepView { route: self.route@, weight: self.weight }
    }
}

/// Routes that carry an amount together.
pub struct SplitRoute<'a, P: SwapPool> {
    pub steps: Vec<SplitRouteStep<'a, P>>,
}

impl<'a, P: SwapPool> View for SplitRoute<'a, P> {
    type V = SplitView<P>;

    open spec fn view(&self) -> SplitView<P> {
        views(self.steps@)
    }
}

/// The share of an amount, rounded down.
pub open spec fn share(amount: u128, weight: u32) -> Option<u128> {
    ratio(amount as nat, weight as nat, 100)
}

/// What selling the first `k` shares of the amount gives in total, one after
/// the other, and the pools that have changed then.
pub open spec fn sell_shares<P: SwapPool>(
    split: SplitView<P>,
    k: int,
    token_in: TokenView<P>,
    token_out: TokenView<P>,
    amount: u128,
) -> Option<(u128, DeltaView<P>)>
    decreases k,
{
    if k <= 0 {
        Some((0, Map::empty()))
    } else {
        match sell_shares::<P>(split, k - 1, token_in, token_out, amount) {
            Some((total, delta)) => match share(amount, split[k - 1].weight) {
                Some(part) => match route_sale::<P>(split[k - 1].route, token_in, token_out, part, delta) {
                    Some((given, delta)) => if total + given <= u128::MAX {
                        Some(((total + given) as u128, delta))
                    } else {
                        None
                    },
                    None => None,
                },
                None => None,
            },
            None => None,
        }
    }
}

/// What buying the first `k` shares of the amount takes in total, one after
/// the other, and the pools that have changed then.
pub open spec fn buy_shares<P: SwapPool>(
    split: SplitView<P>,
    k: int,
    token_in: TokenView<P>,
    token_out: TokenView<P>,
    amount: u128,
) -> Option<(u128, DeltaView<P>)>
    decreases k,
{
    if k <= 0 {
        Some((0, Map::empty()))
    } else {
        match buy_shares::<P>(split, k - 1, token_in, token_out, amount) {
            Some((total, delta)) => match share(amount, split[k - 1].weight) {
                Some(part) => match route_purchase::<P>(
                    split[k - 1].route,
                    token_in,
                    token_out,
                    part,
                    delta,
                ) {
                    Some((taken, _, delta)) => if total + taken <= u128::MAX {
                        Some(((total + taken) as u128, delta))
                    } else {
                        None
                    },
                    None => None,
                },
                None => None,
            },
            None => None,
        }
    }
}

/// What a split gives for an exact input, or takes for an exact output.
pub open spec fn split_amount<P: SwapPool>(
    split: SplitView<P>,
    token_in: TokenView<P>,
    token_out: TokenView<P>,
    quote: QuoteAmount,
) -> Option<u128> {
    match quote {
        QuoteAmount::ExactIn(amount) => match sell_shares::<P>(
            split,
            split.len() as int,
            token_in,
            token_out,
            amount,
        ) {
            Some((total, _)) => Some(total),
            None => None,
        },
        QuoteAmount::ExactOut(amount) => match buy_shares::<P>(
            split,
            split.len() as int,
            token_in,
            token_out,
            amount,
        ) {
            Some((total, _)) => Some(total),
            None => None,
        },
    }
}

/// The first failing share fails the whole.
proof fn lemma_sell_shares_none<P: SwapPool>(
    split: SplitView<P>,
    i: int,
    j: int,
    token_in: TokenView<P>,
    token_out: TokenView<P>,
    amount: u128,
)
    requires
        0 <= i <= j,
    ensures
        sell_shares::<P>(split, i, token_in, token_out, amount) is None ==> sell_shares::<P>(
            split,
            j,
            token_in,
            token_out,
            amount,
        ) is None,
    decreases j,
{
    if i < j {
        lemma_sell_shares_none::<P>(split, i, j - 1, token_in, token_out, amount);
    }
}

/// The first failing share fails the whole.
proof fn lemma_buy_shares_none<P: SwapPool>(
    split: SplitView<P>,
    i: int,
    j: int,
    token_in: TokenView<P>,
    token_out: TokenView<P>,
    amount: u128,
)
    requires
        0 <= i <= j,
    ensures
        buy_shares::<P>(split, i, token_in, token_out, amount) is None ==> buy_shares::<P>(
            split,
            j,
            token_in,
            token_out,
            amount,
        ) is None,
    decreases j,
{
    if i < j {
        lemma_buy_shares_none::<P>(split, i, j - 1, token_in, token_out, amount);
    }
}

impl<'a, P: SwapPool> SplitRoute<'a, P> {
    /// A split with these shares.
    pub fn new(steps: Vec<SplitRouteStep<'a, P>>) -> (r: Self)
        ensures
            r@ == views(steps@),
    {
        SplitRoute { steps }
    }

    /// A split that sends the whole amount through one route.
    pub fn single(route: Route<'a, P>) -> (r: Self)
        ensures
            r@ == seq![SplitStepView::<P> { route: route@, weight: 100 }],
    {
        let mut steps: Vec<SplitRouteStep<'a, P>> = Vec::new();
        steps.push(SplitRouteStep { route, weight: 100 });
        let r = SplitRoute { steps };
        assert(r@ =~= seq![SplitStepView::<P> { route: route@, weight: 100 }]);
        r
    }

    /// What the split gives for an exact input.
    fn emulate_swap_exact_in(&self, token_in: &P::Token, token_out: &P::Token, amount_in: u128) -> (r: Option<
        u128,
    >)
        ensures
            r == split_amount::<P>(self@, token_in@, token_out@, QuoteAmount::ExactIn(amount_in)),
    {
        let mut delta: PoolsDelta<P> = PoolsDelta::new();
        let mut total: u128 = 0;
        let mut i: usize = 0;
        while i < self.steps.len()
            invariant
                i <= self.steps@.len(),
                sell_shares::<P>(self@, i as int, token_in@, token_out@, amount_in) == Some((total, delta@)),
            decreases self.steps@.len() - i,
        {
            let step: &SplitRouteStep<'a, P> = &self.steps[i];
            assert(self@[i as int] == step@);
            proof {
                lemma_sell_shares_none::<P>(
                    self@,
                    i + 1,
                    self@.len() as int,
                    token_in@,
                    token_out@,
                    amount_in,
                );
            }
            let part: u128 = match mul_div(amount_in, step.weight as u128, 100) {
                Some(part) => part,
                None => {
                    return None;
                },
            };
            match step.route.emulate_swap_exact_in(token_in, token_out, part, delta) {
                Some((given, changed)) => {
                    match total.checked_add(given) {
                        Some(sum) => {
                            total = sum;
                        },
                        None => {
                            return None;
                        },
                    }
                    delta = changed;
                },
                None => {
                    return None;
                },
            }
            i = i + 1;
        }
        Some(total)
    }

    /// What the split takes for an exact output.
    fn emulate_swap_exact_out(&self, token_in: &P::Token, token_out: &P::Token, amount_out: u128) -> (r:
        Option<u128>)
        ensures
            r == split_amount::<P>(self@, token_in@, token_out@, QuoteAmount::ExactOut(amount_out)),
    {
        let mut delta: PoolsDelta<P> = PoolsDelta::new();
        let mut total: u128 = 0;
        let mut i: usize = 0;
        while i < self.steps.len()
            invariant
                i <= self.steps@.len(),
                buy_shares::<P>(self@, i as int, token_in@, token_out@, amount_out) == Some((total, delta@)),
            decreases self.steps@.len() - i,
        {
            let step: &SplitRouteStep<'a, P> = &self.steps[i];
            assert(self@[i as int] == step@);
            proof {
                lemma_buy_shares_none::<P>(
                    self@,
                    i + 1,
                    self@.len() as int,
                    token_in@,
                    token_out@,
                    amount_out,
                );
            }
            let part: u128 = match mul_div(amount_out, step.weight as u128, 100) {
                Some(part) => part,
                None => {
                    return None;
                },
            };
            match step.route.emulate_swap_exact_out(token_in, token_out, part, delta) {
                Some((taken, _, changed)) => {
                    match total.checked_add(taken) {
                        Some(sum) => {
                            total = sum;
                        },
                        None => {
                            return None;
                        },
                    }
                    delta = changed;
                },
                None => {
                    return None;
                },
            }
            i = i + 1;
        }
        Some(total)
    }

    /// What the split gives or takes.
    pub fn emulate_swap(&self, token_in: &P::Token, token_out: &P::Token, amount: QuoteAmount) -> (r: Option<
        u128,
    >)
        ensures
            r == split_amount::<P>(self@, token_in@, token_out@, amount),
    {
        match amount {
            QuoteAmount::ExactIn(amount_in) => self.emulate_swap_exact_in(token_in, token_out, amount_in),
            QuoteAmount::ExactOut(amount_out) => self.emulate_swap_exact_out(
                token_in,
                token_out,
                amount_out,
            ),
        }
    }
}

/// How many of the first `k` weights are not zero.
pub open spec fn used_count(weights: Seq<u32>, k: int) -> nat
    decreases k,
{
    if k <= 0 {
        0
    } else {
        used_count(weights, k - 1) + if weights[k - 1] > 0 {
            1nat
        } else {
            0nat
        }
    }
}

/// The shares of those of the first `k` routes whose weight is not zero.
pub open spec fn used_steps<P: SwapPool>(
    routes: Seq<RouteView<P>>,
    weights: Seq<u32>,
    k: int,
) -> SplitView<P>
    decreases k,
{
    if k <= 0 {
        Seq::empty()
    } else {
        let before = used_steps::<P>(routes, weights, k - 1);
        if weights[k - 1] > 0 {
            before.push(SplitStepView { route: routes[k - 1], weight: weights[k - 1] })
        } else {
            before
        }
    }
}

/// The weights of the shares.
pub open spec fn step_weights<P: SwapPool>(steps: SplitView<P>) -> Seq<i128> {
    Seq::new(steps.len(), |i: int| steps[i].weight as i128)
}

/// The split with these weights, the largest share first.
pub open spec fn weighted_split<P: SwapPool>(routes: Seq<RouteView<P>>, weights: Seq<u32>) -> SplitView<P> {
    let steps = used_steps::<P>(routes, weights, routes.len() as int);
    top_k(steps, step_weights::<P>(steps), steps.len())
}

/// Whether one result is better than another.
pub open spec fn is_better(quote: QuoteAmount, amount: u128, than: u128) -> bool {
    match quote {
        QuoteAmount::ExactIn(_) => amount > than,
        QuoteAmount::ExactOut(_) => amount < than,
    }
}

/// What the first result has to be better than.
pub open spec fn worst_amount(quote: QuoteAmount) -> u128 {
    match quote {
        QuoteAmount::ExactIn(_) => 0,
        QuoteAmount::ExactOut(_) => u128::MAX,
    }
}

/// What the split comes to when one more slice goes through route `idx`,
/// where it may: at most two routes are used, none for more than the whole.
pub open spec fn slice_amount<P: SwapPool>(
    routes: Seq<RouteView<P>>,
    weights: Seq<u32>,
    idx: int,
    step: u32,
    quote: QuoteAmount,
    token_in: TokenView<P>,
    token_out: TokenView<P>,
) -> Option<u128> {
    if weights[idx] == 0 && used_count(weights, weights.len() as int) >= MAX_SPLITS_COUNT {
        None
    } else if weights[idx] + step > 100 {
        None
    } else {
        split_amount::<P>(
            weighted_split::<P>(routes, weights.update(idx, (weights[idx] + step) as u32)),
            token_in,
            token_out,
            quote,
        )
    }
}

/// The best of the first `k` routes for one more slice, where one of them is
/// better than `start`, and what the split comes to with it.
pub open spec fn best_slice<P: SwapPool>(
    routes: Seq<RouteView<P>>,
    weights: Seq<u32>,
    k: int,
    step: u32,
    quote: QuoteAmount,
    token_in: TokenView<P>,
    token_out: TokenView<P>,
    start: u128,
) -> (u128, Option<int>)
    decreases k,
{
    if k <= 0 {
        (start, None)
    } else {
        let before = best_slice::<P>(routes, weights, k - 1, step, quote, token_in, token_out, start);
        match slice_amount::<P>(routes, weights, k - 1, step, quote, token_in, token_out) {
            Some(amount) => if is_better(quote, amount, before.0) {
                (amount, Some(k - 1))
            } else {
                before
            },
            None => before,
        }
    }
}

/// What a slice has to be better than: more output than before, or any input.
pub open spec fn slice_start(quote: QuoteAmount, so_far: u128) -> u128 {
    match quote {
        QuoteAmount::ExactIn(_) => so_far,
        QuoteAmount::ExactOut(_) => u128::MAX,
    }
}

/// The weights after at most `rounds` more slices, each going where it is
/// best, until none goes anywhere.
pub open spec fn sliced_weights<P: SwapPool>(
    routes: Seq<RouteView<P>>,
    weights: Seq<u32>,
    so_far: u128,
    rounds: nat,
    step: u32,
    quote: QuoteAmount,
    token_in: TokenView<P>,
    token_out: TokenView<P>,
) -> Seq<u32>
    decreases rounds,
{
    if rounds == 0 {
        weights
    } else {
        let best = best_slice::<P>(
            routes,
            weights,
            routes.len() as int,
            step,
            quote,
            token_in,
            token_out,
            slice_start(quote, so_far),
        );
        match best.1 {
            Some(idx) => sliced_weights::<P>(
                routes,
                weights.update(idx, (weights[idx] + step) as u32),
                best.0,
                (rounds - 1) as nat,
                step,
                quote,
                token_in,
                token_out,
            ),
            None => weights,
        }
    }
}

/// The sum of the first `k` weights.
pub open spec fn weight_sum(weights: Seq<u32>, k: int) -> int
    decreases k,
{
    if k <= 0 {
        0
    } else {
        weight_sum(weights, k - 1) + weights[k - 1]
    }
}

/// The final weights of the routes, for slices of `step` percent.
pub open spec fn final_weights<P: SwapPool>(
    routes: Seq<RouteView<P>>,
    step: u32,
    quote: QuoteAmount,
    token_in: TokenView<P>,
    token_out: TokenView<P>,
) -> Seq<u32> {
    sliced_weights::<P>(
        routes,
        Seq::new(routes.len(), |i: int| 0u32),
        worst_amount(quote),
        (100u32 / step) as nat,
        step,
        quote,
        token_in,
        token_out,
    )
}

/// The best split of an amount, for slices of `step` percent: none where no
/// slice goes anywhere, or where the whole must be used and is not.
pub open spec fn best_split<P: SwapPool>(
    routes: Seq<RouteView<P>>,
    step: u32,
    whole: bool,
    quote: QuoteAmount,
    token_in: TokenView<P>,
    token_out: TokenView<P>,
) -> Option<SplitView<P>> {
    let weights = final_weights::<P>(routes, step, quote, token_in, token_out);
    let used = weight_sum(weights, weights.len() as int);
    if used == 0 || (whole && used != 100) {
        None
    } else {
        Some(weighted_split::<P>(routes, weights))
    }
}

/// How many of the weights are not zero.
fn count_used(weights: &Vec<u32>) -> (r: usize)
    ensures
        r == used_count(weights@, weights@.len() as int),
{
    let mut count: usize = 0;
    let mut i: usize = 0;
    while i < weights.len()
        invariant
            i <= weights@.len(),
            count <= i,
            count == used_count(weights@, i as int),
        decreases weights@.len() - i,
    {
        if weights[i] > 0 {
            count = count + 1;
        }
        i = i + 1;
    }
    count
}

/// The sum of the weights.
fn sum_weights(weights: &Vec<u32>) -> (r: u128)
    ensures
        r == weight_sum(weights@, weights@.len() as int),
{
    let mut sum: u128 = 0;
    let mut i: usize = 0;
    while i < weights.len()
        invariant
            i <= weights@.len(),
            sum <= i * 0xffff_ffff,
            sum == weight_sum(weights@, i as int),
        decreases weights@.len() - i,
    {
        assert(i * 0xffff_ffff + 0xffff_ffff <= u128::MAX);
        sum = sum + weights[i] as u128;
        i = i + 1;
    }
    sum
}

/// The split with these weights, the largest share first.
fn build_split<'a, P: SwapPool>(routes: &Vec<Route<'a, P>>, weights: &Vec<u32>) -> (r: SplitRoute<'a, P>)
    requires
        routes@.len() == weights@.len(),
    ensures
        r@ == weighted_split::<P>(views(routes@), weights@),
{
    let ghost all = views(routes@);
    let mut steps: Vec<SplitRouteStep<'a, P>> = Vec::new();
    let mut keys: Vec<i128> = Vec::new();
    let mut i: usize = 0;
    assert(views(steps@) =~= used_steps::<P>(all, weights@, 0));
    assert(keys@ =~= step_weights::<P>(views(steps@)));
    while i < routes.len()
        invariant
            i <= routes@.len(),
            routes@.len() == weights@.len(),
            all == views(routes@),
            views(steps@) == used_steps::<P>(all, weights@, i as int),
            keys@ == step_weights::<P>(views(steps@)),
        decreases routes@.len() - i,
    {
        if weights[i] > 0 {
            let route: Route<'a, P> = routes[i].duplicate();
            assert(all[i as int] == route@);
            let step: SplitRouteStep<'a, P> = SplitRouteStep { route, weight: weights[i] };
            proof {
                lemma_views_push(steps@, step);
            }
            steps.push(step);
            keys.push(weights[i] as i128);
            assert(keys@ =~= step_weights::<P>(views(steps@)));
        }
        i = i + 1;
    }
    let n: usize = steps.len();
    assert(views(steps@).len() == n);
    assert(keys@.len() == n);
    if n == 0 {
        assert(views(steps@) =~= weighted_split::<P>(all, weights@));
        return SplitRoute { steps };
    }
    proof {
        lemma_top_k_views(steps@, keys@, n as nat);
    }
    let sorted: Vec<SplitRouteStep<'a, P>> = select_top_k(steps, &keys, n);
    SplitRoute { steps: sorted }
}

/// A copy of the weights with one more slice for route `idx`.
fn with_slice(weights: &Vec<u32>, idx: usize, step: u32) -> (r: Vec<u32>)
    requires
        idx < weights@.len(),
        weights@[idx as int] + step <= u32::MAX,
    ensures
        r@ == weights@.update(idx as int, (weights@[idx as int] + step) as u32),
{
    let mut out: Vec<u32> = Vec::new();
    let mut i: usize = 0;
    while i < weights.len()
        invariant
            i <= weights@.len(),
            out@.len() == i,
            forall|j: int| 0 <= j < i ==> out@[j] == weights@[j],
        decreases weights@.len() - i,
    {
        out.push(weights[i]);
        i = i + 1;
    }
    out.set(idx, weights[idx] + step);
    assert(out@ =~= weights@.update(idx as int, (weights@[idx as int] + step) as u32));
    out
}

/// What the split comes to when one more slice goes through route `idx`.
fn try_slice<P: SwapPool>(
    routes: &Vec<Route<P>>,
    weights: &Vec<u32>,
    idx: usize,
    step: u32,
    quote: QuoteAmount,
    token_in: &P::Token,
    token_out: &P::Token,
) -> (r: Option<u128>)
    requires
        routes@.len() == weights@.len(),
        idx < weights@.len(),
        weights@[idx as int] <= 100,
        step <= 100,
    ensures
        r == slice_amount::<P>(
            views(routes@),
            weights@,
            idx as int,
            step,
            quote,
            token_in@,
            token_out@,
        ),
{
    if weights[idx] == 0 && count_used(weights) >= MAX_SPLITS_COUNT {
        return None;
    }
    if weights[idx] + step > 100 {
        return None;
    }
    let candidate: Vec<u32> = with_slice(weights, idx, step);
    build_split(routes, &candidate).emulate_swap(token_in, token_out, quote)
}

/// Whether one result is better than another.
fn better(quote: QuoteAmount, amount: u128, than: u128) -> (r: bool)
    ensures
        r == is_better(quote, amount, than),
{
    match quote {
        QuoteAmount::ExactIn(_) => amount > than,
        QuoteAmount::ExactOut(_) => amount < than,
    }
}

/// The best slice names a route that may take it.
proof fn lemma_best_slice<P: SwapPool>(
    routes: Seq<RouteView<P>>,
    weights: Seq<u32>,
    k: int,
    step: u32,
    quote: QuoteAmount,
    token_in: TokenView<P>,
    token_out: TokenView<P>,
    start: u128,
)
    requires
        k <= weights.len(),
    ensures
        best_slice::<P>(routes, weights, k, step, quote, token_in, token_out, start).1 matches Some(idx) ==> 0
            <= idx < k && weights[idx] + step <= 100 && (weights[idx] > 0 || used_count(
            weights,
            weights.len() as int,
        ) < MAX_SPLITS_COUNT),
    decreases k,
{
    if k > 0 {
        lemma_best_slice::<P>(routes, weights, k - 1, step, quote, token_in, token_out, start);
    }
}

/// The best route for one more slice.
fn find_best_slice<P: SwapPool>(
    routes: &Vec<Route<P>>,
    weights: &Vec<u32>,
    step: u32,
    quote: QuoteAmount,
    token_in: &P::Token,
    token_out: &P::Token,
    start: u128,
) -> (r: (u128, Option<usize>))
    requires
        routes@.len() == weights@.len(),
        forall|i: int| 0 <= i < weights@.len() ==> weights@[i] <= 100,
        step <= 100,
    ensures
        ({
            let best = best_slice::<P>(
                views(routes@),
                weights@,
                routes@.len() as int,
                step,
                quote,
                token_in@,
                token_out@,
                start,
            );
            best.0 == r.0 && match r.1 {
                Some(idx) => best.1 == Some(idx as int),
                None => best.1 is None,
            }
        }),
{
    let mut amount: u128 = start;
    let mut chosen: Option<usize> = None;
    let mut i: usize = 0;
    while i < routes.len()
        invariant
            i <= routes@.len(),
            routes@.len() == weights@.len(),
            forall|i: int| 0 <= i < weights@.len() ==> weights@[i] <= 100,
            step <= 100,
            ({
                let best = best_slice::<P>(
                    views(routes@),
                    weights@,
                    i as int,
                    step,
                    quote,
                    token_in@,
                    token_out@,
                    start,
                );
                best.0 == amount && match chosen {
                    Some(idx) => best.1 == Some(idx as int),
                    None => best.1 is None,
                }
            }),
        decreases routes@.len() - i,
    {
        match try_slice(routes, weights, i, step, quote, token_in, token_out) {
            Some(a) => {
                if better(quote, a, amount) {
                    amount = a;
                    chosen = Some(i);
                }
            },
            None => {},
        }
        i = i + 1;
    }
    (amount, chosen)
}

/// No weights sum up to nothing.
proof fn lemma_zero_sum(weights: Seq<u32>, k: int)
    requires
        k <= weights.len(),
        forall|i: int| 0 <= i < k ==> weights[i] == 0,
    ensures
        weight_sum(weights, k) == 0,
        used_count(weights, k) == 0,
    decreases k,
{
    if k > 0 {
        lemma_zero_sum(weights, k - 1);
    }
}

/// Finds the best split of an amount between the routes, for slices of
/// `step` percent.
pub fn find_best_split_route<'a, P: SwapPool>(
    routes: &Vec<Route<'a, P>>,
    total_amount: QuoteAmount,
    token_in: &P::Token,
    token_out: &P::Token,
    step: u32,
    whole: bool,
) -> (r: Option<SplitRoute<'a, P>>)
    requires
        0 < step <= 100,
    ensures
        opt_split(r) == best_split::<P>(
            views(routes@),
            step,
            whole,
            total_amount,
            token_in@,
            token_out@,
        ),
{
    let ghost all = views(routes@);
    let ghost goal = final_weights::<P>(all, step, total_amount, token_in@, token_out@);
    let mut weights: Vec<u32> = Vec::new();
    let mut i: usize = 0;
    while i < routes.len()
        invariant
            i <= routes@.len(),
            weights@.len() == i,
            forall|j: int| 0 <= j < i ==> weights@[j] == 0,
        decreases routes@.len() - i,
    {
        weights.push(0);
        i = i + 1;
    }
    assert(weights@ =~= Seq::new(all.len(), |i: int| 0u32));
    let mut so_far: u128 = match total_amount {
        QuoteAmount::ExactIn(_) => 0,
        QuoteAmount::ExactOut(_) => 0xffff_ffff_ffff_ffff_ffff_ffff_ffff_ffff,
    };
    let mut rounds: u32 = 100 / step;
    let mut done: bool = false;
    while rounds > 0 && !done
        invariant
            0 < step <= 100,
            all == views(routes@),
            weights@.len() == routes@.len(),
            forall|i: int| 0 <= i < weights@.len() ==> weights@[i] <= 100,
            !done ==> goal == sliced_weights::<P>(
                all,
                weights@,
                so_far,
                rounds as nat,
                step,
                total_amount,
                token_in@,
                token_out@,
            ),
            done ==> goal == weights@,
        decreases rounds + if done { 0int } else { 1int },
    {
        let start: u128 = match total_amount {
            QuoteAmount::ExactIn(_) => so_far,
            QuoteAmount::ExactOut(_) => 0xffff_ffff_ffff_ffff_ffff_ffff_ffff_ffff,
        };
        proof {
            lemma_best_slice::<P>(
                all,
                weights@,
                routes@.len() as int,
                step,
                total_amount,
                token_in@,
                token_out@,
                start,
            );
        }
        let (amount, chosen): (u128, Option<usize>) = find_best_slice(
            routes,
            &weights,
            step,
            total_amount,
            token_in,
            token_out,
            start,
        );
        match chosen {
            Some(idx) => {
                let w: u32 = weights[idx] + step;
                weights.set(idx, w);
                so_far = amount;
                rounds = rounds - 1;
            },
            None => {
                done = true;
            },
        }
    }
    assert(goal == weights@);
    let used: u128 = sum_weights(&weights);
    if used == 0 || (whole && used != 100) {
        None
    } else {
        Some(build_split(routes, &weights))
    }
}

/// The view of an optional split.
pub open spec fn opt_split<P: SwapPool>(split: Option<SplitRoute<P>>) -> Option<SplitView<P>> {
    match split {
        Some(split) => Some(split@),
        None => None,
    }
}

/// One more slice adds to the sum, and uses at most one more route.
proof fn lemma_slice_sum(weights: Seq<u32>, idx: int, step: u32, k: int)
    requires
        0 <= idx < weights.len(),
        k <= weights.len(),
        weights[idx] + step <= 100,
        step > 0,
    ensures
        ({
            let more = weights.update(idx, (weights[idx] + step) as u32);
            &&& weight_sum(more, k) == weight_sum(weights, k) + if idx < k {
                step as int
            } else {
                0
            }
            &&& used_count(more, k) == used_count(weights, k) + if idx < k && weights[idx] == 0 {
                1nat
            } else {
                0nat
            }
        }),
    decreases k,
{
    if k > 0 {
        lemma_slice_sum(weights, idx, step, k - 1);
    }
}

/// Slicing keeps to the whole and to the number of routes.
proof fn lemma_sliced_weights<P: SwapPool>(
    routes: Seq<RouteView<P>>,
    weights: Seq<u32>,
    so_far: u128,
    rounds: nat,
    step: u32,
    quote: QuoteAmount,
    token_in: TokenView<P>,
    token_out: TokenView<P>,
)
    requires
        weights.len() == routes.len(),
        0 < step <= 100,
        used_count(weights, weights.len() as int) <= MAX_SPLITS_COUNT,
        forall|i: int| 0 <= i < weights.len() ==> weights[i] <= 100,
    ensures
        ({
            let result = sliced_weights::<P>(
                routes,
                weights,
                so_far,
                rounds,
                step,
                quote,
                token_in,
                token_out,
            );
            &&& result.len() == weights.len()
            &&& used_count(result, result.len() as int) <= MAX_SPLITS_COUNT
            &&& forall|i: int| 0 <= i < result.len() ==> result[i] <= 100
            &&& weight_sum(weights, weights.len() as int) <= weight_sum(result, result.len() as int)
                <= weight_sum(weights, weights.len() as int) + rounds * step
        }),
    decreases rounds,
{
    if rounds > 0 {
        let best = best_slice::<P>(
            routes,
            weights,
            routes.len() as int,
            step,
            quote,
            token_in,
            token_out,
            slice_start(quote, so_far),
        );
        lemma_best_slice::<P>(
            routes,
            weights,
            routes.len() as int,
            step,
            quote,
            token_in,
            token_out,
            slice_start(quote, so_far),
        );
        assert(rounds * step == (rounds - 1) * step + step) by (nonlinear_arith)
            requires
                rounds > 0,
        ;
        match best.1 {
            Some(idx) => {
                let more = weights.update(idx, (weights[idx] + step) as u32);
                lemma_slice_sum(weights, idx, step, weights.len() as int);
                lemma_sliced_weights::<P>(
                    routes,
                    more,
                    best.0,
                    (rounds - 1) as nat,
                    step,
                    quote,
                    token_in,
                    token_out,
                );
            },
            None => {
                assert(rounds * step >= 0) by (nonlinear_arith)
                    requires
                        rounds > 0,
                        step > 0,
                ;
            },
        }
    }
}

/// A split never uses more than two routes nor more than the whole, and no
/// route for more than the whole.
pub proof fn split_keeps_to_the_whole<P: SwapPool>(
    routes: Seq<RouteView<P>>,
    step: u32,
    quote: QuoteAmount,
    token_in: TokenView<P>,
    token_out: TokenView<P>,
)
    requires
        0 < step <= 100,
    ensures
        ({
            let weights = final_weights::<P>(routes, step, quote, token_in, token_out);
            &&& weights.len() == routes.len()
            &&& used_count(weights, weights.len() as int) <= MAX_SPLITS_COUNT
            &&& weight_sum(weights, weights.len() as int) <= 100
            &&& forall|i: int| 0 <= i < weights.len() ==> weights[i] <= 100
        }),
{
    let zeros = Seq::new(routes.len(), |i: int| 0u32);
    lemma_zero_sum(zeros, zeros.len() as int);
    lemma_sliced_weights::<P>(
        routes,
        zeros,
        worst_amount(quote),
        (100u32 / step) as nat,
        step,
        quote,
        token_in,
        token_out,
    );
    assert((100u32 / step) * step <= 100) by (nonlinear_arith)
        requires
            0 < step <= 100,
    ;
}

/// One more slice keeps to whole slices.
proof fn lemma_whole_slices<P: SwapPool>(
    routes: Seq<RouteView<P>>,
    weights: Seq<u32>,
    so_far: u128,
    rounds: nat,
    step: u32,
    quote: QuoteAmount,
    token_in: TokenView<P>,
    token_out: TokenView<P>,
)
    requires
        weights.len() == routes.len(),
        0 < step <= 100,
        forall|i: int| 0 <= i < weights.len() ==> #[trigger] weights[i] as int % step as int == 0,
    ensures
        ({
            let result = sliced_weights::<P>(routes, weights, so_far, rounds, step, quote, token_in, token_out);
            &&& result.len() == weights.len()
            &&& forall|i: int| 0 <= i < result.len() ==> #[trigger] result[i] as int % step as int == 0
        }),
    decreases rounds,
{
    if rounds > 0 {
        let start = slice_start(quote, so_far);
        let n = routes.len() as int;
        let best = best_slice::<P>(routes, weights, n, step, quote, token_in, token_out, start);
        lemma_best_slice::<P>(routes, weights, n, step, quote, token_in, token_out, start);
        match best.1 {
            Some(idx) => {
                let more = weights.update(idx, (weights[idx] + step) as u32);
                assert((weights[idx] + step) % (step as int) == 0) by {
                    vstd::arithmetic::div_mod::lemma_mod_add_multiples_vanish(weights[idx] as int, step as int);
                }
                lemma_whole_slices::<P>(
                    routes,
                    more,
                    best.0,
                    (rounds - 1) as nat,
                    step,
                    quote,
                    token_in,
                    token_out,
                );
            },
            None => {},
        }
    }
}

/// A used share is that of a route with its weight.
proof fn lemma_used_step<P: SwapPool>(routes: Seq<RouteView<P>>, weights: Seq<u32>, k: int, i: int)
    requires
        0 <= i < used_steps::<P>(routes, weights, k).len(),
    ensures
        exists|j: int|
            0 <= j < k && used_steps::<P>(routes, weights, k)[i] == (SplitStepView::<P> {
                route: #[trigger] routes[j],
                weight: weights[j],
            }) && weights[j] > 0,
    decreases k,
{
    if k > 0 {
        let before = used_steps::<P>(routes, weights, k - 1);
        if i < before.len() {
            lemma_used_step::<P>(routes, weights, k - 1, i);
            let j = choose|j: int|
                0 <= j < k - 1 && before[i] == (SplitStepView::<P> { route: #[trigger] routes[j], weight: weights[j] })
                    && weights[j] > 0;
            assert(used_steps::<P>(routes, weights, k)[i] == (SplitStepView::<P> {
                route: routes[j],
                weight: weights[j],
            }));
        } else {
            assert(used_steps::<P>(routes, weights, k)[i] == (SplitStepView::<P> {
                route: routes[k - 1],
                weight: weights[k - 1],
            }));
        }
    }
}

/// As many shares are used as weights are not zero.
proof fn lemma_used_len<P: SwapPool>(routes: Seq<RouteView<P>>, weights: Seq<u32>, k: int)
    ensures
        used_steps::<P>(routes, weights, k).len() == used_count(weights, k),
    decreases k,
{
    if k > 0 {
        lemma_used_len::<P>(routes, weights, k - 1);
    }
}

/// A split goes through at most two of the routes, the largest share first;
/// every share is a number of whole slices, more than none and no more than
/// the whole.
pub proof fn split_shares_fall<P: SwapPool>(
    routes: Seq<RouteView<P>>,
    step: u32,
    whole: bool,
    quote: QuoteAmount,
    token_in: TokenView<P>,
    token_out: TokenView<P>,
)
    requires
        0 < step <= 100,
    ensures
        best_split::<P>(routes, step, whole, quote, token_in, token_out) matches Some(split) ==> {
            &&& split.len() <= MAX_SPLITS_COUNT
            &&& forall|i: int, j: int| 0 <= i <= j < split.len() ==> split[i].weight >= split[j].weight
            &&& forall|i: int|
                0 <= i < split.len() ==> {
                    &&& 0 < (#[trigger] split[i]).weight <= 100
                    &&& split[i].weight as int % step as int == 0
                    &&& routes.contains(split[i].route)
                }
        },
{
    match best_split::<P>(routes, step, whole, quote, token_in, token_out) {
        Some(split) => {
            let weights = final_weights::<P>(routes, step, quote, token_in, token_out);
            let n = routes.len() as int;
            let steps = used_steps::<P>(routes, weights, n);
            let keys = step_weights::<P>(steps);
            let list = ranked(steps, keys);
            split_keeps_to_the_whole::<P>(routes, step, quote, token_in, token_out);
            lemma_used_len::<P>(routes, weights, n);
            let zeros = Seq::new(routes.len(), |i: int| 0u32);
            assert forall|i: int| 0 <= i < zeros.len() implies #[trigger] zeros[i] as int % step as int == 0 by {
                vstd::arithmetic::div_mod::lemma_small_mod(0, step as nat);
            }
            lemma_whole_slices::<P>(
                routes,
                zeros,
                worst_amount(quote),
                (100u32 / step) as nat,
                step,
                quote,
                token_in,
                token_out,
            );
            ranked_falls(steps, keys);
            lemma_ranked_len(steps, keys);
            assert forall|i: int| 0 <= i < split.len() implies {
                &&& 0 < (#[trigger] split[i]).weight <= 100
                &&& split[i].weight as int % step as int == 0
                &&& routes.contains(split[i].route)
                &&& list[i].1 == split[i].weight
            } by {
                lemma_ranked_member(steps, keys, i);
                let j = choose|j: int|
                    0 <= j < steps.len() && #[trigger] steps[j] == list[i].0 && keys[j] == list[i].1;
                lemma_used_step::<P>(routes, weights, n, j);
                let r = choose|r: int|
                    0 <= r < n && steps[j] == (SplitStepView::<P> { route: #[trigger] routes[r], weight: weights[r] })
                        && weights[r] > 0;
                assert(split[i] == steps[j]);
                assert(weights[r] as int % step as int == 0);
            }
            assert forall|i: int, j: int| 0 <= i <= j < split.len() implies split[i].weight >= split[j].weight by {
                assert(list[i].1 >= list[j].1);
                assert(list[i].1 == split[i].weight && list[j].1 == split[j].weight);
            }
        },
        None => {},
    }
}

/// The best slice comes to what it is said to.
proof fn lemma_best_slice_amount<P: SwapPool>(
    routes: Seq<RouteView<P>>,
    weights: Seq<u32>,
    k: int,
    step: u32,
    quote: QuoteAmount,
    token_in: TokenView<P>,
    token_out: TokenView<P>,
    start: u128,
)
    ensures
        best_slice::<P>(routes, weights, k, step, quote, token_in, token_out, start).1 matches Some(idx)
            ==> slice_amount::<P>(routes, weights, idx, step, quote, token_in, token_out) is Some,
    decreases k,
{
    if k > 0 {
        lemma_best_slice_amount::<P>(routes, weights, k - 1, step, quote, token_in, token_out, start);
    }
}

/// Slicing ends with weights that can be emulated, unless no slice went
/// anywhere.
proof fn lemma_sliced_amount<P: SwapPool>(
    routes: Seq<RouteView<P>>,
    weights: Seq<u32>,
    so_far: u128,
    rounds: nat,
    step: u32,
    quote: QuoteAmount,
    token_in: TokenView<P>,
    token_out: TokenView<P>,
)
    ensures
        ({
            let result = sliced_weights::<P>(routes, weights, so_far, rounds, step, quote, token_in, token_out);
            result == weights || split_amount::<P>(
                weighted_split::<P>(routes, result),
                token_in,
                token_out,
                quote,
            ) is Some
        }),
    decreases rounds,
{
    if rounds > 0 {
        let start = slice_start(quote, so_far);
        let n = routes.len() as int;
        let best = best_slice::<P>(routes, weights, n, step, quote, token_in, token_out, start);
        lemma_best_slice_amount::<P>(routes, weights, n, step, quote, token_in, token_out, start);
        match best.1 {
            Some(idx) => {
                lemma_sliced_amount::<P>(
                    routes,
                    weights.update(idx, (weights[idx] + step) as u32),
                    best.0,
                    (rounds - 1) as nat,
                    step,
                    quote,
                    token_in,
                    token_out,
                );
            },
            None => {},
        }
    }
}

/// A split that is found can be emulated.
pub proof fn found_split_can_be_emulated<P: SwapPool>(
    routes: Seq<RouteView<P>>,
    step: u32,
    whole: bool,
    quote: QuoteAmount,
    token_in: TokenView<P>,
    token_out: TokenView<P>,
)
    ensures
        best_split::<P>(routes, step, whole, quote, token_in, token_out) matches Some(split) ==> split_amount::<P>(
            split,
            token_in,
            token_out,
            quote,
        ) is Some,
{
    let zeros = Seq::new(routes.len(), |i: int| 0u32);
    lemma_zero_sum(zeros, zeros.len() as int);
    lemma_sliced_amount::<P>(
        routes,
        zeros,
        worst_amount(quote),
        (100u32 / step) as nat,
        step,
        quote,
        token_in,
        token_out,
    );
}

/// The shares of a split, added up.
pub open spec fn split_total<P: SwapPool>(split: SplitView<P>, k: int) -> int
    decreases k,
{
    if k <= 0 {
        0
    } else {
        split_total::<P>(split, k - 1) + split[k - 1].weight
    }
}

/// The sum over a prefix depends on the prefix alone.
proof fn lemma_split_total_prefix<P: SwapPool>(first: SplitView<P>, second: SplitView<P>, k: int)
    requires
        k <= first.len(),
        k <= second.len(),
        forall|i: int| 0 <= i < k ==> first[i] == second[i],
    ensures
        split_total::<P>(first, k) == split_total::<P>(second, k),
    decreases k,
{
    if k > 0 {
        lemma_split_total_prefix::<P>(first, second, k - 1);
    }
}

/// The used shares add up to all weights.
proof fn lemma_used_total<P: SwapPool>(routes: Seq<RouteView<P>>, weights: Seq<u32>, k: int)
    ensures
        split_total::<P>(used_steps::<P>(routes, weights, k), used_steps::<P>(routes, weights, k).len() as int)
            == weight_sum(weights, k),
    decreases k,
{
    if k > 0 {
        lemma_used_total::<P>(routes, weights, k - 1);
        let before = used_steps::<P>(routes, weights, k - 1);
        let now = used_steps::<P>(routes, weights, k);
        lemma_split_total_prefix::<P>(before, now, before.len() as int);
    }
}

/// Two shares add up to the same in either order.
proof fn lemma_ranked_total<P: SwapPool>(steps: SplitView<P>)
    requires
        steps.len() <= 2,
    ensures
        ({
            let split = top_k(steps, step_weights::<P>(steps), steps.len());
            &&& split.len() == steps.len()
            &&& split_total::<P>(split, split.len() as int) == split_total::<P>(steps, steps.len() as int)
        }),
{
    let keys = step_weights::<P>(steps);
    let list = ranked(steps, keys);
    let split = top_k(steps, keys, steps.len());
    lemma_ranked_len(steps, keys);
    reveal_with_fuel(split_total, 3);
    if steps.len() == 1 {
        lemma_ranked_member(steps, keys, 0);
    } else if steps.len() == 2 {
        let one = steps.drop_last();
        let first = ranked(one, keys);
        lemma_ranked_len(one, keys);
        lemma_ranked_member(one, keys, 0);
        assert(one[0] == steps[0]);
        lemma_rank_of(first, keys[1]);
        let p = rank_of(first, keys[1]);
        if p == 0 {
            assert(split[0] == steps[1] && split[1] == steps[0]);
        } else {
            assert(split[0] == steps[0] && split[1] == steps[1]);
        }
    }
}

/// Where the whole must be used, the shares of a split are the whole.
pub proof fn whole_split_is_whole<P: SwapPool>(
    routes: Seq<RouteView<P>>,
    step: u32,
    quote: QuoteAmount,
    token_in: TokenView<P>,
    token_out: TokenView<P>,
)
    requires
        0 < step <= 100,
    ensures
        best_split::<P>(routes, step, true, quote, token_in, token_out) matches Some(split) ==> split_total::<P>(
            split,
            split.len() as int,
        ) == 100,
{
    let weights = final_weights::<P>(routes, step, quote, token_in, token_out);
    let n = routes.len() as int;
    split_keeps_to_the_whole::<P>(routes, step, quote, token_in, token_out);
    lemma_used_len::<P>(routes, weights, n);
    lemma_used_total::<P>(routes, weights, n);
    lemma_ranked_total::<P>(used_steps::<P>(routes, weights, n));
}

} // verus!
