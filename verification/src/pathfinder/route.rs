//! Routes through pools and what they give.

use vstd::prelude::*;

use super::market::{current_pool, lemma_views_push, PoolsDelta, SwapPool, TokenView};
use crate::ident::{views, Ident};

verus! {

/// The amount that a quote fixes.
#[derive(Clone, Copy, Debug, PartialEq, Eq, Structural)]
pub enum QuoteAmount {
    /// The amount that is sold.
    ExactIn(u128),
    /// The amount that is bought.
    ExactOut(u128),
}

impl QuoteAmount {
    /// The amount, whichever side it is of.
    pub fn value(self) -> (r: u128)
        ensures
            r == match self {
                QuoteAmount::ExactIn(amount) => amount,
                QuoteAmount::ExactOut(amount) => amount,
            },
    {
        match self {
            QuoteAmount::ExactIn(amount) => amount,
            QuoteAmount::ExactOut(amount) => amount,
        }
    }
}

/// One swap of a route.
pub struct RouteStep<'a, P: SwapPool> {
    pub pool: &'a P,
    pub token_in: P::Token,
    pub token_out: P::Token,
}

/// What a step of a route is.
pub struct StepView<P: SwapPool> {
    pub pool: P::V,
    pub token_in: TokenView<P>,
    pub token_out: TokenView<P>,
}

/// What a route is: its steps in order.
pub type RouteView<P> = Seq<StepView<P>>;

/// The pools that have changed, by their number.
pub type DeltaView<P> = Map<u64, <P as View>::V>;

impl<'a, P: SwapPool> View for RouteStep<'a, P> {
    type V = StepView<P>;

    open spec fn view(&self) -> StepView<P> {
        StepView { pool: self.pool@, token_in: self.token_in@, token_out: self.token_out@ }
    }
}

impl<'a, P: SwapPool> RouteStep<'a, P> {
    /// The same step again.
    pub fn duplicate(&self) -> (r: Self)
        ensures
            r@ == self@,
    {
        RouteStep {
            pool: self.pool,
            token_in: self.token_in.duplicate(),
            token_out: self.token_out.duplicate(),
        }
    }
}

/// A chain of swaps.
pub struct Route<'a, P: SwapPool> {
    pub steps: Vec<RouteStep<'a, P>>,
}

impl<'a, P: SwapPool> View for Route<'a, P> {
    type V = RouteView<P>;

    open spec fn view(&self) -> RouteView<P> {
        views(self.steps@)
    }
}

/// What selling along the first `k` steps comes to: the token and the amount
/// that are held then, and the pools that have changed.
pub open spec fn sell_steps<P: SwapPool>(
    steps: RouteView<P>,
    k: int,
    token_in: TokenView<P>,
    amount: u128,
    delta: DeltaView<P>,
) -> Option<(TokenView<P>, u128, DeltaView<P>)>
    decreases k,
{
    if k <= 0 {
        Some((token_in, amount, delta))
    } else {
        match sell_steps::<P>(steps, k - 1, token_in, amount, delta) {
            Some((token, held, delta)) => {
                let step = steps[k - 1];
                if token != step.token_in {
                    None
                } else {
                    match P::sale(current_pool::<P>(delta, step.pool), token, step.token_out, held) {
                        Some((pool, given)) => Some(
                            (step.token_out, given, delta.insert(P::number(pool), pool)),
                        ),
                        None => None,
                    }
                }
            },
            None => None,
        }
    }
}

/// What selling `amount` along a route from `token_in` to `token_out` gives,
/// and the pools that have changed then.
pub open spec fn route_sale<P: SwapPool>(
    steps: RouteView<P>,
    token_in: TokenView<P>,
    token_out: TokenView<P>,
    amount: u128,
    delta: DeltaView<P>,
) -> Option<(u128, DeltaView<P>)> {
    match sell_steps::<P>(steps, steps.len() as int, token_in, amount, delta) {
        Some((token, given, delta)) => if token == token_out {
            Some((given, delta))
        } else {
            None
        },
        None => None,
    }
}

/// What buying along the last `k` steps comes to: the token that is owed then
/// and how much of it, what each of the steps takes and gives, and the pools
/// that have changed.
pub open spec fn buy_steps<P: SwapPool>(
    steps: RouteView<P>,
    k: int,
    token_out: TokenView<P>,
    amount: u128,
    delta: DeltaView<P>,
) -> Option<(TokenView<P>, u128, Seq<(u128, u128)>, DeltaView<P>)>
    decreases k,
{
    if k <= 0 {
        Some((token_out, amount, Seq::empty(), delta))
    } else {
        match buy_steps::<P>(steps, k - 1, token_out, amount, delta) {
            Some((token, owed, amounts, delta)) => {
                let step = steps[steps.len() - k];
                if token != step.token_out {
                    None
                } else {
                    match P::purchase(
                        current_pool::<P>(delta, step.pool),
                        step.token_in,
                        step.token_out,
                        owed,
                    ) {
                        Some((pool, taken)) => Some(
                            (
                                step.token_in,
                                taken,
                                seq![(taken, owed)] + amounts,
                                delta.insert(P::number(pool), pool),
                            ),
                        ),
                        None => None,
                    }
                }
            },
            None => None,
        }
    }
}

/// What buying `amount` along a route from `token_in` to `token_out` takes,
/// what each step takes and gives, and the pools that have changed then.
pub open spec fn route_purchase<P: SwapPool>(
    steps: RouteView<P>,
    token_in: TokenView<P>,
    token_out: TokenView<P>,
    amount: u128,
    delta: DeltaView<P>,
) -> Option<(u128, Seq<(u128, u128)>, DeltaView<P>)> {
    match buy_steps::<P>(steps, steps.len() as int, token_out, amount, delta) {
        Some((token, taken, amounts, delta)) => if token == token_in {
            Some((taken, amounts, delta))
        } else {
            None
        },
        None => None,
    }
}

/// What a route gives for an exact input, or takes for an exact output, on
/// unchanged pools.
pub open spec fn route_amount<P: SwapPool>(
    steps: RouteView<P>,
    token_in: TokenView<P>,
    token_out: TokenView<P>,
    quote: QuoteAmount,
) -> Option<u128> {
    match quote {
        QuoteAmount::ExactIn(amount) => match route_sale::<P>(
            steps,
            token_in,
            token_out,
            amount,
            Map::empty(),
        ) {
            Some((given, _)) => Some(given),
            None => None,
        },
        QuoteAmount::ExactOut(amount) => match route_purchase::<P>(
            steps,
            token_in,
            token_out,
            amount,
            Map::empty(),
        ) {
            Some((taken, _, _)) => Some(taken),
            None => None,
        },
    }
}

/// The first failing step fails the whole.
proof fn lemma_sell_steps_none<P: SwapPool>(
    steps: RouteView<P>,
    i: int,
    j: int,
    token_in: TokenView<P>,
    amount: u128,
    delta: DeltaView<P>,
)
    requires
        0 <= i <= j,
    ensures
        sell_steps::<P>(steps, i, token_in, amount, delta) is None ==> sell_steps::<P>(
            steps,
            j,
            token_in,
            amount,
            delta,
        ) is None,
    decreases j,
{
    if i < j {
        lemma_sell_steps_none::<P>(steps, i, j - 1, token_in, amount, delta);
    }
}

/// The first failing step fails the whole.
proof fn lemma_buy_steps_none<P: SwapPool>(
    steps: RouteView<P>,
    i: int,
    j: int,
    token_out: TokenView<P>,
    amount: u128,
    delta: DeltaView<P>,
)
    requires
        0 <= i <= j,
    ensures
        buy_steps::<P>(steps, i, token_out, amount, delta) is None ==> buy_steps::<P>(
            steps,
            j,
            token_out,
            amount,
            delta,
        ) is None,
    decreases j,
{
    if i < j {
        lemma_buy_steps_none::<P>(steps, i, j - 1, token_out, amount, delta);
    }
}

impl<'a, P: SwapPool> Route<'a, P> {
    /// The same route again.
    pub fn duplicate(&self) -> (r: Self)
        ensures
            r@ == self@,
    {
        let mut steps: Vec<RouteStep<'a, P>> = Vec::new();
        let mut i: usize = 0;
        while i < self.steps.len()
            invariant
                i <= self.steps@.len(),
                views(steps@) == self@.take(i as int),
            decreases self.steps@.len() - i,
        {
            let step: RouteStep<'a, P> = self.steps[i].duplicate();
            proof {
                lemma_views_push(steps@, step);
            }
            steps.push(step);
            assert(self@.take(i + 1) =~= self@.take(i as int).push(self@[i as int]));
            i = i + 1;
        }
        let r = Route { steps };
        assert(r@ =~= self@);
        r
    }

    /// Sells `amount_in` along the route, on top of the swaps done before.
    pub fn emulate_swap_exact_in(
        &self,
        token_in: &P::Token,
        token_out: &P::Token,
        amount_in: u128,
        pools_delta: PoolsDelta<P>,
    ) -> (r: Option<(u128, PoolsDelta<P>)>)
        ensures
            match r {
                Some(r) => route_sale::<P>(self@, token_in@, token_out@, amount_in, pools_delta@) == Some(
                    (r.0, r.1@),
                ),
                None => route_sale::<P>(self@, token_in@, token_out@, amount_in, pools_delta@) is None,
            },
    {
        let ghost before = pools_delta@;
        let mut delta: PoolsDelta<P> = pools_delta;
        let mut token: P::Token = token_in.duplicate();
        let mut amount: u128 = amount_in;
        let mut i: usize = 0;
        while i < self.steps.len()
            invariant
                i <= self.steps@.len(),
                before == pools_delta@,
                sell_steps::<P>(self@, i as int, token_in@, amount_in, before) == Some(
                    (token@, amount, delta@),
                ),
            decreases self.steps@.len() - i,
        {
            let step: &RouteStep<'a, P> = &self.steps[i];
            assert(self@[i as int] == step@);
            proof {
                lemma_sell_steps_none::<P>(
                    self@,
                    i + 1,
                    self@.len() as int,
                    token_in@,
                    amount_in,
                    before,
                );
            }
            if !token.same(&step.token_in) {
                return None;
            }
            match delta.current(step.pool).sold(&token, &step.token_out, amount) {
                Some((pool, given)) => {
                    delta.insert(pool);
                    amount = given;
                },
                None => {
                    return None;
                },
            }
            token = step.token_out.duplicate();
            i = i + 1;
        }
        if token.same(token_out) {
            Some((amount, delta))
        } else {
            None
        }
    }

    /// Buys `amount_out` along the route, on top of the swaps done before.
    /// The amounts are what each step takes and gives.
    pub fn emulate_swap_exact_out(
        &self,
        token_in: &P::Token,
        token_out: &P::Token,
        amount_out: u128,
        pools_delta: PoolsDelta<P>,
    ) -> (r: Option<(u128, Vec<(u128, u128)>, PoolsDelta<P>)>)
        ensures
            match r {
                Some(r) => route_purchase::<P>(self@, token_in@, token_out@, amount_out, pools_delta@) == Some(
                    (r.0, r.1@, r.2@),
                ),
                None => route_purchase::<P>(self@, token_in@, token_out@, amount_out, pools_delta@) is None,
            },
    {
        let ghost before = pools_delta@;
        let n: usize = self.steps.len();
        let mut delta: PoolsDelta<P> = pools_delta;
        let mut token: P::Token = token_out.duplicate();
        let mut amount: u128 = amount_out;
        let mut amounts: Vec<(u128, u128)> = Vec::new();
        let mut i: usize = 0;
        while i < n
            invariant
                i <= n,
                n == self.steps@.len(),
                before == pools_delta@,
                buy_steps::<P>(self@, i as int, token_out@, amount_out, before) == Some(
                    (token@, amount, amounts@.reverse(), delta@),
                ),
            decreases n - i,
        {
            let step: &RouteStep<'a, P> = &self.steps[n - 1 - i];
            assert(self@[n - 1 - i] == step@);
            proof {
                lemma_buy_steps_none::<P>(self@, i + 1, n as int, token_out@, amount_out, before);
            }
            if !token.same(&step.token_out) {
                return None;
            }
            match delta.current(step.pool).bought(&step.token_in, &step.token_out, amount) {
                Some((pool, taken)) => {
                    let ghost earlier = amounts@;
                    delta.insert(pool);
                    amounts.push((taken, amount));
                    assert(amounts@.reverse() =~= seq![(taken, amount)] + earlier.reverse());
                    amount = taken;
                },
                None => {
                    return None;
                },
            }
            token = step.token_in.duplicate();
            i = i + 1;
        }
        if token.same(token_in) {
            let ordered: Vec<(u128, u128)> = reversed(&amounts);
            Some((amount, ordered, delta))
        } else {
            None
        }
    }

    /// What the route gives or takes on unchanged pools.
    pub fn emulate(&self, token_in: &P::Token, token_out: &P::Token, quote: QuoteAmount) -> (r: Option<u128>)
        ensures
            r == route_amount::<P>(self@, token_in@, token_out@, quote),
    {
        match quote {
            QuoteAmount::ExactIn(amount) => match self.emulate_swap_exact_in(
                token_in,
                token_out,
                amount,
                PoolsDelta::new(),
            ) {
                Some((given, _)) => Some(given),
                None => None,
            },
            QuoteAmount::ExactOut(amount) => match self.emulate_swap_exact_out(
                token_in,
                token_out,
                amount,
                PoolsDelta::new(),
            ) {
                Some((taken, _, _)) => Some(taken),
                None => None,
            },
        }
    }
}

/// The pairs in reverse order.
fn reversed(pairs: &Vec<(u128, u128)>) -> (r: Vec<(u128, u128)>)
    ensures
        r@ == pairs@.reverse(),
{
    let n: usize = pairs.len();
    let mut out: Vec<(u128, u128)> = Vec::new();
    let mut i: usize = 0;
    while i < n
        invariant
            i <= n,
            n == pairs@.len(),
            out@.len() == i,
            forall|j: int| 0 <= j < i ==> out@[j] == pairs@[n - 1 - j],
        decreases n - i,
    {
        out.push(pairs[n - 1 - i]);
        i = i + 1;
    }
    assert(out@ =~= pairs@.reverse());
    out
}

} // verus!
