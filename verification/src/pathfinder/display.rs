//! Routes as text.

use vstd::prelude::*;

use super::market::SwapPool;
use super::route::{Route, RouteStep, RouteView};
use super::search::MaxHops;
use super::split::{SplitRoute, SplitRouteStep, SplitView};
use crate::account::AccountId;
use crate::asset::{asset_text, AssetId, AssetIdView};
use crate::ident::views;
use crate::text::{decimal_text, join, join3, u128_to_text};

verus! {

/// A token with a name.
pub trait Label: View {
    /// The name of a token.
    spec fn label(token: Self::V) -> Seq<char>;

    /// The name of the token.
    fn to_label(&self) -> (r: String)
        ensures
            r@ == Self::label(self@),
    ;
}

impl Label for AccountId {
    open spec fn label(token: Seq<char>) -> Seq<char> {
        token
    }

    fn to_label(&self) -> (r: String) {
        self.as_str().to_string()
    }
}

impl Label for AssetId {
    open spec fn label(token: AssetIdView) -> Seq<char> {
        asset_text(token)
    }

    fn to_label(&self) -> (r: String) {
        self.to_text()
    }
}

/// The first `k` swaps of a route: the number of the pool and the token that
/// comes out.
pub open spec fn steps_text<P: SwapPool>(steps: RouteView<P>, k: int) -> Seq<char> where P::Token: Label
    decreases k,
{
    if k <= 0 {
        "Route: "@ + P::Token::label(steps[0].token_in)
    } else {
        steps_text::<P>(steps, k - 1) + (" --- ("@ + decimal_text(P::number(steps[k - 1].pool) as nat) + ") ---> "@)
            + P::Token::label(steps[k - 1].token_out)
    }
}

/// A route as text.
pub open spec fn route_text<P: SwapPool>(steps: RouteView<P>) -> Seq<char> where P::Token: Label {
    if steps.len() == 0 {
        "(empty route)"@
    } else {
        steps_text::<P>(steps, steps.len() as int)
    }
}

impl<'a, P: SwapPool> Route<'a, P> where P::Token: Label {
    /// The route as text.
    pub fn to_text(&self) -> (r: String)
        ensures
            r@ == route_text::<P>(self@),
    {
        let n: usize = self.steps.len();
        if n == 0 {
            return "(empty route)".to_string();
        }
        let ghost all = self@;
        assert(all[0] == self.steps@[0]@);
        let mut out: String = join("Route: ", self.steps[0].token_in.to_label().as_str());
        let mut i: usize = 0;
        while i < n
            invariant
                i <= n,
                n == self.steps@.len(),
                all == views(self.steps@),
                out@ == steps_text::<P>(all, i as int),
            decreases n - i,
        {
            let step: &RouteStep<'a, P> = &self.steps[i];
            assert(all[i as int] == step@);
            let number: String = u128_to_text(step.pool.id() as u128);
            let arrow: String = join3(" --- (", number.as_str(), ") ---> ");
            out = join3(out.as_str(), arrow.as_str(), step.token_out.to_label().as_str());
            i = i + 1;
        }
        out
    }
}

/// The first `k` shares of a split, each on a line of its own.
pub open spec fn shares_text<P: SwapPool>(split: SplitView<P>, k: int) -> Seq<char> where P::Token: Label
    decreases k,
{
    if k <= 0 {
        "Split Route:"@
    } else {
        shares_text::<P>(split, k - 1) + ("\n  "@ + decimal_text(split[k - 1].weight as nat) + "% "@)
            + route_text::<P>(split[k - 1].route)
    }
}

/// A split as text; without shares the heading ends its line.
pub open spec fn split_text<P: SwapPool>(split: SplitView<P>) -> Seq<char> where P::Token: Label {
    if split.len() == 0 {
        "Split Route:\n"@
    } else {
        shares_text::<P>(split, split.len() as int)
    }
}

impl<'a, P: SwapPool> SplitRoute<'a, P> where P::Token: Label {
    /// The split as text.
    pub fn to_text(&self) -> (r: String)
        ensures
            r@ == split_text::<P>(self@),
    {
        let n: usize = self.steps.len();
        if n == 0 {
            return "Split Route:\n".to_string();
        }
        let ghost all = self@;
        let mut out: String = "Split Route:".to_string();
        let mut i: usize = 0;
        while i < n
            invariant
                i <= n,
                n == self.steps@.len(),
                all == views(self.steps@),
                out@ == shares_text::<P>(all, i as int),
            decreases n - i,
        {
            let step: &SplitRouteStep<'a, P> = &self.steps[i];
            assert(all[i as int] == step@);
            let weight: String = u128_to_text(step.weight as u128);
            let start: String = join3("\n  ", weight.as_str(), "% ");
            out = join3(out.as_str(), start.as_str(), step.route.to_text().as_str());
            i = i + 1;
        }
        out
    }
}

/// The name of a number of hops.
pub open spec fn hops_name(hops: MaxHops) -> Seq<char> {
    match hops {
        MaxHops::DirectOnly => "DirectOnly"@,
        MaxHops::Two => "Two"@,
        MaxHops::Three => "Three"@,
        MaxHops::Four => "Four"@,
        MaxHops::Max => "Max"@,
    }
}

impl MaxHops {
    /// The name that a query gives the limit.
    pub fn name(self) -> (r: &'static str)
        ensures
            r@ == hops_name(self),
    {
        match self {
            MaxHops::DirectOnly => "DirectOnly",
            MaxHops::Two => "Two",
            MaxHops::Three => "Three",
            MaxHops::Four => "Four",
            MaxHops::Max => "Max",
        }
    }
}

} // verus!
