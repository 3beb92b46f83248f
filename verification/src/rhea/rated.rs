//! Swaps in pools of coins whose relative values are given by rates.

use vstd::prelude::*;

use super::curve::{self, balance_y, invariant_d};
use super::stable::{swapped_amount, swapped_amount_of};
use super::FEE_DIVISOR;
use crate::ident::copy_all;
use crate::wide::{mul_div, opt_value, ratio, u128_limit, u128_ratio, Width, U384};

verus! {

/// Decimals of the amounts that are compared with each other.
pub const TARGET_DECIMAL: u8 = 24;

/// The rate of a coin that is worth one.
pub const PRECISION: u128 = 1_000_000_000_000_000_000_000_000;

/// The least amount of a coin that a swap must leave: a thousandth of one.
pub const MIN_RESERVE: u128 = 1_000_000_000_000_000_000_000;

/// The fee of a pool, in parts of `FEE_DIVISOR`.
#[derive(Clone, Copy, Debug, PartialEq, Eq, Structural)]
pub struct Fees {
    pub trade_fee: u32,
}

impl Fees {
    /// A fee of `total_fee` parts.
    pub fn new(total_fee: u32) -> (r: Self)
        ensures
            r.trade_fee == total_fee,
    {
        Self { trade_fee: total_fee }
    }

    /// The fee on an amount, rounded down.
    pub fn trade_fee(&self, amount: u128) -> (r: u128)
        requires
            amount * self.trade_fee / (FEE_DIVISOR as int) <= u128::MAX,
        ensures
            r == amount * self.trade_fee / (FEE_DIVISOR as int),
    {
        u128_ratio(amount, self.trade_fee as u128, FEE_DIVISOR as u128)
    }
}

/// What a swap from a source coin to a destination coin comes to.
#[derive(Clone, Copy, Debug, PartialEq, Eq, Structural)]
pub struct SwapResult {
    /// New amount of the source coin.
    pub new_source_amount: u128,
    /// New amount of the destination coin.
    pub new_destination_amount: u128,
    /// Amount of the destination coin swapped.
    pub amount_swapped: u128,
}

impl SwapResult {
    /// A result with these amounts.
    pub fn new(new_source_amount: u128, new_destination_amount: u128, amount_swapped: u128) -> (r: Self)
        ensures
            r.new_source_amount == new_source_amount,
            r.new_destination_amount == new_destination_amount,
            r.amount_swapped == amount_swapped,
    {
        Self { new_source_amount, new_destination_amount, amount_swapped }
    }
}

/// Why a swap by rates has no result.
#[derive(Clone, Copy, Debug, PartialEq, Eq, Structural)]
pub enum RatedSwapError {
    /// The invariant has no solution within the width.
    ComputeY,
    /// The destination coin would have to grow, or the fee exceeds the amount.
    Underflow,
    /// An amount does not fit in 128 bits, or a rate is zero.
    Overflow,
}

/// The rated-swap calculator.
#[derive(Clone, Debug, PartialEq, Eq)]
pub struct RatedSwap {
    pub amp: u128,
    pub rates: Vec<u128>,
}

/// The amount times its rate.
pub open spec fn rated(amount: nat, rate: nat) -> Option<u128> {
    ratio(amount, rate, PRECISION as nat)
}

/// The amount over its rate.
pub open spec fn unrated(amount: nat, rate: nat) -> Option<u128> {
    ratio(amount, PRECISION as nat, rate)
}

/// How many amounts have a rate.
pub open spec fn rated_len(amounts: Seq<u128>, rates: Seq<u128>) -> nat {
    if amounts.len() < rates.len() {
        amounts.len()
    } else {
        rates.len()
    }
}

/// Whether every amount that has a rate fits in 128 bits when rated.
pub open spec fn all_rated(amounts: Seq<u128>, rates: Seq<u128>) -> bool {
    forall|i: int|
        0 <= i < rated_len(amounts, rates) ==> rated(#[trigger] amounts[i] as nat, rates[i] as nat) is Some
}

/// The amounts times their rates.
pub open spec fn rated_amounts(amounts: Seq<u128>, rates: Seq<u128>) -> Seq<u128> {
    Seq::new(rated_len(amounts, rates), |i: int| rated(amounts[i] as nat, rates[i] as nat)->0)
}

/// The outcome of a swap of `amount_in` of the coin at `index_in` for the
/// coin at `index_out`.
pub open spec fn rated_swap(
    amp: nat,
    rates: Seq<u128>,
    amounts: Seq<u128>,
    index_in: int,
    amount_in: nat,
    index_out: int,
    fee: nat,
) -> Result<SwapResult, RatedSwapError> {
    if rated(amount_in, rates[index_in] as nat) is None || !all_rated(amounts, rates) {
        Err(RatedSwapError::Overflow)
    } else {
        let current = rated_amounts(amounts, rates);
        let x = current[index_in] as nat + rated(amount_in, rates[index_in] as nat)->0 as nat;
        if x >= u128_limit() {
            Err(RatedSwapError::Overflow)
        } else {
            match balance_y(amp, current, x, index_in, index_out, Width::Bits384) {
                Some(y) => match swapped_amount(current[index_out] as nat, y, fee) {
                    Some(swapped) => match (
                        unrated(x, rates[index_in] as nat),
                        unrated((current[index_out] - swapped) as nat, rates[index_out] as nat),
                        unrated(swapped, rates[index_out] as nat),
                    ) {
                        (Some(source), Some(destination), Some(given)) => Ok(
                            SwapResult {
                                new_source_amount: source,
                                new_destination_amount: destination,
                                amount_swapped: given,
                            },
                        ),
                        _ => Err(RatedSwapError::Overflow),
                    },
                    None => Err(RatedSwapError::Underflow),
                },
                None => Err(RatedSwapError::ComputeY),
            }
        }
    }
}

impl RatedSwap {
    /// A calculator for the amplification `amp` and these rates.
    pub fn new(amp: u64, rates: &Vec<u128>) -> (r: Self)
        ensures
            r.amp == amp,
            r.rates@ == rates@,
    {
        Self { amp: amp as u128, rates: copy_all(rates) }
    }

    /// The amounts times their rates, where all of them fit in 128 bits.
    fn rate_balances(&self, amounts: &Vec<u128>) -> (r: Option<Vec<u128>>)
        ensures
            r is Some <==> all_rated(amounts@, self.rates@),
            r matches Some(rated) ==> rated@ == rated_amounts(amounts@, self.rates@),
    {
        let n: usize = if amounts.len() < self.rates.len() {
            amounts.len()
        } else {
            self.rates.len()
        };
        let mut out: Vec<u128> = Vec::new();
        let mut i: usize = 0;
        while i < n
            invariant
                i <= n,
                n == rated_len(amounts@, self.rates@),
                out@.len() == i,
                forall|j: int|
                    0 <= j < i ==> rated(#[trigger] amounts@[j] as nat, self.rates@[j] as nat) == Some(out@[j]),
            decreases n - i,
        {
            match mul_div(amounts[i], self.rates[i], PRECISION) {
                Some(v) => {
                    out.push(v);
                },
                None => {
                    proof {
                        assert(rated(amounts@[i as int] as nat, self.rates@[i as int] as nat) is None);
                    }
                    return None;
                },
            }
            i = i + 1;
        }
        assert(out@ =~= rated_amounts(amounts@, self.rates@));
        Some(out)
    }

    /// The amplification coefficient `A`.
    pub fn compute_amp_factor(&self) -> (r: Option<u128>)
        ensures
            r == Some(self.amp),
    {
        Some(self.amp)
    }

    /// The stable-swap invariant `D`, which solves
    /// `A * sum(x_i) * n**n + D = A * D * n**n + D**(n+1) / (n**n * prod(x_i))`.
    pub fn compute_d(&self, c_amounts: &Vec<u128>) -> (r: Option<U384>)
        ensures
            opt_value(r) == invariant_d(self.amp as nat, c_amounts@, Width::Bits384),
    {
        curve::compute_d(self.amp, c_amounts.as_slice(), Width::Bits384)
    }

    /// The new amount of the coin at `index_y` when the coin at `index_x` has
    /// the amount `x_c_amount`.
    pub fn compute_y(
        &self,
        x_c_amount: u128,
        current_c_amounts: &Vec<u128>,
        index_x: usize,
        index_y: usize,
    ) -> (r: Option<U384>)
        ensures
            opt_value(r) == balance_y(
                self.amp as nat,
                current_c_amounts@,
                x_c_amount as nat,
                index_x as int,
                index_y as int,
                Width::Bits384,
            ),
    {
        curve::compute_y(
            self.amp,
            current_c_amounts.as_slice(),
            x_c_amount,
            index_x,
            index_y,
            Width::Bits384,
        )
    }

    /// The outcome of a swap, all amounts in comparable decimals.
    pub fn swap_to(
        &self,
        token_in_idx: usize,
        token_in_amount: u128,
        token_out_idx: usize,
        current_c_amounts: &Vec<u128>,
        fees: &Fees,
    ) -> (r: Result<SwapResult, RatedSwapError>)
        requires
            token_in_idx < rated_len(current_c_amounts@, self.rates@),
            token_out_idx < rated_len(current_c_amounts@, self.rates@),
        ensures
            r == rated_swap(
                self.amp as nat,
                self.rates@,
                current_c_amounts@,
                token_in_idx as int,
                token_in_amount as nat,
                token_out_idx as int,
                fees.trade_fee as nat,
            ),
    {
        let rate_in: u128 = self.rates[token_in_idx];
        let rate_out: u128 = self.rates[token_out_idx];
        let amount_rated: u128 = match mul_div(token_in_amount, rate_in, PRECISION) {
            Some(v) => v,
            None => {
                return Err(RatedSwapError::Overflow);
            },
        };
        let current: Vec<u128> = match self.rate_balances(current_c_amounts) {
            Some(current) => current,
            None => {
                return Err(RatedSwapError::Overflow);
            },
        };
        let x: u128 = match amount_rated.checked_add(current[token_in_idx]) {
            Some(x) => x,
            None => {
                return Err(RatedSwapError::Overflow);
            },
        };
        let y: U384 = match self.compute_y(x, &current, token_in_idx, token_out_idx) {
            Some(y) => y,
            None => {
                return Err(RatedSwapError::ComputeY);
            },
        };
        let before: u128 = current[token_out_idx];
        let swapped: u128 = match swapped_amount_of(before, y, fees.trade_fee) {
            Some(swapped) => swapped,
            None => {
                return Err(RatedSwapError::Underflow);
            },
        };
        match (
            mul_div(x, PRECISION, rate_in),
            mul_div(before - swapped, PRECISION, rate_out),
            mul_div(swapped, PRECISION, rate_out),
        ) {
            (Some(source), Some(destination), Some(given)) => Ok(
                SwapResult::new(source, destination, given),
            ),
            _ => Err(RatedSwapError::Overflow),
        }
    }
}

} // verus!
