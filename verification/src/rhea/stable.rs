//! Swaps in pools of coins of equal value.

use vstd::prelude::*;

use super::curve::{self, balance_y, invariant_d};
use super::FEE_DIVISOR;
use crate::wide::{mul_div, opt_value, u128_limit, u128_ratio, Width, U384};

verus! {

/// Decimals of the amounts that are compared with each other.
pub const TARGET_DECIMAL: u8 = 18;

/// The least amount of a coin that a swap must leave: a thousandth of one.
pub const MIN_RESERVE: u128 = 1_000_000_000_000_000;

/// The fee of a pool, in parts of `FEE_DIVISOR`.
#[derive(Clone, Copy, Debug, PartialEq, Eq, Structural)]
pub struct Fees {
    pub trade_fee: u32,
}

impl Fees {
    /// A fee of `total_fee` parts.
    pub fn new(total_fee: u32) -> (r: Self)
        ensures
            r.trade_fee == total_fee,
    {
        Self { trade_fee: total_fee }
    }

    /// The fee on an amount, rounded down.
    pub fn trade_fee(&self, amount: u128) -> (r: u128)
        requires
            amount * self.trade_fee / (FEE_DIVISOR as int) <= u128::MAX,
        ensures
            r == amount * self.trade_fee / (FEE_DIVISOR as int),
    {
        u128_ratio(amount, self.trade_fee as u128, FEE_DIVISOR as u128)
    }
}

/// What a swap from a source coin to a destination coin comes to.
#[derive(Clone, Copy, Debug, PartialEq, Eq, Structural)]
pub struct SwapResult {
    /// New amount of the source coin.
    pub new_source_amount: u128,
    /// New amount of the destination coin.
    pub new_destination_amount: u128,
    /// Amount of the destination coin swapped.
    pub amount_swapped: u128,
}

/// The stable-swap calculator.
#[derive(Clone, Copy, Debug, PartialEq, Eq, Structural)]
pub struct StableSwap {
    pub amp: u128,
}

/// The amount given for a coin whose amount falls from `before` to `y`: the
/// difference less one for rounding, less the fee on it.
pub open spec fn swapped_amount(before: nat, y: nat, fee: nat) -> Option<nat> {
    if y > before {
        None
    } else {
        let dy = if before - y >= 1 {
            (before - y - 1) as nat
        } else {
            0
        };
        let charged = dy * fee / (FEE_DIVISOR as nat);
        if charged > dy {
            None
        } else {
            Some((dy - charged) as nat)
        }
    }
}

/// The outcome of a swap of `amount_in` of the coin at `index_in` for the
/// coin at `index_out`.
pub open spec fn stable_swap(
    amp: nat,
    amounts: Seq<u128>,
    index_in: int,
    amount_in: nat,
    index_out: int,
    fee: nat,
) -> Option<SwapResult> {
    let x = amounts[index_in] as nat + amount_in;
    if x >= u128_limit() {
        None
    } else {
        match balance_y(amp, amounts, x, index_in, index_out, Width::Bits256) {
            Some(y) => match swapped_amount(amounts[index_out] as nat, y, fee) {
                Some(swapped) => Some(
                    SwapResult {
                        new_source_amount: x as u128,
                        new_destination_amount: (amounts[index_out] - swapped) as u128,
                        amount_swapped: swapped as u128,
                    },
                ),
                None => None,
            },
            None => None,
        }
    }
}

/// The amount given for a coin whose amount falls from `before` to `y`.
pub(crate) fn swapped_amount_of(before: u128, y: U384, fee: u32) -> (r: Option<u128>)
    ensures
        curve::opt_nat(r) == swapped_amount(before as nat, y@, fee as nat),
        r matches Some(swapped) ==> swapped <= before,
{
    let y: u128 = match y.to_u128() {
        Some(y) => y,
        None => {
            return None;
        },
    };
    match before.checked_sub(y) {
        Some(difference) => {
            let dy: u128 = difference.saturating_sub(1);
            match mul_div(dy, fee as u128, FEE_DIVISOR as u128) {
                Some(charged) => dy.checked_sub(charged),
                None => None,
            }
        },
        None => None,
    }
}

impl StableSwap {
    /// A calculator for the amplification `amp`.
    pub fn new(amp: u64) -> (r: Self)
        ensures
            r.amp == amp,
    {
        Self { amp: amp as u128 }
    }

    /// The amplification coefficient `A`.
    pub fn compute_amp_factor(&self) -> (r: Option<u128>)
        ensures
            r == Some(self.amp),
    {
        Some(self.amp)
    }

    /// The stable-swap invariant `D`, which solves
    /// `A * sum(x_i) * n**n + D = A * D * n**n + D**(n+1) / (n**n * prod(x_i))`.
    pub fn compute_d(&self, c_amounts: &[u128]) -> (r: Option<U384>)
        ensures
            opt_value(r) == invariant_d(self.amp as nat, c_amounts@, Width::Bits256),
    {
        curve::compute_d(self.amp, c_amounts, Width::Bits256)
    }

    /// The new amount of the coin at `index_y` when the coin at `index_x` has
    /// the amount `x_c_amount`.
    pub fn compute_y(
        &self,
        x_c_amount: u128,
        current_c_amounts: &[u128],
        index_x: usize,
        index_y: usize,
    ) -> (r: Option<U384>)
        ensures
            opt_value(r) == balance_y(
                self.amp as nat,
                current_c_amounts@,
                x_c_amount as nat,
                index_x as int,
                index_y as int,
                Width::Bits256,
            ),
    {
        curve::compute_y(self.amp, current_c_amounts, x_c_amount, index_x, index_y, Width::Bits256)
    }

    /// The outcome of a swap, all amounts in comparable decimals.
    pub fn swap_to(
        &self,
        token_in_idx: usize,
        token_in_amount: u128,
        token_out_idx: usize,
        current_c_amounts: &[u128],
        fees: &Fees,
    ) -> (r: Option<SwapResult>)
        requires
            token_in_idx < current_c_amounts@.len(),
            token_out_idx < current_c_amounts@.len(),
        ensures
            r == stable_swap(
                self.amp as nat,
                current_c_amounts@,
                token_in_idx as int,
                token_in_amount as nat,
                token_out_idx as int,
                fees.trade_fee as nat,
            ),
    {
        let x: u128 = match token_in_amount.checked_add(current_c_amounts[token_in_idx]) {
            Some(x) => x,
            None => {
                return None;
            },
        };
        let y: U384 = match self.compute_y(x, current_c_amounts, token_in_idx, token_out_idx) {
            Some(y) => y,
            None => {
                return None;
            },
        };
        let before: u128 = current_c_amounts[token_out_idx];
        match swapped_amount_of(before, y, fees.trade_fee) {
            Some(swapped) => Some(
                SwapResult {
                    new_source_amount: x,
                    new_destination_amount: before - swapped,
                    amount_swapped: swapped,
                },
            ),
            None => None,
        }
    }
}

} // verus!
