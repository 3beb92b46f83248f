//! The pools of Rhea and what a swap does to them.

use vstd::arithmetic::power::pow;
use vstd::prelude::*;

use super::curve::{checked_pow, opt_nat, opt_u128};
use super::rated::{self, rated_len, rated_swap, RatedSwap, RatedSwapError};
use super::stable::{self, stable_swap, StableSwap};
use super::FEE_DIVISOR;
use crate::account::AccountId;
use crate::ident::{copy_all, duplicate_all, lemma_found, position, position_of, views, Ident};
use crate::pathfinder::market::SwapPool;
use crate::wide::{lemma_product_fits, u256_limit, Width, U384};

verus! {

/// Why a swap fails.
#[derive(Clone, Copy, Debug, PartialEq, Eq, Structural)]
pub enum SwapError {
    TokenInNotFound,
    TokenOutNotFound,
    InBalanceZero,
    OutBalanceZero,
    SameToken,
    AmountInZero,
    /// The stable-swap curve has no result.
    CannotSwap,
    /// The rated-swap curve has no result.
    Rated(RatedSwapError),
    /// Too little of the destination coin would be left.
    MinReserveNotMet,
    /// The pool's data does not fit together, or a number does not fit.
    Arithmetic,
    /// The pool is of a kind whose swaps are not emulated.
    Unsupported,
}

/// A pool of two or more tokens with a constant product.
#[derive(Clone, Debug, PartialEq)]
pub struct SimplePoolInfo {
    pub token_account_ids: Vec<AccountId>,
    pub amounts: Vec<u128>,
    pub total_fee: u32,
    pub shares_total_supply: u128,
}

/// A pool of coins of equal value.
#[derive(Clone, Debug, PartialEq)]
pub struct StablePoolInfo {
    pub token_account_ids: Vec<AccountId>,
    pub decimals: Vec<u8>,
    pub amounts: Vec<u128>,
    pub c_amounts: Vec<u128>,
    pub total_fee: u32,
    pub shares_total_supply: u128,
    pub amp: u64,
}

/// A pool of coins whose values are in fixed ratios.
#[derive(Clone, Debug, PartialEq)]
pub struct RatedPoolInfo {
    pub token_account_ids: Vec<AccountId>,
    pub decimals: Vec<u8>,
    pub amounts: Vec<u128>,
    pub c_amounts: Vec<u128>,
    pub total_fee: u32,
    pub shares_total_supply: u128,
    pub amp: u64,
    pub rates: Vec<u128>,
}

/// A pool of coins whose values come from price feeds.
#[derive(Clone, Debug, PartialEq)]
pub struct DegenPoolInfo {
    pub token_account_ids: Vec<AccountId>,
    pub decimals: Vec<u8>,
    pub amounts: Vec<u128>,
    pub c_amounts: Vec<u128>,
    pub total_fee: u32,
    pub shares_total_supply: u128,
    pub amp: u64,
    pub degens: Vec<u128>,
}

/// What a pool of two or more tokens is.
#[verifier::ext_equal]
pub struct SimplePoolView {
    pub tokens: Seq<Seq<char>>,
    pub amounts: Seq<u128>,
    pub total_fee: u32,
    pub shares_total_supply: u128,
}

/// What a pool on a curve is; `rates` are those of the coins, where the pool
/// has any.
#[verifier::ext_equal]
pub struct CurvePoolView {
    pub tokens: Seq<Seq<char>>,
    pub decimals: Seq<u8>,
    pub amounts: Seq<u128>,
    pub c_amounts: Seq<u128>,
    pub total_fee: u32,
    pub shares_total_supply: u128,
    pub amp: u64,
    pub rates: Seq<u128>,
}

impl View for SimplePoolInfo {
    type V = SimplePoolView;

    open spec fn view(&self) -> SimplePoolView {
        SimplePoolView {
            tokens: views(self.token_account_ids@),
            amounts: self.amounts@,
            total_fee: self.total_fee,
            shares_total_supply: self.shares_total_supply,
        }
    }
}

impl View for StablePoolInfo {
    type V = CurvePoolView;

    open spec fn view(&self) -> CurvePoolView {
        CurvePoolView {
            tokens: views(self.token_account_ids@),
            decimals: self.decimals@,
            amounts: self.amounts@,
            c_amounts: self.c_amounts@,
            total_fee: self.total_fee,
            shares_total_supply: self.shares_total_supply,
            amp: self.amp,
            rates: Seq::empty(),
        }
    }
}

impl View for RatedPoolInfo {
    type V = CurvePoolView;

    open spec fn view(&self) -> CurvePoolView {
        CurvePoolView {
            tokens: views(self.token_account_ids@),
            decimals: self.decimals@,
            amounts: self.amounts@,
            c_amounts: self.c_amounts@,
            total_fee: self.total_fee,
            shares_total_supply: self.shares_total_supply,
            amp: self.amp,
            rates: self.rates@,
        }
    }
}

impl View for DegenPoolInfo {
    type V = CurvePoolView;

    open spec fn view(&self) -> CurvePoolView {
        CurvePoolView {
            tokens: views(self.token_account_ids@),
            decimals: self.decimals@,
            amounts: self.amounts@,
            c_amounts: self.c_amounts@,
            total_fee: self.total_fee,
            shares_total_supply: self.shares_total_supply,
            amp: self.amp,
            rates: self.degens@,
        }
    }
}

/// What `amount` brings out of a constant product of `balance_in` and
/// `balance_out` after a fee: rounded down.
pub open spec fn product_out(balance_in: nat, balance_out: nat, amount: nat, fee: nat) -> nat {
    let with_fee = amount * (FEE_DIVISOR - fee) as nat;
    with_fee * balance_out / (FEE_DIVISOR as nat * balance_in + with_fee)
}

/// What a swap does to a constant-product pool, and what it gives.
pub open spec fn simple_swap(
    pool: SimplePoolView,
    token_in: Seq<char>,
    token_out: Seq<char>,
    amount: u128,
) -> Result<(SimplePoolView, u128), SwapError> {
    match position(pool.tokens, token_in) {
        None => Err(SwapError::TokenInNotFound),
        Some(i) => match position(pool.tokens, token_out) {
            None => Err(SwapError::TokenOutNotFound),
            Some(o) => if i >= pool.amounts.len() || o >= pool.amounts.len() {
                Err(SwapError::Arithmetic)
            } else if pool.amounts[i] == 0 {
                Err(SwapError::InBalanceZero)
            } else if pool.amounts[o] == 0 {
                Err(SwapError::OutBalanceZero)
            } else if i == o {
                Err(SwapError::SameToken)
            } else if amount == 0 {
                Err(SwapError::AmountInZero)
            } else if pool.total_fee > FEE_DIVISOR || amount * (FEE_DIVISOR - pool.total_fee)
                * pool.amounts[o] >= u256_limit() || pool.amounts[i] + amount > u128::MAX {
                Err(SwapError::Arithmetic)
            } else {
                let received = product_out(
                    pool.amounts[i] as nat,
                    pool.amounts[o] as nat,
                    amount as nat,
                    pool.total_fee as nat,
                );
                Ok(
                    (
                        SimplePoolView {
                            amounts: pool.amounts.update(i, (pool.amounts[i] + amount) as u128).update(
                                o,
                                (pool.amounts[o] - received) as u128,
                            ),
                            ..pool
                        },
                        received as u128,
                    ),
                )
            },
        },
    }
}

/// A swap never gives all of a balance that the invariant needs: the product
/// of the balances does not fall.
pub proof fn product_does_not_fall(balance_in: nat, balance_out: nat, amount: nat, fee: nat)
    requires
        fee <= FEE_DIVISOR,
        balance_in > 0,
    ensures
        product_out(balance_in, balance_out, amount, fee) <= balance_out,
        (balance_in + amount) * (balance_out - product_out(balance_in, balance_out, amount, fee))
            >= balance_in * balance_out,
{
    let d = FEE_DIVISOR as int;
    let wf = amount * (d - fee);
    let den = d * balance_in + wf;
    let out = balance_out as int;
    assert(wf >= 0 && wf <= amount * d) by (nonlinear_arith)
        requires
            wf == amount * (d - fee),
            0 <= fee <= d,
            amount >= 0,
    ;
    assert(wf * out >= 0) by (nonlinear_arith)
        requires
            wf >= 0,
            out >= 0,
    ;
    let r = (wf * out) / den;
    assert(r * den <= wf * out) by {
        vstd::arithmetic::div_mod::lemma_fundamental_div_mod(wf * out, den);
        assert(den * r == r * den) by (nonlinear_arith);
        vstd::arithmetic::div_mod::lemma_mod_bound(wf * out, den);
    }
    assert(r >= 0) by {
        vstd::arithmetic::div_mod::lemma_div_pos_is_pos(wf * out, den);
    }
    assert(r <= out) by (nonlinear_arith)
        requires
            r * den <= wf * out,
            den == d * balance_in + wf,
            d == 10000,
            balance_in > 0,
            wf >= 0,
            out >= 0,
            r >= 0,
    {
        if r > out {
            assert(r * den >= (out + 1) * den);
            assert((out + 1) * den >= out * den + den);
            assert(out * den >= out * wf);
        }
    }
    assert(r * (d * balance_in) <= wf * (out - r)) by (nonlinear_arith)
        requires
            r * den <= wf * out,
            den == d * balance_in + wf,
    ;
    assert(wf * (out - r) <= (amount * d) * (out - r)) by (nonlinear_arith)
        requires
            wf <= amount * d,
            out - r >= 0,
    ;
    assert(r * balance_in <= amount * (out - r)) by (nonlinear_arith)
        requires
            r * (d * balance_in) <= (amount * d) * (out - r),
            d == 10000,
    ;
    assert((balance_in + amount) * (out - r) >= balance_in * out) by (nonlinear_arith)
        requires
            r * balance_in <= amount * (out - r),
    ;
    assert(product_out(balance_in, balance_out, amount, fee) == r);
}

/// A swap in a constant-product pool does not lower the product of the two
/// balances, takes the amount, gives what it says, and leaves everything else
/// as it was.
pub proof fn simple_swap_keeps_the_product(
    pool: SimplePoolView,
    token_in: Seq<char>,
    token_out: Seq<char>,
    amount: u128,
)
    ensures
        simple_swap(pool, token_in, token_out, amount) matches Ok((after, given)) ==> {
            let i = position(pool.tokens, token_in)->0;
            let o = position(pool.tokens, token_out)->0;
            &&& after.amounts[i] * after.amounts[o] >= pool.amounts[i] * pool.amounts[o]
            &&& after.amounts[i] == pool.amounts[i] + amount
            &&& after.amounts[o] + given == pool.amounts[o]
            &&& after == (SimplePoolView { amounts: after.amounts, ..pool })
            &&& after.amounts.len() == pool.amounts.len()
            &&& forall|j: int|
                0 <= j < pool.amounts.len() && j != i && j != o ==> #[trigger] after.amounts[j] == pool.amounts[j]
        },
{
    match simple_swap(pool, token_in, token_out, amount) {
        Ok(_) => {
            let i = position(pool.tokens, token_in)->0;
            let o = position(pool.tokens, token_out)->0;
            lemma_found(pool.tokens, token_in, pool.tokens.len() as int);
            lemma_found(pool.tokens, token_out, pool.tokens.len() as int);
            product_does_not_fall(
                pool.amounts[i] as nat,
                pool.amounts[o] as nat,
                amount as nat,
                pool.total_fee as nat,
            );
        },
        Err(_) => {},
    }
}

impl SimplePoolInfo {
    /// Swaps `amount_in` of `token_in` for `token_out`. A swap that fails
    /// leaves the pool as it was.
    pub fn emulate_swap(&mut self, token_in: &AccountId, token_out: &AccountId, amount_in: u128) -> (r: Result<
        u128,
        SwapError,
    >)
        ensures
            match r {
                Ok(out) => simple_swap(old(self)@, token_in@, token_out@, amount_in) == Ok::<
                    (SimplePoolView, u128),
                    SwapError,
                >((final(self)@, out)),
                Err(e) => simple_swap(old(self)@, token_in@, token_out@, amount_in) == Err::<
                    (SimplePoolView, u128),
                    SwapError,
                >(e) && final(self)@ == old(self)@,
            },
    {
        let i: usize = match position_of(&self.token_account_ids, token_in) {
            Some(i) => i,
            None => {
                return Err(SwapError::TokenInNotFound);
            },
        };
        let o: usize = match position_of(&self.token_account_ids, token_out) {
            Some(o) => o,
            None => {
                return Err(SwapError::TokenOutNotFound);
            },
        };
        if i >= self.amounts.len() || o >= self.amounts.len() {
            return Err(SwapError::Arithmetic);
        }
        let balance_in: u128 = self.amounts[i];
        let balance_out: u128 = self.amounts[o];
        if balance_in == 0 {
            return Err(SwapError::InBalanceZero);
        }
        if balance_out == 0 {
            return Err(SwapError::OutBalanceZero);
        }
        if i == o {
            return Err(SwapError::SameToken);
        }
        if amount_in == 0 {
            return Err(SwapError::AmountInZero);
        }
        if self.total_fee > FEE_DIVISOR {
            return Err(SwapError::Arithmetic);
        }
        let kept: u128 = (FEE_DIVISOR - self.total_fee) as u128;
        proof {
            lemma_product_fits(amount_in as nat, kept as nat);
            lemma_product_fits(FEE_DIVISOR as nat, balance_in as nat);
            product_does_not_fall(
                balance_in as nat,
                balance_out as nat,
                amount_in as nat,
                self.total_fee as nat,
            );
            assert(amount_in * kept <= 0xffff_ffff_ffff_ffff_ffff_ffff_ffff_ffff * 10_000) by (nonlinear_arith)
                requires
                    amount_in <= 0xffff_ffff_ffff_ffff_ffff_ffff_ffff_ffff,
                    0 <= kept <= 10_000,
            ;
            assert(FEE_DIVISOR * balance_in <= 0xffff_ffff_ffff_ffff_ffff_ffff_ffff_ffff * 10_000);
        }
        let with_fee: U384 = match U384::from_u128(amount_in).checked_mul(
            U384::from_u128(kept),
            Width::Bits256,
        ) {
            Some(v) => v,
            None => {
                return Err(SwapError::Arithmetic);
            },
        };
        let numerator: U384 = match with_fee.checked_mul(U384::from_u128(balance_out), Width::Bits256) {
            Some(v) => v,
            None => {
                return Err(SwapError::Arithmetic);
            },
        };
        let scaled: U384 = match U384::from_u128(FEE_DIVISOR as u128).checked_mul(
            U384::from_u128(balance_in),
            Width::Bits256,
        ) {
            Some(v) => v,
            None => {
                return Err(SwapError::Arithmetic);
            },
        };
        let denominator: U384 = match scaled.checked_add(with_fee, Width::Bits256) {
            Some(v) => v,
            None => {
                return Err(SwapError::Arithmetic);
            },
        };
        let received: u128 = match numerator.checked_div(denominator) {
            Some(v) => match v.to_u128() {
                Some(v) => v,
                None => {
                    return Err(SwapError::Arithmetic);
                },
            },
            None => {
                return Err(SwapError::Arithmetic);
            },
        };
        let new_in: u128 = match balance_in.checked_add(amount_in) {
            Some(v) => v,
            None => {
                return Err(SwapError::Arithmetic);
            },
        };
        self.amounts.set(i, new_in);
        self.amounts.set(o, balance_out - received);
        Ok(received)
    }

    /// Another value for the same pool.
    pub fn duplicate(&self) -> (r: Self)
        ensures
            r@ == self@,
    {
        SimplePoolInfo {
            token_account_ids: duplicate_all(&self.token_account_ids),
            amounts: copy_all(&self.amounts),
            total_fee: self.total_fee,
            shares_total_supply: self.shares_total_supply,
        }
    }
}

/// The amount times a power of ten, where it fits in 128 bits.
pub open spec fn scaled_up(amount: nat, decimals: nat) -> Option<nat> {
    match opt_u128(pow(10, decimals)) {
        Some(factor) => opt_u128((amount * factor) as int),
        None => None,
    }
}

/// The amount over a power of ten, rounded down, where that fits in 128 bits.
pub open spec fn scaled_down(amount: nat, decimals: nat) -> Option<nat> {
    match opt_u128(pow(10, decimals)) {
        Some(factor) => Some(amount / factor),
        None => None,
    }
}

fn scale_up(amount: u128, decimals: u8) -> (r: Option<u128>)
    ensures
        opt_nat(r) == scaled_up(amount as nat, decimals as nat),
{
    match checked_pow(10, decimals as u32) {
        Some(factor) => amount.checked_mul(factor),
        None => None,
    }
}

fn scale_down(amount: u128, decimals: u8) -> (r: Option<u128>)
    ensures
        opt_nat(r) == scaled_down(amount as nat, decimals as nat),
{
    proof {
        vstd::arithmetic::power::lemma_pow_positive(10, decimals as nat);
    }
    match checked_pow(10, decimals as u32) {
        Some(factor) => Some(amount / factor),
        None => None,
    }
}

/// An amount of a coin of a stable pool in comparable decimals.
pub open spec fn stable_comparable(amount: nat, decimals: u8) -> Option<nat> {
    if decimals <= stable::TARGET_DECIMAL {
        scaled_up(amount, (stable::TARGET_DECIMAL - decimals) as nat)
    } else {
        scaled_down(amount, (decimals - stable::TARGET_DECIMAL) as nat)
    }
}

/// A comparable amount of a stable pool in the decimals of the coin.
pub open spec fn stable_native(amount: nat, decimals: u8) -> Option<nat> {
    if decimals <= stable::TARGET_DECIMAL {
        scaled_down(amount, (stable::TARGET_DECIMAL - decimals) as nat)
    } else {
        scaled_up(amount, (decimals - stable::TARGET_DECIMAL) as nat)
    }
}

/// An amount of a coin of a rated pool in comparable decimals.
pub open spec fn rated_comparable(amount: nat, decimals: u8) -> Option<nat> {
    if decimals <= rated::TARGET_DECIMAL {
        scaled_up(amount, (rated::TARGET_DECIMAL - decimals) as nat)
    } else {
        None
    }
}

/// A comparable amount of a rated pool in the decimals of the coin.
pub open spec fn rated_native(amount: nat, decimals: u8) -> Option<nat> {
    if decimals <= rated::TARGET_DECIMAL {
        scaled_down(amount, (rated::TARGET_DECIMAL - decimals) as nat)
    } else {
        None
    }
}

/// The pool with new amounts of the two coins of a swap.
pub open spec fn with_amounts(
    pool: CurvePoolView,
    i: int,
    source: u128,
    o: int,
    destination: u128,
) -> CurvePoolView {
    CurvePoolView { c_amounts: pool.c_amounts.update(i, source).update(o, destination), ..pool }
}

/// What a swap does to a stable pool, and what it gives. A swap that leaves
/// too little has changed the amounts.
pub open spec fn stable_pool_swap(
    pool: CurvePoolView,
    token_in: Seq<char>,
    token_out: Seq<char>,
    amount: u128,
) -> (CurvePoolView, Result<u128, SwapError>) {
    match (position(pool.tokens, token_in), position(pool.tokens, token_out)) {
        (None, _) => (pool, Err(SwapError::TokenInNotFound)),
        (_, None) => (pool, Err(SwapError::TokenOutNotFound)),
        (Some(i), Some(o)) => if i >= pool.decimals.len() || o >= pool.decimals.len() || i
            >= pool.c_amounts.len() || o >= pool.c_amounts.len() {
            (pool, Err(SwapError::Arithmetic))
        } else {
            match stable_comparable(amount as nat, pool.decimals[i]) {
                None => (pool, Err(SwapError::Arithmetic)),
                Some(comparable) => match stable_swap(
                    pool.amp as nat,
                    pool.c_amounts,
                    i,
                    comparable,
                    o,
                    pool.total_fee as nat,
                ) {
                    None => (pool, Err(SwapError::CannotSwap)),
                    Some(result) => match stable_native(result.amount_swapped as nat, pool.decimals[o]) {
                        None => (pool, Err(SwapError::Arithmetic)),
                        Some(given) => {
                            let after = with_amounts(
                                pool,
                                i,
                                result.new_source_amount,
                                o,
                                result.new_destination_amount,
                            );
                            (
                                after,
                                if result.new_destination_amount < stable::MIN_RESERVE {
                                    Err(SwapError::MinReserveNotMet)
                                } else {
                                    Ok(given as u128)
                                },
                            )
                        },
                    },
                },
            }
        },
    }
}

/// What a swap does to a rated pool, and what it gives. A swap that leaves
/// too little has changed the amounts.
pub open spec fn rated_pool_swap(
    pool: CurvePoolView,
    token_in: Seq<char>,
    token_out: Seq<char>,
    amount: u128,
) -> (CurvePoolView, Result<u128, SwapError>) {
    match (position(pool.tokens, token_in), position(pool.tokens, token_out)) {
        (None, _) => (pool, Err(SwapError::TokenInNotFound)),
        (_, None) => (pool, Err(SwapError::TokenOutNotFound)),
        (Some(i), Some(o)) => {
            let coins = rated_len(pool.c_amounts, pool.rates);
            if i >= pool.decimals.len() || o >= pool.decimals.len() || i >= coins || o >= coins {
                (pool, Err(SwapError::Arithmetic))
            } else {
                match rated_comparable(amount as nat, pool.decimals[i]) {
                    None => (pool, Err(SwapError::Arithmetic)),
                    Some(comparable) => match rated_swap(
                        pool.amp as nat,
                        pool.rates,
                        pool.c_amounts,
                        i,
                        comparable,
                        o,
                        pool.total_fee as nat,
                    ) {
                        Err(e) => (pool, Err(SwapError::Rated(e))),
                        Ok(result) => match rated_native(result.amount_swapped as nat, pool.decimals[o]) {
                            None => (pool, Err(SwapError::Arithmetic)),
                            Some(given) => {
                                let after = with_amounts(
                                    pool,
                                    i,
                                    result.new_source_amount,
                                    o,
                                    result.new_destination_amount,
                                );
                                (
                                    after,
                                    if result.new_destination_amount < rated::MIN_RESERVE {
                                        Err(SwapError::MinReserveNotMet)
                                    } else {
                                        Ok(given as u128)
                                    },
                                )
                            },
                        },
                    },
                }
            }
        },
    }
}

/// A swap in a stable pool that comes about leaves the least reserve of the
/// coin that it gives, does not lower the amount of the coin that it takes,
/// and leaves everything else as it was.
pub proof fn stable_swap_keeps_the_reserve(
    pool: CurvePoolView,
    token_in: Seq<char>,
    token_out: Seq<char>,
    amount: u128,
)
    ensures
        stable_pool_swap(pool, token_in, token_out, amount) matches (after, Ok(_)) ==> {
            let i = position(pool.tokens, token_in)->0;
            let o = position(pool.tokens, token_out)->0;
            &&& after.c_amounts[o] >= stable::MIN_RESERVE
            &&& after.c_amounts[o] <= pool.c_amounts[o]
            &&& i != o ==> after.c_amounts[i] >= pool.c_amounts[i]
            &&& after == (CurvePoolView { c_amounts: after.c_amounts, ..pool })
            &&& after.c_amounts.len() == pool.c_amounts.len()
            &&& forall|j: int|
                0 <= j < pool.c_amounts.len() && j != i && j != o ==> #[trigger] after.c_amounts[j]
                    == pool.c_amounts[j]
        },
{
    lemma_found(pool.tokens, token_in, pool.tokens.len() as int);
    lemma_found(pool.tokens, token_out, pool.tokens.len() as int);
}

/// A swap in a rated pool that comes about leaves the least reserve of the
/// coin that it gives, and every coin but the two of the swap as it was.
pub proof fn rated_swap_keeps_the_reserve(
    pool: CurvePoolView,
    token_in: Seq<char>,
    token_out: Seq<char>,
    amount: u128,
)
    ensures
        rated_pool_swap(pool, token_in, token_out, amount) matches (after, Ok(_)) ==> {
            let i = position(pool.tokens, token_in)->0;
            let o = position(pool.tokens, token_out)->0;
            &&& after.c_amounts[o] >= rated::MIN_RESERVE
            &&& after == (CurvePoolView { c_amounts: after.c_amounts, ..pool })
            &&& after.c_amounts.len() == pool.c_amounts.len()
            &&& forall|j: int|
                0 <= j < pool.c_amounts.len() && j != i && j != o ==> #[trigger] after.c_amounts[j]
                    == pool.c_amounts[j]
        },
{
    lemma_found(pool.tokens, token_in, pool.tokens.len() as int);
    lemma_found(pool.tokens, token_out, pool.tokens.len() as int);
}

impl StablePoolInfo {
    /// Swaps `amount_in` of `token_in` for `token_out`.
    pub fn emulate_swap(&mut self, token_in: &AccountId, token_out: &AccountId, amount_in: u128) -> (r: Result<
        u128,
        SwapError,
    >)
        ensures
            (final(self)@, r) == stable_pool_swap(old(self)@, token_in@, token_out@, amount_in),
    {
        let i: usize = match position_of(&self.token_account_ids, token_in) {
            Some(i) => i,
            None => {
                return Err(SwapError::TokenInNotFound);
            },
        };
        let o: usize = match position_of(&self.token_account_ids, token_out) {
            Some(o) => o,
            None => {
                return Err(SwapError::TokenOutNotFound);
            },
        };
        if i >= self.decimals.len() || o >= self.decimals.len() || i >= self.c_amounts.len() || o
            >= self.c_amounts.len() {
            return Err(SwapError::Arithmetic);
        }
        let comparable: u128 = match self.amount_to_c_amount(amount_in, i) {
            Some(v) => v,
            None => {
                return Err(SwapError::Arithmetic);
            },
        };
        let result: stable::SwapResult = match StableSwap::new(self.amp).swap_to(
            i,
            comparable,
            o,
            self.c_amounts.as_slice(),
            &stable::Fees::new(self.total_fee),
        ) {
            Some(result) => result,
            None => {
                return Err(SwapError::CannotSwap);
            },
        };
        let given: u128 = match self.c_amount_to_amount(result.amount_swapped, o) {
            Some(v) => v,
            None => {
                return Err(SwapError::Arithmetic);
            },
        };
        self.c_amounts.set(i, result.new_source_amount);
        self.c_amounts.set(o, result.new_destination_amount);
        if result.new_destination_amount < stable::MIN_RESERVE {
            return Err(SwapError::MinReserveNotMet);
        }
        Ok(given)
    }

    /// A comparable amount in the decimals of the coin.
    fn c_amount_to_amount(&self, c_amount: u128, index: usize) -> (r: Option<u128>)
        requires
            index < self.decimals@.len(),
        ensures
            opt_nat(r) == stable_native(c_amount as nat, self.decimals@[index as int]),
    {
        let value: u8 = self.decimals[index];
        if value <= stable::TARGET_DECIMAL {
            scale_down(c_amount, stable::TARGET_DECIMAL - value)
        } else {
            scale_up(c_amount, value - stable::TARGET_DECIMAL)
        }
    }

    /// An amount of the coin in comparable decimals.
    fn amount_to_c_amount(&self, amount: u128, index: usize) -> (r: Option<u128>)
        requires
            index < self.decimals@.len(),
        ensures
            opt_nat(r) == stable_comparable(amount as nat, self.decimals@[index as int]),
    {
        let value: u8 = self.decimals[index];
        if value <= stable::TARGET_DECIMAL {
            scale_up(amount, stable::TARGET_DECIMAL - value)
        } else {
            scale_down(amount, value - stable::TARGET_DECIMAL)
        }
    }

    /// Another value for the same pool.
    pub fn duplicate(&self) -> (r: Self)
        ensures
            r@ == self@,
    {
        StablePoolInfo {
            token_account_ids: duplicate_all(&self.token_account_ids),
            decimals: copy_all(&self.decimals),
            amounts: copy_all(&self.amounts),
            c_amounts: copy_all(&self.c_amounts),
            total_fee: self.total_fee,
            shares_total_supply: self.shares_total_supply,
            amp: self.amp,
        }
    }
}

impl RatedPoolInfo {
    /// Swaps `amount_in` of `token_in` for `token_out`.
    pub fn emulate_swap(&mut self, token_in: &AccountId, token_out: &AccountId, amount_in: u128) -> (r: Result<
        u128,
        SwapError,
    >)
        ensures
            (final(self)@, r) == rated_pool_swap(old(self)@, token_in@, token_out@, amount_in),
    {
        let i: usize = match position_of(&self.token_account_ids, token_in) {
            Some(i) => i,
            None => {
                return Err(SwapError::TokenInNotFound);
            },
        };
        let o: usize = match position_of(&self.token_account_ids, token_out) {
            Some(o) => o,
            None => {
                return Err(SwapError::TokenOutNotFound);
            },
        };
        if i >= self.decimals.len() || o >= self.decimals.len() || i >= self.c_amounts.len() || o
            >= self.c_amounts.len() || i >= self.rates.len() || o >= self.rates.len() {
            return Err(SwapError::Arithmetic);
        }
        let comparable: u128 = match self.amount_to_c_amount(amount_in, i) {
            Some(v) => v,
            None => {
                return Err(SwapError::Arithmetic);
            },
        };
        let result: rated::SwapResult = match RatedSwap::new(self.amp, &self.rates).swap_to(
            i,
            comparable,
            o,
            &self.c_amounts,
            &rated::Fees::new(self.total_fee),
        ) {
            Ok(result) => result,
            Err(e) => {
                return Err(SwapError::Rated(e));
            },
        };
        let given: u128 = match self.c_amount_to_amount(result.amount_swapped, o) {
            Some(v) => v,
            None => {
                return Err(SwapError::Arithmetic);
            },
        };
        self.c_amounts.set(i, result.new_source_amount);
        self.c_amounts.set(o, result.new_destination_amount);
        if result.new_destination_amount < rated::MIN_RESERVE {
            return Err(SwapError::MinReserveNotMet);
        }
        Ok(given)
    }

    /// An amount of the coin in comparable decimals.
    fn amount_to_c_amount(&self, amount: u128, index: usize) -> (r: Option<u128>)
        requires
            index < self.decimals@.len(),
        ensures
            opt_nat(r) == rated_comparable(amount as nat, self.decimals@[index as int]),
    {
        let value: u8 = self.decimals[index];
        if value <= rated::TARGET_DECIMAL {
            scale_up(amount, rated::TARGET_DECIMAL - value)
        } else {
            None
        }
    }

    /// A comparable amount in the decimals of the coin.
    fn c_amount_to_amount(&self, c_amount: u128, index: usize) -> (r: Option<u128>)
        requires
            index < self.decimals@.len(),
        ensures
            opt_nat(r) == rated_native(c_amount as nat, self.decimals@[index as int]),
    {
        let value: u8 = self.decimals[index];
        if value <= rated::TARGET_DECIMAL {
            scale_down(c_amount, rated::TARGET_DECIMAL - value)
        } else {
            None
        }
    }

    /// Another value for the same pool.
    pub fn duplicate(&self) -> (r: Self)
        ensures
            r@ == self@,
    {
        RatedPoolInfo {
            token_account_ids: duplicate_all(&self.token_account_ids),
            decimals: copy_all(&self.decimals),
            amounts: copy_all(&self.amounts),
            c_amounts: copy_all(&self.c_amounts),
            total_fee: self.total_fee,
            shares_total_supply: self.shares_total_supply,
            amp: self.amp,
            rates: copy_all(&self.rates),
        }
    }
}

impl DegenPoolInfo {
    /// Another value for the same pool.
    pub fn duplicate(&self) -> (r: Self)
        ensures
            r@ == self@,
    {
        DegenPoolInfo {
            token_account_ids: duplicate_all(&self.token_account_ids),
            decimals: copy_all(&self.decimals),
            amounts: copy_all(&self.amounts),
            c_amounts: copy_all(&self.c_amounts),
            total_fee: self.total_fee,
            shares_total_supply: self.shares_total_supply,
            amp: self.amp,
            degens: copy_all(&self.degens),
        }
    }
}

/// Why a swap in a degen pool fails: a token is not in it, or else its kind is
/// not emulated.
pub open spec fn degen_refusal(pool: CurvePoolView, token_in: Seq<char>, token_out: Seq<char>) -> SwapError {
    match (position(pool.tokens, token_in), position(pool.tokens, token_out)) {
        (None, _) => SwapError::TokenInNotFound,
        (_, None) => SwapError::TokenOutNotFound,
        _ => SwapError::Unsupported,
    }
}

impl DegenPoolInfo {
    /// Refuses a swap: the curve of these pools is not emulated.
    pub fn emulate_swap(&mut self, token_in: &AccountId, token_out: &AccountId, _amount_in: u128) -> (r: Result<
        u128,
        SwapError,
    >)
        ensures
            r == Err::<u128, SwapError>(degen_refusal(old(self)@, token_in@, token_out@)),
            final(self)@ == old(self)@,
    {
        if position_of(&self.token_account_ids, token_in).is_none() {
            Err(SwapError::TokenInNotFound)
        } else if position_of(&self.token_account_ids, token_out).is_none() {
            Err(SwapError::TokenOutNotFound)
        } else {
            Err(SwapError::Unsupported)
        }
    }
}

/// The kinds of pools.
#[derive(Clone, Debug, PartialEq)]
pub enum PoolDetailInfo {
    SimplePoolInfo(SimplePoolInfo),
    StablePoolInfo(StablePoolInfo),
    RatedPoolInfo(RatedPoolInfo),
    DegenPoolInfo(DegenPoolInfo),
}

/// What a pool of some kind is.
pub enum PoolDetailView {
    Simple(SimplePoolView),
    Stable(CurvePoolView),
    Rated(CurvePoolView),
    Degen(CurvePoolView),
}

impl View for PoolDetailInfo {
    type V = PoolDetailView;

    open spec fn view(&self) -> PoolDetailView {
        match self {
            PoolDetailInfo::SimplePoolInfo(info) => PoolDetailView::Simple(info@),
            PoolDetailInfo::StablePoolInfo(info) => PoolDetailView::Stable(info@),
            PoolDetailInfo::RatedPoolInfo(info) => PoolDetailView::Rated(info@),
            PoolDetailInfo::DegenPoolInfo(info) => PoolDetailView::Degen(info@),
        }
    }
}

/// What a swap does to a pool, and what it gives.
pub open spec fn detail_swap(
    pool: PoolDetailView,
    token_in: Seq<char>,
    token_out: Seq<char>,
    amount: u128,
) -> (PoolDetailView, Result<u128, SwapError>) {
    match pool {
        PoolDetailView::Simple(info) => match simple_swap(info, token_in, token_out, amount) {
            Ok((after, given)) => (PoolDetailView::Simple(after), Ok(given)),
            Err(e) => (pool, Err(e)),
        },
        PoolDetailView::Stable(info) => {
            let outcome = stable_pool_swap(info, token_in, token_out, amount);
            (PoolDetailView::Stable(outcome.0), outcome.1)
        },
        PoolDetailView::Rated(info) => {
            let outcome = rated_pool_swap(info, token_in, token_out, amount);
            (PoolDetailView::Rated(outcome.0), outcome.1)
        },
        PoolDetailView::Degen(info) => (pool, Err(degen_refusal(info, token_in, token_out))),
    }
}

impl PoolDetailInfo {
    /// Swaps `amount_in` of `token_in` for `token_out`.
    pub fn emulate_swap(&mut self, token_in: &AccountId, token_out: &AccountId, amount_in: u128) -> (r: Result<
        u128,
        SwapError,
    >)
        ensures
            (final(self)@, r) == detail_swap(old(self)@, token_in@, token_out@, amount_in),
    {
        match self {
            PoolDetailInfo::SimplePoolInfo(info) => info.emulate_swap(token_in, token_out, amount_in),
            PoolDetailInfo::StablePoolInfo(info) => info.emulate_swap(token_in, token_out, amount_in),
            PoolDetailInfo::RatedPoolInfo(info) => info.emulate_swap(token_in, token_out, amount_in),
            PoolDetailInfo::DegenPoolInfo(info) => info.emulate_swap(token_in, token_out, amount_in),
        }
    }

    /// Another value for the same pool.
    pub fn duplicate(&self) -> (r: Self)
        ensures
            r@ == self@,
    {
        match self {
            PoolDetailInfo::SimplePoolInfo(info) => PoolDetailInfo::SimplePoolInfo(info.duplicate()),
            PoolDetailInfo::StablePoolInfo(info) => PoolDetailInfo::StablePoolInfo(info.duplicate()),
            PoolDetailInfo::RatedPoolInfo(info) => PoolDetailInfo::RatedPoolInfo(info.duplicate()),
            PoolDetailInfo::DegenPoolInfo(info) => PoolDetailInfo::DegenPoolInfo(info.duplicate()),
        }
    }
}

/// The kind that a pool's listing names.
#[derive(Clone, Copy, Debug, PartialEq, Eq, Structural)]
pub enum PoolKind {
    SimplePool,
    StableSwap,
    RatedSwap,
    DegenSwap,
}

/// The listing of a pool.
#[derive(Clone, Debug, PartialEq)]
pub struct PoolInfo {
    pub amounts: Vec<u128>,
    pub amp: u64,
    pub pool_kind: PoolKind,
    pub shares_total_supply: String,
    pub token_account_ids: Vec<AccountId>,
    pub total_fee: u64,
}

/// What the listing of a pool is.
#[verifier::ext_equal]
pub struct PoolInfoView {
    pub amounts: Seq<u128>,
    pub amp: u64,
    pub pool_kind: PoolKind,
    pub shares_total_supply: Seq<char>,
    pub tokens: Seq<Seq<char>>,
    pub total_fee: u64,
}

impl View for PoolInfo {
    type V = PoolInfoView;

    open spec fn view(&self) -> PoolInfoView {
        PoolInfoView {
            amounts: self.amounts@,
            amp: self.amp,
            pool_kind: self.pool_kind,
            shares_total_supply: self.shares_total_supply@,
            tokens: views(self.token_account_ids@),
            total_fee: self.total_fee,
        }
    }
}

impl PoolInfo {
    /// Another value for the same listing.
    pub fn duplicate(&self) -> (r: Self)
        ensures
            r@ == self@,
    {
        PoolInfo {
            amounts: copy_all(&self.amounts),
            amp: self.amp,
            pool_kind: self.pool_kind,
            shares_total_supply: self.shares_total_supply.clone(),
            token_account_ids: duplicate_all(&self.token_account_ids),
            total_fee: self.total_fee,
        }
    }
}

/// A pool with its number and its listing.
#[derive(Clone, Debug, PartialEq)]
pub struct Pool {
    pub id: u64,
    pub info: PoolInfo,
    pub detail: PoolDetailInfo,
}

/// What a pool is.
pub struct PoolView {
    pub id: u64,
    pub info: PoolInfoView,
    pub detail: PoolDetailView,
}

impl View for Pool {
    type V = PoolView;

    open spec fn view(&self) -> PoolView {
        PoolView { id: self.id, info: self.info@, detail: self.detail@ }
    }
}

/// The listing after a swap: the amount sold is added, the amount given is
/// taken away.
pub open spec fn listed_swap(
    info: PoolInfoView,
    token_in: Seq<char>,
    token_out: Seq<char>,
    amount: u128,
    given: u128,
) -> Option<PoolInfoView> {
    match (position(info.tokens, token_in), position(info.tokens, token_out)) {
        (Some(i), Some(o)) => if i >= info.amounts.len() || o >= info.amounts.len() || info.amounts[i]
            + amount > u128::MAX {
            None
        } else {
            let added = info.amounts.update(i, (info.amounts[i] + amount) as u128);
            if added[o] < given {
                None
            } else {
                Some(PoolInfoView { amounts: added.update(o, (added[o] - given) as u128), ..info })
            }
        },
        _ => None,
    }
}

/// The pool after a swap, and what it gave.
pub open spec fn pool_swap(
    pool: PoolView,
    token_in: Seq<char>,
    token_out: Seq<char>,
    amount: u128,
) -> Option<(PoolView, u128)> {
    let outcome = detail_swap(pool.detail, token_in, token_out, amount);
    match outcome.1 {
        Ok(given) => match listed_swap(pool.info, token_in, token_out, amount, given) {
            Some(info) => Some((PoolView { id: pool.id, info, detail: outcome.0 }, given)),
            None => None,
        },
        Err(_) => None,
    }
}

impl SwapPool for Pool {
    type Token = AccountId;

    open spec fn number(pool: PoolView) -> u64 {
        pool.id
    }

    open spec fn tokens_of(pool: PoolView) -> Seq<Seq<char>> {
        pool.info.tokens
    }

    open spec fn sale(
        pool: PoolView,
        token_in: Seq<char>,
        token_out: Seq<char>,
        amount: u128,
    ) -> Option<(PoolView, u128)> {
        pool_swap(pool, token_in, token_out, amount)
    }

    /// The listing does not count.
    open spec fn quoted(
        pool: PoolView,
        token_in: Seq<char>,
        token_out: Seq<char>,
        amount: u128,
    ) -> Option<u128> {
        match detail_swap(pool.detail, token_in, token_out, amount).1 {
            Ok(given) => Some(given),
            Err(_) => None,
        }
    }

    /// Exact outputs are not quoted.
    open spec fn purchase(
        pool: PoolView,
        token_in: Seq<char>,
        token_out: Seq<char>,
        amount: u128,
    ) -> Option<(PoolView, u128)> {
        None
    }

    fn id(&self) -> (r: u64) {
        self.id
    }

    fn tokens(&self) -> (r: Vec<AccountId>) {
        duplicate_all(&self.info.token_account_ids)
    }

    fn sold(&self, token_in: &AccountId, token_out: &AccountId, amount: u128) -> (r: Option<(Pool, u128)>) {
        let mut detail: PoolDetailInfo = self.detail.duplicate();
        let given: u128 = match detail.emulate_swap(token_in, token_out, amount) {
            Ok(given) => given,
            Err(_) => {
                return None;
            },
        };
        let mut info: PoolInfo = self.info.duplicate();
        match (
            position_of(&info.token_account_ids, token_in),
            position_of(&info.token_account_ids, token_out),
        ) {
            (Some(i), Some(o)) => {
                if i >= info.amounts.len() || o >= info.amounts.len() {
                    return None;
                }
                match info.amounts[i].checked_add(amount) {
                    Some(more) => {
                        info.amounts.set(i, more);
                    },
                    None => {
                        return None;
                    },
                }
                match info.amounts[o].checked_sub(given) {
                    Some(less) => {
                        info.amounts.set(o, less);
                    },
                    None => {
                        return None;
                    },
                }
            },
            _ => {
                return None;
            },
        }
        let pool: Pool = Pool { id: self.id, info, detail };
        assert(pool@.info =~= listed_swap(self@.info, token_in@, token_out@, amount, given)->0);
        Some((pool, given))
    }

    fn quote(&self, token_in: &AccountId, token_out: &AccountId, amount: u128) -> (r: Option<u128>) {
        let mut detail: PoolDetailInfo = self.detail.duplicate();
        match detail.emulate_swap(token_in, token_out, amount) {
            Ok(given) => Some(given),
            Err(_) => None,
        }
    }

    fn bought(&self, token_in: &AccountId, token_out: &AccountId, amount: u128) -> (r: Option<(Pool, u128)>) {
        None
    }
}

} // verus!
