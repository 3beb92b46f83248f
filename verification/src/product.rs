//! Constant-product swaps with fees that are taken out of the input.

use vstd::prelude::*;

use crate::wide::{mul_div, u128_limit, Width, U384};

verus! {

/// A part of an amount, in parts of `MAX_FEE_FRACTION`.
pub type FeeFraction = u32;

/// The whole, in the parts that fees are given in.
pub const MAX_FEE_FRACTION: FeeFraction = 1_000_000;

/// A fee on an amount, rounded down.
pub open spec fn fee_on(amount: nat, fraction: nat) -> nat {
    amount * fraction / (MAX_FEE_FRACTION as nat)
}

/// The first `k` fees on an amount, each rounded down, added up.
pub open spec fn fee_sum(amount: nat, fractions: Seq<FeeFraction>, k: int) -> nat
    decreases k,
{
    if k <= 0 {
        0
    } else {
        fee_sum(amount, fractions, k - 1) + fee_on(amount, fractions[k - 1] as nat)
    }
}

/// The first `k` fractions, added up.
pub open spec fn fraction_sum(fractions: Seq<FeeFraction>, k: int) -> nat
    decreases k,
{
    if k <= 0 {
        0
    } else {
        fraction_sum(fractions, k - 1) + fractions[k - 1] as nat
    }
}

/// What the fees leave of an amount; none where they exceed it.
pub open spec fn after_fees(amount: nat, fractions: Seq<FeeFraction>) -> Option<nat> {
    let fees = fee_sum(amount, fractions, fractions.len() as int);
    if fees <= amount {
        Some((amount - fees) as nat)
    } else {
        None
    }
}

/// What an amount brings out of two balances, rounded down.
pub open spec fn output_for(balance_in: nat, balance_out: nat, amount: nat) -> nat {
    amount * balance_out / (balance_in + amount)
}

/// What a sale comes to: what is left of the amount after fees, and what it
/// brings; none where there is nothing to divide by, the fees exceed the
/// amount, or the balance does not fit in 128 bits.
pub open spec fn sale_amounts(
    balance_in: nat,
    balance_out: nat,
    fractions: Seq<FeeFraction>,
    amount: nat,
) -> Option<(nat, nat)> {
    match after_fees(amount, fractions) {
        Some(kept) => if balance_in + kept == 0 || balance_in + kept >= u128_limit() {
            None
        } else {
            Some((kept, output_for(balance_in, balance_out, kept)))
        },
        None => None,
    }
}

/// What has to be added to a balance to bring an amount out, before fees: the
/// quotient rounded down, and one.
pub open spec fn input_before_fees(balance_in: nat, balance_out: nat, amount: nat) -> nat {
    balance_in * amount / (balance_out - amount) as nat + 1
}

/// What has to be given so that the fees leave `needed`: rounded up.
pub open spec fn input_with_fees(needed: nat, fractions: Seq<FeeFraction>) -> nat {
    let left = (MAX_FEE_FRACTION - fraction_sum(fractions, fractions.len() as int)) as nat;
    (needed * MAX_FEE_FRACTION as nat + (left - 1) as nat) / left
}

/// What a purchase comes to: what it takes, and what is left of that after
/// fees; none where the pool does not hold more than the amount, the fees are
/// the whole, or a number does not fit in 128 bits.
pub open spec fn purchase_amounts(
    balance_in: nat,
    balance_out: nat,
    fractions: Seq<FeeFraction>,
    amount: nat,
) -> Option<(nat, nat)> {
    if amount == 0 || amount >= balance_out || fraction_sum(fractions, fractions.len() as int)
        >= MAX_FEE_FRACTION {
        None
    } else {
        let needed = input_before_fees(balance_in, balance_out, amount);
        let taken = input_with_fees(needed, fractions);
        if needed >= u128_limit() || taken >= u128_limit() {
            None
        } else {
            match after_fees(taken, fractions) {
                Some(kept) => if balance_in + kept >= u128_limit() {
                    None
                } else {
                    Some((taken, kept))
                },
                None => None,
            }
        }
    }
}

/// The fee sum only grows.
proof fn lemma_fee_sum_grows(amount: nat, fractions: Seq<FeeFraction>, i: int, j: int)
    requires
        0 <= i <= j,
    ensures
        fee_sum(amount, fractions, i) <= fee_sum(amount, fractions, j),
    decreases j,
{
    if i < j {
        lemma_fee_sum_grows(amount, fractions, i, j - 1);
    }
}

/// What an amount brings is no more than the balance.
pub proof fn lemma_output_bound(balance_in: nat, balance_out: nat, amount: nat)
    requires
        balance_in + amount > 0,
    ensures
        output_for(balance_in, balance_out, amount) <= balance_out,
        output_for(balance_in, balance_out, amount) * (balance_in + amount) <= amount * balance_out,
{
    let out = output_for(balance_in, balance_out, amount);
    let den = balance_in + amount;
    let num = amount * balance_out;
    vstd::arithmetic::div_mod::lemma_fundamental_div_mod(num as int, den as int);
    assert(den * out == out * den) by (nonlinear_arith);
    assert(out <= balance_out) by (nonlinear_arith)
        requires
            out * den <= amount * balance_out,
            den == balance_in + amount,
            den > 0,
            balance_in >= 0,
            amount >= 0,
            balance_out >= 0,
    {
        if out > balance_out {
            assert(out * den >= (balance_out + 1) * den);
            assert((balance_out + 1) * den == balance_out * den + den);
            assert(balance_out * den >= balance_out * amount);
        }
    }
}

/// What the fees leave of an amount.
pub fn collect_fees(amount: u128, fractions: &Vec<FeeFraction>) -> (r: Option<u128>)
    ensures
        match r {
            Some(kept) => after_fees(amount as nat, fractions@) == Some(kept as nat),
            None => after_fees(amount as nat, fractions@) is None,
        },
{
    let mut total: u128 = 0;
    let mut i: usize = 0;
    while i < fractions.len()
        invariant
            i <= fractions@.len(),
            total == fee_sum(amount as nat, fractions@, i as int),
            total <= amount,
        decreases fractions@.len() - i,
    {
        proof {
            lemma_fee_sum_grows(amount as nat, fractions@, i + 1, fractions@.len() as int);
        }
        let fee: u128 = match mul_div(amount, fractions[i] as u128, MAX_FEE_FRACTION as u128) {
            Some(fee) => fee,
            None => {
                return None;
            },
        };
        match total.checked_add(fee) {
            Some(t) => {
                if t > amount {
                    return None;
                }
                total = t;
            },
            None => {
                return None;
            },
        }
        i = i + 1;
    }
    Some(amount - total)
}

/// The fractions, added up, where they are less than the whole.
pub fn total_fee_fraction(fractions: &Vec<FeeFraction>) -> (r: Option<u32>)
    ensures
        match r {
            Some(sum) => sum < MAX_FEE_FRACTION && sum == fraction_sum(fractions@, fractions@.len() as int),
            None => fraction_sum(fractions@, fractions@.len() as int) >= MAX_FEE_FRACTION,
        },
{
    let mut total: u32 = 0;
    let mut i: usize = 0;
    while i < fractions.len()
        invariant
            i <= fractions@.len(),
            total == fraction_sum(fractions@, i as int),
            total < MAX_FEE_FRACTION,
        decreases fractions@.len() - i,
    {
        proof {
            lemma_fraction_sum_grows(fractions@, i + 1, fractions@.len() as int);
        }
        if fractions[i] >= MAX_FEE_FRACTION || total + fractions[i] >= MAX_FEE_FRACTION {
            return None;
        }
        total = total + fractions[i];
        i = i + 1;
    }
    Some(total)
}

/// The sum of fractions only grows.
proof fn lemma_fraction_sum_grows(fractions: Seq<FeeFraction>, i: int, j: int)
    requires
        0 <= i <= j,
    ensures
        fraction_sum(fractions, i) <= fraction_sum(fractions, j),
    decreases j,
{
    if i < j {
        lemma_fraction_sum_grows(fractions, i, j - 1);
    }
}

/// What a sale comes to: what is left of the amount after fees, and what it
/// brings.
pub fn sell(
    balance_in: u128,
    balance_out: u128,
    fractions: &Vec<FeeFraction>,
    amount: u128,
) -> (r: Option<(u128, u128)>)
    ensures
        match r {
            Some((kept, out)) => sale_amounts(
                balance_in as nat,
                balance_out as nat,
                fractions@,
                amount as nat,
            ) == Some((kept as nat, out as nat)) && out <= balance_out && balance_in + kept <= u128::MAX,
            None => sale_amounts(balance_in as nat, balance_out as nat, fractions@, amount as nat) is None,
        },
{
    let kept: u128 = match collect_fees(amount, fractions) {
        Some(kept) => kept,
        None => {
            return None;
        },
    };
    let sum: u128 = match balance_in.checked_add(kept) {
        Some(sum) => sum,
        None => {
            return None;
        },
    };
    if sum == 0 {
        return None;
    }
    proof {
        lemma_output_bound(balance_in as nat, balance_out as nat, kept as nat);
    }
    match mul_div(kept, balance_out, sum) {
        Some(out) => Some((kept, out)),
        None => None,
    }
}

/// `a * b + c`, divided by `d` and rounded down, for a result of 128 bits.
fn mul_add_div(a: u128, b: u32, c: u32, d: u32) -> (r: Option<u128>)
    requires
        d > 0,
    ensures
        match r {
            Some(n) => n == (a * b + c) / (d as int),
            None => (a * b + c) / (d as int) >= u128_limit(),
        },
{
    proof {
        assert(a * b <= 0xffff_ffff_ffff_ffff_ffff_ffff_ffff_ffff * 0xffff_ffff) by (nonlinear_arith)
            requires
                0 <= a <= 0xffff_ffff_ffff_ffff_ffff_ffff_ffff_ffff,
                0 <= b <= 0xffff_ffff,
        ;
    }
    match U384::from_u128(a).checked_mul(U384::from_u128(b as u128), Width::Bits256) {
        Some(product) => match product.checked_add(U384::from_u128(c as u128), Width::Bits256) {
            Some(sum) => match sum.checked_div(U384::from_u128(d as u128)) {
                Some(quotient) => quotient.to_u128(),
                None => None,
            },
            None => None,
        },
        None => None,
    }
}

/// What a purchase comes to: what it takes, and what is left of that after
/// fees.
pub fn buy(
    balance_in: u128,
    balance_out: u128,
    fractions: &Vec<FeeFraction>,
    amount: u128,
) -> (r: Option<(u128, u128)>)
    ensures
        match r {
            Some((taken, kept)) => purchase_amounts(
                balance_in as nat,
                balance_out as nat,
                fractions@,
                amount as nat,
            ) == Some((taken as nat, kept as nat)) && balance_in + kept <= u128::MAX && amount < balance_out,
            None => purchase_amounts(balance_in as nat, balance_out as nat, fractions@, amount as nat) is None,
        },
{
    if amount == 0 || amount >= balance_out {
        return None;
    }
    let fraction: u32 = match total_fee_fraction(fractions) {
        Some(fraction) => fraction,
        None => {
            return None;
        },
    };
    let needed: u128 = match mul_div(balance_in, amount, balance_out - amount) {
        Some(quotient) => match quotient.checked_add(1) {
            Some(needed) => needed,
            None => {
                return None;
            },
        },
        None => {
            return None;
        },
    };
    let left: u32 = MAX_FEE_FRACTION - fraction;
    let taken: u128 = match mul_add_div(needed, MAX_FEE_FRACTION, left - 1, left) {
        Some(taken) => taken,
        None => {
            return None;
        },
    };
    let kept: u128 = match collect_fees(taken, fractions) {
        Some(kept) => kept,
        None => {
            return None;
        },
    };
    match balance_in.checked_add(kept) {
        Some(_) => Some((taken, kept)),
        None => None,
    }
}

/// Fees that are rounded down one by one are no more than the fee on their
/// sum.
proof fn lemma_fee_sum_bound(amount: nat, fractions: Seq<FeeFraction>, k: int)
    requires
        k <= fractions.len(),
    ensures
        fee_sum(amount, fractions, k) * MAX_FEE_FRACTION <= amount * fraction_sum(fractions, k),
    decreases k,
{
    if k > 0 {
        lemma_fee_sum_bound(amount, fractions, k - 1);
        let before = fee_sum(amount, fractions, k - 1);
        let sum = fraction_sum(fractions, k - 1);
        let f = fractions[k - 1] as nat;
        let fee = fee_on(amount, f);
        assert(amount * f >= 0) by (nonlinear_arith);
        vstd::arithmetic::div_mod::lemma_fundamental_div_mod((amount * f) as int, MAX_FEE_FRACTION as int);
        assert(fee * MAX_FEE_FRACTION <= amount * f);
        assert((before + fee) * MAX_FEE_FRACTION <= amount * (sum + f)) by (nonlinear_arith)
            requires
                before * MAX_FEE_FRACTION <= amount * sum,
                fee * MAX_FEE_FRACTION <= amount * f,
        ;
    } else {
        assert(amount * 0 == 0) by (nonlinear_arith);
    }
}

/// What is taken for a purchase leaves, after fees, at least what is needed
/// before them.
pub proof fn purchase_covers_the_need(needed: nat, fractions: Seq<FeeFraction>)
    requires
        fraction_sum(fractions, fractions.len() as int) < MAX_FEE_FRACTION,
    ensures
        after_fees(input_with_fees(needed, fractions), fractions) matches Some(kept) && kept >= needed,
{
    let n = fractions.len() as int;
    let total = fraction_sum(fractions, n);
    let m = MAX_FEE_FRACTION as nat;
    let left = (m - total) as nat;
    let taken = input_with_fees(needed, fractions);
    let fees = fee_sum(taken, fractions, n);
    lemma_fee_sum_bound(taken, fractions, n);
    let num = needed * m + (left - 1) as nat;
    vstd::arithmetic::div_mod::lemma_fundamental_div_mod(num as int, left as int);
    vstd::arithmetic::div_mod::lemma_mod_bound(num as int, left as int);
    assert(left * taken >= needed * m) by {
        assert(left * taken + num % left == num);
    }
    assert(taken * m - fees * m >= taken * left) by (nonlinear_arith)
        requires
            fees * m <= taken * total,
            left == m - total,
            left > 0,
    ;
    assert((taken - fees) * m >= needed * m) by (nonlinear_arith)
        requires
            taken * m - fees * m >= taken * left,
            left * taken >= needed * m,
    ;
    assert(taken - fees >= needed) by (nonlinear_arith)
        requires
            (taken - fees) * m >= needed * m,
            m > 0,
    ;
}

/// More input never brings less.
pub proof fn output_grows(balance_in: nat, balance_out: nat, less: nat, more: nat)
    requires
        less <= more,
        balance_in + less > 0,
    ensures
        output_for(balance_in, balance_out, less) <= output_for(balance_in, balance_out, more),
{
    let low = output_for(balance_in, balance_out, less);
    lemma_output_bound(balance_in, balance_out, less);
    let den = balance_in + more;
    assert(low * den <= more * balance_out) by (nonlinear_arith)
        requires
            low * (balance_in + less) <= less * balance_out,
            low <= balance_out,
            less <= more,
            den == balance_in + more,
    ;
    lemma_quotient_at_least(more * balance_out, den, low);
}

/// A number whose multiple fits is no more than the quotient.
proof fn lemma_quotient_at_least(num: nat, den: nat, q: nat)
    requires
        den > 0,
        q * den <= num,
    ensures
        q <= num / den,
{
    vstd::arithmetic::div_mod::lemma_fundamental_div_mod(num as int, den as int);
    vstd::arithmetic::div_mod::lemma_mod_bound(num as int, den as int);
    let r = num / den;
    assert(q <= r) by (nonlinear_arith)
        requires
            q * den <= num,
            num < den * r + den,
            den > 0,
    {
        if q >= r + 1 {
            assert(q * den >= (r + 1) * den);
        }
    }
}

/// A sale does not lower the product of the balances.
pub proof fn sale_keeps_the_product(balance_in: nat, balance_out: nat, kept: nat)
    requires
        balance_in + kept > 0,
    ensures
        (balance_in + kept) * (balance_out - output_for(balance_in, balance_out, kept)) >= balance_in
            * balance_out,
{
    let out = output_for(balance_in, balance_out, kept);
    lemma_output_bound(balance_in, balance_out, kept);
    assert((balance_in + kept) * (balance_out - out) >= balance_in * balance_out) by (nonlinear_arith)
        requires
            out * (balance_in + kept) <= kept * balance_out,
    ;
}

/// What is needed before fees, divided through.
proof fn lemma_needed(balance_in: nat, balance_out: nat, amount: nat)
    requires
        amount < balance_out,
    ensures
        input_before_fees(balance_in, balance_out, amount) * (balance_out - amount) > balance_in * amount,
{
    let den = (balance_out - amount) as nat;
    let num = balance_in * amount;
    vstd::arithmetic::div_mod::lemma_fundamental_div_mod(num as int, den as int);
    vstd::arithmetic::div_mod::lemma_mod_bound(num as int, den as int);
    let q = num / den;
    assert((q + 1) * den > num) by (nonlinear_arith)
        requires
            num < den * q + den,
    ;
}

/// A purchase raises the product of the balances.
pub proof fn purchase_raises_the_product(
    balance_in: nat,
    balance_out: nat,
    fractions: Seq<FeeFraction>,
    amount: nat,
)
    requires
        purchase_amounts(balance_in, balance_out, fractions, amount) is Some,
    ensures
        purchase_amounts(balance_in, balance_out, fractions, amount) matches Some((_, kept)) ==> (balance_in
            + kept) * (balance_out - amount) > balance_in * balance_out,
{
    let needed = input_before_fees(balance_in, balance_out, amount);
    purchase_covers_the_need(needed, fractions);
    lemma_needed(balance_in, balance_out, amount);
    match purchase_amounts(balance_in, balance_out, fractions, amount) {
        Some((_, kept)) => {
            assert((balance_in + kept) * (balance_out - amount) > balance_in * balance_out) by (nonlinear_arith)
                requires
                    kept >= needed,
                    needed * (balance_out - amount) > balance_in * amount,
                    amount < balance_out,
            ;
        },
        None => {},
    }
}

/// Selling what a purchase takes brings at least what was bought.
pub proof fn purchase_is_enough_for_a_sale(
    balance_in: nat,
    balance_out: nat,
    fractions: Seq<FeeFraction>,
    amount: nat,
)
    requires
        purchase_amounts(balance_in, balance_out, fractions, amount) is Some,
    ensures
        purchase_amounts(balance_in, balance_out, fractions, amount) matches Some((taken, _)) ==> {
            &&& sale_amounts(balance_in, balance_out, fractions, taken) matches Some((_, out))
            &&& out >= amount
        },
{
    let needed = input_before_fees(balance_in, balance_out, amount);
    purchase_covers_the_need(needed, fractions);
    lemma_needed(balance_in, balance_out, amount);
    match purchase_amounts(balance_in, balance_out, fractions, amount) {
        Some((taken, kept)) => {
            assert(amount * (balance_in + kept) <= kept * balance_out) by (nonlinear_arith)
                requires
                    kept >= needed,
                    needed * (balance_out - amount) > balance_in * amount,
                    amount < balance_out,
            ;
            lemma_quotient_at_least(kept * balance_out, balance_in + kept, amount);
        },
        None => {},
    }
}

} // verus!
