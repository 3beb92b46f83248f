//! The fees of a pool.

use vstd::prelude::*;

use crate::account::AccountId;
use crate::ident::Ident;
use crate::product::FeeFraction;
use crate::wide::mul_div;

verus! {

/// A moment, in nanoseconds since the start of 1970.
pub type Timestamp = u64;

/// Who receives a fee.
#[derive(Clone, Debug, PartialEq)]
pub enum FeeReceiver {
    /// The account.
    Account(AccountId),
    /// The pool itself.
    Pool,
}

/// What a receiver of fees is.
pub enum FeeReceiverView {
    Account(Seq<char>),
    Pool,
}

impl View for FeeReceiver {
    type V = FeeReceiverView;

    open spec fn view(&self) -> FeeReceiverView {
        match self {
            FeeReceiver::Account(account) => FeeReceiverView::Account(account@),
            FeeReceiver::Pool => FeeReceiverView::Pool,
        }
    }
}

impl FeeReceiver {
    /// Another value for the same receiver.
    pub fn duplicate(&self) -> (r: Self)
        ensures
            r@ == self@,
    {
        match self {
            FeeReceiver::Account(account) => FeeReceiver::Account(account.duplicate()),
            FeeReceiver::Pool => FeeReceiver::Pool,
        }
    }
}

/// How a fee changes over its schedule.
#[derive(Clone, Copy, Debug, PartialEq, Eq, Structural)]
pub enum ScheduledFeeCurve {
    /// In a straight line.
    Linear,
}

/// How much a fee is.
#[derive(Clone, Copy, Debug, PartialEq, Eq)]
pub enum FeeAmount {
    /// Always the same.
    Fixed(FeeFraction),
    /// Falling from the start to the end.
    Scheduled { start: (Timestamp, FeeFraction), end: (Timestamp, FeeFraction), curve: ScheduledFeeCurve },
    /// Between two bounds.
    Dynamic { min: FeeFraction, max: FeeFraction },
}

/// The fraction of a fee at a moment, where it is settled: a dynamic fee is
/// not, nor is a schedule whose fee rises.
pub open spec fn fee_fraction(fee: FeeAmount, now: Timestamp) -> Option<FeeFraction> {
    match fee {
        FeeAmount::Fixed(fraction) => Some(fraction),
        FeeAmount::Scheduled { start, end, curve } => if now < start.0 {
            Some(start.1)
        } else if now >= end.0 {
            Some(end.1)
        } else if start.1 < end.1 {
            None
        } else {
            Some((start.1 - (start.1 - end.1) * (now - start.0) / (end.0 - start.0)) as u32)
        },
        FeeAmount::Dynamic { min, max } => None,
    }
}

/// The part of a schedule that has passed takes no more than the range away.
pub(crate) proof fn lemma_decrease(range: int, elapsed: int, duration: int)
    requires
        0 <= range,
        0 <= elapsed <= duration,
        0 < duration,
    ensures
        0 <= range * elapsed / duration <= range,
{
    assert(0 <= range * elapsed <= range * duration) by (nonlinear_arith)
        requires
            0 <= range,
            0 <= elapsed <= duration,
    ;
    vstd::arithmetic::div_mod::lemma_div_is_ordered(range * elapsed, range * duration, duration);
    vstd::arithmetic::div_mod::lemma_div_pos_is_pos(range * elapsed, duration);
    vstd::arithmetic::div_mod::lemma_div_multiples_vanish(range, duration);
    assert(range * duration == duration * range) by (nonlinear_arith);
}

impl FeeAmount {
    /// The fraction of the fee at a moment, where it is settled.
    pub fn get_fee_fraction(&self, current_timestamp: Timestamp) -> (r: Option<FeeFraction>)
        ensures
            r == fee_fraction(*self, current_timestamp),
    {
        match self {
            FeeAmount::Fixed(fraction) => Some(*fraction),
            FeeAmount::Scheduled { start, end, curve } => {
                let (start_time, start_fraction): (Timestamp, FeeFraction) = *start;
                let (end_time, end_fraction): (Timestamp, FeeFraction) = *end;
                if current_timestamp < start_time {
                    return Some(start_fraction);
                }
                if current_timestamp >= end_time {
                    return Some(end_fraction);
                }
                if start_fraction < end_fraction {
                    return None;
                }
                let elapsed: u64 = current_timestamp - start_time;
                let duration: u64 = end_time - start_time;
                let range: u32 = start_fraction - end_fraction;
                proof {
                    lemma_decrease(range as int, elapsed as int, duration as int);
                }
                let decrease: u128 = match curve {
                    ScheduledFeeCurve::Linear => match mul_div(
                        range as u128,
                        elapsed as u128,
                        duration as u128,
                    ) {
                        Some(decrease) => decrease,
                        None => {
                            return None;
                        },
                    },
                };
                Some(start_fraction - decrease as u32)
            },
            FeeAmount::Dynamic { min: _, max: _ } => None,
        }
    }
}

/// A scheduled fee stays between its end and its start, and does not rise as
/// time passes.
pub proof fn scheduled_fee_falls(
    start: (Timestamp, FeeFraction),
    end: (Timestamp, FeeFraction),
    curve: ScheduledFeeCurve,
    earlier: Timestamp,
    later: Timestamp,
)
    requires
        start.0 <= end.0,
        end.1 <= start.1,
        earlier <= later,
    ensures
        ({
            let fee = FeeAmount::Scheduled { start, end, curve };
            &&& fee_fraction(fee, earlier) matches Some(high)
            &&& fee_fraction(fee, later) matches Some(low)
            &&& end.1 <= low <= high <= start.1
        }),
{
    let range = start.1 - end.1;
    let duration = end.0 - start.0;
    if start.0 <= earlier && earlier < end.0 {
        lemma_decrease(range, earlier - start.0, duration);
    }
    if start.0 <= later && later < end.0 {
        lemma_decrease(range, later - start.0, duration);
    }
    if start.0 <= earlier && later < end.0 {
        assert(range * (earlier - start.0) <= range * (later - start.0)) by (nonlinear_arith)
            requires
                range >= 0,
                earlier <= later,
        ;
        vstd::arithmetic::div_mod::lemma_div_is_ordered(
            range * (earlier - start.0),
            range * (later - start.0),
            duration,
        );
    }
}

/// The fees that are charged now, each with its receiver.
#[derive(Clone, Debug, PartialEq)]
pub struct CurrentFees {
    pub receivers: Vec<(FeeReceiver, FeeFraction)>,
}

/// What the fees of a pool are.
pub open spec fn receivers_view(receivers: Seq<(FeeReceiver, FeeFraction)>) -> Seq<
    (FeeReceiverView, FeeFraction),
> {
    Seq::new(receivers.len(), |i: int| (receivers[i].0@, receivers[i].1))
}

impl View for CurrentFees {
    type V = Seq<(FeeReceiverView, FeeFraction)>;

    open spec fn view(&self) -> Seq<(FeeReceiverView, FeeFraction)> {
        receivers_view(self.receivers@)
    }
}

/// The fractions of the fees.
pub open spec fn view_fractions(fees: Seq<(FeeReceiverView, FeeFraction)>) -> Seq<FeeFraction> {
    Seq::new(fees.len(), |i: int| fees[i].1)
}

impl CurrentFees {
    /// The fractions of the fees.
    pub fn fractions(&self) -> (r: Vec<FeeFraction>)
        ensures
            r@ == view_fractions(self@),
    {
        let mut out: Vec<FeeFraction> = Vec::new();
        let mut i: usize = 0;
        while i < self.receivers.len()
            invariant
                i <= self.receivers@.len(),
                out@.len() == i,
                forall|j: int| 0 <= j < i ==> out@[j] == view_fractions(self@)[j],
            decreases self.receivers@.len() - i,
        {
            out.push(self.receivers[i].1);
            i = i + 1;
        }
        assert(out@ =~= view_fractions(self@));
        out
    }

    /// Another value for the same fees.
    pub fn duplicate(&self) -> (r: Self)
        ensures
            r@ == self@,
    {
        let mut receivers: Vec<(FeeReceiver, FeeFraction)> = Vec::new();
        let mut i: usize = 0;
        while i < self.receivers.len()
            invariant
                i <= self.receivers@.len(),
                receivers@.len() == i,
                forall|j: int| 0 <= j < i ==> receivers_view(receivers@)[j] == #[trigger] self@[j],
            decreases self.receivers@.len() - i,
        {
            let ghost before = receivers@;
            receivers.push((self.receivers[i].0.duplicate(), self.receivers[i].1));
            assert forall|j: int| 0 <= j < i + 1 implies receivers_view(receivers@)[j]
                == #[trigger] self@[j] by {
                if j < i {
                    assert(receivers_view(before)[j] == self@[j]);
                }
            }
            i = i + 1;
        }
        let r = CurrentFees { receivers };
        assert(r@ =~= self@);
        r
    }
}

/// How the fees of a pool were set up, with amounts that may change.
#[derive(Clone, Debug, PartialEq)]
pub struct V1FeeConfiguration {
    pub receivers: Vec<(FeeReceiver, FeeAmount)>,
}

/// How the fees of a pool were set up.
#[derive(Clone, Debug, PartialEq)]
pub enum FeeConfiguration {
    V1(CurrentFees),
    V2(V1FeeConfiguration),
}

/// What the set-up of fees is.
pub enum FeeConfigurationView {
    V1(Seq<(FeeReceiverView, FeeFraction)>),
    V2(Seq<(FeeReceiverView, FeeAmount)>),
}

impl View for V1FeeConfiguration {
    type V = Seq<(FeeReceiverView, FeeAmount)>;

    open spec fn view(&self) -> Seq<(FeeReceiverView, FeeAmount)> {
        Seq::new(self.receivers@.len(), |i: int| (self.receivers@[i].0@, self.receivers@[i].1))
    }
}

impl View for FeeConfiguration {
    type V = FeeConfigurationView;

    open spec fn view(&self) -> FeeConfigurationView {
        match self {
            FeeConfiguration::V1(fees) => FeeConfigurationView::V1(fees@),
            FeeConfiguration::V2(fees) => FeeConfigurationView::V2(fees@),
        }
    }
}

impl V1FeeConfiguration {
    /// Another value for the same set-up.
    pub fn duplicate(&self) -> (r: Self)
        ensures
            r@ == self@,
    {
        let mut receivers: Vec<(FeeReceiver, FeeAmount)> = Vec::new();
        let mut i: usize = 0;
        while i < self.receivers.len()
            invariant
                i <= self.receivers@.len(),
                receivers@.len() == i,
                forall|j: int|
                    #![trigger receivers@[j]]
                    0 <= j < i ==> receivers@[j].0@ == self.receivers@[j].0@ && receivers@[j].1
                        == self.receivers@[j].1,
            decreases self.receivers@.len() - i,
        {
            receivers.push((self.receivers[i].0.duplicate(), self.receivers[i].1));
            i = i + 1;
        }
        let r = V1FeeConfiguration { receivers };
        assert(r@ =~= self@);
        r
    }
}

impl FeeConfiguration {
    /// Another value for the same set-up.
    pub fn duplicate(&self) -> (r: Self)
        ensures
            r@ == self@,
    {
        match self {
            FeeConfiguration::V1(fees) => FeeConfiguration::V1(fees.duplicate()),
            FeeConfiguration::V2(fees) => FeeConfiguration::V2(fees.duplicate()),
        }
    }
}

} // verus!
