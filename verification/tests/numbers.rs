//! Numbers: wide products, decimals, fees and shares.

use dex_aggregator::decimal::{bp_of, clamp, dyadic, larger, max_input, min_output, Decimal};
use dex_aggregator::paging::page_starts;
use dex_aggregator::plach::fees::{FeeAmount, ScheduledFeeCurve};
use dex_aggregator::product::{buy, collect_fees, sell, total_fee_fraction};
use dex_aggregator::providers::amounts::{one_less, units_bought, units_worth};
use dex_aggregator::shared_utils::create_unwrap_action;
use dex_aggregator::text::{join, parse_u64, same_text, split_once, strip_prefix, u128_to_text};
use dex_aggregator::types::Action;
use dex_aggregator::wide::{mul_div, u128_ratio};
use dex_aggregator::xyk::state::{shares_to_tokens, tokens_to_shares};

fn decimal(text: &str) -> Decimal {
    Decimal::parse(text).unwrap()
}

const ONE: u128 = 1_000_000_000_000_000_000_000_000;

#[test]
fn wide_ratio_goes_beyond_128_bits() {
    assert_eq!(mul_div(u128::MAX, u128::MAX, u128::MAX), Some(u128::MAX));
    assert_eq!(mul_div(u128::MAX, 2, 1), None);
    assert_eq!(mul_div(7, 3, 0), None);
    assert_eq!(u128_ratio(7, 3, 2), 10);
    assert_eq!(u128_ratio(u128::MAX, 10_000, 20_000), u128::MAX / 2);
}

#[test]
fn texts_are_cut_and_read() {
    assert_eq!(join("a", "b"), "ab");
    assert!(same_text("near", "near"));
    assert!(!same_text("near", "nea"));
    assert_eq!(split_once("a:b:c", ':'), Some(("a".to_string(), "b:c".to_string())));
    assert_eq!(split_once("abc", ':'), None);
    assert_eq!(strip_prefix("dex:x", "dex:"), Some("x".to_string()));
    assert_eq!(strip_prefix("de", "dex:"), None);
    let Action::FunctionCall(call) = create_unwrap_action(u128::MAX);
    assert_eq!(call.args, b"{\"amount\":\"340282366920938463463374607431768211455\"}");
    let Action::FunctionCall(call) = create_unwrap_action(0);
    assert_eq!(call.args, b"{\"amount\":\"0\"}");
    assert_eq!(parse_u64("+17"), Some(17));
    assert_eq!(parse_u64("18446744073709551615"), Some(u64::MAX));
    assert_eq!(parse_u64("18446744073709551616"), None);
    assert_eq!(parse_u64(""), None);
    assert_eq!(parse_u64("-1"), None);
}

#[test]
fn whole_numbers_are_written() {
    for n in [0, 7, 10, 909, 1_000_000, 12_345_678_901_234_567_890, u128::MAX] {
        assert_eq!(u128_to_text(n), n.to_string());
    }
}

#[test]
fn decimals_are_read() {
    assert_eq!(decimal("0.01"), Decimal { negative: false, magnitude: vec![1], scale: 2 });
    assert_eq!(decimal("-2.5"), Decimal { negative: true, magnitude: vec![25], scale: 1 });
    assert_eq!(Decimal::parse("one"), None);
    let tiny = decimal("1e-2000000");
    assert_eq!(tiny, Decimal { negative: false, magnitude: vec![1], scale: 2_000_000 });
    assert!(tiny.is_usable() && tiny.is_short());
    assert!(!decimal("1e-20000000").is_usable());
    assert!(!Decimal { negative: false, magnitude: vec![1; 3_000_001], scale: 0 }.is_short());
    assert!(decimal("-0.1").is_negative());
    assert!(!decimal("-0.0").is_negative());
    assert_eq!(Decimal::from_u128(256), Decimal { negative: false, magnitude: vec![0, 1], scale: 0 });
    assert!(Decimal::from_u128(0).is_zero());
    assert_eq!(decimal("-2.5").abs(), decimal("2.5"));
}

#[test]
fn decimals_are_written() {
    for (text, written) in [("0.005", "0.005"), ("-12.50", "-12.50"), ("1e-9", "1E-9"), ("100", "100"), ("-0", "0")] {
        assert_eq!(decimal(text).to_text(), written);
    }
}

#[test]
fn halves_are_exact() {
    assert_eq!(larger(dyadic(1, 1), decimal("0.49")), dyadic(1, 1));
    assert_eq!(larger(dyadic(1, 1), decimal("0.51")), decimal("0.51"));
    assert_eq!(clamp(decimal("3"), &decimal("0"), &decimal("1")), decimal("1"));
    assert_eq!(clamp(decimal("-3"), &decimal("0"), &decimal("1")), decimal("0"));
    assert_eq!(clamp(decimal("0.3"), &decimal("0"), &decimal("1")), decimal("0.3"));
}

#[test]
fn slippage_moves_the_worst_case() {
    assert_eq!(min_output(80, &decimal("0.01")), Some(79));
    assert_eq!(min_output(100, &decimal("0.01")), Some(99));
    assert_eq!(max_input(100, &decimal("0.01")), Some(101));
    assert_eq!(max_input(99, &decimal("0.01")), Some(100));
    assert_eq!(max_input(100, &decimal("1")), None);
    assert_eq!(min_output(u128::MAX, &decimal("0")), Some(u128::MAX));
    assert_eq!(max_input(u128::MAX, &decimal("0.5")), None);
}

#[test]
fn slippage_in_basis_points() {
    assert_eq!(bp_of(&decimal("0.0005")), Some(5));
    assert_eq!(bp_of(&decimal("0.00059")), Some(5));
    assert_eq!(bp_of(&decimal("1")), Some(10_000));
    assert_eq!(bp_of(&decimal("1.0001")), None);
    assert_eq!(bp_of(&decimal("-0.1")), None);
}

#[test]
fn amounts_at_a_price() {
    assert_eq!(units_worth(3 * ONE, ONE + ONE / 2), Some(4 * ONE + ONE / 2));
    assert_eq!(units_bought(3 * ONE, ONE + ONE / 2), Some(2 * ONE));
    assert_eq!(units_bought(100, 0), None);
    assert_eq!(units_bought(1, 3), Some(333_333_333_333_333_333_333_333));
    assert_eq!(units_bought(2, 3), Some(666_666_666_666_666_666_666_666));
    assert_eq!(units_bought(u128::MAX / ONE, 1), Some(u128::MAX / ONE * ONE));
    assert_eq!(units_bought(u128::MAX, 1), None);
    assert_eq!(units_worth(1, ONE - 1), Some(0));
    assert_eq!(units_worth(u128::MAX, ONE), Some(u128::MAX));
    assert_eq!(one_less(Some(0)), Some(0));
    assert_eq!(one_less(Some(2)), Some(1));
    assert_eq!(one_less(None), None);
}

#[test]
fn sale_pays_fees_first() {
    assert_eq!(sell(1_000_000, 2_000_000, &vec![3_000, 2_000], 1_000), Some((995, 1_988)));
    assert_eq!(sell(1_000, 1_000, &vec![], 100), Some((100, 90)));
    assert_eq!(collect_fees(1_000, &vec![3_000, 2_000]), Some(995));
    assert_eq!(collect_fees(1_000, &vec![1_001_000]), None);
    assert_eq!(sell(0, 0, &vec![], 0), None);
}

#[test]
fn purchase_is_enough_for_the_sale() {
    assert_eq!(buy(1_000_000, 2_000_000, &vec![3_000, 2_000], 1_988), Some((1_000, 995)));
    let (taken, _) = buy(1_000_000, 2_000_000, &vec![3_000, 2_000], 1_988).unwrap();
    assert!(sell(1_000_000, 2_000_000, &vec![3_000, 2_000], taken).unwrap().1 >= 1_988);
    assert_eq!(buy(1_000, 1_000, &vec![], 1_000), None);
    assert_eq!(buy(1_000, 1_000, &vec![], 0), None);
    assert_eq!(total_fee_fraction(&vec![999_999]), Some(999_999));
    assert_eq!(total_fee_fraction(&vec![999_999, 1]), None);
}

#[test]
fn product_does_not_fall() {
    let (kept, out) = sell(1_000, 1_000, &vec![], 333).unwrap();
    assert!((1_000 + kept) * (1_000 - out) >= 1_000_000);
    let (_, kept) = buy(1_000, 1_000, &vec![], 333).unwrap();
    assert!((1_000 + kept) * (1_000 - 333) > 1_000_000);
}

#[test]
fn fees_follow_their_schedule() {
    assert_eq!(FeeAmount::Fixed(30).get_fee_fraction(7), Some(30));
    assert_eq!(FeeAmount::Dynamic { min: 1, max: 2 }.get_fee_fraction(7), None);
    let falling = FeeAmount::Scheduled { start: (100, 500), end: (200, 100), curve: ScheduledFeeCurve::Linear };
    assert_eq!(falling.get_fee_fraction(99), Some(500));
    assert_eq!(falling.get_fee_fraction(100), Some(500));
    assert_eq!(falling.get_fee_fraction(150), Some(300));
    assert_eq!(falling.get_fee_fraction(199), Some(104));
    assert_eq!(falling.get_fee_fraction(200), Some(100));
    let rising = FeeAmount::Scheduled { start: (100, 100), end: (200, 500), curve: ScheduledFeeCurve::Linear };
    assert_eq!(rising.get_fee_fraction(150), None);
}

#[test]
fn shares_and_tokens_round_down() {
    assert_eq!(tokens_to_shares(10, 1_000, 3_000), Some(3));
    assert_eq!(shares_to_tokens(3, 1_000, 3_000), Some(9));
    assert_eq!(shares_to_tokens(3, 0, 3_000), None);
}

#[test]
fn pages_cover_everything() {
    assert_eq!(page_starts(45, 20), vec![0, 20, 40]);
    assert_eq!(page_starts(40, 20), vec![0, 20]);
    assert_eq!(page_starts(0, 20), Vec::<u64>::new());
}
