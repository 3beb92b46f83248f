//! How much slippage a swap is given.

use vstd::arithmetic::power::{lemma_pow0, lemma_pow1, lemma_pow_adds, pow};
use vstd::prelude::*;

use crate::account::{valid_account_id, AccountId};
use crate::decimal::{
    clamp, clamp_of, decimal_of_text, difference, difference_of, dyadic, half, halved, hundred_digits, larger,
    lemma_difference_value, lemma_product_short, lemma_product_value, lemma_quotient_exact, lemma_quotient_scale,
    lemma_sign, lemma_sum_value, lemma_ten_to_positive, lemma_ten_to_sum, lemma_whole_value, less, product, product_of, quotient, quotient_of, sum, sum_of, ten_to, whole, Decimal, DecimalView,
    MAX_INPUT_SCALE,
};
use crate::ident::Ident;
use crate::shared_utils::WRAP_NEAR;
use crate::types::{Slippage, SlippageView, TokenId, TokenIdView};

verus! {

/// What the market knows of a token.
#[derive(Clone, Debug, PartialEq)]
pub struct TokenInfo {
    pub price_usd_raw: Decimal,
    pub price_usd_raw_24h_ago: Decimal,
    pub circulating_supply: u128,
    pub liquidity_usd: Decimal,
    pub volume_usd_24h: Decimal,
    pub created_at: u64,
}

/// What the market knows of a token.
pub struct TokenInfoView {
    pub price: DecimalView,
    pub price_before: DecimalView,
    pub supply: u128,
    pub liquidity: DecimalView,
    pub volume: DecimalView,
    pub created_at: u64,
}

impl View for TokenInfo {
    type V = TokenInfoView;

    open spec fn view(&self) -> TokenInfoView {
        TokenInfoView {
            price: self.price_usd_raw@,
            price_before: self.price_usd_raw_24h_ago@,
            supply: self.circulating_supply,
            liquidity: self.liquidity_usd@,
            volume: self.volume_usd_24h@,
            created_at: self.created_at,
        }
    }
}

impl TokenInfoView {
    /// Whether the numbers are within what can be calculated with.
    pub open spec fn valid(self) -> bool {
        &&& self.price.usable() && self.price.short()
        &&& self.price_before.usable()
        &&& self.liquidity.usable() && self.liquidity.short()
        &&& self.volume.usable()
    }
}

impl TokenInfo {
    /// Another value for the same.
    pub fn duplicate(&self) -> (r: TokenInfo)
        ensures
            r@ == self@,
    {
        TokenInfo {
            price_usd_raw: self.price_usd_raw.duplicate(),
            price_usd_raw_24h_ago: self.price_usd_raw_24h_ago.duplicate(),
            circulating_supply: self.circulating_supply,
            liquidity_usd: self.liquidity_usd.duplicate(),
            volume_usd_24h: self.volume_usd_24h.duplicate(),
            created_at: self.created_at,
        }
    }
}

/// A token, and what the market knows of it.
#[derive(Clone, Debug, PartialEq)]
pub struct TokenEntry {
    pub token: TokenId,
    pub info: TokenInfo,
}

/// The market: all tokens where they could be had, and the height of the
/// chain where it could.
#[derive(Clone, Debug, PartialEq)]
pub struct Market {
    pub tokens: Option<Vec<TokenEntry>>,
    pub height: Option<u64>,
}

/// The market.
pub struct MarketView {
    pub tokens: Option<Seq<(TokenIdView, TokenInfoView)>>,
    pub height: Option<u64>,
}

/// The tokens and what is known of them.
pub open spec fn entry_views(entries: Seq<TokenEntry>) -> Seq<(TokenIdView, TokenInfoView)> {
    Seq::new(entries.len(), |i: int| (entries[i].token@, entries[i].info@))
}

impl View for Market {
    type V = MarketView;

    open spec fn view(&self) -> MarketView {
        MarketView {
            tokens: match self.tokens {
                Some(tokens) => Some(entry_views(tokens@)),
                None => None,
            },
            height: self.height,
        }
    }
}

impl MarketView {
    /// Whether the numbers are within what can be calculated with.
    pub open spec fn valid(self) -> bool {
        match self.tokens {
            Some(tokens) => entries_valid(tokens),
            None => true,
        }
    }
}

/// Whether the numbers are within what can be calculated with.
pub open spec fn entries_valid(entries: Seq<(TokenIdView, TokenInfoView)>) -> bool {
    forall|i: int| 0 <= i < entries.len() ==> (#[trigger] entries[i]).1.valid()
}

/// What is known of a token: the first of the entries for it.
pub open spec fn info_of(entries: Seq<(TokenIdView, TokenInfoView)>, token: TokenIdView) -> Option<TokenInfoView>
    decreases entries.len(),
{
    if entries.len() == 0 {
        None
    } else if entries[0].0 == token {
        Some(entries[0].1)
    } else {
        info_of(entries.subrange(1, entries.len() as int), token)
    }
}

/// The index of the first entry for a token.
fn find_token(entries: &Vec<TokenEntry>, token: &TokenId) -> (r: Option<usize>)
    ensures
        match r {
            Some(i) => i < entries@.len() && info_of(entry_views(entries@), token@) == Some(entries@[i as int].info@),
            None => info_of(entry_views(entries@), token@) is None,
        },
{
    let ghost all = entry_views(entries@);
    let n: usize = entries.len();
    let mut i: usize = 0;
    assert(all.subrange(0, n as int) =~= all);
    while i < n
        invariant
            i <= n,
            n == entries@.len(),
            all == entry_views(entries@),
            info_of(all, token@) == info_of(all.subrange(i as int, n as int), token@),
        decreases n - i,
    {
        let ghost rest = all.subrange(i as int, n as int);
        assert(rest[0] == (entries@[i as int].token@, entries@[i as int].info@));
        assert(rest.subrange(1, rest.len() as int) =~= all.subrange(i + 1, n as int));
        if entries[i].token.same(token) {
            return Some(i);
        }
        i = i + 1;
    }
    None
}

/// The entries, where the native coin has the entry of its wrapped form.
pub open spec fn with_native(entries: Seq<(TokenIdView, TokenInfoView)>) -> Seq<(TokenIdView, TokenInfoView)> {
    match info_of(entries, TokenIdView::Nep141(WRAP_NEAR@)) {
        Some(info) => seq![(TokenIdView::Near, info)] + entries,
        None => entries,
    }
}

/// Gives the native coin the entry of its wrapped form.
pub fn add_native(entries: Vec<TokenEntry>) -> (r: Vec<TokenEntry>)
    ensures
        entry_views(r@) == with_native(entry_views(entries@)),
{
    let wrapped: TokenId = TokenId::Nep141(AccountId::new_unvalidated(WRAP_NEAR));
    match find_token(&entries, &wrapped) {
        Some(i) => {
            let mut out: Vec<TokenEntry> = Vec::new();
            out.push(TokenEntry { token: TokenId::Near, info: entries[i].info.duplicate() });
            let ghost info = entries@[i as int].info@;
            let mut entries: Vec<TokenEntry> = entries;
            let ghost before = entries@;
            out.append(&mut entries);
            assert(entry_views(out@) =~= seq![(TokenIdView::Near, info)] + entry_views(before));
            out
        },
        None => entries,
    }
}

/// `n` less `k`, no less than nothing.
pub open spec fn less_or_zero(n: u64, k: u64) -> u64 {
    if n >= k {
        (n - k) as u64
    } else {
        0
    }
}

/// The scale for a token of which nothing could be learnt: 0.005.
pub open spec fn unknown_scale() -> DecimalView {
    halved(5764607523034235, 60)
}

/// The scale for a token that is not listed, and so perhaps new: 0.8.
pub open spec fn unlisted_scale() -> DecimalView {
    halved(3602879701896397, 52)
}

/// The scale for a token of the last thousand blocks: 0.6.
pub open spec fn recent_scale() -> DecimalView {
    halved(5404319552844595, 53)
}

/// A twentieth.
pub open spec fn twentieth() -> DecimalView {
    halved(3602879701896397, 56)
}

/// A tenth.
pub open spec fn tenth() -> DecimalView {
    halved(3602879701896397, 55)
}

/// A fifth.
pub open spec fn fifth() -> DecimalView {
    halved(3602879701896397, 54)
}

/// Three twentieths.
pub open spec fn three_twentieths() -> DecimalView {
    halved(5404319552844595, 55)
}

/// A half.
pub open spec fn one_half() -> DecimalView {
    halved(1, 1)
}

/// The scale, raised where a ratio is over a limit.
pub open spec fn raised(scale: DecimalView, ratio: DecimalView, limit: DecimalView, by: DecimalView) -> DecimalView {
    if limit.value() < ratio.value() {
        sum_of(scale, by)
    } else {
        scale
    }
}

/// The number without its sign.
pub open spec fn abs_of(d: DecimalView) -> DecimalView {
    DecimalView {
        digits: if d.digits < 0 {
            -d.digits
        } else {
            d.digits
        },
        scale: d.scale,
    }
}

/// The scale, raised for how the price moved in a day.
pub open spec fn raised_for_price(info: TokenInfoView, scale: DecimalView) -> DecimalView {
    let change = quotient_of(abs_of(difference_of(info.price_before, info.price)), info.price);
    raised(raised(scale, change, one_half(), tenth()), change, fifth(), twentieth())
}

/// The scale, raised for how much of the market is traded in a day.
pub open spec fn raised_for_market(info: TokenInfoView, scale: DecimalView) -> DecimalView {
    let market = product_of(whole(info.supply), info.price);
    if market.digits == 0 {
        scale
    } else {
        let turnover = quotient_of(info.volume, market);
        raised(raised(scale, turnover, whole(1), tenth()), turnover, fifth(), twentieth())
    }
}

/// The scale, raised for how much of the liquidity is traded in a day.
pub open spec fn raised_for_liquidity(info: TokenInfoView, scale: DecimalView) -> DecimalView {
    if info.liquidity.digits == 0 {
        scale
    } else {
        let turnover = quotient_of(info.volume, info.liquidity);
        raised(
            raised(
                raised(scale, turnover, whole(1), three_twentieths()),
                turnover,
                one_half(),
                tenth(),
            ),
            turnover,
            fifth(),
            twentieth(),
        )
    }
}

/// How volatile a token is, from nothing to one: the newer, and the more its
/// price, its market and its liquidity move, the more.
pub open spec fn volatility(info: TokenInfoView, height: Option<u64>) -> DecimalView {
    match height {
        None => unknown_scale(),
        Some(height) => if info.created_at > less_or_zero(height, 100) {
            whole(1)
        } else if info.created_at > less_or_zero(height, 1000) {
            recent_scale()
        } else {
            let start = whole(0);
            let moved = if info.price.digits == 0 {
                start
            } else {
                raised_for_market(info, raised_for_price(info, start))
            };
            clamp_of(raised_for_liquidity(info, moved), whole(0), whole(1))
        },
    }
}

/// The scale of the slippage for a token.
pub open spec fn token_scale(market: MarketView, token: TokenIdView) -> DecimalView {
    match market.tokens {
        Some(tokens) => match info_of(tokens, token) {
            Some(info) => volatility(info, market.height),
            None => unlisted_scale(),
        },
        None => unknown_scale(),
    }
}

/// The larger of two numbers; the second where they are equal.
pub open spec fn larger_of(a: DecimalView, b: DecimalView) -> DecimalView {
    if b.value() < a.value() {
        a
    } else {
        b
    }
}

/// The least slippage that is ever given: 0.0001.
pub open spec fn least_slippage() -> DecimalView {
    halved(7378697629483821, 66)
}

/// The most slippage that is ever given: 0.9999.
pub open spec fn most_slippage() -> DecimalView {
    halved(4503149267407759, 52)
}

/// The slippage that a swap is given: what is asked for, or as far between
/// the two bounds as the more volatile of the tokens calls for, and never
/// all or nothing.
pub open spec fn slippage_of(
    market: MarketView,
    slippage: SlippageView,
    token_in: TokenIdView,
    token_out: TokenIdView,
) -> DecimalView {
    match slippage {
        SlippageView::Auto { max, min } => {
            let scale = larger_of(token_scale(market, token_in), token_scale(market, token_out));
            let best = sum_of(min, product_of(difference_of(max, min), scale));
            clamp_of(clamp_of(best, min, max), least_slippage(), most_slippage())
        },
        SlippageView::Fixed(slippage) => clamp_of(slippage, least_slippage(), most_slippage()),
    }
}

/// Raises the scale where a ratio is over a limit.
fn raise(scale: Decimal, ratio: &Decimal, limit: &Decimal, by: &Decimal) -> (r: Decimal)
    requires
        0 <= scale@.scale <= 101,
        0 <= by@.scale <= 101,
        ratio@.bounded(),
        limit@.bounded(),
    ensures
        r@ == raised(scale@, ratio@, limit@, by@),
        0 <= r@.scale <= 101,
{
    if less(limit, ratio) {
        sum(&scale, by)
    } else {
        scale
    }
}

/// How volatile a token is.
fn token_volatility(info: &TokenInfo, height: Option<u64>) -> (r: Decimal)
    requires
        info@.valid(),
    ensures
        r@ == volatility(info@, height),
        0 <= r@.scale <= 101,
{
    let height: u64 = match height {
        Some(height) => height,
        None => {
            return dyadic(5764607523034235, 60);
        },
    };
    if info.created_at > height.saturating_sub(100) {
        return Decimal::from_u128(1);
    }
    if info.created_at > height.saturating_sub(1000) {
        return dyadic(5404319552844595, 53);
    }
    let one: Decimal = Decimal::from_u128(1);
    let half: Decimal = dyadic(1, 1);
    let fifth: Decimal = dyadic(3602879701896397, 54);
    let tenth: Decimal = dyadic(3602879701896397, 55);
    let twentieth: Decimal = dyadic(3602879701896397, 56);
    let mut scale: Decimal = Decimal::from_u128(0);
    if !info.price_usd_raw.is_zero() {
        let change: Decimal = difference(&info.price_usd_raw_24h_ago, &info.price_usd_raw).abs();
        let relative: Decimal = quotient(&change, &info.price_usd_raw);
        proof {
            lemma_quotient_scale(change@, info@.price, MAX_INPUT_SCALE as nat);
        }
        scale = raise(scale, &relative, &half, &tenth);
        scale = raise(scale, &relative, &fifth, &twentieth);
        let market: Decimal = product(&Decimal::from_u128(info.circulating_supply), &info.price_usd_raw);
        if !market.is_zero() {
            let turnover: Decimal = quotient(&info.volume_usd_24h, &market);
            proof {
                lemma_product_short(info@.supply, info@.price);
                lemma_quotient_scale(info@.volume, market@, (MAX_INPUT_SCALE + 48) as nat);
            }
            scale = raise(scale, &turnover, &one, &tenth);
            scale = raise(scale, &turnover, &fifth, &twentieth);
        }
    }
    if !info.liquidity_usd.is_zero() {
        let turnover: Decimal = quotient(&info.volume_usd_24h, &info.liquidity_usd);
        proof {
            lemma_quotient_scale(info@.volume, info@.liquidity, MAX_INPUT_SCALE as nat);
        }
        let more: Decimal = dyadic(5404319552844595, 55);
        scale = raise(scale, &turnover, &one, &more);
        scale = raise(scale, &turnover, &half, &tenth);
        scale = raise(scale, &turnover, &fifth, &twentieth);
    }
    clamp(scale, &Decimal::from_u128(0), &one)
}

/// The scale of the slippage for a token.
fn scale_for(market: &Market, token: &TokenId) -> (r: Decimal)
    requires
        market@.valid(),
    ensures
        r@ == token_scale(market@, token@),
        0 <= r@.scale <= 101,
{
    match &market.tokens {
        Some(tokens) => match find_token(tokens, token) {
            Some(i) => {
                let ghost views = entry_views(tokens@);
                assert(market@.tokens == Some(views));
                assert(entries_valid(views));
                assert(views[i as int].1.valid());
                token_volatility(&tokens[i].info, market.height)
            },
            None => dyadic(3602879701896397, 52),
        },
        None => dyadic(5764607523034235, 60),
    }
}

/// The powers of two in the bounds.
proof fn lemma_powers()
    ensures
        pow(2, 52) == 0x10_0000_0000_0000int,
        pow(2, 66) == 0x4_0000_0000_0000_0000int,
{
    lemma_pow1(2);
    lemma_pow_adds(2, 1, 1);
    assert(pow(2, 2) == 4);
    lemma_pow_adds(2, 2, 2);
    assert(pow(2, 4) == 16);
    lemma_pow_adds(2, 4, 4);
    assert(pow(2, 8) == 0x100);
    lemma_pow_adds(2, 8, 8);
    assert(pow(2, 16) == 0x1_0000);
    lemma_pow_adds(2, 16, 16);
    assert(pow(2, 32) == 0x1_0000_0000);
    lemma_pow_adds(2, 32, 16);
    assert(pow(2, 48) == 0x1_0000_0000_0000int);
    lemma_pow_adds(2, 48, 4);
    lemma_pow_adds(2, 32, 32);
    assert(pow(2, 64) == 0x1_0000_0000_0000_0000int);
    lemma_pow_adds(2, 64, 2);
}

/// The bounds are close to 0.0001 and 0.9999.
proof fn lemma_bounds(low: real, high: real)
    requires
        low * (pow(2, 66) as real) == 7378697629483821u64 as real,
        high * (pow(2, 52) as real) == 4503149267407759u64 as real,
    ensures
        low * (10_000 as real) >= 1 as real,
        low <= high,
        high * (1_000_000 as real) <= 999_901 as real,
{
    lemma_powers();
    assert(low * (73786976294838206464int as real) == 7378697629483821int as real);
    assert(high * (4503599627370496int as real) == 4503149267407759int as real);
}

/// The slippage that a swap is given.
pub fn get_slippage(market: &Market, slippage: &Slippage, token_in: &TokenId, token_out: &TokenId) -> (r: Decimal)
    requires
        market@.valid(),
        slippage@.valid(),
    ensures
        r@ == slippage_of(market@, slippage@, token_in@, token_out@),
        r@.bounded(),
        r@.value() * (10_000 as real) >= 1 as real,
        r@.value() * (1_000_000 as real) <= 999_901 as real,
{
    let low: Decimal = dyadic(7378697629483821, 66);
    let high: Decimal = dyadic(4503149267407759, 52);
    proof {
        lemma_bounds(low@.value(), high@.value());
    }
    match slippage {
        Slippage::Auto { max_slippage, min_slippage } => {
            let scale: Decimal = larger(scale_for(market, token_in), scale_for(market, token_out));
            let range: Decimal = difference(max_slippage, min_slippage);
            let best: Decimal = sum(min_slippage, &product(&range, &scale));
            clamp(clamp(best, min_slippage, max_slippage), &low, &high)
        },
        Slippage::Fixed { slippage } => clamp(slippage.duplicate(), &low, &high),
    }
}

/// Slippage between two bounds that are not out of reach stays between them.
pub proof fn slippage_stays_between_its_bounds(
    market: MarketView,
    max: DecimalView,
    min: DecimalView,
    token_in: TokenIdView,
    token_out: TokenIdView,
)
    requires
        least_slippage().value() <= min.value(),
        min.value() <= max.value(),
        max.value() <= most_slippage().value(),
    ensures
        ({
            let slippage = slippage_of(market, SlippageView::Auto { max, min }, token_in, token_out);
            min.value() <= slippage.value() && slippage.value() <= max.value()
        }),
{
}

/// A fixed slippage that is not out of reach is given as it is.
pub proof fn fixed_slippage_is_given(
    market: MarketView,
    slippage: DecimalView,
    token_in: TokenIdView,
    token_out: TokenIdView,
)
    requires
        least_slippage().value() <= slippage.value(),
        slippage.value() <= most_slippage().value(),
    ensures
        slippage_of(market, SlippageView::Fixed(slippage), token_in, token_out) == slippage,
{
}

/// The price of one unit of a token, from its price in millionths; none where
/// the scale would leave 64 bits.
pub open spec fn unit_price(token_id: Seq<char>, price: Seq<char>) -> Option<(Seq<char>, DecimalView)> {
    match decimal_of_text(price) {
        Some(raw) => if valid_account_id(token_id) && raw.scale <= i64::MAX - 200 {
            Some((token_id, quotient_of(raw, whole(1_000_000))))
        } else {
            None
        },
        None => None,
    }
}

/// Reads a token and its price.
pub fn read_price(token_id: &str, price_usd_raw: &str) -> (r: Option<(AccountId, Decimal)>)
    ensures
        match r {
            Some(r) => unit_price(token_id@, price_usd_raw@) == Some((r.0@, r.1@)),
            None => unit_price(token_id@, price_usd_raw@) is None,
        },
{
    match (AccountId::parse(token_id), Decimal::parse(price_usd_raw)) {
        (Some(token), Some(raw)) => {
            if raw.scale <= i64::MAX - 200 {
                Some((token, quotient(&raw, &Decimal::from_u128(1_000_000))))
            } else {
                None
            }
        },
        _ => None,
    }
}

/// What a market says of a token, if it lists it: the first entry for it.
pub open spec fn lists(market: MarketView, token: TokenIdView, i: int) -> bool {
    market.tokens matches Some(tokens) && 0 <= i < tokens.len() && tokens[i].0 == token && forall|j: int|
        0 <= j < i ==> (#[trigger] tokens[j]).0 != token
}

/// The first entry is the one that is found.
proof fn lemma_info_of(entries: Seq<(TokenIdView, TokenInfoView)>, token: TokenIdView, i: int)
    requires
        0 <= i < entries.len(),
        entries[i].0 == token,
        forall|j: int| 0 <= j < i ==> (#[trigger] entries[j]).0 != token,
    ensures
        info_of(entries, token) == Some(entries[i].1),
    decreases entries.len(),
{
    if i > 0 {
        assert(entries[0].0 != token);
        let rest = entries.subrange(1, entries.len() as int);
        assert forall|j: int| 0 <= j < i - 1 implies (#[trigger] rest[j]).0 != token by {
            assert(rest[j] == entries[j + 1]);
        }
        lemma_info_of(rest, token, i - 1);
    }
}

/// A token that no entry is for is not found.
proof fn lemma_no_info(entries: Seq<(TokenIdView, TokenInfoView)>, token: TokenIdView)
    requires
        forall|j: int| 0 <= j < entries.len() ==> (#[trigger] entries[j]).0 != token,
    ensures
        info_of(entries, token) is None,
    decreases entries.len(),
{
    if entries.len() > 0 {
        assert(entries[0].0 != token);
        let rest = entries.subrange(1, entries.len() as int);
        assert forall|j: int| 0 <= j < rest.len() implies (#[trigger] rest[j]).0 != token by {
            assert(rest[j] == entries[j + 1]);
        }
        lemma_no_info(rest, token);
    }
}

/// A number halved that many times.
proof fn lemma_halved(m: u64, halvings: nat)
    ensures
        halved(m, halvings).value() * (pow(2, halvings) as real) == m as real,
    decreases halvings,
{
    lemma_pow1(10);
    if halvings == 0 {
        lemma_pow0(2);
        lemma_whole_value(whole(m as u128));
    } else {
        let less = (halvings - 1) as nat;
        lemma_halved(m, less);
        lemma_product_value(halved(m, less), half());
        lemma_pow_adds(2, 1, less);
        lemma_pow1(2);
        let v = halved(m, less).value();
        let h = half().value();
        assert(ten_to(1) == 10 as real);
        assert(h == (5 as real) / (10 as real));
        assert(h * (2 as real) == 1 as real);
        let p = pow(2, less);
        assert(pow(2, halvings) == 2 * p);
        assert((2 * p) as real == (2 as real) * (p as real));
        assert((v * h) * ((2 as real) * (p as real)) == v * (p as real)) by (nonlinear_arith)
            requires
                h * (2 as real) == 1 as real,
        ;
    }
}

/// A number between two bounds.
pub open spec fn cut(x: real, low: real, high: real) -> real {
    if x < low {
        low
    } else if x > high {
        high
    } else {
        x
    }
}

/// The bounds that slippage is always within.
proof fn lemma_reach()
    ensures
        least_slippage().value() * (1_000_000 as real) >= 100 as real,
        least_slippage().value() * (1_000_000 as real) <= 101 as real,
        most_slippage().value() * (1_000_000 as real) >= 999_899 as real,
        most_slippage().value() * (1_000_000 as real) <= 999_901 as real,
{
    lemma_powers();
    lemma_halved(7378697629483821, 66);
    lemma_halved(4503149267407759, 52);
    let low = least_slippage().value();
    let high = most_slippage().value();
    assert(low * (73786976294838206464int as real) == 7378697629483821int as real);
    assert(high * (4503599627370496int as real) == 4503149267407759int as real);
}

/// What the slippage of two tokens comes to, as a number.
proof fn lemma_auto_value(
    market: MarketView,
    max: DecimalView,
    min: DecimalView,
    token_in: TokenIdView,
    token_out: TokenIdView,
)
    requires
        min.value() <= max.value(),
    ensures
        ({
            let a = token_scale(market, token_in).value();
            let b = token_scale(market, token_out).value();
            let scale = if b < a {
                a
            } else {
                b
            };
            slippage_of(market, SlippageView::Auto { max, min }, token_in, token_out).value() == cut(
                cut(min.value() + (max.value() - min.value()) * scale, min.value(), max.value()),
                least_slippage().value(),
                most_slippage().value(),
            )
        }),
{
    let scale = larger_of(token_scale(market, token_in), token_scale(market, token_out));
    lemma_difference_value(max, min);
    lemma_product_value(difference_of(max, min), scale);
    lemma_sum_value(min, product_of(difference_of(max, min), scale));
}

/// A larger scale makes no smaller slippage.
proof fn lemma_cut_grows(low: real, high: real, least: real, most: real, less: real, more: real)
    requires
        low <= high,
        least <= most,
        less <= more,
    ensures
        cut(cut(low + (high - low) * less, low, high), least, most) <= cut(
            cut(low + (high - low) * more, low, high),
            least,
            most,
        ),
{
    let d = high - low;
    assert(d * less <= d * more) by (nonlinear_arith)
        requires
            d >= 0 as real,
            less <= more,
    ;
}

/// Automatic slippage does not depend on the direction of a swap: it is the
/// larger of what either of the two tokens calls for by itself.
pub proof fn the_more_volatile_token_counts(
    market: MarketView,
    max: DecimalView,
    min: DecimalView,
    a: TokenIdView,
    b: TokenIdView,
)
    requires
        min.value() <= max.value(),
    ensures
        ({
            let auto = SlippageView::Auto { max, min };
            let both = slippage_of(market, auto, a, b).value();
            let alone_a = slippage_of(market, auto, a, a).value();
            let alone_b = slippage_of(market, auto, b, b).value();
            &&& both == slippage_of(market, auto, b, a).value()
            &&& both >= alone_a
            &&& both >= alone_b
            &&& both == alone_a || both == alone_b
        }),
{
    lemma_auto_value(market, max, min, a, b);
    lemma_auto_value(market, max, min, b, a);
    lemma_auto_value(market, max, min, a, a);
    lemma_auto_value(market, max, min, b, b);
    lemma_reach();
    let x = token_scale(market, a).value();
    let y = token_scale(market, b).value();
    let (less, more) = if x <= y {
        (x, y)
    } else {
        (y, x)
    };
    lemma_cut_grows(
        min.value(),
        max.value(),
        least_slippage().value(),
        most_slippage().value(),
        less,
        more,
    );
}

/// A swap of a token that was created within the last hundred blocks, whether
/// it is sold or bought, is given the largest slippage that is allowed.
pub proof fn new_tokens_get_the_most(
    market: MarketView,
    height: u64,
    max: DecimalView,
    min: DecimalView,
    new: TokenIdView,
    other: TokenIdView,
    i: int,
)
    requires
        min.value() <= max.value(),
        200 as real <= max.value() * (1_000_000 as real),
        max.value() * (1_000_000 as real) <= 999_800 as real,
        market.height == Some(height),
        lists(market, new, i),
        market.tokens->0[i].1.created_at > 0,
        market.tokens->0[i].1.created_at + 100 > height,
    ensures
        slippage_of(market, SlippageView::Auto { max, min }, new, other).value() == max.value(),
        slippage_of(market, SlippageView::Auto { max, min }, other, new).value() == max.value(),
{
    lemma_info_of(market.tokens->0, new, i);
    lemma_whole_value(whole(1));
    lemma_reach();
    lemma_auto_value(market, max, min, new, new);
    lemma_auto_value(market, max, min, other, other);
    the_more_volatile_token_counts(market, max, min, new, other);
    assert(token_scale(market, new).value() == 1 as real);
    assert((max.value() - min.value()) * (1 as real) == max.value() - min.value()) by (nonlinear_arith);
}

/// A swap of two listed tokens that are old, whose prices have not moved and
/// that nobody trades is given the least slippage that is allowed.
pub proof fn calm_tokens_get_the_least(
    market: MarketView,
    height: u64,
    max: DecimalView,
    min: DecimalView,
    a: TokenIdView,
    b: TokenIdView,
    i: int,
    j: int,
)
    requires
        min.value() <= max.value(),
        200 as real <= min.value() * (1_000_000 as real),
        min.value() * (1_000_000 as real) <= 999_800 as real,
        market.height == Some(height),
        lists(market, a, i),
        lists(market, b, j),
        is_calm(market.tokens->0[i].1, height),
        is_calm(market.tokens->0[j].1, height),
    ensures
        slippage_of(market, SlippageView::Auto { max, min }, a, b).value() == min.value(),
{
    lemma_info_of(market.tokens->0, a, i);
    lemma_info_of(market.tokens->0, b, j);
    lemma_calm(market.tokens->0[i].1, height);
    lemma_calm(market.tokens->0[j].1, height);
    lemma_reach();
    lemma_auto_value(market, max, min, a, b);
    assert((max.value() - min.value()) * (0 as real) == 0 as real) by (nonlinear_arith);
}

/// Whether a token is old, its price has not moved, and nobody trades it.
pub open spec fn is_calm(info: TokenInfoView, height: u64) -> bool {
    info.created_at + 1000 <= height && info.price_before.value() == info.price.value() && info.volume.value()
        == 0 as real
}

/// The limits that ratios are held against are above zero.
proof fn lemma_limits()
    ensures
        fifth().value() > 0 as real,
        halved(1, 1).value() > 0 as real,
        whole(1).value() > 0 as real,
        whole(1).value() == 1 as real,
        whole(0).value() == 0 as real,
{
    lemma_powers();
    lemma_pow_adds(2, 52, 2);
    lemma_pow1(2);
    assert(pow(2, 2) == 4) by {
        lemma_pow_adds(2, 1, 1);
    }
    lemma_halved(3602879701896397, 54);
    lemma_halved(1, 1);
    lemma_whole_value(whole(1));
    lemma_whole_value(whole(0));
    let f = fifth().value();
    assert(f * (18014398509481984int as real) == 3602879701896397int as real);
    let h = halved(1, 1).value();
    assert(h * (2 as real) == 1 as real);
    assert(h > 0 as real) by (nonlinear_arith)
        requires
            h * (2 as real) == 1 as real,
    ;
}

/// A calm token has no volatility.
proof fn lemma_calm(info: TokenInfoView, height: u64)
    requires
        is_calm(info, height),
    ensures
        volatility(info, Some(height)).value() == 0 as real,
{
    lemma_limits();
    lemma_difference_value(info.price_before, info.price);
    let gone = difference_of(info.price_before, info.price);
    lemma_sign(gone);
    lemma_sign(info.volume);
    assert(gone.digits == 0);
    assert(info.volume.digits == 0);
    let nothing = abs_of(gone);
    assert(nothing.digits == 0);
    lemma_sign(nothing);
    assert(quotient_of(nothing, info.price) == nothing);
    let start = whole(0);
    assert(raised_for_price(info, start) == start);
    assert(raised_for_market(info, start) == start);
    assert(raised_for_liquidity(info, start) == start);
}

/// The fixed scales, as numbers.
proof fn lemma_scales()
    ensures
        4_999 as real <= unknown_scale().value() * (1_000_000 as real),
        unknown_scale().value() * (1_000_000 as real) <= 5_001 as real,
        799_999 as real <= unlisted_scale().value() * (1_000_000 as real),
        unlisted_scale().value() * (1_000_000 as real) <= 800_001 as real,
        599_999 as real <= recent_scale().value() * (1_000_000 as real),
        recent_scale().value() * (1_000_000 as real) <= 600_001 as real,
{
    lemma_powers();
    lemma_pow1(2);
    lemma_pow_adds(2, 52, 1);
    lemma_pow_adds(2, 1, 1);
    assert(pow(2, 2) == 4);
    lemma_pow_adds(2, 2, 2);
    assert(pow(2, 4) == 16);
    lemma_pow_adds(2, 4, 4);
    assert(pow(2, 8) == 256);
    lemma_pow_adds(2, 52, 8);
    lemma_halved(5764607523034235, 60);
    lemma_halved(3602879701896397, 52);
    lemma_halved(5404319552844595, 53);
    let u = unknown_scale().value();
    assert(u * (1152921504606846976int as real) == 5764607523034235int as real);
    let l = unlisted_scale().value();
    assert(l * (4503599627370496int as real) == 3602879701896397int as real);
    let t = recent_scale().value();
    assert(t * (9007199254740992int as real) == 5404319552844595int as real);
}

/// Volatility is from nothing to one.
proof fn lemma_volatility(info: TokenInfoView, height: Option<u64>)
    ensures
        0 as real <= volatility(info, height).value(),
        volatility(info, height).value() <= 1 as real,
{
    lemma_scales();
    lemma_limits();
    match height {
        Some(height) => {
            if info.created_at > less_or_zero(height, 100) {
            } else if info.created_at > less_or_zero(height, 1000) {
            } else {
                let start = whole(0);
                let moved = if info.price.digits == 0 {
                    start
                } else {
                    raised_for_market(info, raised_for_price(info, start))
                };
                let all = raised_for_liquidity(info, moved);
                assert(volatility(info, Some(height)) == clamp_of(all, whole(0), whole(1)));
            }
        },
        None => {},
    }
}

/// The scales of tokens of which little is known: four fifths for one that is
/// not listed, three fifths for a listed one of the last thousand blocks that
/// is no newer than a hundred, and half a hundredth where nothing could be
/// learnt; within a millionth. No scale is below nothing or above the whole.
pub proof fn unknown_tokens_have_their_scale(market: MarketView, token: TokenIdView, i: int)
    ensures
        ({
            let scale = token_scale(market, token).value() * (1_000_000 as real);
            &&& 0 as real <= scale && scale <= 1_000_000 as real
            &&& market.tokens is None ==> 4_999 as real <= scale && scale <= 5_001 as real
            &&& (market.tokens matches Some(tokens) && forall|j: int|
                0 <= j < tokens.len() ==> (#[trigger] tokens[j]).0 != token) ==> 799_999 as real <= scale && scale
                <= 800_001 as real
            &&& lists(market, token, i) && market.height is None ==> 4_999 as real <= scale && scale
                <= 5_001 as real
            &&& lists(market, token, i) && market.height is Some && market.height->0 >= 1000
                && market.tokens->0[i].1.created_at + 100 <= market.height->0 < market.tokens->0[i].1.created_at + 1000
                ==> 599_999 as real <= scale && scale <= 600_001 as real
        }),
{
    lemma_scales();
    match market.tokens {
        Some(tokens) => {
            match info_of(tokens, token) {
                Some(info) => {
                    lemma_volatility(info, market.height);
                },
                None => {},
            }
            if lists(market, token, i) {
                lemma_info_of(tokens, token, i);
            }
            if forall|j: int| 0 <= j < tokens.len() ==> (#[trigger] tokens[j]).0 != token {
                lemma_no_info(tokens, token);
            }
        },
        None => {},
    }
}

/// Whatever is asked for, the slippage that is given is neither nothing nor
/// all: it is from a hundredth of a percent to all but that. A fixed one in
/// between is given as it is.
#[verifier::rlimit(50)]
pub proof fn slippage_is_never_all_or_nothing(
    market: MarketView,
    slippage: SlippageView,
    token_in: TokenIdView,
    token_out: TokenIdView,
)
    ensures
        ({
            let given = slippage_of(market, slippage, token_in, token_out).value();
            &&& 100real <= given * 1_000_000real <= 999_901real
            &&& slippage matches SlippageView::Fixed(asked) ==> {
                &&& 200real <= asked.value() * 1_000_000real <= 999_800real ==> given == asked.value()
                &&& asked.value() <= 0real ==> given * 1_000_000real <= 101real
                &&& asked.value() >= 1real ==> given * 1_000_000real >= 999_899real
            }
        }),
{
    lemma_reach();
    let low = least_slippage().value();
    let high = most_slippage().value();
    let given = slippage_of(market, slippage, token_in, token_out).value();
    assert(low < high);
}

/// What a ratio that is over a limit adds, in millionths.
pub open spec fn points(ratio: real, limit: real, by: real) -> real {
    if ratio * 1_000_000real > limit {
        by
    } else {
        0real
    }
}

/// Whether a ratio is a millionth or more away from a fifth, a half and one.
pub open spec fn is_clear(ratio: real) -> bool {
    let r = ratio * 1_000_000real;
    &&& r <= 199_999real || r >= 200_001real
    &&& r <= 499_999real || r >= 500_001real
    &&& r <= 999_999real || r >= 1_000_001real
}

/// How far the price moved in a day, as a part of the price.
pub open spec fn price_moved(info: TokenInfoView) -> real {
    let moved = difference_of(info.price_before, info.price);
    let far = DecimalView {
        digits: if moved.digits < 0 {
            -moved.digits
        } else {
            moved.digits
        },
        scale: moved.scale,
    };
    quotient_of(far, info.price).value()
}

/// How much of the market was traded in a day.
pub open spec fn market_traded(info: TokenInfoView) -> real {
    quotient_of(info.volume, product_of(whole(info.supply), info.price)).value()
}

/// How much of the liquidity was traded in a day.
pub open spec fn liquidity_traded(info: TokenInfoView) -> real {
    quotient_of(info.volume, info.liquidity).value()
}

/// The scale that moving and trading add up to, in millionths.
pub open spec fn movement(info: TokenInfoView) -> real {
    let price = if info.price.value() == 0real {
        0real
    } else {
        points(price_moved(info), 500_000real, 100_000real) + points(price_moved(info), 200_000real, 50_000real)
    };
    let market = if info.price.value() == 0real || product_of(whole(info.supply), info.price).value() == 0real {
        0real
    } else {
        points(market_traded(info), 1_000_000real, 100_000real) + points(market_traded(info), 200_000real, 50_000real)
    };
    let liquidity = if info.liquidity.value() == 0real {
        0real
    } else {
        points(liquidity_traded(info), 1_000_000real, 150_000real) + points(
            liquidity_traded(info),
            500_000real,
            100_000real,
        ) + points(liquidity_traded(info), 200_000real, 50_000real)
    };
    price + market + liquidity
}

/// What scales are raised by and held against, in millionths.
proof fn lemma_steps()
    ensures
        99_999real <= tenth().value() * 1_000_000real <= 100_001real,
        49_999real <= twentieth().value() * 1_000_000real <= 50_001real,
        149_999real <= three_twentieths().value() * 1_000_000real <= 150_001real,
        199_999real < fifth().value() * 1_000_000real < 200_001real,
        one_half().value() * 1_000_000real == 500_000real,
        whole(1).value() == 1real,
        whole(0).value() == 0real,
{
    lemma_limits();
    lemma_powers();
    lemma_pow1(2);
    lemma_pow_adds(2, 1, 1);
    assert(pow(2, 2) == 4);
    lemma_pow_adds(2, 2, 1);
    assert(pow(2, 3) == 8);
    lemma_pow_adds(2, 2, 2);
    assert(pow(2, 4) == 16);
    lemma_pow_adds(2, 52, 2);
    lemma_pow_adds(2, 52, 3);
    lemma_pow_adds(2, 52, 4);
    lemma_halved(3602879701896397, 54);
    lemma_halved(3602879701896397, 55);
    lemma_halved(3602879701896397, 56);
    lemma_halved(5404319552844595, 55);
    lemma_halved(1, 1);
    let f = fifth().value();
    assert(f * (18014398509481984int as real) == 3602879701896397int as real);
    let t = tenth().value();
    assert(t * (36028797018963968int as real) == 3602879701896397int as real);
    let w = twentieth().value();
    assert(w * (72057594037927936int as real) == 3602879701896397int as real);
    let m = three_twentieths().value();
    assert(m * (36028797018963968int as real) == 5404319552844595int as real);
    let h = one_half().value();
    assert(h * (2 as real) == 1 as real);
}

/// A raise adds what a ratio over its limit adds.
proof fn lemma_raised(
    scale: DecimalView,
    ratio: DecimalView,
    limit: DecimalView,
    by: DecimalView,
    bound: real,
    step: real,
)
    requires
        bound - 1real < limit.value() * 1_000_000real < bound + 1real,
        step - 1real <= by.value() * 1_000_000real <= step + 1real,
        ratio.value() * 1_000_000real <= bound - 1real || ratio.value() * 1_000_000real >= bound + 1real,
        bound > 0real,
        step > 0real,
    ensures
        ({
            let added = (raised(scale, ratio, limit, by).value() - scale.value()) * 1_000_000real;
            let points = points(ratio.value(), bound, step);
            points - 1real <= added <= points + 1real
        }),
{
    lemma_sum_value(scale, by);
}

/// A listed token that is older than a thousand blocks has the scale that its
/// movement adds up to, but no more than the whole, up to a hundred-thousandth,
/// where its ratios are not right at their limits: a tenth for a price that
/// moved by more than half and a twentieth for more than a fifth; a tenth for
/// trading more than the market and a twentieth for more than a fifth of it;
/// and three twentieths, a tenth and a twentieth for trading more than the
/// liquidity, half of it and a fifth of it.
#[verifier::rlimit(50)]
pub proof fn old_tokens_are_scaled_by_their_movement(market: MarketView, token: TokenIdView, i: int)
    requires
        lists(market, token, i),
        market.height is Some,
        market.tokens->0[i].1.created_at + 1000 <= market.height->0,
        is_clear(price_moved(market.tokens->0[i].1)),
        is_clear(market_traded(market.tokens->0[i].1)),
        is_clear(liquidity_traded(market.tokens->0[i].1)),
    ensures
        ({
            let scale = token_scale(market, token).value() * 1_000_000real;
            let all = movement(market.tokens->0[i].1);
            let wanted = if all > 1_000_000real {
                1_000_000real
            } else {
                all
            };
            wanted - 10real <= scale <= wanted + 10real
        }),
{
    let info = market.tokens->0[i].1;
    lemma_info_of(market.tokens->0, token, i);
    lemma_steps();
    lemma_sign(info.price);
    lemma_sign(info.liquidity);
    let worth = product_of(whole(info.supply), info.price);
    lemma_sign(worth);
    let half = one_half();
    let most = three_twentieths();
    let start = whole(0);
    let change = quotient_of(abs_of(difference_of(info.price_before, info.price)), info.price);
    assert(change.value() == price_moved(info));
    let one = raised(start, change, half, tenth());
    let two = raised(one, change, fifth(), twentieth());
    lemma_raised(start, change, half, tenth(), 500_000real, 100_000real);
    lemma_raised(one, change, fifth(), twentieth(), 200_000real, 50_000real);
    let traded = quotient_of(info.volume, worth);
    let three = raised(two, traded, whole(1), tenth());
    let four = raised(three, traded, fifth(), twentieth());
    lemma_raised(two, traded, whole(1), tenth(), 1_000_000real, 100_000real);
    lemma_raised(three, traded, fifth(), twentieth(), 200_000real, 50_000real);
    let moved = if info.price.digits == 0 {
        start
    } else if worth.digits == 0 {
        two
    } else {
        four
    };
    let turnover = quotient_of(info.volume, info.liquidity);
    let five = raised(moved, turnover, whole(1), most);
    let six = raised(five, turnover, half, tenth());
    let seven = raised(six, turnover, fifth(), twentieth());
    lemma_raised(moved, turnover, whole(1), most, 1_000_000real, 150_000real);
    lemma_raised(five, turnover, half, tenth(), 500_000real, 100_000real);
    lemma_raised(six, turnover, fifth(), twentieth(), 200_000real, 50_000real);
    let last = if info.liquidity.digits == 0 {
        moved
    } else {
        seven
    };
    assert(token_scale(market, token) == clamp_of(last, whole(0), whole(1)));
}

/// The native coin is listed as its wrapped form is, and every other token as
/// it was. Where the wrapped form is not listed, nothing changes.
pub proof fn native_coin_is_listed_as_its_wrapped_form(
    entries: Seq<(TokenIdView, TokenInfoView)>,
    token: TokenIdView,
)
    ensures
        ({
            let wrapped = info_of(entries, TokenIdView::Nep141("wrap.near"@));
            info_of(with_native(entries), token) == if token is Near && wrapped is Some {
                wrapped
            } else {
                info_of(entries, token)
            }
        }),
{
    let all = with_native(entries);
    if all.len() > entries.len() {
        assert(all.subrange(1, all.len() as int) =~= entries);
    }
}

/// The price of one unit is the listed one, which is in millionths, over a
/// million, for prices of up to a hundred digits.
pub proof fn prices_are_in_millionths(token_id: Seq<char>, price: Seq<char>, raw: DecimalView)
    requires
        decimal_of_text(price) == Some(raw),
        0 <= raw.digits < hundred_digits(),
    ensures
        unit_price(token_id, price) matches Some((token, unit)) ==> {
            &&& token == token_id
            &&& unit.value() * 1_000_000real == raw.value()
        },
{
    lemma_pow1(10);
    lemma_pow_adds(10, 1, 1);
    assert(pow(10, 2) == 100);
    lemma_pow_adds(10, 2, 2);
    assert(pow(10, 4) == 10_000);
    lemma_pow_adds(10, 4, 2);
    assert(pow(10, 6) == 1_000_000);
    lemma_quotient_exact(raw.digits as nat, 6);
    let by = whole(1_000_000);
    let flat = quotient_of(DecimalView { digits: raw.digits, scale: 0 }, by);
    let unit = quotient_of(raw, by);
    assert(unit.digits == flat.digits && unit.scale == flat.scale + raw.scale);
    lemma_ten_to_sum(flat.scale, raw.scale);
    lemma_ten_to_positive(flat.scale);
    lemma_ten_to_positive(raw.scale);
    let (a, b, x, d) = (ten_to(flat.scale), ten_to(raw.scale), flat.digits as real, raw.digits as real);
    let c = ten_to(unit.scale);
    assert((x / c) * 1_000_000real == d / b) by (nonlinear_arith)
        requires
            c == a * b,
            a > 0real,
            b > 0real,
            (x / a) * 1_000_000real == d,
    ;
}

} // verus!
