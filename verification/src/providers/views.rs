//! What contracts and path finders are asked, without a transaction.

use vstd::prelude::*;

use crate::decimal::{text_of_decimal, Decimal, DecimalView};
use crate::json::{json_bytes, no_fields, to_vec, Json, JsonObject, JsonView};
use crate::pathfinder::display::hops_name;
use crate::pathfinder::search::MaxHops;
use crate::shared_utils::{amount_json, amount_text};
use crate::text::{decimal_text, join3, u128_to_text};
use crate::types::Amount;

verus! {

/// A question to a contract: a method, and its arguments in JSON.
#[derive(Debug, PartialEq)]
pub struct ViewCall {
    pub method: String,
    pub args: Vec<u8>,
}

/// What a question is.
pub struct ViewCallView {
    pub method: Seq<char>,
    pub args: Seq<u8>,
}

impl View for ViewCall {
    type V = ViewCallView;

    open spec fn view(&self) -> ViewCallView {
        ViewCallView { method: self.method@, args: self.args@ }
    }
}

/// The question, where there is one.
pub open spec fn opt_call(call: Option<ViewCall>) -> Option<ViewCallView> {
    match call {
        Some(call) => Some(call@),
        None => None,
    }
}

/// A question with arguments.
pub open spec fn asked_with(method: Seq<char>, args: JsonView) -> ViewCallView {
    ViewCallView { method, args: json_bytes(args) }
}

/// A question with arguments.
pub(crate) fn ask_with(method: &str, args: Json) -> (r: ViewCall)
    ensures
        r@ == asked_with(method@, args@),
{
    ViewCall { method: method.to_string(), args: to_vec(&args) }
}

/// What a bonding curve is asked: what an amount comes to.
pub open spec fn emulate_call(input_token: Seq<char>, output_token: Seq<char>, amount: Amount) -> ViewCallView {
    let tokens = no_fields().push(("input_token"@, JsonView::Text(input_token))).push(
        ("output_token"@, JsonView::Text(output_token)),
    );
    match amount {
        Amount::AmountIn(amount) => asked_with(
            "emulate_swap"@,
            JsonView::Object(tokens.push(("amount"@, amount_json(amount)))),
        ),
        Amount::AmountOut(amount) => asked_with(
            "emulate_swap_by_out"@,
            JsonView::Object(tokens.push(("amount_out"@, amount_json(amount)))),
        ),
    }
}

/// What a bonding curve is asked: what an amount comes to.
pub(crate) fn ask_to_emulate(input_token: &str, output_token: &str, amount: Amount) -> (r: ViewCall)
    ensures
        r@ == emulate_call(input_token@, output_token@, amount),
{
    let tokens: JsonObject = JsonObject::new().with_text("input_token", input_token).with_text(
        "output_token",
        output_token,
    );
    match amount {
        Amount::AmountIn(amount) => ask_with("emulate_swap", tokens.with("amount", amount_text(amount)).done()),
        Amount::AmountOut(amount) => ask_with(
            "emulate_swap_by_out",
            tokens.with("amount_out", amount_text(amount)).done(),
        ),
    }
}

/// Where a path finder is asked for a path: the tokens, the hops, the slippage
/// and the amount, under the key of its side.
pub open spec fn path_url(
    host: Seq<char>,
    token_in: Seq<char>,
    token_out: Seq<char>,
    hops: MaxHops,
    slippage: DecimalView,
    amount: Amount,
) -> Seq<char> {
    let tokens = host + "/findPath?tokenIn="@ + token_in + "&tokenOut="@ + token_out;
    let terms = tokens + "&maxHops="@ + hops_name(hops) + "&slippage="@ + text_of_decimal(slippage);
    match amount {
        Amount::AmountIn(amount) => terms + "&amountIn="@ + decimal_text(amount as nat),
        Amount::AmountOut(amount) => terms + "&amountOut="@ + decimal_text(amount as nat),
    }
}

/// Where a path finder is asked for a path.
pub(crate) fn url_for_path(
    host: &str,
    token_in: &str,
    token_out: &str,
    hops: MaxHops,
    slippage: &Decimal,
    amount: Amount,
) -> (r: String)
    ensures
        r@ == path_url(host@, token_in@, token_out@, hops, slippage@, amount),
{
    let tokens: String = join3(join3(host, "/findPath?tokenIn=", token_in).as_str(), "&tokenOut=", token_out);
    let terms: String = join3(
        join3(tokens.as_str(), "&maxHops=", hops.name()).as_str(),
        "&slippage=",
        slippage.to_text().as_str(),
    );
    match amount {
        Amount::AmountIn(amount) => join3(terms.as_str(), "&amountIn=", u128_to_text(amount).as_str()),
        Amount::AmountOut(amount) => join3(terms.as_str(), "&amountOut=", u128_to_text(amount).as_str()),
    }
}

} // verus!
