//! What instructions do to what an account holds.

use vstd::prelude::*;

use crate::asset::{asset_text, AssetIdView};
use crate::json::{json_bytes, JsonView};
use crate::merging::{merging_keeps_the_steps, steps};
use crate::network::NetworkState;
use crate::router::finished;
use crate::shared_utils::{
    contract_storage_if_needed, conversion, deposit_instructions, nep141_of, register_instructions, storage_if_needed,
    to_native, to_nep141, withdraw_instructions,
};
use crate::text::decimal_text;
use crate::types::{ActionView, InstructionView, RequestView, RouteView, TokenIdView};

verus! {

/// A way of moving an amount of a token from one place to another.
pub enum Move {
    /// Out of the inner balance on Rhea, as it is or as the native coin.
    OutOfRhea { contract: Seq<char>, as_native: bool },
    /// Out of the inner balance on the Intear DEX.
    OutOfIntear(AssetIdView),
    /// From the native coin to its wrapped form.
    Wrap,
    /// From the wrapped form to the native coin.
    Unwrap,
    /// From the wallet into the inner balance on Rhea.
    IntoRhea(Seq<char>),
    /// From the wallet into the inner balance on the Intear DEX.
    IntoIntear(Seq<char>),
    /// The native coin into the inner balance on the Intear DEX.
    NativeIntoIntear,
}

/// Where an amount is after a move, if it was where the move takes it from.
pub open spec fn moved(at: TokenIdView, step: Move) -> Option<TokenIdView> {
    match step {
        Move::OutOfRhea { contract, as_native } => if at != TokenIdView::Nep141OnRhea(contract) {
            None
        } else if !as_native {
            Some(TokenIdView::Nep141(contract))
        } else if contract == "wrap.near"@ {
            Some(TokenIdView::Near)
        } else {
            None
        },
        Move::OutOfIntear(asset) => if at != TokenIdView::TokenOnIntearDex(asset) {
            None
        } else {
            match asset {
                AssetIdView::Near => Some(TokenIdView::Near),
                AssetIdView::Nep141(contract) => Some(TokenIdView::Nep141(contract)),
                _ => None,
            }
        },
        Move::Wrap => if at is Near {
            Some(TokenIdView::Nep141("wrap.near"@))
        } else {
            None
        },
        Move::Unwrap => if at == TokenIdView::Nep141("wrap.near"@) {
            Some(TokenIdView::Near)
        } else {
            None
        },
        Move::IntoRhea(contract) => if at == TokenIdView::Nep141(contract) {
            Some(TokenIdView::Nep141OnRhea(contract))
        } else {
            None
        },
        Move::IntoIntear(contract) => if at == TokenIdView::Nep141(contract) {
            Some(TokenIdView::TokenOnIntearDex(AssetIdView::Nep141(contract)))
        } else {
            None
        },
        Move::NativeIntoIntear => if at is Near {
            Some(TokenIdView::TokenOnIntearDex(AssetIdView::Near))
        } else {
            None
        },
    }
}

/// Where an amount is after the moves, if each finds it where it takes it from.
pub open spec fn moved_along(at: TokenIdView, moves: Seq<Move>) -> Option<TokenIdView>
    decreases moves.len(),
{
    if moves.len() == 0 {
        Some(at)
    } else {
        match moved_along(at, moves.drop_last()) {
            Some(there) => moved(there, moves.last()),
            None => None,
        }
    }
}

/// A call of a contract.
pub open spec fn called(
    contract: Seq<char>,
    method: Seq<char>,
    args: JsonView,
    tgas: u64,
    deposit: u128,
) -> InstructionView {
    InstructionView::Transaction {
        receiver: contract,
        actions: seq![ActionView { method, args: json_bytes(args), gas: (tgas * 1_000_000_000_000) as u64, deposit }],
    }
}

/// The instruction that moves an amount.
pub open spec fn written(step: Move, amount: u128) -> InstructionView {
    let digits = JsonView::Text(decimal_text(amount as nat));
    match step {
        Move::OutOfRhea { contract, as_native } => called(
            "v2.ref-finance.near"@,
            "withdraw"@,
            JsonView::Object(
                seq![
                    ("token_id"@, JsonView::Text(contract)),
                    ("amount"@, digits),
                    ("skip_unwrap_near"@, JsonView::Bool(!as_native)),
                ],
            ),
            50,
            1,
        ),
        Move::OutOfIntear(asset) => called(
            "dex.intear.near"@,
            "withdraw"@,
            JsonView::Object(
                seq![
                    ("asset_id"@, JsonView::Text(asset_text(asset))),
                    ("amount"@, JsonView::Object(seq![("Exact"@, digits)])),
                ],
            ),
            50,
            1,
        ),
        Move::Wrap => called("wrap.near"@, "near_deposit"@, JsonView::Object(Seq::empty()), 2, amount),
        Move::Unwrap => called(
            "wrap.near"@,
            "near_withdraw"@,
            JsonView::Object(seq![("amount"@, digits)]),
            5,
            1,
        ),
        Move::IntoRhea(contract) => called(
            contract,
            "ft_transfer_call"@,
            JsonView::Object(
                seq![
                    ("receiver_id"@, JsonView::Text("v2.ref-finance.near"@)),
                    ("amount"@, digits),
                    ("msg"@, JsonView::Text(""@)),
                ],
            ),
            50,
            1,
        ),
        Move::IntoIntear(contract) => called(
            contract,
            "ft_transfer_call"@,
            JsonView::Object(
                seq![
                    ("receiver_id"@, JsonView::Text("dex.intear.near"@)),
                    ("amount"@, digits),
                    ("msg"@, JsonView::Text(""@)),
                ],
            ),
            50,
            1,
        ),
        Move::NativeIntoIntear => called(
            "dex.intear.near"@,
            "deposit_near"@,
            JsonView::Object(Seq::empty()),
            10,
            amount,
        ),
    }
}

/// The instructions that move an amount, one after the other.
pub open spec fn all_written(moves: Seq<Move>, amount: u128) -> Seq<InstructionView> {
    Seq::new(moves.len(), |i: int| written(moves[i], amount))
}

/// Whether an instruction only pays for storage and registers.
pub open spec fn only_registers(instruction: InstructionView) -> bool {
    instruction matches InstructionView::Transaction { actions, .. } && forall|i: int|
        0 <= i < actions.len() ==> (#[trigger] actions[i]).method == "storage_deposit"@ || actions[i].method
            == "register_tokens"@ || actions[i].method == "register_assets"@
}

/// Whether instructions are registrations, followed by moves that bring an
/// amount from one place to another, each finding it where the one before left
/// it.
pub open spec fn brings(
    instructions: Seq<InstructionView>,
    registrations: Seq<InstructionView>,
    moves: Seq<Move>,
    from: TokenIdView,
    to: TokenIdView,
    amount: u128,
) -> bool {
    &&& instructions == registrations + all_written(moves, amount)
    &&& forall|i: int| 0 <= i < registrations.len() ==> only_registers(#[trigger] registrations[i])
    &&& moved_along(from, moves) == Some(to)
}

/// The contract of the fungible token that a token is a form of.
pub open spec fn form_of(token: TokenIdView) -> Option<Seq<char>> {
    match token {
        TokenIdView::Near => Some("wrap.near"@),
        TokenIdView::Nep141(contract) => Some(contract),
        TokenIdView::Nep141OnRhea(contract) => Some(contract),
        TokenIdView::TokenOnIntearDex(AssetIdView::Near) => Some("wrap.near"@),
        TokenIdView::TokenOnIntearDex(AssetIdView::Nep141(contract)) => Some(contract),
        TokenIdView::TokenOnIntearDex(_) => None,
    }
}

/// What takes an amount out of an inner balance into the wallet, as the native
/// coin where Rhea is asked to unwrap it.
spec fn way_out(from: TokenIdView, as_native: bool) -> Seq<Move> {
    match from {
        TokenIdView::Nep141OnRhea(contract) => seq![Move::OutOfRhea { contract, as_native }],
        TokenIdView::TokenOnIntearDex(asset) => seq![Move::OutOfIntear(asset)],
        _ => Seq::empty(),
    }
}

/// What takes an amount from the wallet into an inner balance.
spec fn way_in(to: TokenIdView) -> Seq<Move> {
    match to {
        TokenIdView::Nep141OnRhea(contract) => seq![Move::IntoRhea(contract)],
        TokenIdView::TokenOnIntearDex(AssetIdView::Nep141(contract)) => seq![Move::IntoIntear(contract)],
        TokenIdView::TokenOnIntearDex(AssetIdView::Near) => seq![Move::NativeIntoIntear],
        _ => Seq::empty(),
    }
}

/// Where a token is in the wallet.
spec fn in_wallet(token: TokenIdView) -> TokenIdView {
    match token {
        TokenIdView::Nep141OnRhea(contract) => TokenIdView::Nep141(contract),
        TokenIdView::TokenOnIntearDex(AssetIdView::Near) => TokenIdView::Near,
        TokenIdView::TokenOnIntearDex(AssetIdView::Nep141(contract)) => TokenIdView::Nep141(contract),
        _ => token,
    }
}

/// What wraps or unwraps between two tokens in the wallet.
spec fn way_between(held: TokenIdView, wanted: TokenIdView) -> Seq<Move> {
    if held is Near && !(wanted is Near) {
        seq![Move::Wrap]
    } else if !(held is Near) && wanted is Near {
        seq![Move::Unwrap]
    } else {
        Seq::empty()
    }
}

/// Moves after moves.
proof fn lemma_along(at: TokenIdView, first: Seq<Move>, second: Seq<Move>)
    ensures
        moved_along(at, first + second) == match moved_along(at, first) {
            Some(there) => moved_along(there, second),
            None => None,
        },
    decreases second.len(),
{
    if second.len() == 0 {
        assert(first + second =~= first);
    } else {
        assert((first + second).drop_last() =~= first + second.drop_last());
        lemma_along(at, first, second.drop_last());
    }
}

/// One move, or none.
proof fn lemma_single(at: TokenIdView, step: Move)
    ensures
        moved_along(at, seq![step]) == moved(at, step),
        moved_along(at, Seq::<Move>::empty()) == Some(at),
{
    assert(seq![step].drop_last() =~= Seq::<Move>::empty());
}

/// The moves of a conversion as they are written.
proof fn lemma_written(from: TokenIdView, to: TokenIdView, amount: u128)
    requires
        amount > 0,
        form_of(from) is Some,
        form_of(from) == form_of(to),
    ensures
        ({
            let as_native = from == TokenIdView::Nep141OnRhea("wrap.near"@) && in_wallet(to) is Near;
            let held = if as_native {
                TokenIdView::Near
            } else {
                in_wallet(from)
            };
            &&& withdraw_instructions(from, to, amount) == all_written(way_out(from, as_native), amount)
            &&& moved_along(from, way_out(from, as_native)) == Some(held)
            &&& moved_along(held, way_between(held, in_wallet(to))) == Some(in_wallet(to))
            &&& moved_along(in_wallet(to), way_in(to)) == Some(to)
            &&& deposit_instructions(to, amount) == all_written(way_in(to), amount)
        }),
{
    let as_native = from == TokenIdView::Nep141OnRhea("wrap.near"@) && in_wallet(to) is Near;
    let held = if as_native {
        TokenIdView::Near
    } else {
        in_wallet(from)
    };
    let out = way_out(from, as_native);
    let back = way_in(to);
    lemma_arguments(amount);
    if out.len() > 0 {
        lemma_single(from, out[0]);
        assert(out =~= seq![out[0]]);
    }
    lemma_single(held, Move::Wrap);
    lemma_single(held, Move::Unwrap);
    if back.len() > 0 {
        lemma_single(in_wallet(to), back[0]);
        assert(back =~= seq![back[0]]);
    }
    assert(withdraw_instructions(from, to, amount) =~= all_written(out, amount));
    assert(deposit_instructions(to, amount) =~= all_written(back, amount));
}

/// Arguments that are put together one by one.
proof fn lemma_arguments(amount: u128)
    ensures
        forall|a: (Seq<char>, JsonView)| crate::json::no_fields().push(a) == #[trigger] seq![a],
        forall|a: (Seq<char>, JsonView), b: (Seq<char>, JsonView)|
            crate::json::no_fields().push(a).push(b) == #[trigger] seq![a, b],
        forall|a: (Seq<char>, JsonView), b: (Seq<char>, JsonView), c: (Seq<char>, JsonView)|
            crate::json::no_fields().push(a).push(b).push(c) == #[trigger] seq![a, b, c],
{
    assert forall|a: (Seq<char>, JsonView)| crate::json::no_fields().push(a) == #[trigger] seq![a] by {
        assert(crate::json::no_fields().push(a) =~= seq![a]);
    }
    assert forall|a: (Seq<char>, JsonView), b: (Seq<char>, JsonView)|
        crate::json::no_fields().push(a).push(b) == #[trigger] seq![a, b] by {
        assert(crate::json::no_fields().push(a).push(b) =~= seq![a, b]);
    }
    assert forall|a: (Seq<char>, JsonView), b: (Seq<char>, JsonView), c: (Seq<char>, JsonView)|
        crate::json::no_fields().push(a).push(b).push(c) == #[trigger] seq![a, b, c] by {
        assert(crate::json::no_fields().push(a).push(b).push(c) =~= seq![a, b, c]);
    }
}

/// What a conversion does: after registrations, its instructions bring the
/// amount from the one form of a token to the other, each taking it from where
/// the one before left it.
#[verifier::rlimit(50)]
pub proof fn conversion_brings_the_amount(
    network: NetworkState,
    from: TokenIdView,
    to: TokenIdView,
    amount: u128,
    trader: Option<Seq<char>>,
)
    requires
        amount > 0,
        form_of(from) is Some,
        form_of(from) == form_of(to),
    ensures
        exists|registrations: Seq<InstructionView>, moves: Seq<Move>|
            #[trigger] brings(
                conversion(network, from, to, amount, trader),
                registrations,
                moves,
                from,
                to,
                amount,
            ),
{
    if from == to {
        assert(Seq::<InstructionView>::empty() + all_written(Seq::empty(), amount) =~= conversion(
            network,
            from,
            to,
            amount,
            trader,
        ));
        assert(brings(
            conversion(network, from, to, amount, trader),
            Seq::empty(),
            Seq::empty(),
            from,
            to,
            amount,
        ));
    } else {
        lemma_written(from, to, amount);
        lemma_arguments(amount);
        let as_native = from == TokenIdView::Nep141OnRhea("wrap.near"@) && in_wallet(to) is Near;
        let held = if as_native {
            TokenIdView::Near
        } else {
            in_wallet(from)
        };
        let out = way_out(from, as_native);
        let between = way_between(held, in_wallet(to));
        let back = way_in(to);
        let registrations = register_instructions(network, to, trader);
        let moves = out + between + back;
        lemma_along(from, out, between);
        lemma_along(from, out + between, back);
        let all = conversion(network, from, to, amount, trader);
        let rewrapped = all.subrange(
            registrations.len() + out.len() as int,
            all.len() - back.len(),
        );
        assert(rewrapped =~= all_written(between, amount));
        assert(all =~= registrations + all_written(moves, amount));
        lemma_registers(network, to, trader);
        assert(brings(all, registrations, moves, from, to, amount));
    }
}

/// The registrations of a conversion only register.
proof fn lemma_registers(network: NetworkState, to: TokenIdView, trader: Option<Seq<char>>)
    ensures
        forall|i: int|
            0 <= i < register_instructions(network, to, trader).len() ==> only_registers(
                #[trigger] register_instructions(network, to, trader)[i],
            ),
{
}

/// What turns a token into a fungible token in the wallet: there is one exactly
/// where the token is a form of it, and the instructions bring the amount
/// there.
#[verifier::rlimit(50)]
pub proof fn wallet_form_is_reached(token: TokenIdView, amount: u128)
    ensures
        nep141_of(token) == form_of(token),
        to_nep141(token, amount) is Some <==> form_of(token) is Some,
        to_nep141(token, amount) matches Some((_, contract)) ==> form_of(token) == Some(contract),
        form_of(token) is Some && amount > 0 ==> exists|moves: Seq<Move>| #[trigger]
            brings(
                (to_nep141(token, amount)->0).0,
                Seq::empty(),
                moves,
                token,
                TokenIdView::Nep141(form_of(token)->0),
                amount,
            ),
{
    if form_of(token) is Some && amount > 0 {
        lemma_arguments(amount);
        let held = in_wallet(token);
        let out = way_out(token, false);
        let between = if held is Near {
            seq![Move::Wrap]
        } else {
            Seq::empty()
        };
        let moves = out + between;
        if out.len() > 0 {
            lemma_single(token, out[0]);
            assert(out =~= seq![out[0]]);
        }
        lemma_single(held, Move::Wrap);
        lemma_along(token, out, between);
        let (instructions, contract) = to_nep141(token, amount)->0;
        assert(instructions =~= Seq::<InstructionView>::empty() + all_written(moves, amount));
        assert(form_of(token) == Some(contract));
        assert(brings(
            (to_nep141(token, amount)->0).0,
            Seq::empty(),
            moves,
            token,
            TokenIdView::Nep141(form_of(token)->0),
            amount,
        ));
    }
}

/// What turns a token into the native coin: there is something exactly where
/// the token is it, or is a form of it and there is something to turn; and the
/// instructions bring the amount there.
pub proof fn native_form_is_reached(token: TokenIdView, amount: u128)
    ensures
        to_native(token, amount) is Some <==> token is Near || (amount > 0 && form_of(token) == Some("wrap.near"@)),
        to_native(token, amount) matches Some(instructions) ==> exists|moves: Seq<Move>| #[trigger]
            brings(instructions, Seq::empty(), moves, token, TokenIdView::Near, amount),
{
    match to_native(token, amount) {
        Some(instructions) => {
            lemma_arguments(amount);
            let as_native = token is Nep141OnRhea;
            let held = if as_native {
                TokenIdView::Near
            } else {
                in_wallet(token)
            };
            let out = way_out(token, as_native);
            let between = way_between(held, TokenIdView::Near);
            let moves = out + between;
            if out.len() > 0 {
                lemma_single(token, out[0]);
                assert(out =~= seq![out[0]]);
            }
            lemma_single(held, Move::Unwrap);
            lemma_along(token, out, between);
            assert(instructions =~= Seq::<InstructionView>::empty() + all_written(moves, amount));
            assert(brings(instructions, Seq::empty(), moves, token, TokenIdView::Near, amount));
        },
        None => {},
    }
}

/// How much of a route's output is sure to be there: all of it where the
/// request fixes it, and where the route promises what it estimates.
pub open spec fn sure_output(request: RequestView, route: RouteView) -> Option<u128> {
    if request.amount is AmountOut && route.estimated is AmountIn && route.worst_case is AmountIn {
        Some(request.amount->AmountOut_0)
    } else if request.amount is AmountIn && route.estimated is AmountOut && route.worst_case == route.estimated {
        Some(route.estimated->AmountOut_0)
    } else {
        None
    }
}

/// What a finished route does. Where its output is sure, and is another form
/// of the token that is wanted, it does what the route does, then registers,
/// then brings the output there. Otherwise it does what the route does.
#[verifier::rlimit(50)]
pub proof fn finished_route_delivers(request: RequestView, network: NetworkState, route: RouteView)
    ensures
        ({
            let done = steps(finished(request, network, route).instructions);
            let amount = sure_output(request, route);
            if amount is None || route.needs_unwrap || route.token_output == request.token_out {
                done == steps(route.instructions)
            } else {
                form_of(route.token_output) is Some && form_of(route.token_output) == form_of(request.token_out)
                    && amount->0 > 0 ==> exists|
                    more: Seq<InstructionView>,
                    registrations: Seq<InstructionView>,
                    moves: Seq<Move>,
                | #[trigger]
                    brings(more, registrations, moves, route.token_output, request.token_out, amount->0) && done
                        == steps(route.instructions + more)
            }
        }),
        finished(request, network, route) == (RouteView {
            instructions: finished(request, network, route).instructions,
            ..route
        }),
{
    merging_keeps_the_steps(crate::router::delivered(request, network, route));
    match sure_output(request, route) {
        Some(amount) => {
            if route.token_output == request.token_out {
                assert(route.instructions + Seq::<InstructionView>::empty() =~= route.instructions);
            } else if !route.needs_unwrap && form_of(route.token_output) is Some && form_of(route.token_output)
                == form_of(request.token_out) && amount > 0 {
                conversion_brings_the_amount(
                    network,
                    route.token_output,
                    request.token_out,
                    amount,
                    request.trader,
                );
            }
        },
        None => {},
    }
}

/// Whether an account can hold a token: it has paid for storage where the
/// token is, and is registered there.
pub open spec fn can_hold(network: NetworkState, account: Seq<char>, token: TokenIdView) -> bool {
    match token {
        TokenIdView::Near => true,
        TokenIdView::Nep141(contract) => {
            &&& network.storage_totals.contains_key((account, contract))
            &&& network.storage_totals[(account, contract)] > 0
        },
        TokenIdView::Nep141OnRhea(contract) => {
            &&& network.rhea_available.contains_key(account)
            &&& network.rhea_available[account] > 10_000_000_000_000_000_000_000
            &&& network.rhea_registered.contains_key((account, contract))
            &&& network.rhea_registered[(account, contract)]
        },
        TokenIdView::TokenOnIntearDex(asset) => {
            &&& network.intear_available.contains_key(account)
            &&& network.intear_available[account] > 1_000_000_000_000_000_000_000
            &&& network.intear_registered.contains_key((account, asset))
            &&& network.intear_registered[(account, asset)]
        },
    }
}

/// An action of a contract.
pub open spec fn action(method: Seq<char>, args: JsonView, tgas: u64, deposit: u128) -> ActionView {
    ActionView { method, args: json_bytes(args), gas: (tgas * 1_000_000_000_000) as u64, deposit }
}

/// The action that pays for the caller's storage on a contract.
pub open spec fn pays_own_storage(deposit: u128, registration_only: bool) -> ActionView {
    action(
        "storage_deposit"@,
        JsonView::Object(seq![("registration_only"@, JsonView::Bool(registration_only))]),
        10,
        deposit,
    )
}

/// The action that pays for another account's storage on a token's contract.
pub open spec fn pays_storage_of(account: Seq<char>) -> ActionView {
    action(
        "storage_deposit"@,
        JsonView::Object(
            seq![("registration_only"@, JsonView::Bool(true)), ("account_id"@, JsonView::Text(account))],
        ),
        10,
        1_250_000_000_000_000_000_000,
    )
}

/// The instructions that let the caller hold a token.
pub open spec fn opens(token: TokenIdView) -> Seq<InstructionView> {
    match token {
        TokenIdView::Near => Seq::empty(),
        TokenIdView::Nep141(contract) => seq![
            InstructionView::Transaction {
                receiver: contract,
                actions: seq![pays_own_storage(1_250_000_000_000_000_000_000, true)],
            },
        ],
        TokenIdView::Nep141OnRhea(contract) => seq![
            InstructionView::Transaction {
                receiver: "v2.ref-finance.near"@,
                actions: seq![
                    pays_own_storage(10_000_000_000_000_000_000_000, false),
                    action(
                        "register_tokens"@,
                        JsonView::Object(seq![("token_ids"@, JsonView::Array(seq![JsonView::Text(contract)]))]),
                        10,
                        1,
                    ),
                ],
            },
        ],
        TokenIdView::TokenOnIntearDex(asset) => seq![
            InstructionView::Transaction {
                receiver: "dex.intear.near"@,
                actions: seq![
                    action(
                        "storage_deposit"@,
                        JsonView::Object(Seq::empty()),
                        10,
                        5_000_000_000_000_000_000_000,
                    ),
                    action(
                        "register_assets"@,
                        JsonView::Object(seq![("asset_ids"@, JsonView::Array(seq![JsonView::Text(asset_text(asset))]))]),
                        10,
                        1,
                    ),
                ],
            },
        ],
    }
}

/// A trader who can hold a token pays for nothing; one who cannot pays for
/// storage and registers where the token is; and where it is not known who
/// trades, nobody does.
pub proof fn storage_is_paid_where_it_is_missing(
    network: NetworkState,
    token: TokenIdView,
    trader: Option<Seq<char>>,
    contract: Seq<char>,
    amount: u128,
)
    ensures
        storage_if_needed(network, token, trader) == if trader is Some && !can_hold(network, trader->0, token) {
            opens(token)
        } else {
            Seq::empty()
        },
        contract_storage_if_needed(network, contract, trader, amount) == if trader is Some && !can_hold(
            network,
            trader->0,
            TokenIdView::Nep141(contract),
        ) {
            seq![InstructionView::Transaction { receiver: contract, actions: seq![pays_own_storage(amount, true)] }]
        } else {
            Seq::empty()
        },
{
    lemma_arguments(amount);
    lemma_items();
}

/// Items that are put together one by one.
proof fn lemma_items()
    ensures
        forall|a: JsonView| crate::json::no_items().push(a) == #[trigger] seq![a],
{
    assert forall|a: JsonView| crate::json::no_items().push(a) == #[trigger] seq![a] by {
        assert(crate::json::no_items().push(a) =~= seq![a]);
    }
}

/// The contract of the exchange that an inner balance is on.
pub open spec fn keeper_of(token: TokenIdView) -> Seq<char> {
    if token is Nep141OnRhea {
        "v2.ref-finance.near"@
    } else {
        "dex.intear.near"@
    }
}

/// What is registered before an amount is brought into an inner balance: the
/// trader there, where that is missing; and, on the contract of the token, the
/// trader and the exchange, each where that is missing. Nothing is registered
/// for the wallet.
#[verifier::rlimit(50)]
pub proof fn deposits_find_what_they_need(network: NetworkState, to: TokenIdView, trader: Option<Seq<char>>)
    ensures
        to is Near || to is Nep141 ==> register_instructions(network, to, trader) == Seq::<InstructionView>::empty(),
        to == TokenIdView::TokenOnIntearDex(AssetIdView::Near) ==> register_instructions(network, to, trader)
            == storage_if_needed(network, to, trader),
        (to is Nep141OnRhea || (to is TokenOnIntearDex && to->TokenOnIntearDex_0 is Nep141)) ==> {
            let contract = form_of(to)->0;
            let token = TokenIdView::Nep141(contract);
            let traders = if trader is Some && !can_hold(network, trader->0, token) {
                seq![pays_own_storage(1_250_000_000_000_000_000_000, true)]
            } else {
                Seq::empty()
            };
            let keepers = if !can_hold(network, keeper_of(to), token) {
                seq![pays_storage_of(keeper_of(to))]
            } else {
                Seq::empty()
            };
            let actions = traders + keepers;
            register_instructions(network, to, trader) == storage_if_needed(network, to, trader) + (if actions.len()
                == 0 {
                Seq::empty()
            } else {
                seq![InstructionView::Transaction { receiver: contract, actions }]
            })
        },
{
    lemma_arguments(0);
    lemma_items();
}

} // verus!
