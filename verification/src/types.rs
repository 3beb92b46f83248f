//! Requests for swaps, and the routes that answer them.

use vstd::prelude::*;

use crate::account::{opt_account, valid_account_id, AccountId};
use crate::asset::{
    asset_text, asset_text_reads_back, lemma_account_without_colon, lemma_cut_joined, parse_asset, valid_asset,
    AssetId, AssetIdView, ParseAssetError,
};
use crate::decimal::{Decimal, DecimalView};
use crate::ident::{copy_all, Ident};
use crate::text::{cut_once, join, lemma_first_index, same_text, split_once};

verus! {

/// The amount that a request fixes, or that a route comes to.
#[derive(Clone, Copy, Debug, PartialEq, Eq, Structural)]
pub enum Amount {
    AmountIn(u128),
    AmountOut(u128),
}

/// An exchange that is asked for routes.
#[derive(Clone, Copy, Debug, PartialEq, Eq, Structural)]
pub enum DexId {
    Rhea,
    NearIntents,
    Veax,
    Aidols,
    GraFun,
    Wrap,
    RheaDcl,
    MetaPool,
    Linear,
    XRhea,
    RNear,
    Plach,
}

/// How far a route may fall short of its estimate.
#[derive(Clone, Debug, PartialEq)]
pub enum Slippage {
    /// Between two bounds, as the tokens are volatile.
    Auto { max_slippage: Decimal, min_slippage: Decimal },
    Fixed { slippage: Decimal },
}

/// How far a route may fall short of its estimate.
pub enum SlippageView {
    Auto { max: DecimalView, min: DecimalView },
    Fixed(DecimalView),
}

impl View for Slippage {
    type V = SlippageView;

    open spec fn view(&self) -> SlippageView {
        match self {
            Slippage::Auto { max_slippage, min_slippage } => SlippageView::Auto {
                max: max_slippage@,
                min: min_slippage@,
            },
            Slippage::Fixed { slippage } => SlippageView::Fixed(slippage@),
        }
    }
}

impl Slippage {
    /// Whether the numbers are within what can be calculated with.
    pub fn is_usable(&self) -> (r: bool)
        ensures
            r == self@.usable(),
    {
        match self {
            Slippage::Auto { max_slippage, min_slippage } => max_slippage.is_usable() && min_slippage.is_usable(),
            Slippage::Fixed { slippage } => slippage.is_usable(),
        }
    }
}

impl SlippageView {
    /// Whether the numbers are within what can be calculated with.
    pub open spec fn usable(self) -> bool {
        match self {
            SlippageView::Auto { max, min } => max.usable() && min.usable(),
            SlippageView::Fixed(slippage) => slippage.usable(),
        }
    }

    /// Whether the bounds are in order, and the numbers within what can be
    /// calculated with.
    pub open spec fn valid(self) -> bool {
        match self {
            SlippageView::Auto { max, min } => self.usable() && min.value() <= max.value(),
            SlippageView::Fixed(_) => self.usable(),
        }
    }
}

/// A token, and where it is held.
#[derive(Clone, Debug, PartialEq)]
pub enum TokenId {
    /// The native coin.
    Near,
    /// A fungible token in the wallet.
    Nep141(AccountId),
    /// A fungible token in the inner balance on Rhea.
    Nep141OnRhea(AccountId),
    /// An asset in the inner balance on the Intear DEX.
    TokenOnIntearDex(AssetId),
}

/// A token, and where it is held.
pub enum TokenIdView {
    Near,
    Nep141(Seq<char>),
    Nep141OnRhea(Seq<char>),
    TokenOnIntearDex(AssetIdView),
}

impl View for TokenId {
    type V = TokenIdView;

    open spec fn view(&self) -> TokenIdView {
        match self {
            TokenId::Near => TokenIdView::Near,
            TokenId::Nep141(token) => TokenIdView::Nep141(token@),
            TokenId::Nep141OnRhea(token) => TokenIdView::Nep141OnRhea(token@),
            TokenId::TokenOnIntearDex(asset) => TokenIdView::TokenOnIntearDex(asset@),
        }
    }
}

impl Ident for TokenId {
    fn same(&self, other: &Self) -> (r: bool) {
        match (self, other) {
            (TokenId::Near, TokenId::Near) => true,
            (TokenId::Nep141(a), TokenId::Nep141(b)) => a.same(b),
            (TokenId::Nep141OnRhea(a), TokenId::Nep141OnRhea(b)) => a.same(b),
            (TokenId::TokenOnIntearDex(a), TokenId::TokenOnIntearDex(b)) => a.same(b),
            _ => false,
        }
    }

    fn duplicate(&self) -> (r: Self) {
        match self {
            TokenId::Near => TokenId::Near,
            TokenId::Nep141(token) => TokenId::Nep141(token.duplicate()),
            TokenId::Nep141OnRhea(token) => TokenId::Nep141OnRhea(token.duplicate()),
            TokenId::TokenOnIntearDex(asset) => TokenId::TokenOnIntearDex(asset.duplicate()),
        }
    }
}

/// The text form of a token.
pub open spec fn token_text(token: TokenIdView) -> Seq<char> {
    match token {
        TokenIdView::Near => "near"@,
        TokenIdView::Nep141(contract) => "nep141:"@ + contract,
        TokenIdView::Nep141OnRhea(contract) => "rhea-nep141:"@ + contract,
        TokenIdView::TokenOnIntearDex(asset) => "intear-dex:"@ + asset_text(asset),
    }
}

/// An account name, where it is one.
pub open spec fn parse_account(s: Seq<char>) -> Result<Seq<char>, ParseAssetError> {
    if valid_account_id(s) {
        Ok(s)
    } else {
        Err(ParseAssetError::InvalidAccountId)
    }
}

/// The token that a text stands for. A text without a known prefix is the
/// name of a fungible token.
pub open spec fn parse_token(s: Seq<char>) -> Result<TokenIdView, ParseAssetError> {
    if s == "near"@ {
        Ok(TokenIdView::Near)
    } else {
        match cut_once(s, ':') {
            Some(parts) => if parts.0 == "nep141"@ {
                match parse_account(parts.1) {
                    Ok(contract) => Ok(TokenIdView::Nep141(contract)),
                    Err(e) => Err(e),
                }
            } else if parts.0 == "rhea-nep141"@ {
                match parse_account(parts.1) {
                    Ok(contract) => Ok(TokenIdView::Nep141OnRhea(contract)),
                    Err(e) => Err(e),
                }
            } else if parts.0 == "intear-dex"@ {
                match parse_asset(parts.1) {
                    Ok(asset) => Ok(TokenIdView::TokenOnIntearDex(asset)),
                    Err(e) => Err(e),
                }
            } else {
                Err(ParseAssetError::InvalidAccountId)
            },
            None => match parse_account(s) {
                Ok(contract) => Ok(TokenIdView::Nep141(contract)),
                Err(e) => Err(e),
            },
        }
    }
}

/// The view of the outcome of reading a token.
pub open spec fn token_result(r: Result<TokenId, ParseAssetError>) -> Result<TokenIdView, ParseAssetError> {
    match r {
        Ok(token) => Ok(token@),
        Err(e) => Err(e),
    }
}

/// Reads an account name.
fn read_account(s: &str) -> (r: Result<AccountId, ParseAssetError>)
    ensures
        match r {
            Ok(account) => parse_account(s@) == Ok::<Seq<char>, ParseAssetError>(account@),
            Err(e) => parse_account(s@) == Err::<Seq<char>, ParseAssetError>(e),
        },
{
    match AccountId::parse(s) {
        Some(account) => Ok(account),
        None => Err(ParseAssetError::InvalidAccountId),
    }
}

impl TokenId {
    /// The text form of the token.
    pub fn to_text(&self) -> (r: String)
        ensures
            r@ == token_text(self@),
    {
        match self {
            TokenId::Near => "near".to_owned(),
            TokenId::Nep141(contract) => join("nep141:", contract.as_str()),
            TokenId::Nep141OnRhea(contract) => join("rhea-nep141:", contract.as_str()),
            TokenId::TokenOnIntearDex(asset) => join("intear-dex:", asset.to_text().as_str()),
        }
    }

    /// Reads a token from its text form.
    pub fn from_str(s: &str) -> (r: Result<TokenId, ParseAssetError>)
        ensures
            token_result(r) == parse_token(s@),
    {
        if same_text(s, "near") {
            return Ok(TokenId::Near);
        }
        match split_once(s, ':') {
            Some(parts) => {
                let prefix: &str = parts.0.as_str();
                let rest: &str = parts.1.as_str();
                if same_text(prefix, "nep141") {
                    match read_account(rest) {
                        Ok(contract) => Ok(TokenId::Nep141(contract)),
                        Err(e) => Err(e),
                    }
                } else if same_text(prefix, "rhea-nep141") {
                    match read_account(rest) {
                        Ok(contract) => Ok(TokenId::Nep141OnRhea(contract)),
                        Err(e) => Err(e),
                    }
                } else if same_text(prefix, "intear-dex") {
                    match AssetId::from_str(rest) {
                        Ok(asset) => Ok(TokenId::TokenOnIntearDex(asset)),
                        Err(e) => Err(e),
                    }
                } else {
                    Err(ParseAssetError::InvalidAccountId)
                }
            },
            None => match read_account(s) {
                Ok(contract) => Ok(TokenId::Nep141(contract)),
                Err(e) => Err(e),
            },
        }
    }
}

/// Whether the contracts that the token names are accounts.
pub open spec fn valid_token(token: TokenIdView) -> bool {
    match token {
        TokenIdView::Near => true,
        TokenIdView::Nep141(contract) => valid_account_id(contract),
        TokenIdView::Nep141OnRhea(contract) => valid_account_id(contract),
        TokenIdView::TokenOnIntearDex(asset) => valid_asset(asset),
    }
}

/// The prefixes of tokens, spelled out.
proof fn lemma_prefixes()
    ensures
        "near"@.len() == 4,
        !"near"@.contains(':'),
        "nep141:"@ == "nep141"@ + seq![':'],
        "rhea-nep141:"@ == "rhea-nep141"@ + seq![':'],
        "intear-dex:"@ == "intear-dex"@ + seq![':'],
        "nep141"@.len() == 6,
        "rhea-nep141"@.len() == 11,
        "intear-dex"@.len() == 10,
        !"nep141"@.contains(':'),
        !"rhea-nep141"@.contains(':'),
        !"intear-dex"@.contains(':'),
{
    reveal_strlit("near");
    reveal_strlit("nep141");
    reveal_strlit("nep141:");
    reveal_strlit("rhea-nep141");
    reveal_strlit("rhea-nep141:");
    reveal_strlit("intear-dex");
    reveal_strlit("intear-dex:");
    assert("nep141:"@ =~= "nep141"@ + seq![':']);
    assert("rhea-nep141:"@ =~= "rhea-nep141"@ + seq![':']);
    assert("intear-dex:"@ =~= "intear-dex"@ + seq![':']);
}

/// Reading the text form of a token gives the token back.
pub proof fn token_text_reads_back(token: TokenIdView)
    requires
        valid_token(token),
    ensures
        parse_token(token_text(token)) == Ok::<TokenIdView, ParseAssetError>(token),
{
    lemma_prefixes();
    let s = token_text(token);
    match token {
        TokenIdView::Near => {},
        TokenIdView::Nep141(contract) => {
            assert(s =~= "nep141"@ + (seq![':'] + contract));
            lemma_cut_joined("nep141"@, ':', contract);
        },
        TokenIdView::Nep141OnRhea(contract) => {
            assert(s =~= "rhea-nep141"@ + (seq![':'] + contract));
            lemma_cut_joined("rhea-nep141"@, ':', contract);
        },
        TokenIdView::TokenOnIntearDex(asset) => {
            assert(s =~= "intear-dex"@ + (seq![':'] + asset_text(asset)));
            lemma_cut_joined("intear-dex"@, ':', asset_text(asset));
            asset_text_reads_back(asset);
        },
    }
}

/// The name of an account, other than that of the native coin, reads as the
/// fungible token of that account.
pub proof fn account_name_reads_as_token(name: Seq<char>)
    requires
        valid_account_id(name),
        name != "near"@,
    ensures
        parse_token(name) == Ok::<TokenIdView, ParseAssetError>(TokenIdView::Nep141(name)),
{
    lemma_account_without_colon(name);
    assert forall|j: int| 0 <= j < name.len() implies name[j] != ':' by {
        assert(name.contains(name[j]));
    }
    lemma_first_index(name, ':', name.len() as int);
}

/// A swap that is asked for.
#[derive(Clone, Debug, PartialEq)]
pub struct SwapRequest {
    pub token_in: TokenId,
    pub token_out: TokenId,
    pub amount: Amount,
    pub max_wait_ms: u64,
    pub slippage: Slippage,
    pub dexes: Option<Vec<DexId>>,
    pub trader_account_id: Option<AccountId>,
    pub signing_public_key: Option<String>,
    pub referrer_id: Option<AccountId>,
}

/// What is asked for.
pub struct RequestView {
    pub token_in: TokenIdView,
    pub token_out: TokenIdView,
    pub amount: Amount,
    pub max_wait_ms: u64,
    pub slippage: SlippageView,
    pub dexes: Option<Seq<DexId>>,
    pub trader: Option<Seq<char>>,
    pub signing_key: Option<Seq<char>>,
    pub referrer: Option<Seq<char>>,
}

/// The text, where there is one.
pub open spec fn opt_text(s: Option<String>) -> Option<Seq<char>> {
    match s {
        Some(s) => Some(s@),
        None => None,
    }
}

/// The exchanges that the request names, if it does.
pub open spec fn opt_dexes(dexes: Option<Vec<DexId>>) -> Option<Seq<DexId>> {
    match dexes {
        Some(dexes) => Some(dexes@),
        None => None,
    }
}

impl View for SwapRequest {
    type V = RequestView;

    open spec fn view(&self) -> RequestView {
        RequestView {
            token_in: self.token_in@,
            token_out: self.token_out@,
            amount: self.amount,
            max_wait_ms: self.max_wait_ms,
            slippage: self.slippage@,
            dexes: opt_dexes(self.dexes),
            trader: opt_account(self.trader_account_id),
            signing_key: opt_text(self.signing_public_key),
            referrer: opt_account(self.referrer_id),
        }
    }
}

/// A call of a contract.
#[derive(Debug, PartialEq)]
pub struct FunctionCallAction {
    pub method_name: String,
    pub args: Vec<u8>,
    pub gas: u64,
    pub deposit: u128,
}

/// What a transaction does.
#[derive(Debug, PartialEq)]
pub enum Action {
    FunctionCall(FunctionCallAction),
}

/// What a transaction does.
pub struct ActionView {
    pub method: Seq<char>,
    pub args: Seq<u8>,
    pub gas: u64,
    pub deposit: u128,
}

impl View for Action {
    type V = ActionView;

    open spec fn view(&self) -> ActionView {
        match self {
            Action::FunctionCall(call) => ActionView {
                method: call.method_name@,
                args: call.args@,
                gas: call.gas,
                deposit: call.deposit,
            },
        }
    }
}

/// A step in carrying a route out.
#[derive(Debug, PartialEq)]
pub enum ExecutionInstruction {
    NearTransaction { receiver_id: AccountId, actions: Vec<Action> },
    IntentsQuote { message_to_sign: String, quote_hash: String },
}

/// A step in carrying a route out.
pub enum InstructionView {
    Transaction { receiver: Seq<char>, actions: Seq<ActionView> },
    Quote { message: Seq<char>, hash: Seq<char> },
}

/// What the actions do.
pub open spec fn action_views(actions: Seq<Action>) -> Seq<ActionView> {
    Seq::new(actions.len(), |i: int| actions[i]@)
}

impl View for ExecutionInstruction {
    type V = InstructionView;

    open spec fn view(&self) -> InstructionView {
        match self {
            ExecutionInstruction::NearTransaction { receiver_id, actions } => InstructionView::Transaction {
                receiver: receiver_id@,
                actions: action_views(actions@),
            },
            ExecutionInstruction::IntentsQuote { message_to_sign, quote_hash } => InstructionView::Quote {
                message: message_to_sign@,
                hash: quote_hash@,
            },
        }
    }
}

/// What the instructions say.
pub open spec fn instruction_views(instructions: Seq<ExecutionInstruction>) -> Seq<InstructionView> {
    Seq::new(instructions.len(), |i: int| instructions[i]@)
}

/// A way to carry a swap out.
#[derive(Debug, PartialEq)]
pub struct Route {
    pub dex_id: DexId,
    pub deadline: Option<String>,
    pub has_slippage: bool,
    pub estimated_amount: Amount,
    pub worst_case_amount: Amount,
    pub execution_instructions: Vec<ExecutionInstruction>,
    pub deprecated_needs_unwrap_always_false: bool,
    pub token_output: TokenId,
}

/// A way to carry a swap out.
pub struct RouteView {
    pub dex_id: DexId,
    pub deadline: Option<Seq<char>>,
    pub has_slippage: bool,
    pub estimated: Amount,
    pub worst_case: Amount,
    pub instructions: Seq<InstructionView>,
    pub needs_unwrap: bool,
    pub token_output: TokenIdView,
}

impl View for Route {
    type V = RouteView;

    open spec fn view(&self) -> RouteView {
        RouteView {
            dex_id: self.dex_id,
            deadline: opt_text(self.deadline),
            has_slippage: self.has_slippage,
            estimated: self.estimated_amount,
            worst_case: self.worst_case_amount,
            instructions: instruction_views(self.execution_instructions@),
            needs_unwrap: self.deprecated_needs_unwrap_always_false,
            token_output: self.token_output@,
        }
    }
}

/// The route, where there is one.
pub open spec fn opt_route(route: Option<Route>) -> Option<RouteView> {
    match route {
        Some(route) => Some(route@),
        None => None,
    }
}

/// The instructions, where there are any.
pub open spec fn opt_instructions(instructions: Option<Vec<ExecutionInstruction>>) -> Option<Seq<InstructionView>> {
    match instructions {
        Some(instructions) => Some(instruction_views(instructions@)),
        None => None,
    }
}

impl Action {
    /// Another value for the same action.
    pub fn duplicate(&self) -> (r: Action)
        ensures
            r@ == self@,
    {
        match self {
            Action::FunctionCall(call) => Action::FunctionCall(
                FunctionCallAction {
                    method_name: call.method_name.as_str().to_string(),
                    args: copy_all(&call.args),
                    gas: call.gas,
                    deposit: call.deposit,
                },
            ),
        }
    }
}

/// Adds copies of actions to a list.
pub fn extend_actions(out: &mut Vec<Action>, actions: &Vec<Action>)
    ensures
        action_views(final(out)@) == action_views(old(out)@) + action_views(actions@),
{
    let ghost before = out@;
    let mut i: usize = 0;
    while i < actions.len()
        invariant
            i <= actions@.len(),
            out@.len() == before.len() + i,
            forall|j: int| 0 <= j < before.len() ==> out@[j] == before[j],
            forall|j: int| 0 <= j < i ==> (#[trigger] actions@[j])@ == out@[before.len() + j]@,
        decreases actions@.len() - i,
    {
        out.push(actions[i].duplicate());
        i = i + 1;
    }
    assert(action_views(out@) =~= action_views(before) + action_views(actions@));
}

impl ExecutionInstruction {
    /// Another value for the same instruction.
    pub fn duplicate(&self) -> (r: ExecutionInstruction)
        ensures
            r@ == self@,
    {
        match self {
            ExecutionInstruction::NearTransaction { receiver_id, actions } => {
                let mut copies: Vec<Action> = Vec::new();
                extend_actions(&mut copies, actions);
                let r = ExecutionInstruction::NearTransaction {
                    receiver_id: receiver_id.duplicate(),
                    actions: copies,
                };
                assert(action_views(copies@) =~= action_views(actions@));
                r
            },
            ExecutionInstruction::IntentsQuote { message_to_sign, quote_hash } => {
                ExecutionInstruction::IntentsQuote {
                    message_to_sign: message_to_sign.as_str().to_string(),
                    quote_hash: quote_hash.as_str().to_string(),
                }
            },
        }
    }
}

} // verus!
