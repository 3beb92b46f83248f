//! Assets of the Intear DEX and their text form.

use vstd::prelude::*;
use vstd::string::*;

use crate::account::{valid_account_id, AccountId, is_account_char};
use crate::ident::Ident;
use crate::text::{cut_once, first_index, join, join3, lemma_first_index, same_text, split_once};

verus! {

/// An asset that the Intear DEX can hold.
#[derive(Clone, Debug, PartialEq, Eq, PartialOrd, Ord, Hash)]
pub enum AssetId {
    /// The native coin.
    Near,
    /// A fungible token.
    Nep141(AccountId),
    /// A token of a multi-token contract.
    Nep245(AccountId, String),
    /// A non-fungible token.
    Nep171(AccountId, String),
}

/// What an asset is, apart from its representation.
pub enum AssetIdView {
    Near,
    Nep141(Seq<char>),
    Nep245(Seq<char>, Seq<char>),
    Nep171(Seq<char>, Seq<char>),
}

impl View for AssetId {
    type V = AssetIdView;

    open spec fn view(&self) -> AssetIdView {
        match self {
            AssetId::Near => AssetIdView::Near,
            AssetId::Nep141(contract) => AssetIdView::Nep141(contract@),
            AssetId::Nep245(contract, token) => AssetIdView::Nep245(contract@, token@),
            AssetId::Nep171(contract, token) => AssetIdView::Nep171(contract@, token@),
        }
    }
}

impl Ident for AssetId {
    fn same(&self, other: &Self) -> (r: bool) {
        match (self, other) {
            (AssetId::Near, AssetId::Near) => true,
            (AssetId::Nep141(a), AssetId::Nep141(b)) => a.same(b),
            (AssetId::Nep245(a, s), AssetId::Nep245(b, t)) => a.same(b) && *s == *t,
            (AssetId::Nep171(a, s), AssetId::Nep171(b, t)) => a.same(b) && *s == *t,
            _ => false,
        }
    }

    fn duplicate(&self) -> (r: Self) {
        match self {
            AssetId::Near => AssetId::Near,
            AssetId::Nep141(contract) => AssetId::Nep141(contract.duplicate()),
            AssetId::Nep245(contract, token) => AssetId::Nep245(contract.duplicate(), token.clone()),
            AssetId::Nep171(contract, token) => AssetId::Nep171(contract.duplicate(), token.clone()),
        }
    }
}

/// Why a text is no asset.
#[derive(Clone, Debug, PartialEq, Eq)]
pub enum ParseAssetError {
    /// The text has none of the forms of an asset.
    InvalidAssetId,
    /// The text names a contract that is no account.
    InvalidAccountId,
}

/// The text form of an asset.
pub open spec fn asset_text(asset: AssetIdView) -> Seq<char> {
    match asset {
        AssetIdView::Near => "near"@,
        AssetIdView::Nep141(contract) => "nep141:"@ + contract,
        AssetIdView::Nep245(contract, token) => "nep245:"@ + contract + (":"@ + token),
        AssetIdView::Nep171(contract, token) => "nep171:"@ + contract + (":"@ + token),
    }
}

/// The contract and the token that follow the standard's name.
pub open spec fn parse_contract_token(rest: Seq<char>) -> Result<(Seq<char>, Seq<char>), ParseAssetError> {
    match cut_once(rest, ':') {
        Some(parts) => if valid_account_id(parts.0) {
            Ok(parts)
        } else {
            Err(ParseAssetError::InvalidAccountId)
        },
        None => Err(ParseAssetError::InvalidAssetId),
    }
}

/// The asset that a text stands for.
pub open spec fn parse_asset(s: Seq<char>) -> Result<AssetIdView, ParseAssetError> {
    if s == "near"@ {
        Ok(AssetIdView::Near)
    } else {
        match cut_once(s, ':') {
            Some(parts) => if parts.0 == "nep141"@ {
                if valid_account_id(parts.1) {
                    Ok(AssetIdView::Nep141(parts.1))
                } else {
                    Err(ParseAssetError::InvalidAccountId)
                }
            } else if parts.0 == "nep245"@ {
                match parse_contract_token(parts.1) {
                    Ok((contract, token)) => Ok(AssetIdView::Nep245(contract, token)),
                    Err(e) => Err(e),
                }
            } else if parts.0 == "nep171"@ {
                match parse_contract_token(parts.1) {
                    Ok((contract, token)) => Ok(AssetIdView::Nep171(contract, token)),
                    Err(e) => Err(e),
                }
            } else {
                Err(ParseAssetError::InvalidAssetId)
            },
            None => Err(ParseAssetError::InvalidAssetId),
        }
    }
}

/// The view of the outcome of reading an asset.
pub open spec fn asset_result(r: Result<AssetId, ParseAssetError>) -> Result<AssetIdView, ParseAssetError> {
    match r {
        Ok(asset) => Ok(asset@),
        Err(e) => Err(e),
    }
}

/// Reads a contract and a token, separated by a colon.
fn read_contract_token(rest: &str) -> (r: Result<(AccountId, String), ParseAssetError>)
    ensures
        match r {
            Ok(parts) => parse_contract_token(rest@) == Ok::<(Seq<char>, Seq<char>), ParseAssetError>(
                (parts.0@, parts.1@),
            ),
            Err(e) => parse_contract_token(rest@) == Err::<(Seq<char>, Seq<char>), ParseAssetError>(e),
        },
{
    match split_once(rest, ':') {
        Some(parts) => match AccountId::parse(parts.0.as_str()) {
            Some(contract) => Ok((contract, parts.1)),
            None => Err(ParseAssetError::InvalidAccountId),
        },
        None => Err(ParseAssetError::InvalidAssetId),
    }
}

impl AssetId {
    /// The text form of the asset.
    pub fn to_text(&self) -> (r: String)
        ensures
            r@ == asset_text(self@),
    {
        match self {
            AssetId::Near => "near".to_owned(),
            AssetId::Nep141(contract) => join("nep141:", contract.as_str()),
            AssetId::Nep245(contract, token) => join3(
                "nep245:",
                contract.as_str(),
                join(":", token.as_str()).as_str(),
            ),
            AssetId::Nep171(contract, token) => join3(
                "nep171:",
                contract.as_str(),
                join(":", token.as_str()).as_str(),
            ),
        }
    }

    /// Reads an asset from its text form.
    pub fn from_str(s: &str) -> (r: Result<AssetId, ParseAssetError>)
        ensures
            asset_result(r) == parse_asset(s@),
    {
        if same_text(s, "near") {
            return Ok(AssetId::Near);
        }
        match split_once(s, ':') {
            Some(parts) => {
                let standard: &str = parts.0.as_str();
                if same_text(standard, "nep141") {
                    match AccountId::parse(parts.1.as_str()) {
                        Some(contract) => Ok(AssetId::Nep141(contract)),
                        None => Err(ParseAssetError::InvalidAccountId),
                    }
                } else if same_text(standard, "nep245") {
                    match read_contract_token(parts.1.as_str()) {
                        Ok((contract, token)) => Ok(AssetId::Nep245(contract, token)),
                        Err(e) => Err(e),
                    }
                } else if same_text(standard, "nep171") {
                    match read_contract_token(parts.1.as_str()) {
                        Ok((contract, token)) => Ok(AssetId::Nep171(contract, token)),
                        Err(e) => Err(e),
                    }
                } else {
                    Err(ParseAssetError::InvalidAssetId)
                }
            },
            None => Err(ParseAssetError::InvalidAssetId),
        }
    }
}

/// Whether the contract that the asset names, if any, is an account.
pub open spec fn valid_asset(asset: AssetIdView) -> bool {
    match asset {
        AssetIdView::Near => true,
        AssetIdView::Nep141(contract) => valid_account_id(contract),
        AssetIdView::Nep245(contract, _) => valid_account_id(contract),
        AssetIdView::Nep171(contract, _) => valid_account_id(contract),
    }
}

/// Cutting at a mark that the head does not hold gives the two parts back.
pub(crate) proof fn lemma_cut_joined(head: Seq<char>, mark: char, tail: Seq<char>)
    requires
        !head.contains(mark),
    ensures
        cut_once(head + (seq![mark] + tail), mark) == Some((head, tail)),
{
    let s = head + (seq![mark] + tail);
    assert forall|j: int| 0 <= j < head.len() implies s[j] != mark by {
        assert(s[j] == head[j]);
        assert(head.contains(head[j]));
    }
    assert(s[head.len() as int] == mark);
    lemma_first_index(s, mark, head.len() as int);
    assert(s.subrange(0, head.len() as int) =~= head);
    assert(s.subrange(head.len() as int + 1, s.len() as int) =~= tail);
}

/// The two parts of a cut, joined by the mark, are the text.
proof fn lemma_cut_joins(s: Seq<char>, mark: char)
    requires
        cut_once(s, mark) is Some,
    ensures
        cut_once(s, mark) matches Some(parts) ==> s == parts.0 + (seq![mark] + parts.1),
{
    lemma_first_index_marks(s, mark);
    let parts = cut_once(s, mark)->0;
    assert(s =~= parts.0 + (seq![mark] + parts.1));
}

/// The first position holds the mark, where the text holds it at all.
proof fn lemma_first_index_marks(s: Seq<char>, mark: char)
    ensures
        0 <= first_index(s, mark) <= s.len(),
        first_index(s, mark) < s.len() ==> s[first_index(s, mark)] == mark,
    decreases s.len(),
{
    if s.len() > 0 && s[0] != mark {
        lemma_first_index_marks(s.subrange(1, s.len() as int), mark);
    }
}

/// An account name holds no colon.
pub(crate) proof fn lemma_account_without_colon(s: Seq<char>)
    requires
        valid_account_id(s),
    ensures
        !s.contains(':'),
{
    if s.contains(':') {
        let i = choose|i: int| 0 <= i < s.len() && s[i] == ':';
        assert(is_account_char(s[i]));
    }
}

/// The names of the standards, spelled out.
proof fn lemma_standard_names()
    ensures
        "near"@ == seq!['n', 'e', 'a', 'r'],
        "nep141"@ == seq!['n', 'e', 'p', '1', '4', '1'],
        "nep245"@ == seq!['n', 'e', 'p', '2', '4', '5'],
        "nep171"@ == seq!['n', 'e', 'p', '1', '7', '1'],
        "nep141:"@ == "nep141"@ + seq![':'],
        "nep245:"@ == "nep245"@ + seq![':'],
        "nep171:"@ == "nep171"@ + seq![':'],
        ":"@ == seq![':'],
        !"nep141"@.contains(':'),
        !"nep245"@.contains(':'),
        !"nep171"@.contains(':'),
        "nep141"@ != "nep245"@,
        "nep141"@ != "nep171"@,
        "nep245"@ != "nep171"@,
{
    reveal_strlit("near");
    reveal_strlit("nep141");
    reveal_strlit("nep245");
    reveal_strlit("nep171");
    reveal_strlit("nep141:");
    reveal_strlit("nep245:");
    reveal_strlit("nep171:");
    reveal_strlit(":");
    assert("near"@ =~= seq!['n', 'e', 'a', 'r']);
    assert("nep141"@ =~= seq!['n', 'e', 'p', '1', '4', '1']);
    assert("nep245"@ =~= seq!['n', 'e', 'p', '2', '4', '5']);
    assert("nep171"@ =~= seq!['n', 'e', 'p', '1', '7', '1']);
    assert("nep141:"@ =~= "nep141"@ + seq![':']);
    assert("nep245:"@ =~= "nep245"@ + seq![':']);
    assert("nep171:"@ =~= "nep171"@ + seq![':']);
    assert(":"@ =~= seq![':']);
    assert("nep141"@[3] != "nep245"@[3]);
    assert("nep141"@[4] != "nep171"@[4]);
    assert("nep245"@[3] != "nep171"@[3]);
}

/// Reading the text form of an asset gives the asset back.
pub proof fn asset_text_reads_back(asset: AssetIdView)
    requires
        valid_asset(asset),
    ensures
        parse_asset(asset_text(asset)) == Ok::<AssetIdView, ParseAssetError>(asset),
{
    lemma_standard_names();
    let s = asset_text(asset);
    match asset {
        AssetIdView::Near => {},
        AssetIdView::Nep141(contract) => {
            assert(s =~= "nep141"@ + (seq![':'] + contract));
            assert(s[6] == ':');
            lemma_cut_joined("nep141"@, ':', contract);
        },
        AssetIdView::Nep245(contract, token) => {
            let rest = contract + (seq![':'] + token);
            assert(s =~= "nep245"@ + (seq![':'] + rest));
            assert(s[6] == ':');
            lemma_cut_joined("nep245"@, ':', rest);
            lemma_account_without_colon(contract);
            lemma_cut_joined(contract, ':', token);
        },
        AssetIdView::Nep171(contract, token) => {
            let rest = contract + (seq![':'] + token);
            assert(s =~= "nep171"@ + (seq![':'] + rest));
            assert(s[6] == ':');
            lemma_cut_joined("nep171"@, ':', rest);
            lemma_account_without_colon(contract);
            lemma_cut_joined(contract, ':', token);
        },
    }
}

/// A text that reads as an asset is the text form of that asset.
pub proof fn parsed_asset_prints_back(s: Seq<char>)
    requires
        parse_asset(s) is Ok,
    ensures
        asset_text(parse_asset(s)->Ok_0) == s,
        valid_asset(parse_asset(s)->Ok_0),
{
    lemma_standard_names();
    if s != "near"@ {
        lemma_cut_joins(s, ':');
        let parts = cut_once(s, ':')->0;
        if parts.0 == "nep141"@ {
            assert(s =~= asset_text(AssetIdView::Nep141(parts.1)));
        } else {
            lemma_cut_joins(parts.1, ':');
            let inner = cut_once(parts.1, ':')->0;
            assert(s =~= parts.0 + seq![':'] + inner.0 + (":"@ + inner.1));
        }
    }
}

} // verus!
