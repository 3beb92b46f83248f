//! Account names of the NEAR network.

use vstd::prelude::*;
use vstd::string::*;

use crate::ident::Ident;
use crate::text::{join, same_text};

verus! {

/// The name of an account.
#[derive(Clone, Debug, PartialEq, Eq, PartialOrd, Ord, Hash)]
pub struct AccountId {
    pub id: String,
}

impl View for AccountId {
    type V = Seq<char>;

    open spec fn view(&self) -> Seq<char> {
        self.id@
    }
}

impl Ident for AccountId {
    fn same(&self, other: &Self) -> (r: bool) {
        self.id == other.id
    }

    fn duplicate(&self) -> (r: Self) {
        AccountId { id: self.id.clone() }
    }
}

/// Whether the character separates the parts of an account name.
pub open spec fn is_separator(c: char) -> bool {
    c == '-' || c == '_' || c == '.'
}

/// Whether the character may stand in an account name.
pub open spec fn is_account_char(c: char) -> bool {
    ('a' <= c && c <= 'z') || ('0' <= c && c <= '9') || is_separator(c)
}

/// Whether the text is an account name: 2 to 64 characters out of lowercase
/// letters, digits and separators, with a separator neither at an end nor
/// next to another.
pub open spec fn valid_account_id(s: Seq<char>) -> bool {
    &&& 2 <= s.len() <= 64
    &&& forall|i: int| 0 <= i < s.len() ==> is_account_char(#[trigger] s[i])
    &&& !is_separator(s[0])
    &&& !is_separator(s.last())
    &&& forall|i: int| 0 <= i < s.len() - 1 ==> !(is_separator(#[trigger] s[i]) && is_separator(s[i + 1]))
}

/// Whether the text parses as a `near_sdk::AccountId`, by its `FromStr`: it
/// does exactly when it is an account name.
#[verifier::external_body]
fn parses_as_account(s: &str) -> (r: bool)
    ensures
        r == valid_account_id(s@),
{
    s.parse::<near_sdk::AccountId>().is_ok()
}

impl AccountId {
    /// The account with this name, which is taken as it is.
    pub fn new_unvalidated(id: &str) -> (r: AccountId)
        ensures
            r@ == id@,
    {
        AccountId { id: id.to_owned() }
    }

    /// The account with this name, where it is one.
    pub fn parse(id: &str) -> (r: Option<AccountId>)
        ensures
            r is Some <==> valid_account_id(id@),
            r matches Some(account) ==> account@ == id@,
    {
        if parses_as_account(id) {
            Some(AccountId::new_unvalidated(id))
        } else {
            None
        }
    }

    /// The account's name.
    pub fn as_str(&self) -> (r: &str)
        ensures
            r@ == self@,
    {
        self.id.as_str()
    }

    /// Whether the account has this name.
    pub fn is(&self, name: &str) -> (r: bool)
        ensures
            r == (self@ == name@),
    {
        same_text(self.id.as_str(), name)
    }

    /// Whether the account is a direct sub-account of `parent`: its name is
    /// one part, a dot, and the name of `parent`.
    pub fn is_sub_account_of(&self, parent: &str) -> (r: bool)
        ensures
            r == direct_sub_account(self@, parent@),
    {
        let suffix: String = join(".", parent);
        let n: usize = self.id.as_str().unicode_len();
        let k: usize = suffix.as_str().unicode_len();
        proof {
            reveal_strlit(".");
            assert("."@ =~= seq!['.']);
        }
        if k > n {
            return false;
        }
        let head: &str = self.id.as_str().substring_char(0, n - k);
        let tail: &str = self.id.as_str().substring_char(n - k, n);
        assert(self@ =~= head@ + tail@);
        if !same_text(tail, suffix.as_str()) {
            proof {
                assert forall|prefix: Seq<char>| self@ != #[trigger] (prefix + seq!['.'] + parent@) by {
                    if self@ == prefix + seq!['.'] + parent@ {
                        assert(tail@ =~= seq!['.'] + parent@);
                    }
                }
            }
            return false;
        }
        let m: usize = n - k;
        let mut i: usize = 0;
        while i < m
            invariant
                i <= m,
                m == head@.len(),
                self@ == head@ + (seq!['.'] + parent@),
                forall|j: int| 0 <= j < i ==> head@[j] != '.',
            decreases m - i,
        {
            if head.get_char(i) == '.' {
                proof {
                    assert forall|prefix: Seq<char>|
                        self@ == #[trigger] (prefix + seq!['.'] + parent@) implies prefix.contains('.') by {
                        assert((prefix + seq!['.'] + parent@).len() == prefix.len() + 1 + parent@.len());
                        assert(prefix =~= self@.subrange(0, m as int));
                        assert(head@ =~= self@.subrange(0, m as int));
                        assert(prefix[i as int] == '.');
                    }
                }
                return false;
            }
            i = i + 1;
        }
        assert(self@ =~= head@ + seq!['.'] + parent@);
        true
    }
}

/// Whether `child` names a direct sub-account of `parent`.
pub open spec fn direct_sub_account(child: Seq<char>, parent: Seq<char>) -> bool {
    exists|prefix: Seq<char>|
        child == #[trigger] (prefix + seq!['.'] + parent) && !prefix.contains('.')
}

/// The view of an optional account.
pub open spec fn opt_account(account: Option<AccountId>) -> Option<Seq<char>> {
    match account {
        Some(account) => Some(account@),
        None => None,
    }
}

} // verus!
