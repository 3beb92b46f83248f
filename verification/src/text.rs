//! Text helpers: comparison, joining, splitting and decimal numerals.

use vstd::prelude::*;
use vstd::string::*;

verus! {

/// Whether two texts are the same.
pub fn same_text(a: &str, b: &str) -> (r: bool)
    ensures
        r == (a@ == b@),
{
    let a: String = a.to_owned();
    let b: String = b.to_owned();
    a == b
}

/// `a` followed by `b`.
pub fn join(a: &str, b: &str) -> (r: String)
    ensures
        r@ == a@ + b@,
{
    let a: String = a.to_owned();
    a.concat(b)
}

/// `a`, then `b`, then `c`.
pub fn join3(a: &str, b: &str, c: &str) -> (r: String)
    ensures
        r@ == a@ + b@ + c@,
{
    let ab: String = join(a, b);
    ab.concat(c)
}

/// The position of the first `mark` in the text, or its length.
pub open spec fn first_index(s: Seq<char>, mark: char) -> int
    decreases s.len(),
{
    if s.len() == 0 || s[0] == mark {
        0
    } else {
        1 + first_index(s.subrange(1, s.len() as int), mark)
    }
}

/// The first position is the one before which the mark does not occur.
pub proof fn lemma_first_index(s: Seq<char>, mark: char, i: int)
    requires
        0 <= i <= s.len(),
        forall|j: int| 0 <= j < i ==> s[j] != mark,
        i < s.len() ==> s[i] == mark,
    ensures
        first_index(s, mark) == i,
    decreases s.len(),
{
    if s.len() > 0 && s[0] != mark {
        let rest = s.subrange(1, s.len() as int);
        assert forall|j: int| 0 <= j < i - 1 implies rest[j] != mark by {
            assert(rest[j] == s[j + 1]);
        }
        lemma_first_index(rest, mark, i - 1);
    }
}

/// The text cut at the first `mark`, which belongs to neither part.
pub open spec fn cut_once(s: Seq<char>, mark: char) -> Option<(Seq<char>, Seq<char>)> {
    let i = first_index(s, mark);
    if i < s.len() {
        Some((s.subrange(0, i), s.subrange(i + 1, s.len() as int)))
    } else {
        None
    }
}

/// The text cut at the first `mark`, where it has one.
pub fn split_once(s: &str, mark: char) -> (r: Option<(String, String)>)
    ensures
        r is None <==> cut_once(s@, mark) is None,
        r matches Some(parts) ==> cut_once(s@, mark) == Some((parts.0@, parts.1@)),
{
    let n: usize = s.unicode_len();
    let mut i: usize = 0;
    while i < n
        invariant
            i <= n,
            n == s@.len(),
            forall|j: int| 0 <= j < i ==> s@[j] != mark,
        decreases n - i,
    {
        if s.get_char(i) == mark {
            proof {
                lemma_first_index(s@, mark, i as int);
            }
            let head: &str = s.substring_char(0, i);
            let tail: &str = s.substring_char(i + 1, n);
            return Some((head.to_owned(), tail.to_owned()));
        }
        i = i + 1;
    }
    proof {
        lemma_first_index(s@, mark, n as int);
    }
    None
}

/// The rest of the text behind a prefix, where the text starts with it.
pub fn strip_prefix(s: &str, prefix: &str) -> (r: Option<String>)
    ensures
        r is Some <==> prefix@.is_prefix_of(s@),
        r matches Some(rest) ==> s@ == prefix@ + rest@,
{
    let n: usize = s.unicode_len();
    let k: usize = prefix.unicode_len();
    if k > n {
        return None;
    }
    let head: &str = s.substring_char(0, k);
    if same_text(head, prefix) {
        let tail: &str = s.substring_char(k, n);
        proof {
            assert(s@ =~= prefix@ + tail@);
        }
        Some(tail.to_owned())
    } else {
        proof {
            if prefix@.is_prefix_of(s@) {
                assert(head@ =~= prefix@);
            }
        }
        None
    }
}

/// The digit character of a number below ten.
pub open spec fn digit_char(d: nat) -> char {
    (48 + d) as char
}

/// A number in decimal, without leading zeros.
pub open spec fn decimal_text(n: nat) -> Seq<char>
    decreases n,
{
    if n < 10 {
        seq![digit_char(n)]
    } else {
        decimal_text(n / 10).push(digit_char(n % 10))
    }
}

/// The digit of a number below ten.
fn digit_text(d: u128) -> (r: &'static str)
    requires
        d < 10,
    ensures
        r@ == seq![digit_char(d as nat)],
{
    let digits: &'static str = "0123456789";
    let i: usize = d as usize;
    proof {
        reveal_strlit("0123456789");
    }
    let digit: &'static str = digits.substring_char(i, i + 1);
    assert(digit@ =~= seq![digit_char(d as nat)]);
    digit
}

/// A number in decimal: its digits, most significant first, without leading
/// zeros.
pub fn u128_to_text(n: u128) -> (r: String)
    ensures
        r@ == decimal_text(n as nat),
    decreases n,
{
    if n < 10 {
        digit_text(n).to_owned()
    } else {
        let high: String = u128_to_text(n / 10);
        let r: String = high.concat(digit_text(n % 10));
        assert(r@ =~= decimal_text((n / 10) as nat).push(digit_char((n % 10) as nat)));
        r
    }
}

/// The number that a run of decimal digits stands for, `None` where the text
/// holds anything else.
pub open spec fn digits_value(s: Seq<char>) -> Option<nat>
    decreases s.len(),
{
    if s.len() == 0 {
        Some(0)
    } else {
        match digits_value(s.drop_last()) {
            Some(high) => if '0' <= s.last() && s.last() <= '9' {
                Some(10 * high + (s.last() as nat - 48) as nat)
            } else {
                None
            },
            None => None,
        }
    }
}

/// The text without its leading plus sign.
pub open spec fn unsigned_part(s: Seq<char>) -> Seq<char> {
    if s.len() > 0 && s[0] == '+' {
        s.subrange(1, s.len() as int)
    } else {
        s
    }
}

/// The number that the text stands for as a `u64`: one or more decimal
/// digits, after an optional plus sign.
pub open spec fn u64_of_text(s: Seq<char>) -> Option<u64> {
    let digits = unsigned_part(s);
    if digits.len() == 0 {
        None
    } else {
        match digits_value(digits) {
            Some(n) => if n <= u64::MAX {
                Some(n as u64)
            } else {
                None
            },
            None => None,
        }
    }
}

/// A prefix that is no number stays none.
proof fn lemma_digits_prefix(s: Seq<char>, k: int)
    requires
        0 <= k <= s.len(),
    ensures
        digits_value(s) is Some ==> digits_value(s.take(k)) is Some && digits_value(s.take(k))->0
            <= digits_value(s)->0,
    decreases s.len(),
{
    if k == s.len() {
        assert(s.take(k) =~= s);
    } else {
        lemma_digits_prefix(s.drop_last(), k);
        assert(s.drop_last().take(k) =~= s.take(k));
    }
}

/// Reads a `u64` in decimal.
pub fn parse_u64(s: &str) -> (r: Option<u64>)
    ensures
        r == u64_of_text(s@),
{
    let n: usize = s.unicode_len();
    let start: usize = if n > 0 && s.get_char(0) == '+' {
        1
    } else {
        0
    };
    let ghost digits = s@.subrange(start as int, s@.len() as int);
    assert(digits =~= unsigned_part(s@));
    if start == n {
        return None;
    }
    let mut value: u64 = 0;
    let mut i: usize = start;
    while i < n
        invariant
            start <= i <= n,
            start < n,
            n == s@.len(),
            digits == s@.subrange(start as int, s@.len() as int),
            digits == unsigned_part(s@),
            digits_value(digits.take(i - start)) == Some(value as nat),
        decreases n - i,
    {
        let c: char = s.get_char(i);
        let ghost next = digits.take(i + 1 - start);
        assert(next.drop_last() =~= digits.take(i - start));
        assert(next.last() == c);
        proof {
            lemma_digits_prefix(digits, i + 1 - start);
            assert(digits.take(digits.len() as int) =~= digits);
        }
        if c < '0' || c > '9' {
            return None;
        }
        let d: u64 = (c as u32 - 48) as u64;
        match value.checked_mul(10) {
            Some(tens) => match tens.checked_add(d) {
                Some(v) => {
                    value = v;
                },
                None => {
                    return None;
                },
            },
            None => {
                return None;
            },
        }
        i = i + 1;
    }
    assert(digits.take(n - start) =~= digits);
    Some(value)
}

/// Whether a character is a decimal digit.
pub open spec fn is_digit(c: char) -> bool {
    '0' <= c && c <= '9'
}

/// What decimal digits stand for, place by place.
pub open spec fn place_value(digits: Seq<char>) -> int
    decreases digits.len(),
{
    if digits.len() == 0 {
        0
    } else {
        10 * place_value(digits.drop_last()) + (digits.last() as int - '0' as int)
    }
}

/// The text of a number is made of decimal digits that stand for it, without
/// leading zeros.
pub proof fn digits_stand_for_the_number(n: nat)
    ensures
        decimal_text(n).len() > 0,
        forall|i: int| 0 <= i < decimal_text(n).len() ==> is_digit(#[trigger] decimal_text(n)[i]),
        place_value(decimal_text(n)) == n,
        decimal_text(n)[0] == '0' ==> n == 0,
    decreases n,
{
    if n >= 10 {
        digits_stand_for_the_number(n / 10);
        let high = decimal_text(n / 10);
        let all = decimal_text(n);
        assert(all.drop_last() =~= high);
        assert(all[0] == high[0]);
        assert forall|i: int| 0 <= i < all.len() implies is_digit(#[trigger] all[i]) by {
            if i < high.len() {
                assert(all[i] == high[i]);
            }
        }
    } else {
        let all = decimal_text(n);
        assert(all.drop_last() =~= Seq::empty());
        assert(place_value(all.drop_last()) == 0);
    }
}

/// A text without a plus sign in front.
pub open spec fn without_plus(s: Seq<char>) -> Seq<char> {
    if s.len() > 0 && s[0] == '+' {
        s.skip(1)
    } else {
        s
    }
}

/// Whether a text is made of decimal digits, of one at least.
pub open spec fn all_digits(s: Seq<char>) -> bool {
    s.len() > 0 && forall|i: int| 0 <= i < s.len() ==> is_digit(#[trigger] s[i])
}

/// A text is read as a number of 64 bits exactly where it is one or more
/// decimal digits, after a plus sign or not, that stand for one; and then as
/// what they stand for.
pub proof fn numbers_are_read_by_their_digits(s: Seq<char>)
    ensures
        u64_of_text(s) is Some <==> all_digits(without_plus(s)) && place_value(without_plus(s)) <= u64::MAX,
        u64_of_text(s) matches Some(n) ==> n == place_value(without_plus(s)),
{
    assert(unsigned_part(s) =~= without_plus(s));
    lemma_place_value(without_plus(s));
}

/// What digits are read as is what they stand for.
proof fn lemma_place_value(digits: Seq<char>)
    ensures
        digits_value(digits) is Some <==> forall|i: int|
            0 <= i < digits.len() ==> is_digit(#[trigger] digits[i]),
        digits_value(digits) matches Some(n) ==> n == place_value(digits),
    decreases digits.len(),
{
    if digits.len() > 0 {
        let before = digits.drop_last();
        lemma_place_value(before);
        if digits_value(digits) is Some {
            assert forall|i: int| 0 <= i < digits.len() implies is_digit(#[trigger] digits[i]) by {
                if i < before.len() {
                    assert(before[i] == digits[i]);
                }
            }
        } else if forall|i: int| 0 <= i < digits.len() ==> is_digit(#[trigger] digits[i]) {
            assert forall|i: int| 0 <= i < before.len() implies is_digit(#[trigger] before[i]) by {
                assert(before[i] == digits[i]);
            }
            assert(is_digit(digits[digits.len() - 1]));
        }
    }
}

} // verus!
