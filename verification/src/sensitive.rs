use crate::text::{
    chars_of, digit_val, is_digit, is_digit_exec, is_space_char, is_space_char_exec, is_word_char,
    is_word_char_exec,
};
use vstd::prelude::*;

verus! {

// ---------------------------------------------------------------------------
// credit cards: the Luhn checksum over every digit of the text
// ---------------------------------------------------------------------------
/// The checksum contribution of one digit: doubled digits fold back under 10.
pub open spec fn luhn_weight(v: int, doubled: bool) -> int {
    if doubled {
        if 2 * v > 9 {
            2 * v - 9
        } else {
            2 * v
        }
    } else {
        v
    }
}

/// The Luhn sum of a digit string, rightmost digit first, with `doubled`
/// saying whether the rightmost position is a doubled one.
pub open spec fn luhn_sum(ds: Seq<char>, doubled: bool) -> int
    decreases ds.len(),
{
    if ds.len() == 0 {
        0
    } else {
        luhn_weight(digit_val(ds.last()), doubled) + luhn_sum(ds.drop_last(), !doubled)
    }
}

/// A digit string passes the Luhn check.
pub open spec fn luhn_valid(ds: Seq<char>) -> bool {
    luhn_sum(ds, false) % 10 == 0
}

/// The digit filter, shared between the spec and its lemmas.
pub open spec fn digit_fn() -> spec_fn(char) -> bool {
    |c: char| is_digit(c)
}

/// Every decimal digit of the text, separators ignored.
pub open spec fn digits_of(s: Seq<char>) -> Seq<char> {
    s.filter(digit_fn())
}

/// The text's digits, 13 to 19 of them, pass the Luhn check.
pub open spec fn spec_is_credit_card(s: Seq<char>) -> bool {
    let ds = digits_of(s);
    13 <= ds.len() <= 19 && luhn_valid(ds)
}

/// Collects the decimal digits of `v`, in order.
fn digits_exec(v: &Vec<char>) -> (ds: Vec<char>)
    ensures
        ds@ == digits_of(v@),
        forall|k: int| 0 <= k < ds@.len() ==> is_digit(#[trigger] ds@[k]),
{
    proof {
        reveal(Seq::filter);
    }
    let n = v.len();
    let mut ds: Vec<char> = Vec::new();
    let mut i: usize = 0;
    while i < n
        invariant
            n == v@.len(),
            i <= n,
            ds@ == v@.take(i as int).filter(digit_fn()),
            forall|k: int| 0 <= k < ds@.len() ==> is_digit(#[trigger] ds@[k]),
        decreases n - i,
    {
        proof {
            reveal(Seq::filter);
            assert(v@.take(i + 1).drop_last() =~= v@.take(i as int));
            assert(v@.take(i + 1).last() == v@[i as int]);
        }
        if is_digit_exec(v[i]) {
            ds.push(v[i]);
        }
        i = i + 1;
    }
    proof {
        assert(v@.take(n as int) =~= v@);
    }
    ds
}

/// Runs the Luhn check over the whole text's digits: true exactly when the
/// digit count is 13 to 19 and the checksum is a multiple of ten.
pub fn is_credit_card(content: &str) -> (r: bool)
    ensures
        r == spec_is_credit_card(content@),
{
    let v = chars_of(content);
    let ds = digits_exec(&v);
    let n = ds.len();
    if n < 13 || n > 19 {
        return false;
    }
    let mut sum: u32 = 0;
    let mut doubled = false;
    let mut i: usize = n;
    proof {
        assert(ds@.take(n as int) =~= ds@);
    }
    while i > 0
        invariant
            n == ds@.len(),
            n <= 19,
            i <= n,
            forall|k: int| 0 <= k < ds@.len() ==> is_digit(#[trigger] ds@[k]),
            sum <= 9 * (n - i),
            luhn_sum(ds@, false) == sum + luhn_sum(ds@.take(i as int), doubled),
        decreases i,
    {
        proof {
            assert(ds@.take(i as int).drop_last() =~= ds@.take(i - 1));
            assert(ds@.take(i as int).last() == ds@[i - 1]);
        }
        let c = ds[i - 1];
        let dv: u32 = (c as u32) - 48;
        let w: u32 = if doubled {
            if 2 * dv > 9 {
                2 * dv - 9
            } else {
                2 * dv
            }
        } else {
            dv
        };
        proof {
            assert(w as int == luhn_weight(digit_val(ds@[i - 1]), doubled));
        }
        sum = sum + w;
        doubled = !doubled;
        i = i - 1;
    }
    proof {
        assert(ds@.take(0) =~= Seq::<char>::empty());
    }
    sum % 10 == 0
}

// ---------------------------------------------------------------------------
// social security numbers
// ---------------------------------------------------------------------------
/// A `DDD-DD-DDDD` token at `i`, with no word character adjacent.
pub open spec fn ssn_dash_at(s: Seq<char>, i: int) -> bool {
    &&& 0 <= i
    &&& i + 11 <= s.len()
    &&& (i == 0 || !is_word_char(s[i - 1]))
    &&& is_digit(s[i])
    &&& is_digit(s[i + 1])
    &&& is_digit(s[i + 2])
    &&& s[i + 3] == '-'
    &&& is_digit(s[i + 4])
    &&& is_digit(s[i + 5])
    &&& s[i + 6] == '-'
    &&& is_digit(s[i + 7])
    &&& is_digit(s[i + 8])
    &&& is_digit(s[i + 9])
    &&& is_digit(s[i + 10])
    &&& (i + 11 == s.len() || !is_word_char(s[i + 11]))
}

/// A bare run of exactly nine digits at `i`, with no word character adjacent.
pub open spec fn ssn_bare_at(s: Seq<char>, i: int) -> bool {
    &&& 0 <= i
    &&& i + 9 <= s.len()
    &&& (i == 0 || !is_word_char(s[i - 1]))
    &&& is_digit(s[i])
    &&& is_digit(s[i + 1])
    &&& is_digit(s[i + 2])
    &&& is_digit(s[i + 3])
    &&& is_digit(s[i + 4])
    &&& is_digit(s[i + 5])
    &&& is_digit(s[i + 6])
    &&& is_digit(s[i + 7])
    &&& is_digit(s[i + 8])
    &&& (i + 9 == s.len() || !is_word_char(s[i + 9]))
}

/// The text holds a social-security-shaped token.
pub open spec fn spec_is_ssn(s: Seq<char>) -> bool {
    exists|i: int| ssn_dash_at(s, i) || ssn_bare_at(s, i)
}

fn ssn_at_exec(v: &Vec<char>, i: usize) -> (r: bool)
    requires
        i < v@.len(),
    ensures
        r == (ssn_dash_at(v@, i as int) || ssn_bare_at(v@, i as int)),
{
    let n = v.len();
    if i > 0 && is_word_char_exec(v[i - 1]) {
        return false;
    }
    let dash = n - i >= 11 && is_digit_exec(v[i]) && is_digit_exec(v[i + 1]) && is_digit_exec(
        v[i + 2],
    ) && v[i + 3] == '-' && is_digit_exec(v[i + 4]) && is_digit_exec(v[i + 5]) && v[i + 6] == '-'
        && is_digit_exec(v[i + 7]) && is_digit_exec(v[i + 8]) && is_digit_exec(v[i + 9])
        && is_digit_exec(v[i + 10]) && (n - i == 11 || !is_word_char_exec(v[i + 11]));
    if dash {
        return true;
    }
    let bare = n - i >= 9 && is_digit_exec(v[i]) && is_digit_exec(v[i + 1]) && is_digit_exec(
        v[i + 2],
    ) && is_digit_exec(v[i + 3]) && is_digit_exec(v[i + 4]) && is_digit_exec(v[i + 5])
        && is_digit_exec(v[i + 6]) && is_digit_exec(v[i + 7]) && is_digit_exec(v[i + 8]) && (n - i
        == 9 || !is_word_char_exec(v[i + 9]));
    bare
}

/// Looks for a social-security-shaped token: `DDD-DD-DDDD`, or any bare
/// nine-digit run. Over-inclusive by design.
pub fn is_ssn(content: &str) -> (r: bool)
    ensures
        r == spec_is_ssn(content@),
{
    let v = chars_of(content);
    let n = v.len();
    let mut i: usize = 0;
    while i < n
        invariant
            v@ == content@,
            n == v@.len(),
            i <= n,
            forall|j: int| 0 <= j < i ==> !(ssn_dash_at(v@, j) || ssn_bare_at(v@, j)),
        decreases n - i,
    {
        if ssn_at_exec(&v, i) {
            proof {
                assert(spec_is_ssn(content@));
            }
            return true;
        }
        i = i + 1;
    }
    proof {
        assert forall|j: int| !(ssn_dash_at(v@, j) || ssn_bare_at(v@, j)) by {
            if ssn_dash_at(v@, j) || ssn_bare_at(v@, j) {
                assert(0 <= j < v@.len());
            }
        }
    }
    false
}

// ---------------------------------------------------------------------------
// phone numbers
// ---------------------------------------------------------------------------
/// A `DDD-DDD-DDDD` token at `i`, with no word character adjacent.
pub open spec fn phone_dash_at(s: Seq<char>, i: int) -> bool {
    &&& 0 <= i
    &&& i + 12 <= s.len()
    &&& (i == 0 || !is_word_char(s[i - 1]))
    &&& is_digit(s[i])
    &&& is_digit(s[i + 1])
    &&& is_digit(s[i + 2])
    &&& s[i + 3] == '-'
    &&& is_digit(s[i + 4])
    &&& is_digit(s[i + 5])
    &&& is_digit(s[i + 6])
    &&& s[i + 7] == '-'
    &&& is_digit(s[i + 8])
    &&& is_digit(s[i + 9])
    &&& is_digit(s[i + 10])
    &&& is_digit(s[i + 11])
    &&& (i + 12 == s.len() || !is_word_char(s[i + 12]))
}

/// A `(DDD)` group at `i`, any run of whitespace, then `DDD-DDDD`.
pub open spec fn phone_paren_at(s: Seq<char>, i: int, g: int) -> bool {
    &&& 0 <= i
    &&& 0 <= g
    &&& i + 13 + g <= s.len()
    &&& s[i] == '('
    &&& is_digit(s[i + 1])
    &&& is_digit(s[i + 2])
    &&& is_digit(s[i + 3])
    &&& s[i + 4] == ')'
    &&& (forall|k: int| i + 5 <= k < i + 5 + g ==> is_space_char(#[trigger] s[k]))
    &&& is_digit(s[i + 5 + g])
    &&& is_digit(s[i + 6 + g])
    &&& is_digit(s[i + 7 + g])
    &&& s[i + 8 + g] == '-'
    &&& is_digit(s[i + 9 + g])
    &&& is_digit(s[i + 10 + g])
    &&& is_digit(s[i + 11 + g])
    &&& is_digit(s[i + 12 + g])
}

/// The text holds a phone-shaped token.
pub open spec fn spec_is_phone(s: Seq<char>) -> bool {
    (exists|i: int| phone_dash_at(s, i)) || (exists|i: int, g: int| phone_paren_at(s, i, g))
}

fn phone_dash_at_exec(v: &Vec<char>, i: usize) -> (r: bool)
    requires
        i < v@.len(),
    ensures
        r == phone_dash_at(v@, i as int),
{
    let n = v.len();
    if i > 0 && is_word_char_exec(v[i - 1]) {
        return false;
    }
    n - i >= 12 && is_digit_exec(v[i]) && is_digit_exec(v[i + 1]) && is_digit_exec(v[i + 2]) && v[i
        + 3] == '-' && is_digit_exec(v[i + 4]) && is_digit_exec(v[i + 5]) && is_digit_exec(
        v[i + 6],
    ) && v[i + 7] == '-' && is_digit_exec(v[i + 8]) && is_digit_exec(v[i + 9]) && is_digit_exec(
        v[i + 10],
    ) && is_digit_exec(v[i + 11]) && (n - i == 12 || !is_word_char_exec(v[i + 12]))
}

fn phone_paren_from_exec(v: &Vec<char>, i: usize) -> (r: bool)
    requires
        i < v@.len(),
    ensures
        r == exists|g: int| phone_paren_at(v@, i as int, g),
{
    let n = v.len();
    if !(n - i >= 5 && v[i] == '(' && is_digit_exec(v[i + 1]) && is_digit_exec(v[i + 2])
        && is_digit_exec(v[i + 3]) && v[i + 4] == ')') {
        proof {
            assert forall|g: int| !phone_paren_at(v@, i as int, g) by {}
        }
        return false;
    }
    // the whitespace gap must be exactly the maximal whitespace run
    let mut m: usize = i + 5;
    while m < n && is_space_char_exec(v[m])
        invariant
            n == v@.len(),
            i + 5 <= m <= n,
            forall|k: int| i + 5 <= k < m ==> is_space_char(#[trigger] v@[k]),
        decreases n - m,
    {
        m = m + 1;
    }
    let ok = n - m >= 8 && is_digit_exec(v[m]) && is_digit_exec(v[m + 1]) && is_digit_exec(
        v[m + 2],
    ) && v[m + 3] == '-' && is_digit_exec(v[m + 4]) && is_digit_exec(v[m + 5]) && is_digit_exec(
        v[m + 6],
    ) && is_digit_exec(v[m + 7]);
    proof {
        if ok {
            assert(phone_paren_at(v@, i as int, m - (i + 5)));
        } else {
            assert forall|g: int| !phone_paren_at(v@, i as int, g) by {
                if phone_paren_at(v@, i as int, g) {
                    assert(i + 5 + g == m) by {
                        if i + 5 + g < m {
                            assert(is_space_char(v@[i + 5 + g]));
                        } else if i + 5 + g > m {
                            assert(m < v@.len());
                            assert(is_space_char(v@[m as int]));
                        }
                    }
                }
            }
        }
    }
    ok
}

/// Looks for a phone-shaped token: `DDD-DDD-DDDD`, or `(DDD) DDD-DDDD` with
/// optional whitespace after the parenthesis.
pub fn is_phone(content: &str) -> (r: bool)
    ensures
        r == spec_is_phone(content@),
{
    let v = chars_of(content);
    let n = v.len();
    let mut i: usize = 0;
    while i < n
        invariant
            v@ == content@,
            n == v@.len(),
            i <= n,
            forall|j: int| 0 <= j < i ==> !phone_dash_at(v@, j),
            forall|j: int, g: int| 0 <= j < i ==> !phone_paren_at(v@, j, g),
        decreases n - i,
    {
        if phone_dash_at_exec(&v, i) {
            proof {
                assert(spec_is_phone(content@));
            }
            return true;
        }
        if phone_paren_from_exec(&v, i) {
            proof {
                assert(spec_is_phone(content@));
            }
            return true;
        }
        i = i + 1;
    }
    proof {
        assert forall|j: int| !phone_dash_at(v@, j) by {
            if phone_dash_at(v@, j) {
                assert(0 <= j < v@.len());
            }
        }
        assert forall|j: int, g: int| !phone_paren_at(v@, j, g) by {
            if phone_paren_at(v@, j, g) {
                assert(0 <= j < v@.len());
            }
        }
    }
    false
}

// ---------------------------------------------------------------------------
// the detector
// ---------------------------------------------------------------------------
/// Any of the three signals flags the text.
pub open spec fn spec_is_sensitive(s: Seq<char>) -> bool {
    spec_is_credit_card(s) || spec_is_ssn(s) || spec_is_phone(s)
}

/// True when the text looks like a credit card number, a social security
/// number or a phone number. Conservative: false positives are the accepted
/// failure direction.
pub fn is_sensitive(content: &str) -> (r: bool)
    ensures
        r == spec_is_sensitive(content@),
{
    is_credit_card(content) || is_ssn(content) || is_phone(content)
}

// ---------------------------------------------------------------------------
// the Luhn laws
// ---------------------------------------------------------------------------
/// Filtering a pure digit string for digits returns it unchanged.
proof fn lemma_digits_of_all_digits(s: Seq<char>)
    requires
        forall|k: int| 0 <= k < s.len() ==> is_digit(#[trigger] s[k]),
    ensures
        digits_of(s) == s,
    decreases s.len(),
{
    reveal(Seq::filter);
    if s.len() == 0 {
        assert(digits_of(s) =~= s);
    } else {
        lemma_digits_of_all_digits(s.drop_last());
        assert((digit_fn())(s.last()));
        assert(digits_of(s) =~= s);
    }
}

/// Any digit string of 13 to 19 digits that satisfies the Luhn checksum is
/// flagged: as a credit card, and so as sensitive.
pub proof fn lemma_luhn_pass_is_sensitive(s: Seq<char>)
    requires
        forall|k: int| 0 <= k < s.len() ==> is_digit(#[trigger] s[k]),
        13 <= s.len() <= 19,
        luhn_valid(s),
    ensures
        spec_is_credit_card(s),
        spec_is_sensitive(s),
{
    lemma_digits_of_all_digits(s);
}

/// A digit string of the same length that breaks the checksum is not
/// flagged as a credit card; if no other pattern matches it either, it is
/// not sensitive at all.
pub proof fn lemma_luhn_fail_not_card(s: Seq<char>)
    requires
        forall|k: int| 0 <= k < s.len() ==> is_digit(#[trigger] s[k]),
        13 <= s.len() <= 19,
        !luhn_valid(s),
    ensures
        !spec_is_credit_card(s),
        !spec_is_ssn(s) && !spec_is_phone(s) ==> !spec_is_sensitive(s),
{
    lemma_digits_of_all_digits(s);
}

} // verus!
