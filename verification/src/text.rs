use vstd::prelude::*;
use vstd::string::StrSliceExecFns;
use vstd::string::StringExecFns;

verus! {

/// ASCII decimal digit.
pub open spec fn is_digit(c: char) -> bool {
    48 <= c as int <= 57
}

/// Word characters, as pattern boundaries understand them:
/// ASCII letters, ASCII digits, and the underscore.
pub open spec fn is_word_char(c: char) -> bool {
    is_digit(c) || 97 <= c as int <= 122 || 65 <= c as int <= 90 || c == '_'
}

/// An ASCII letter.
pub open spec fn is_ascii_letter(c: char) -> bool {
    97 <= c as int <= 122 || 65 <= c as int <= 90
}

pub fn is_ascii_letter_exec(c: char) -> (r: bool)
    ensures
        r == is_ascii_letter(c),
{
    let u = c as u32;
    (97 <= u && u <= 122) || (65 <= u && u <= 90)
}

/// ASCII whitespace: space, tab, line feed, vertical tab, form feed,
/// carriage return.
pub open spec fn is_space_char(c: char) -> bool {
    c == ' ' || c == '\t' || c == '\n' || c == '\r' || c == '\u{b}' || c == '\u{c}'
}

/// The numeric value of a decimal digit character.
pub open spec fn digit_val(c: char) -> int {
    c as int - 48
}

/// Case folding for matching: upper-case ASCII letters map onto their
/// lower-case code point, every other character onto its own.
pub open spec fn fold(c: char) -> int {
    if 65 <= c as int <= 90 {
        c as int + 32
    } else {
        c as int
    }
}

pub fn is_digit_exec(c: char) -> (r: bool)
    ensures
        r == is_digit(c),
{
    let u = c as u32;
    48 <= u && u <= 57
}

pub fn is_word_char_exec(c: char) -> (r: bool)
    ensures
        r == is_word_char(c),
{
    let u = c as u32;
    (48 <= u && u <= 57) || (97 <= u && u <= 122) || (65 <= u && u <= 90) || c == '_'
}

pub fn is_space_char_exec(c: char) -> (r: bool)
    ensures
        r == is_space_char(c),
{
    c == ' ' || c == '\t' || c == '\n' || c == '\r' || c == '\u{b}' || c == '\u{c}'
}

pub fn fold_exec(c: char) -> (r: u32)
    ensures
        r as int == fold(c),
{
    let u = c as u32;
    if 65 <= u && u <= 90 {
        u + 32
    } else {
        u
    }
}

/// The characters of `s`, in order, as a vector.
pub fn chars_of(s: &str) -> (v: Vec<char>)
    ensures
        v@ == s@,
{
    let n = s.unicode_len();
    let mut v: Vec<char> = Vec::new();
    let mut i: usize = 0;
    while i < n
        invariant
            n == s@.len(),
            i <= n,
            v@ == s@.take(i as int),
        decreases n - i,
    {
        let c = s.get_char(i);
        v.push(c);
        i = i + 1;
        proof {
            assert(v@ =~= s@.take(i as int));
        }
    }
    proof {
        assert(v@ =~= s@);
    }
    v
}

/// Character-for-character equality of two string slices.
pub fn str_eq(a: &str, b: &str) -> (r: bool)
    ensures
        r == (a@ == b@),
{
    let n = a.unicode_len();
    if n != b.unicode_len() {
        return false;
    }
    let mut i: usize = 0;
    while i < n
        invariant
            n == a@.len(),
            n == b@.len(),
            i <= n,
            forall|k: int| 0 <= k < i ==> a@[k] == b@[k],
        decreases n - i,
    {
        if a.get_char(i) != b.get_char(i) {
            return false;
        }
        i = i + 1;
    }
    proof {
        assert(a@ =~= b@);
    }
    true
}

/// Strict lexicographic order on character sequences, by code point: a
/// proper prefix comes first, otherwise the first differing character
/// decides.
pub open spec fn seq_lt(a: Seq<char>, b: Seq<char>) -> bool
    decreases a.len(),
{
    if b.len() == 0 {
        false
    } else if a.len() == 0 {
        true
    } else if (a[0] as int) < (b[0] as int) {
        true
    } else if a[0] != b[0] {
        false
    } else {
        seq_lt(a.drop_first(), b.drop_first())
    }
}

/// The order is connected: two sequences are ordered one way or the other,
/// or they are equal.
pub proof fn lemma_seq_lt_connected(a: Seq<char>, b: Seq<char>)
    ensures
        seq_lt(a, b) || seq_lt(b, a) || a == b,
    decreases a.len(),
{
    if a.len() == 0 && b.len() == 0 {
        assert(a =~= b);
    } else if a.len() > 0 && b.len() > 0 && a[0] == b[0] {
        lemma_seq_lt_connected(a.drop_first(), b.drop_first());
        if !seq_lt(a, b) && !seq_lt(b, a) {
            assert(a.drop_first() == b.drop_first());
            assert forall|k: int| 0 <= k < a.len() implies a[k] == b[k] by {
                if k > 0 {
                    assert(a.drop_first()[k - 1] == b.drop_first()[k - 1]);
                }
            }
            assert(a =~= b);
        }
    }
}

/// The order is irreflexive.
pub proof fn lemma_seq_lt_irrefl(a: Seq<char>)
    ensures
        !seq_lt(a, a),
    decreases a.len(),
{
    if a.len() > 0 {
        lemma_seq_lt_irrefl(a.drop_first());
    }
}

/// The order is transitive.
pub proof fn lemma_seq_lt_trans(a: Seq<char>, b: Seq<char>, c: Seq<char>)
    requires
        seq_lt(a, b),
        seq_lt(b, c),
    ensures
        seq_lt(a, c),
    decreases a.len(),
{
    if a.len() > 0 && b.len() > 0 && c.len() > 0 && a[0] == b[0] && b[0] == c[0] {
        lemma_seq_lt_trans(a.drop_first(), b.drop_first(), c.drop_first());
    }
}

/// Lexicographic comparison of two string slices, by code point.
pub fn str_lt(a: &str, b: &str) -> (r: bool)
    ensures
        r == seq_lt(a@, b@),
{
    let an = a.unicode_len();
    let bn = b.unicode_len();
    let mut i: usize = 0;
    proof {
        assert(a@.skip(0) =~= a@);
        assert(b@.skip(0) =~= b@);
    }
    while i < an && i < bn
        invariant
            an == a@.len(),
            bn == b@.len(),
            i <= an,
            i <= bn,
            seq_lt(a@, b@) == seq_lt(a@.skip(i as int), b@.skip(i as int)),
        decreases an - i,
    {
        let ca = a.get_char(i);
        let cb = b.get_char(i);
        proof {
            assert(a@.skip(i as int)[0] == a@[i as int]);
            assert(b@.skip(i as int)[0] == b@[i as int]);
            assert(a@.skip(i as int).drop_first() =~= a@.skip(i + 1));
            assert(b@.skip(i as int).drop_first() =~= b@.skip(i + 1));
        }
        if (ca as u32) < (cb as u32) {
            return true;
        }
        if ca != cb {
            return false;
        }
        i = i + 1;
    }
    proof {
        if i == an && an < bn {
            assert(a@.skip(i as int).len() == 0);
            assert(b@.skip(i as int).len() > 0);
        } else if i == bn {
            assert(b@.skip(i as int).len() == 0);
        }
    }
    an < bn
}

/// Case-insensitive match of `pat` against `text` at offset `i`.
pub open spec fn ci_match_at(text: Seq<char>, pat: Seq<char>, i: int) -> bool {
    forall|k: int| 0 <= k < pat.len() ==> fold(text[i + k]) == fold(#[trigger] pat[k])
}

/// `text` holds `pat` as a case-insensitive substring. An empty `pat`
/// matches every text.
pub open spec fn contains_ci(text: Seq<char>, pat: Seq<char>) -> bool {
    exists|i: int| 0 <= i && i + pat.len() <= text.len() && ci_match_at(text, pat, i)
}

pub fn contains_ci_exec(text: &Vec<char>, pat: &Vec<char>) -> (r: bool)
    ensures
        r == contains_ci(text@, pat@),
{
    if pat.len() > text.len() {
        return false;
    }
    let bound = text.len() - pat.len();
    let mut i: usize = 0;
    while i <= bound
        invariant
            pat.len() <= text.len(),
            bound == text.len() - pat.len(),
            i <= bound + 1,
            forall|j: int| 0 <= j < i ==> !ci_match_at(text@, pat@, j),
        decreases bound + 1 - i,
    {
        let mut k: usize = 0;
        let mut hit = true;
        while k < pat.len()
            invariant
                hit ==> forall|k2: int|
                    0 <= k2 < k ==> fold(text@[i + k2]) == fold(#[trigger] pat@[k2]),
                !hit ==> !ci_match_at(text@, pat@, i as int),
                i + pat.len() <= text.len(),
                k <= pat.len(),
            decreases pat.len() - k,
        {
            if fold_exec(text[i + k]) != fold_exec(pat[k]) {
                proof {
                    assert(!ci_match_at(text@, pat@, i as int));
                }
                hit = false;
                k = pat.len();
            } else {
                k = k + 1;
            }
        }
        if hit {
            proof {
                assert(ci_match_at(text@, pat@, i as int));
            }
            return true;
        }
        i = i + 1;
    }
    false
}

/// The first index at or after `i` whose character satisfies `p`, or the
/// length of `s` when no such index exists.
pub open spec fn scan_to(s: Seq<char>, i: int, p: spec_fn(char) -> bool) -> int
    decreases s.len() - i,
{
    if i >= s.len() {
        s.len() as int
    } else if p(s[i]) {
        i
    } else {
        scan_to(s, i + 1, p)
    }
}

pub proof fn lemma_scan_to(s: Seq<char>, i: int, p: spec_fn(char) -> bool)
    requires
        0 <= i <= s.len(),
    ensures
        i <= scan_to(s, i, p) <= s.len(),
        forall|k: int| i <= k < scan_to(s, i, p) ==> !p(#[trigger] s[k]),
        scan_to(s, i, p) < s.len() ==> p(s[scan_to(s, i, p)]),
    decreases s.len() - i,
{
    if i < s.len() && !p(s[i]) {
        lemma_scan_to(s, i + 1, p);
    }
}

/// The largest index at or below `i` such that the character just before it
/// satisfies `p`, or 0 when no such index exists.
pub open spec fn scan_back(s: Seq<char>, i: int, p: spec_fn(char) -> bool) -> int
    decreases i,
{
    if i <= 0 {
        0
    } else if p(s[i - 1]) {
        i
    } else {
        scan_back(s, i - 1, p)
    }
}

pub proof fn lemma_scan_back(s: Seq<char>, i: int, p: spec_fn(char) -> bool)
    requires
        0 <= i <= s.len(),
    ensures
        0 <= scan_back(s, i, p) <= i,
        forall|k: int| scan_back(s, i, p) <= k < i ==> !p(#[trigger] s[k]),
        scan_back(s, i, p) > 0 ==> p(s[scan_back(s, i, p) - 1]),
    decreases i,
{
    if i > 0 && !p(s[i - 1]) {
        lemma_scan_back(s, i - 1, p);
    }
}

/// `w` occurs character for character in `s` at offset `a`.
pub open spec fn prefix_at(s: Seq<char>, a: int, w: Seq<char>) -> bool {
    &&& 0 <= a
    &&& a + w.len() <= s.len()
    &&& forall|k: int| 0 <= k < w.len() ==> s[a + k] == #[trigger] w[k]
}

/// `w` occurs case-insensitively in `s` at offset `a`.
pub open spec fn ci_at(s: Seq<char>, a: int, w: Seq<char>) -> bool {
    &&& 0 <= a
    &&& a + w.len() <= s.len()
    &&& forall|k: int| 0 <= k < w.len() ==> fold(s[a + k]) == fold(#[trigger] w[k])
}

pub fn prefix_at_exec(v: &Vec<char>, a: usize, w: &str) -> (r: bool)
    requires
        a <= v@.len(),
    ensures
        r == prefix_at(v@, a as int, w@),
{
    let n = v.len();
    let wl = w.unicode_len();
    if n - a < wl {
        return false;
    }
    let mut k: usize = 0;
    while k < wl
        invariant
            n == v@.len(),
            a + wl <= n,
            wl == w@.len(),
            k <= wl,
            forall|k2: int| 0 <= k2 < k ==> v@[a + k2] == #[trigger] w@[k2],
        decreases wl - k,
    {
        if v[a + k] != w.get_char(k) {
            return false;
        }
        k = k + 1;
    }
    true
}

pub fn ci_at_exec(v: &Vec<char>, a: usize, w: &str) -> (r: bool)
    requires
        a <= v@.len(),
    ensures
        r == ci_at(v@, a as int, w@),
{
    let n = v.len();
    let wl = w.unicode_len();
    if n - a < wl {
        return false;
    }
    let mut k: usize = 0;
    while k < wl
        invariant
            n == v@.len(),
            a + wl <= n,
            wl == w@.len(),
            k <= wl,
            forall|k2: int| 0 <= k2 < k ==> fold(v@[a + k2]) == fold(#[trigger] w@[k2]),
        decreases wl - k,
    {
        if fold_exec(v[a + k]) != fold_exec(w.get_char(k)) {
            return false;
        }
        k = k + 1;
    }
    true
}

/// The decimal digits of `n`, most significant first.
pub open spec fn dec_str(n: nat) -> Seq<char>
    decreases n,
{
    if n < 10 {
        seq![digit_char(n as int)]
    } else {
        dec_str(n / 10) + seq![digit_char((n % 10) as int)]
    }
}

/// A signed decimal rendering: a leading minus sign for negative values.
pub open spec fn int_str(n: int) -> Seq<char> {
    if n >= 0 {
        dec_str(n as nat)
    } else {
        seq!['-'] + dec_str((-n) as nat)
    }
}

/// The character for a single decimal digit.
pub open spec fn digit_char(d: int) -> char {
    if d == 0 {
        '0'
    } else if d == 1 {
        '1'
    } else if d == 2 {
        '2'
    } else if d == 3 {
        '3'
    } else if d == 4 {
        '4'
    } else if d == 5 {
        '5'
    } else if d == 6 {
        '6'
    } else if d == 7 {
        '7'
    } else if d == 8 {
        '8'
    } else {
        '9'
    }
}

fn digit_literal(d: u64) -> (r: &'static str)
    requires
        d < 10,
    ensures
        r@ == seq![digit_char(d as int)],
{
    if d == 0 {
        proof {
            reveal_strlit("0");
        }
        "0"
    } else if d == 1 {
        proof {
            reveal_strlit("1");
        }
        "1"
    } else if d == 2 {
        proof {
            reveal_strlit("2");
        }
        "2"
    } else if d == 3 {
        proof {
            reveal_strlit("3");
        }
        "3"
    } else if d == 4 {
        proof {
            reveal_strlit("4");
        }
        "4"
    } else if d == 5 {
        proof {
            reveal_strlit("5");
        }
        "5"
    } else if d == 6 {
        proof {
            reveal_strlit("6");
        }
        "6"
    } else if d == 7 {
        proof {
            reveal_strlit("7");
        }
        "7"
    } else if d == 8 {
        proof {
            reveal_strlit("8");
        }
        "8"
    } else {
        proof {
            reveal_strlit("9");
        }
        "9"
    }
}

/// Appends the decimal digits of `n` to `out`.
pub fn push_decimal(out: &mut String, n: u64)
    ensures
        final(out)@ == old(out)@ + dec_str(n as nat),
    decreases n,
{
    if n < 10 {
        out.append(digit_literal(n));
    } else {
        push_decimal(out, n / 10);
        out.append(digit_literal(n % 10));
    }
}

/// The decimal rendering of `n`.
pub fn u64_to_string(n: u64) -> (s: String)
    ensures
        s@ == dec_str(n as nat),
{
    let mut s = String::new();
    push_decimal(&mut s, n);
    proof {
        assert(s@ =~= dec_str(n as nat));
    }
    s
}

/// The signed decimal rendering of `n`.
pub fn i64_to_string(n: i64) -> (s: String)
    ensures
        s@ == int_str(n as int),
{
    if n >= 0 {
        u64_to_string(n as u64)
    } else {
        let mag: u64 = ((-(n + 1)) as u64) + 1;
        proof {
            assert(mag as int == -(n as int));
        }
        let mut s = String::new();
        proof {
            reveal_strlit("-");
        }
        s.append("-");
        push_decimal(&mut s, mag);
        proof {
            assert(s@ =~= int_str(n as int));
        }
        s
    }
}

} // verus!
