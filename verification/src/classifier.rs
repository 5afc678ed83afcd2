use crate::text::{
    ci_at, ci_at_exec, chars_of, fold, is_ascii_letter, is_ascii_letter_exec, is_digit,
    is_digit_exec, is_space_char, is_space_char_exec, is_word_char, is_word_char_exec, prefix_at,
    prefix_at_exec, scan_back, scan_to, lemma_scan_back, lemma_scan_to,
};
use vstd::prelude::*;
use vstd::string::StrSliceExecFns;
use vstd::string::StringExecFns;

verus! {

// ---------------------------------------------------------------------------
// url
// ---------------------------------------------------------------------------
/// A URL token starts at `i`: `http://`, `https://` or `www.` followed by at
/// least one non-whitespace character.
pub open spec fn url_at(s: Seq<char>, i: int) -> bool {
    ||| (prefix_at(s, i, "http://"@) && i + 7 < s.len() && !is_space_char(s[i + 7]))
    ||| (prefix_at(s, i, "https://"@) && i + 8 < s.len() && !is_space_char(s[i + 8]))
    ||| (prefix_at(s, i, "www."@) && i + 4 < s.len() && !is_space_char(s[i + 4]))
}

/// The text holds a URL token.
pub open spec fn has_url(s: Seq<char>) -> bool {
    exists|i: int| 0 <= i < s.len() && url_at(s, i)
}

fn url_at_exec(v: &Vec<char>, i: usize) -> (r: bool)
    requires
        i < v@.len(),
    ensures
        r == url_at(v@, i as int),
{
    proof {
        reveal_strlit("http://");
        reveal_strlit("https://");
        reveal_strlit("www.");
    }
    let n = v.len();
    if prefix_at_exec(v, i, "http://") && n - i > 7 && !is_space_char_exec(v[i + 7]) {
        return true;
    }
    if prefix_at_exec(v, i, "https://") && n - i > 8 && !is_space_char_exec(v[i + 8]) {
        return true;
    }
    if prefix_at_exec(v, i, "www.") && n - i > 4 && !is_space_char_exec(v[i + 4]) {
        return true;
    }
    false
}

fn has_url_exec(v: &Vec<char>) -> (r: bool)
    ensures
        r == has_url(v@),
{
    let n = v.len();
    let mut i: usize = 0;
    while i < n
        invariant
            n == v@.len(),
            i <= n,
            forall|j: int| 0 <= j < i ==> !url_at(v@, j),
        decreases n - i,
    {
        if url_at_exec(v, i) {
            return true;
        }
        i = i + 1;
    }
    false
}

// ---------------------------------------------------------------------------
// email
// ---------------------------------------------------------------------------
/// Characters allowed in the local part of an address token.
pub open spec fn is_local_char(c: char) -> bool {
    is_word_char(c) || c == '.' || c == '+' || c == '-'
}

/// Characters allowed in a domain label.
pub open spec fn is_domain_char(c: char) -> bool {
    is_word_char(c) || c == '-'
}

fn is_local_char_exec(c: char) -> (r: bool)
    ensures
        r == is_local_char(c),
{
    is_word_char_exec(c) || c == '.' || c == '+' || c == '-'
}

fn is_domain_char_exec(c: char) -> (r: bool)
    ensures
        r == is_domain_char(c),
{
    is_word_char_exec(c) || c == '-'
}

/// An address token sits around the `@` at index `a`: a local-part character
/// just before it, a non-empty run of domain characters up to the dot at
/// index `d`, and a word character or dot after that dot.
pub open spec fn email_at(s: Seq<char>, a: int, d: int) -> bool {
    &&& 0 < a
    &&& a + 2 <= d
    &&& d + 1 < s.len()
    &&& s[a] == '@'
    &&& is_local_char(s[a - 1])
    &&& (forall|k: int| a < k < d ==> is_domain_char(#[trigger] s[k]))
    &&& s[d] == '.'
    &&& (is_word_char(s[d + 1]) || s[d + 1] == '.')
}

/// The text holds an address-shaped token.
pub open spec fn has_email(s: Seq<char>) -> bool {
    exists|a: int, d: int| email_at(s, a, d)
}

fn email_from_exec(v: &Vec<char>, a: usize) -> (r: bool)
    requires
        1 <= a < v@.len(),
    ensures
        r == exists|d: int| email_at(v@, a as int, d),
{
    let n = v.len();
    if !(v[a] == '@' && is_local_char_exec(v[a - 1])) {
        return false;
    }
    let mut e: usize = a + 1;
    while e < n && is_domain_char_exec(v[e])
        invariant
            n == v@.len(),
            a + 1 <= e <= n,
            forall|k: int| a < k < e ==> is_domain_char(#[trigger] v@[k]),
        decreases n - e,
    {
        e = e + 1;
    }
    // every run of domain characters after the `@` ends exactly at `e`
    if e - a >= 2 && n - e > 1 && v[e] == '.' && (is_word_char_exec(v[e + 1]) || v[e + 1] == '.') {
        proof {
            assert(email_at(v@, a as int, e as int));
        }
        true
    } else {
        proof {
            assert forall|d: int| !email_at(v@, a as int, d) by {
                if email_at(v@, a as int, d) {
                    // the dot index would have to be `e` itself
                    if d < e {
                        assert(is_domain_char(v@[d]));
                        assert(!is_word_char('.'));
                    } else if d > e {
                        assert(e < v@.len());
                        assert(is_domain_char(v@[e as int]));
                    }
                }
            }
        }
        false
    }
}

fn has_email_exec(v: &Vec<char>) -> (r: bool)
    ensures
        r == has_email(v@),
{
    let n = v.len();
    if n < 2 {
        proof {
            assert forall|a: int, d: int| !email_at(v@, a, d) by {}
        }
        return false;
    }
    let mut a: usize = 1;
    while a < n
        invariant
            n == v@.len(),
            1 <= a <= n,
            forall|a2: int, d: int| 0 < a2 < a ==> !email_at(v@, a2, d),
        decreases n - a,
    {
        if email_from_exec(v, a) {
            return true;
        }
        a = a + 1;
    }
    proof {
        assert forall|a2: int, d: int| !email_at(v@, a2, d) by {
            if email_at(v@, a2, d) {
                assert(0 < a2 < v@.len());
            }
        }
    }
    false
}

// ---------------------------------------------------------------------------
// ip
// ---------------------------------------------------------------------------
/// A dotted-quad numeric token at `i`: four runs of one to three digits
/// separated by dots, with no word character adjacent on either side. The
/// run values are not range-checked.
pub open spec fn ip_at(s: Seq<char>, i: int, l1: int, l2: int, l3: int, l4: int) -> bool {
    let d1 = i + l1;
    let p2 = d1 + 1;
    let d2 = p2 + l2;
    let p3 = d2 + 1;
    let d3 = p3 + l3;
    let p4 = d3 + 1;
    let e = p4 + l4;
    &&& 1 <= l1 <= 3
    &&& 1 <= l2 <= 3
    &&& 1 <= l3 <= 3
    &&& 1 <= l4 <= 3
    &&& 0 <= i
    &&& e <= s.len()
    &&& (i == 0 || !is_word_char(s[i - 1]))
    &&& (e == s.len() || !is_word_char(s[e]))
    &&& (forall|k: int| i <= k < d1 ==> is_digit(#[trigger] s[k]))
    &&& s[d1] == '.'
    &&& (forall|k: int| p2 <= k < d2 ==> is_digit(#[trigger] s[k]))
    &&& s[d2] == '.'
    &&& (forall|k: int| p3 <= k < d3 ==> is_digit(#[trigger] s[k]))
    &&& s[d3] == '.'
    &&& (forall|k: int| p4 <= k < e ==> is_digit(#[trigger] s[k]))
}

/// The text holds a dotted-quad numeric token.
pub open spec fn has_ip(s: Seq<char>) -> bool {
    exists|i: int, l1: int, l2: int, l3: int, l4: int| ip_at(s, i, l1, l2, l3, l4)
}

/// The length of the run of digits starting at `i`, capped at 4.
fn digit_run(v: &Vec<char>, i: usize) -> (r: usize)
    requires
        i <= v@.len(),
    ensures
        r <= 4,
        i + r <= v@.len(),
        forall|k: int| i <= k < i + r ==> is_digit(#[trigger] v@[k]),
        r < 4 ==> (i + r == v@.len() || !is_digit(v@[i + r])),
    decreases v@.len() - i,
{
    let n = v.len();
    let mut r: usize = 0;
    while r < 4 && i + r < n && is_digit_exec(v[i + r])
        invariant
            n == v@.len(),
            i <= n,
            r <= 4,
            i + r <= n,
            forall|k: int| i <= k < i + r ==> is_digit(#[trigger] v@[k]),
        decreases 4 - r,
    {
        r = r + 1;
    }
    r
}

#[verifier::rlimit(50)]
fn ip_from_exec(v: &Vec<char>, i: usize) -> (r: bool)
    requires
        i < v@.len(),
    ensures
        r == exists|l1: int, l2: int, l3: int, l4: int| ip_at(v@, i as int, l1, l2, l3, l4),
{
    let n = v.len();
    if i > 0 && is_word_char_exec(v[i - 1]) {
        return false;
    }
    let r1 = digit_run(v, i);
    if r1 == 0 || r1 > 3 || i + r1 == n || v[i + r1] != '.' {
        proof {
            assert forall|l1: int, l2: int, l3: int, l4: int|
                !ip_at(v@, i as int, l1, l2, l3, l4) by {
                if ip_at(v@, i as int, l1, l2, l3, l4) {
                    assert(l1 == r1) by {
                        if l1 < r1 {
                            assert(is_digit(v@[i + l1]));
                        } else if l1 > r1 {
                            assert(is_digit(v@[i + r1]));
                        }
                    }
                }
            }
        }
        return false;
    }
    let p2 = i + r1 + 1;
    let r2 = digit_run(v, p2);
    if r2 == 0 || r2 > 3 || p2 + r2 == n || v[p2 + r2] != '.' {
        proof {
            assert forall|l1: int, l2: int, l3: int, l4: int|
                !ip_at(v@, i as int, l1, l2, l3, l4) by {
                if ip_at(v@, i as int, l1, l2, l3, l4) {
                    assert(l1 == r1) by {
                        if l1 < r1 {
                            assert(is_digit(v@[i + l1]));
                        } else if l1 > r1 {
                            assert(is_digit(v@[i + r1]));
                        }
                    }
                    assert(l2 == r2) by {
                        if l2 < r2 {
                            assert(is_digit(v@[p2 + l2]));
                        } else if l2 > r2 {
                            assert(is_digit(v@[p2 + r2]));
                        }
                    }
                }
            }
        }
        return false;
    }
    let p3 = p2 + r2 + 1;
    let r3 = digit_run(v, p3);
    if r3 == 0 || r3 > 3 || p3 + r3 == n || v[p3 + r3] != '.' {
        proof {
            assert forall|l1: int, l2: int, l3: int, l4: int|
                !ip_at(v@, i as int, l1, l2, l3, l4) by {
                if ip_at(v@, i as int, l1, l2, l3, l4) {
                    assert(l1 == r1) by {
                        if l1 < r1 {
                            assert(is_digit(v@[i + l1]));
                        } else if l1 > r1 {
                            assert(is_digit(v@[i + r1]));
                        }
                    }
                    assert(l2 == r2) by {
                        if l2 < r2 {
                            assert(is_digit(v@[p2 + l2]));
                        } else if l2 > r2 {
                            assert(is_digit(v@[p2 + r2]));
                        }
                    }
                    assert(l3 == r3) by {
                        if l3 < r3 {
                            assert(is_digit(v@[p3 + l3]));
                        } else if l3 > r3 {
                            assert(is_digit(v@[p3 + r3]));
                        }
                    }
                }
            }
        }
        return false;
    }
    let p4 = p3 + r3 + 1;
    let r4 = digit_run(v, p4);
    let ok = 1 <= r4 && r4 <= 3 && (p4 + r4 == n || !is_word_char_exec(v[p4 + r4]));
    proof {
        if ok {
            assert(ip_at(v@, i as int, r1 as int, r2 as int, r3 as int, r4 as int));
        } else {
            assert forall|l1: int, l2: int, l3: int, l4: int|
                !ip_at(v@, i as int, l1, l2, l3, l4) by {
                if ip_at(v@, i as int, l1, l2, l3, l4) {
                    assert(l1 == r1) by {
                        if l1 < r1 {
                            assert(is_digit(v@[i + l1]));
                        } else if l1 > r1 {
                            assert(is_digit(v@[i + r1]));
                        }
                    }
                    assert(l2 == r2) by {
                        if l2 < r2 {
                            assert(is_digit(v@[p2 + l2]));
                        } else if l2 > r2 {
                            assert(is_digit(v@[p2 + r2]));
                        }
                    }
                    assert(l3 == r3) by {
                        if l3 < r3 {
                            assert(is_digit(v@[p3 + l3]));
                        } else if l3 > r3 {
                            assert(is_digit(v@[p3 + r3]));
                        }
                    }
                    // the final run must end exactly where the digits stop
                    assert(l4 == r4) by {
                        if l4 < r4 {
                            assert(is_digit(v@[p4 + l4]));
                            assert(is_word_char(v@[p4 + l4]));
                        } else if l4 > r4 {
                            assert(is_digit(v@[p4 + r4]));
                        }
                    }
                }
            }
        }
    }
    ok
}

fn has_ip_exec(v: &Vec<char>) -> (r: bool)
    ensures
        r == has_ip(v@),
{
    let n = v.len();
    let mut i: usize = 0;
    while i < n
        invariant
            n == v@.len(),
            i <= n,
            forall|j: int, l1: int, l2: int, l3: int, l4: int|
                0 <= j < i ==> !ip_at(v@, j, l1, l2, l3, l4),
        decreases n - i,
    {
        if ip_from_exec(v, i) {
            return true;
        }
        i = i + 1;
    }
    proof {
        assert forall|j: int, l1: int, l2: int, l3: int, l4: int|
            !ip_at(v@, j, l1, l2, l3, l4) by {
            if ip_at(v@, j, l1, l2, l3, l4) {
                assert(0 <= j < v@.len());
            }
        }
    }
    false
}

// ---------------------------------------------------------------------------
// path
// ---------------------------------------------------------------------------
/// The predicate that survives trimming: not ASCII whitespace.
pub open spec fn non_space_fn() -> spec_fn(char) -> bool {
    |c: char| !is_space_char(c)
}

/// The index of the first non-whitespace character, or the length.
pub open spec fn trim_start_idx(s: Seq<char>) -> int {
    scan_to(s, 0, non_space_fn())
}

/// One past the index of the last non-whitespace character, or 0.
pub open spec fn trim_end_idx(s: Seq<char>) -> int {
    scan_back(s, s.len() as int, non_space_fn())
}

/// The trimmed text starts with `/`, with `~/`, or with a drive letter,
/// colon and backslash.
pub open spec fn is_path_like(s: Seq<char>) -> bool {
    let a = trim_start_idx(s);
    let b = trim_end_idx(s);
    &&& a < b
    &&& (s[a] == '/' || (a + 1 < b && s[a] == '~' && s[a + 1] == '/') || (b - a > 2
        && is_ascii_letter(s[a]) && s[a + 1] == ':' && s[a + 2] == '\\'))
}

/// The first non-whitespace index, as `trim_start_idx` gives it.
fn trim_start_exec(v: &Vec<char>) -> (a: usize)
    ensures
        a as int == trim_start_idx(v@),
        a <= v@.len(),
        forall|k: int| 0 <= k < a ==> is_space_char(#[trigger] v@[k]),
        a < v@.len() ==> !is_space_char(v@[a as int]),
{
    let n = v.len();
    let mut a: usize = 0;
    while a < n && is_space_char_exec(v[a])
        invariant
            n == v@.len(),
            a <= n,
            forall|k: int| 0 <= k < a ==> is_space_char(#[trigger] v@[k]),
        decreases n - a,
    {
        a = a + 1;
    }
    proof {
        lemma_scan_to(v@, 0, non_space_fn());
        let r = trim_start_idx(v@);
        if r < a {
            assert(is_space_char(v@[r]));
            assert((non_space_fn())(v@[r]));
        }
        if a < r {
            assert(!(non_space_fn())(v@[a as int]));
        }
    }
    a
}

fn trim_end_exec(v: &Vec<char>) -> (b: usize)
    ensures
        b as int == trim_end_idx(v@),
        b <= v@.len(),
{
    let n = v.len();
    let mut b: usize = n;
    while b > 0 && is_space_char_exec(v[b - 1])
        invariant
            n == v@.len(),
            b <= n,
            forall|k: int| b <= k < n ==> is_space_char(#[trigger] v@[k]),
        decreases b,
    {
        b = b - 1;
    }
    proof {
        lemma_scan_back(v@, n as int, non_space_fn());
        let r = trim_end_idx(v@);
        if r < b {
            assert(!(non_space_fn())(v@[b - 1]));
            assert(!is_space_char(v@[b - 1]));
        }
        if b < r {
            assert(is_space_char(v@[r - 1]));
            assert((non_space_fn())(v@[r - 1]));
        }
    }
    b
}

fn is_path_like_exec(v: &Vec<char>) -> (r: bool)
    ensures
        r == is_path_like(v@),
{
    let a = trim_start_exec(v);
    let b = trim_end_exec(v);
    if a >= b {
        return false;
    }
    if v[a] == '/' {
        return true;
    }
    if b - a >= 2 && v[a] == '~' && v[a + 1] == '/' {
        return true;
    }
    if b - a > 2 && is_ascii_letter_exec(v[a]) && v[a + 1] == ':' && v[a + 2] == '\\' {
        return true;
    }
    false
}

// ---------------------------------------------------------------------------
// command
// ---------------------------------------------------------------------------
/// Whitespace, for delimiting the first token.
pub open spec fn space_fn() -> spec_fn(char) -> bool {
    |c: char| is_space_char(c)
}

/// The end of the whitespace-delimited token starting at `a`.
pub open spec fn token_end(s: Seq<char>, a: int) -> int {
    scan_to(s, a, space_fn())
}

/// The token `[a, w)` is exactly the word `word`.
pub open spec fn token_is(s: Seq<char>, a: int, w: int, word: Seq<char>) -> bool {
    w - a == word.len() && prefix_at(s, a, word)
}

/// The left-trimmed text starts with a shell-prompt sign or a known command
/// name, or its first whitespace-delimited token is a known command name.
pub open spec fn has_command(s: Seq<char>) -> bool {
    let a = trim_start_idx(s);
    let w = token_end(s, a);
    ||| (a < s.len() && (s[a] == '$' || s[a] == '#'))
    ||| prefix_at(s, a, "sudo"@)
    ||| prefix_at(s, a, "ssh"@)
    ||| prefix_at(s, a, "curl"@)
    ||| prefix_at(s, a, "git"@)
    ||| prefix_at(s, a, "npm"@)
    ||| prefix_at(s, a, "docker"@)
    ||| prefix_at(s, a, "kubectl"@)
    ||| prefix_at(s, a, "cargo"@)
    ||| prefix_at(s, a, "brew"@)
    ||| prefix_at(s, a, "apt"@)
    ||| prefix_at(s, a, "yum"@)
    ||| token_is(s, a, w, "sudo"@)
    ||| token_is(s, a, w, "ssh"@)
    ||| token_is(s, a, w, "curl"@)
    ||| token_is(s, a, w, "git"@)
    ||| token_is(s, a, w, "npm"@)
    ||| token_is(s, a, w, "docker"@)
    ||| token_is(s, a, w, "kubectl"@)
    ||| token_is(s, a, w, "cargo"@)
    ||| token_is(s, a, w, "brew"@)
    ||| token_is(s, a, w, "apt"@)
    ||| token_is(s, a, w, "yum"@)
}

fn token_end_exec(v: &Vec<char>, a: usize) -> (w: usize)
    requires
        a <= v@.len(),
    ensures
        w as int == token_end(v@, a as int),
        a <= w <= v@.len(),
{
    let n = v.len();
    let mut w: usize = a;
    while w < n && !is_space_char_exec(v[w])
        invariant
            n == v@.len(),
            a <= w <= n,
            forall|k: int| a <= k < w ==> !is_space_char(#[trigger] v@[k]),
        decreases n - w,
    {
        w = w + 1;
    }
    proof {
        lemma_scan_to(v@, a as int, space_fn());
        let r = token_end(v@, a as int);
        if r < w {
            assert(!is_space_char(v@[r]));
            assert((space_fn())(v@[r]));
        }
        if w < r {
            assert(!(space_fn())(v@[w as int]));
        }
    }
    w
}

fn has_command_exec(v: &Vec<char>) -> (r: bool)
    ensures
        r == has_command(v@),
{
    proof {
        reveal_strlit("sudo");
        reveal_strlit("ssh");
        reveal_strlit("curl");
        reveal_strlit("git");
        reveal_strlit("npm");
        reveal_strlit("docker");
        reveal_strlit("kubectl");
        reveal_strlit("cargo");
        reveal_strlit("brew");
        reveal_strlit("apt");
        reveal_strlit("yum");
    }
    let n = v.len();
    let a = trim_start_exec(v);
    let w = token_end_exec(v, a);
    if a < n && (v[a] == '$' || v[a] == '#') {
        return true;
    }
    if prefix_at_exec(v, a, "sudo") || prefix_at_exec(v, a, "ssh") || prefix_at_exec(v, a, "curl")
        || prefix_at_exec(v, a, "git") || prefix_at_exec(v, a, "npm") || prefix_at_exec(
        v,
        a,
        "docker",
    ) || prefix_at_exec(v, a, "kubectl") || prefix_at_exec(v, a, "cargo") || prefix_at_exec(
        v,
        a,
        "brew",
    ) || prefix_at_exec(v, a, "apt") || prefix_at_exec(v, a, "yum") {
        return true;
    }
    let t = w - a;
    if (t == 4 && prefix_at_exec(v, a, "sudo")) || (t == 3 && prefix_at_exec(v, a, "ssh")) || (t
        == 4 && prefix_at_exec(v, a, "curl")) || (t == 3 && prefix_at_exec(v, a, "git")) || (t == 3
        && prefix_at_exec(v, a, "npm")) || (t == 6 && prefix_at_exec(v, a, "docker")) || (t == 7
        && prefix_at_exec(v, a, "kubectl")) || (t == 5 && prefix_at_exec(v, a, "cargo")) || (t == 4
        && prefix_at_exec(v, a, "brew")) || (t == 3 && prefix_at_exec(v, a, "apt")) || (t == 3
        && prefix_at_exec(v, a, "yum")) {
        return true;
    }
    false
}

// ---------------------------------------------------------------------------
// error
// ---------------------------------------------------------------------------
/// Line feed, for splitting lines.
pub open spec fn nl_fn() -> spec_fn(char) -> bool {
    |c: char| c == '\n'
}

/// The end of the line starting at `i`: the next line feed, with a carriage
/// return just before it excluded from the line's content.
pub open spec fn line_end(s: Seq<char>, i: int) -> int {
    let j = scan_to(s, i, nl_fn());
    if j > i && s[j - 1] == '\r' {
        j - 1
    } else {
        j
    }
}

/// `i` begins a line: the very start of the text, or just after a line feed.
pub open spec fn is_line_start(s: Seq<char>, i: int) -> bool {
    0 <= i < s.len() && (i == 0 || s[i - 1] == '\n')
}

/// The word `w` occurs case-insensitively at `k`, wholly before `hi`.
pub open spec fn kw_hit(s: Seq<char>, k: int, hi: int, w: Seq<char>) -> bool {
    k + w.len() <= hi && ci_at(s, k, w)
}

/// The line `[lo, hi)` holds one of the error keywords, case-insensitively.
pub open spec fn line_kw(s: Seq<char>, lo: int, hi: int) -> bool {
    exists|k: int|
        lo <= k && (kw_hit(s, k, hi, "error"@) || kw_hit(s, k, hi, "exception"@) || kw_hit(
            s,
            k,
            hi,
            "failed"@,
        ) || kw_hit(s, k, hi, "fatal"@) || kw_hit(s, k, hi, "panic"@) || kw_hit(
            s,
            k,
            hi,
            "traceback"@,
        ) || kw_hit(s, k, hi, "uncaught"@) || kw_hit(s, k, hi, "segfault"@) || kw_hit(
            s,
            k,
            hi,
            "abort"@,
        ) || kw_hit(s, k, hi, "crash"@))
}

/// How many line starts below `n` begin a line with an error keyword.
pub open spec fn err_count_upto(s: Seq<char>, n: int) -> int
    decreases n,
{
    if n <= 0 {
        0
    } else {
        err_count_upto(s, n - 1) + if is_line_start(s, n - 1) && line_kw(
            s,
            n - 1,
            line_end(s, n - 1),
        ) {
            1int
        } else {
            0int
        }
    }
}

/// How many line feeds sit below `n`.
pub open spec fn nl_count_upto(s: Seq<char>, n: int) -> int
    decreases n,
{
    if n <= 0 {
        0
    } else {
        nl_count_upto(s, n - 1) + if s[n - 1] == '\n' {
            1int
        } else {
            0int
        }
    }
}

/// The number of lines, counted as `str::lines` does: one per line feed,
/// plus a final unterminated line.
pub open spec fn line_count(s: Seq<char>) -> int {
    nl_count_upto(s, s.len() as int) + if s.len() > 0 && s.last() != '\n' {
        1int
    } else {
        0int
    }
}

/// The number of lines holding an error keyword.
pub open spec fn err_line_count(s: Seq<char>) -> int {
    err_count_upto(s, s.len() as int)
}

/// More than 30 percent of the lines hold an error keyword, or the text is
/// a single line holding one.
pub open spec fn has_error_signal(s: Seq<char>) -> bool {
    ||| 10 * err_line_count(s) > 3 * line_count(s)
    ||| (line_count(s) == 1 && err_line_count(s) > 0)
}

proof fn lemma_nl_count_bound(s: Seq<char>, n: int)
    ensures
        0 <= nl_count_upto(s, n) <= if n >= 0 {
            n
        } else {
            0
        },
    decreases n,
{
    if n > 0 {
        lemma_nl_count_bound(s, n - 1);
    }
}

/// Between a line start and the next one there are no other starts, so the
/// running count moves by exactly that line's contribution.
proof fn lemma_err_count_gap(s: Seq<char>, i: int, m: int)
    requires
        0 <= i < m <= s.len(),
        forall|p: int| i < p < m ==> !is_line_start(s, p),
    ensures
        err_count_upto(s, m) == err_count_upto(s, i) + if is_line_start(s, i) && line_kw(
            s,
            i,
            line_end(s, i),
        ) {
            1int
        } else {
            0int
        },
    decreases m,
{
    if m == i + 1 {
    } else {
        lemma_err_count_gap(s, i, m - 1);
    }
}

fn line_kw_exec(v: &Vec<char>, lo: usize, hi: usize) -> (r: bool)
    requires
        lo <= hi <= v@.len(),
    ensures
        r == line_kw(v@, lo as int, hi as int),
{
    let mut k: usize = lo;
    while k < hi
        invariant
            lo <= hi <= v@.len(),
            lo <= k <= hi,
            forall|k2: int|
                lo <= k2 < k ==> !(kw_hit(v@, k2, hi as int, "error"@) || kw_hit(
                    v@,
                    k2,
                    hi as int,
                    "exception"@,
                ) || kw_hit(v@, k2, hi as int, "failed"@) || kw_hit(v@, k2, hi as int, "fatal"@)
                    || kw_hit(v@, k2, hi as int, "panic"@) || kw_hit(v@, k2, hi as int, "traceback"@)
                    || kw_hit(v@, k2, hi as int, "uncaught"@) || kw_hit(v@, k2, hi as int, "segfault"@)
                    || kw_hit(v@, k2, hi as int, "abort"@) || kw_hit(v@, k2, hi as int, "crash"@)),
        decreases hi - k,
    {
        proof {
            reveal_strlit("error");
            reveal_strlit("exception");
            reveal_strlit("failed");
            reveal_strlit("fatal");
            reveal_strlit("panic");
            reveal_strlit("traceback");
            reveal_strlit("uncaught");
            reveal_strlit("segfault");
            reveal_strlit("abort");
            reveal_strlit("crash");
        }
        if (hi - k >= 5 && ci_at_exec(v, k, "error")) || (hi - k >= 9 && ci_at_exec(
            v,
            k,
            "exception",
        )) || (hi - k >= 6 && ci_at_exec(v, k, "failed")) || (hi - k >= 5 && ci_at_exec(
            v,
            k,
            "fatal",
        )) || (hi - k >= 5 && ci_at_exec(v, k, "panic")) || (hi - k >= 9 && ci_at_exec(
            v,
            k,
            "traceback",
        )) || (hi - k >= 8 && ci_at_exec(v, k, "uncaught")) || (hi - k >= 8 && ci_at_exec(
            v,
            k,
            "segfault",
        )) || (hi - k >= 5 && ci_at_exec(v, k, "abort")) || (hi - k >= 5 && ci_at_exec(
            v,
            k,
            "crash",
        )) {
            proof {
                assert(kw_hit(v@, k as int, hi as int, "error"@) || kw_hit(
                    v@,
                    k as int,
                    hi as int,
                    "exception"@,
                ) || kw_hit(v@, k as int, hi as int, "failed"@) || kw_hit(
                    v@,
                    k as int,
                    hi as int,
                    "fatal"@,
                ) || kw_hit(v@, k as int, hi as int, "panic"@) || kw_hit(
                    v@,
                    k as int,
                    hi as int,
                    "traceback"@,
                ) || kw_hit(v@, k as int, hi as int, "uncaught"@) || kw_hit(
                    v@,
                    k as int,
                    hi as int,
                    "segfault"@,
                ) || kw_hit(v@, k as int, hi as int, "abort"@) || kw_hit(
                    v@,
                    k as int,
                    hi as int,
                    "crash"@,
                ));
                assert(line_kw(v@, lo as int, hi as int));
            }
            return true;
        }
        k = k + 1;
    }
    proof {
        reveal_strlit("error");
        reveal_strlit("exception");
        reveal_strlit("failed");
        reveal_strlit("fatal");
        reveal_strlit("panic");
        reveal_strlit("traceback");
        reveal_strlit("uncaught");
        reveal_strlit("segfault");
        reveal_strlit("abort");
        reveal_strlit("crash");
    }
    false
}

fn has_error_signal_exec(v: &Vec<char>) -> (r: bool)
    ensures
        r == has_error_signal(v@),
{
    let n = v.len();
    // count line feeds
    let mut nl: usize = 0;
    let mut i: usize = 0;
    while i < n
        invariant
            n == v@.len(),
            i <= n,
            nl <= i,
            nl as int == nl_count_upto(v@, i as int),
        decreases n - i,
    {
        if v[i] == '\n' {
            nl = nl + 1;
        }
        i = i + 1;
    }
    let lines: usize = if n > 0 && v[n - 1] != '\n' {
        proof {
            lemma_nl_count_bound(v@, n - 1 as int);
        }
        nl + 1
    } else {
        nl
    };
    proof {
        assert(lines as int == line_count(v@));
    }
    // count lines holding an error keyword, walking line starts
    let mut errs: usize = 0;
    let mut i2: usize = 0;
    while i2 < n
        invariant
            n == v@.len(),
            i2 <= n,
            errs <= i2,
            errs as int == err_count_upto(v@, i2 as int),
            i2 < n ==> is_line_start(v@, i2 as int),
        decreases n - i2,
    {
        // find the end of this line
        let mut j: usize = i2;
        while j < n && v[j] != '\n'
            invariant
                n == v@.len(),
                i2 <= j <= n,
                forall|k: int| i2 <= k < j ==> v@[k] != '\n',
            decreases n - j,
        {
            j = j + 1;
        }
        proof {
            lemma_scan_to(v@, i2 as int, nl_fn());
            let r = scan_to(v@, i2 as int, nl_fn());
            if r < j {
                assert((nl_fn())(v@[r]));
            }
            if j < r {
                assert(!(nl_fn())(v@[j as int]));
            }
            assert(j as int == scan_to(v@, i2 as int, nl_fn()));
        }
        let e: usize = if j > i2 && v[j - 1] == '\r' {
            j - 1
        } else {
            j
        };
        proof {
            assert(e as int == line_end(v@, i2 as int));
        }
        let hit = line_kw_exec(v, i2, e);
        let next: usize = if j < n {
            j + 1
        } else {
            n
        };
        proof {
            assert forall|p: int| i2 < p < next implies !is_line_start(v@, p) by {}
            lemma_err_count_gap(v@, i2 as int, next as int);
        }
        if hit {
            errs = errs + 1;
        }
        i2 = next;
    }
    // the thresholds, in exact integer arithmetic
    let el: u128 = errs as u128;
    let ll: u128 = lines as u128;
    let r = 10 * el > 3 * ll || (lines == 1 && errs > 0);
    proof {
        assert(errs as int == err_line_count(v@));
        assert(lines as int == line_count(v@));
    }
    r
}

// ---------------------------------------------------------------------------
// code
// ---------------------------------------------------------------------------
/// One of the code keywords occurs at `i`, exactly as written.
pub open spec fn code_kw_at(s: Seq<char>, i: int) -> bool {
    ||| prefix_at(s, i, "fn "@)
    ||| prefix_at(s, i, "def "@)
    ||| prefix_at(s, i, "class "@)
    ||| prefix_at(s, i, "import "@)
    ||| prefix_at(s, i, "const "@)
    ||| prefix_at(s, i, "let "@)
    ||| prefix_at(s, i, "var "@)
    ||| prefix_at(s, i, "function "@)
    ||| prefix_at(s, i, "async "@)
    ||| prefix_at(s, i, "await "@)
    ||| prefix_at(s, i, "return "@)
    ||| prefix_at(s, i, "if ("@)
    ||| prefix_at(s, i, "for ("@)
}

/// The text holds both braces, or one of the code keywords.
pub open spec fn has_code(s: Seq<char>) -> bool {
    ||| ((exists|i: int| 0 <= i < s.len() && s[i] == '{') && (exists|i: int|
        0 <= i < s.len() && s[i] == '}'))
    ||| (exists|i: int| code_kw_at(s, i))
}

fn contains_char_exec(v: &Vec<char>, c: char) -> (r: bool)
    ensures
        r == exists|i: int| 0 <= i < v@.len() && v@[i] == c,
{
    let n = v.len();
    let mut i: usize = 0;
    while i < n
        invariant
            n == v@.len(),
            i <= n,
            forall|j: int| 0 <= j < i ==> v@[j] != c,
        decreases n - i,
    {
        if v[i] == c {
            return true;
        }
        i = i + 1;
    }
    false
}

fn code_kw_at_exec(v: &Vec<char>, i: usize) -> (r: bool)
    requires
        i <= v@.len(),
    ensures
        r == code_kw_at(v@, i as int),
{
    proof {
        reveal_strlit("fn ");
        reveal_strlit("def ");
        reveal_strlit("class ");
        reveal_strlit("import ");
        reveal_strlit("const ");
        reveal_strlit("let ");
        reveal_strlit("var ");
        reveal_strlit("function ");
        reveal_strlit("async ");
        reveal_strlit("await ");
        reveal_strlit("return ");
        reveal_strlit("if (");
        reveal_strlit("for (");
    }
    prefix_at_exec(v, i, "fn ") || prefix_at_exec(v, i, "def ") || prefix_at_exec(v, i, "class ")
        || prefix_at_exec(v, i, "import ") || prefix_at_exec(v, i, "const ") || prefix_at_exec(
        v,
        i,
        "let ",
    ) || prefix_at_exec(v, i, "var ") || prefix_at_exec(v, i, "function ") || prefix_at_exec(
        v,
        i,
        "async ",
    ) || prefix_at_exec(v, i, "await ") || prefix_at_exec(v, i, "return ") || prefix_at_exec(
        v,
        i,
        "if (",
    ) || prefix_at_exec(v, i, "for (")
}

fn has_code_exec(v: &Vec<char>) -> (r: bool)
    ensures
        r == has_code(v@),
{
    if contains_char_exec(v, '{') && contains_char_exec(v, '}') {
        return true;
    }
    let n = v.len();
    let mut i: usize = 0;
    while i < n
        invariant
            n == v@.len(),
            i <= n,
            forall|j: int| 0 <= j < i ==> !code_kw_at(v@, j),
        decreases n - i,
    {
        if code_kw_at_exec(v, i) {
            return true;
        }
        i = i + 1;
    }
    proof {
        reveal_strlit("fn ");
        reveal_strlit("def ");
        reveal_strlit("class ");
        reveal_strlit("import ");
        reveal_strlit("const ");
        reveal_strlit("let ");
        reveal_strlit("var ");
        reveal_strlit("function ");
        reveal_strlit("async ");
        reveal_strlit("await ");
        reveal_strlit("return ");
        reveal_strlit("if (");
        reveal_strlit("for (");
        assert forall|j: int| !code_kw_at(v@, j) by {
            if code_kw_at(v@, j) {
                assert(0 <= j < v@.len());
            }
        }
    }
    false
}

// ---------------------------------------------------------------------------
// the classifier
// ---------------------------------------------------------------------------
/// The category of a text, with the fixed priority order: a URL wins over
/// everything, then an address, a dotted quad, a path, a command, an error
/// log, code, and finally the default.
pub open spec fn spec_category(s: Seq<char>) -> Seq<char> {
    if has_url(s) {
        "url"@
    } else if has_email(s) {
        "email"@
    } else if has_ip(s) {
        "ip"@
    } else if is_path_like(s) {
        "path"@
    } else if has_command(s) {
        "command"@
    } else if has_error_signal(s) {
        "error"@
    } else if has_code(s) {
        "code"@
    } else {
        "misc"@
    }
}

/// Classifies a text into one of the eight category labels. Deterministic
/// and total; structural signals preempt looser keyword heuristics.
pub fn detect_category(content: &str) -> (r: String)
    ensures
        r@ == spec_category(content@),
{
    let v = chars_of(content);
    if has_url_exec(&v) {
        "url".to_owned()
    } else if has_email_exec(&v) {
        "email".to_owned()
    } else if has_ip_exec(&v) {
        "ip".to_owned()
    } else if is_path_like_exec(&v) {
        "path".to_owned()
    } else if has_command_exec(&v) {
        "command".to_owned()
    } else if has_error_signal_exec(&v) {
        "error".to_owned()
    } else if has_code_exec(&v) {
        "code".to_owned()
    } else {
        "misc".to_owned()
    }
}

/// A text holding a URL token is categorised `url`, whatever else — the
/// word "error" included — it also holds.
pub proof fn lemma_url_wins(s: Seq<char>)
    requires
        has_url(s),
    ensures
        spec_category(s) == "url"@,
{
}

/// A text with no structural signal at all falls through to `misc`.
pub proof fn lemma_default_misc(s: Seq<char>)
    requires
        !has_url(s),
        !has_email(s),
        !has_ip(s),
        !is_path_like(s),
        !has_command(s),
        !has_error_signal(s),
        !has_code(s),
    ensures
        spec_category(s) == "misc"@,
{
}

} // verus!
