//! Verified text primitives for the HTTP codec.
//!
//! Raw HTTP/1.1 messages are CRLF-framed text; everything the codec does is
//! built from the small set of operations here: substring search, splitting,
//! whitespace tokenization, case-insensitive comparison, trimming, and
//! decimal rendering.  Each executable function is specified against a spec
//! function over `Seq<char>`, so the codec's contracts can speak purely in
//! terms of those.

use vstd::prelude::*;

verus! {

/// The whitespace characters that separate request-line tokens.
pub open spec fn is_ws(c: char) -> bool {
    c == ' ' || c == '\t' || c == '\r' || c == '\n'
}

/// The blank characters stripped from header values.
pub open spec fn is_sp(c: char) -> bool {
    c == ' ' || c == '\t'
}

/// `pat` occurs in `s` at position `i`.
pub open spec fn match_at(s: Seq<char>, pat: Seq<char>, i: int) -> bool {
    0 <= i && i + pat.len() <= s.len() && s.subrange(i, i + pat.len() as int) == pat
}

/// Position of the first occurrence of `pat` in `s` at or after `i`.
pub open spec fn first_match_from(s: Seq<char>, pat: Seq<char>, i: int) -> Option<int>
    decreases s.len() - i + 1,
{
    if i < 0 || i + pat.len() > s.len() {
        None
    } else if match_at(s, pat, i) {
        Some(i)
    } else {
        first_match_from(s, pat, i + 1)
    }
}

/// Position of the first occurrence of `pat` in `s`.
pub open spec fn find_sub_spec(s: Seq<char>, pat: Seq<char>) -> Option<int> {
    first_match_from(s, pat, 0)
}

/// What `first_match_from` returns is the leftmost match at or after `i`,
/// and `None` means there is none at all.
pub proof fn lemma_first_match_from(s: Seq<char>, pat: Seq<char>, i: int)
    requires
        0 <= i,
    ensures
        match first_match_from(s, pat, i) {
            Some(j) => i <= j && match_at(s, pat, j) && forall|k: int|
                i <= k < j ==> !match_at(s, pat, k),
            None => forall|k: int| k >= i ==> !match_at(s, pat, k),
        },
    decreases s.len() - i + 1,
{
    if i + pat.len() > s.len() {
    } else if match_at(s, pat, i) {
    } else {
        lemma_first_match_from(s, pat, i + 1);
    }
}

/// Converse direction: a match at `j` with none before it pins the result.
pub proof fn lemma_first_match_is(s: Seq<char>, pat: Seq<char>, i: int, j: int)
    requires
        0 <= i <= j,
        match_at(s, pat, j),
        forall|k: int| i <= k < j ==> !match_at(s, pat, k),
    ensures
        first_match_from(s, pat, i) == Some(j),
    decreases j - i,
{
    if i < j {
        lemma_first_match_is(s, pat, i + 1, j);
    }
}

/// The pieces of `s` between consecutive occurrences of `pat`, leftmost
/// first; the final piece is what follows the last occurrence.  A string
/// without any occurrence is one piece.
pub open spec fn split_seq(s: Seq<char>, pat: Seq<char>) -> Seq<Seq<char>>
    decreases s.len(),
        when pat.len() >= 1
        via split_seq_decreases
{
    match find_sub_spec(s, pat) {
        None => seq![s],
        Some(i) => seq![s.subrange(0, i)] + split_seq(
            s.subrange(i + pat.len() as int, s.len() as int),
            pat,
        ),
    }
}

#[via_fn]
proof fn split_seq_decreases(s: Seq<char>, pat: Seq<char>) {
    lemma_first_match_from(s, pat, 0);
}

/// The views of a sequence of owned strings.
pub open spec fn views_of(v: Seq<String>) -> Seq<Seq<char>> {
    v.map_values(|x: String| x@)
}

/// A possibly-pending token: empty means no token.
pub open spec fn opt_tok(cur: Seq<char>) -> Seq<Seq<char>> {
    if cur.len() > 0 {
        seq![cur]
    } else {
        Seq::empty()
    }
}

/// Whitespace tokenization of `s` from position `i`, with `cur` the token
/// accumulated so far.
pub open spec fn ws_split_from(s: Seq<char>, i: int, cur: Seq<char>) -> Seq<Seq<char>>
    decreases s.len() - i,
{
    if i < 0 || i >= s.len() {
        opt_tok(cur)
    } else if is_ws(s[i]) {
        opt_tok(cur) + ws_split_from(s, i + 1, Seq::empty())
    } else {
        ws_split_from(s, i + 1, cur.push(s[i]))
    }
}

/// The maximal runs of non-whitespace characters of `s`, in order.
pub open spec fn ws_tokens_spec(s: Seq<char>) -> Seq<Seq<char>> {
    ws_split_from(s, 0, Seq::empty())
}

/// `c` is an ASCII capital letter.
pub open spec fn is_upper(c: char) -> bool {
    65 <= c as u32 && c as u32 <= 90
}

/// The two characters are equal up to ASCII case.
pub open spec fn ci_eq_char(a: char, b: char) -> bool {
    a == b || (is_upper(a) && b as u32 == a as u32 + 32) || (is_upper(b) && a as u32 == b as u32
        + 32)
}

/// The two strings are equal up to ASCII case.
pub open spec fn ci_eq(a: Seq<char>, b: Seq<char>) -> bool {
    a.len() == b.len() && forall|i: int| 0 <= i < a.len() ==> ci_eq_char(a[i], b[i])
}

/// `s` begins with `p`.
pub open spec fn starts_with_spec(s: Seq<char>, p: Seq<char>) -> bool {
    p.len() <= s.len() && s.subrange(0, p.len() as int) == p
}

/// `s` begins with `p`, up to ASCII case.
pub open spec fn starts_with_ci_spec(s: Seq<char>, p: Seq<char>) -> bool {
    p.len() <= s.len() && ci_eq(s.subrange(0, p.len() as int), p)
}

/// `s` without its leading spaces and tabs.
pub open spec fn trim_front(s: Seq<char>) -> Seq<char>
    decreases s.len(),
{
    if s.len() > 0 && is_sp(s[0]) {
        trim_front(s.drop_first())
    } else {
        s
    }
}

/// `s` without its trailing spaces and tabs.
pub open spec fn trim_back(s: Seq<char>) -> Seq<char>
    decreases s.len(),
{
    if s.len() > 0 && is_sp(s[s.len() - 1]) {
        trim_back(s.drop_last())
    } else {
        s
    }
}

/// `s` without leading and trailing spaces and tabs.
pub open spec fn trim_spec(s: Seq<char>) -> Seq<char> {
    trim_back(trim_front(s))
}

/// The decimal digit character for `d`.
pub open spec fn dec_digit(d: int) -> char {
    if d == 0 {
        '0'
    } else if d == 1 {
        '1'
    } else if d == 2 {
        '2'
    } else if d == 3 {
        '3'
    } else if d == 4 {
        '4'
    } else if d == 5 {
        '5'
    } else if d == 6 {
        '6'
    } else if d == 7 {
        '7'
    } else if d == 8 {
        '8'
    } else {
        '9'
    }
}

/// The decimal rendering of `n`, most significant digit first, without
/// leading zeroes (`0` renders as "0").
pub open spec fn dec_str(n: nat) -> Seq<char>
    decreases n,
{
    if n < 10 {
        seq![dec_digit(n as int)]
    } else {
        dec_str(n / 10).push(dec_digit((n % 10) as int))
    }
}

/// A match with nonempty pattern begins with the pattern's first
/// character.
pub proof fn lemma_match_head(s: Seq<char>, pat: Seq<char>, k: int)
    requires
        match_at(s, pat, k),
        pat.len() > 0,
    ensures
        s[k] == pat[0],
{
    assert(s.subrange(k, k + pat.len() as int)[0] == s[k]);
}

/// Matching in the right part of a concatenation is matching past the
/// left part's length.
pub proof fn lemma_match_shift(a: Seq<char>, b: Seq<char>, pat: Seq<char>, k: int)
    requires
        0 <= k,
    ensures
        match_at(a + b, pat, a.len() + k) == match_at(b, pat, k),
{
    if k + pat.len() <= b.len() {
        assert((a + b).subrange(a.len() + k, a.len() + k + pat.len() as int) =~= b.subrange(
            k,
            k + pat.len() as int,
        ));
    }
}

/// `c` is a decimal digit character.
pub open spec fn is_digit_char(c: char) -> bool {
    c == '0' || c == '1' || c == '2' || c == '3' || c == '4' || c == '5' || c == '6' || c == '7'
        || c == '8' || c == '9'
}

/// A decimal rendering consists of digit characters only, and is never
/// empty.
pub proof fn lemma_dec_str_digits(n: nat)
    ensures
        dec_str(n).len() >= 1,
        forall|i: int| 0 <= i < dec_str(n).len() ==> is_digit_char(#[trigger] dec_str(n)[i]),
    decreases n,
{
    if n < 10 {
    } else {
        lemma_dec_str_digits(n / 10);
    }
}

/// Exact string equality.
pub fn str_eq(a: &str, b: &str) -> (r: bool)
    ensures
        r == (a@ == b@),
{
    let an = a.unicode_len();
    let bn = b.unicode_len();
    if an != bn {
        return false;
    }
    let mut i: usize = 0;
    while i < an
        invariant
            an == a@.len(),
            an == b@.len(),
            i <= an,
            forall|k: int| 0 <= k < i ==> a@[k] == b@[k],
        decreases an - i,
    {
        if a.get_char(i) != b.get_char(i) {
            return false;
        }
        i += 1;
    }
    proof {
        assert(a@ =~= b@);
    }
    true
}

/// `pat` occurs in `s` starting exactly at `i`.
fn match_here(s: &str, pat: &str, i: usize) -> (r: bool)
    requires
        i + pat@.len() <= s@.len(),
        s@.len() <= usize::MAX,
    ensures
        r == match_at(s@, pat@, i as int),
{
    let m = pat.unicode_len();
    let mut j: usize = 0;
    while j < m
        invariant
            m == pat@.len(),
            i + m <= s@.len(),
            s@.len() <= usize::MAX,
            j <= m,
            forall|k: int| 0 <= k < j ==> s@[i + k] == pat@[k],
        decreases m - j,
    {
        if s.get_char(i + j) != pat.get_char(j) {
            proof {
                assert(s@.subrange(i as int, i + m as int) != pat@) by {
                    assert(s@.subrange(i as int, i + m as int)[j as int] == s@[i + j]);
                }
            }
            return false;
        }
        j += 1;
    }
    proof {
        assert(s@.subrange(i as int, i + m as int) =~= pat@);
    }
    true
}

/// Leftmost occurrence of `pat` in `s` at or after `from`.
pub fn find_sub_at(s: &str, pat: &str, from: usize) -> (r: Option<usize>)
    requires
        pat@.len() >= 1,
    ensures
        match r {
            Some(i) => from <= i && first_match_from(s@, pat@, from as int) == Some(i as int),
            None => first_match_from(s@, pat@, from as int) is None,
        },
{
    let n = s.unicode_len();
    let m = pat.unicode_len();
    if m > n || from > n - m {
        return None;
    }
    let mut i: usize = from;
    while i <= n - m
        invariant
            n == s@.len(),
            m == pat@.len(),
            1 <= m <= n,
            from <= i,
            i <= n - m + 1,
            first_match_from(s@, pat@, from as int) == first_match_from(s@, pat@, i as int),
        decreases n - i,
    {
        if match_here(s, pat, i) {
            return Some(i);
        }
        i += 1;
    }
    None
}

/// Leftmost occurrence of `pat` in `s`.
pub fn find_sub(s: &str, pat: &str) -> (r: Option<usize>)
    requires
        pat@.len() >= 1,
    ensures
        match r {
            Some(i) => find_sub_spec(s@, pat@) == Some(i as int),
            None => find_sub_spec(s@, pat@) is None,
        },
{
    find_sub_at(s, pat, 0)
}

/// Copies `s[a..b]` (in characters) into an owned string.
pub fn substring_of(s: &str, a: usize, b: usize) -> (r: String)
    requires
        a <= b <= s@.len(),
    ensures
        r@ == s@.subrange(a as int, b as int),
{
    s.substring_char(a, b).to_owned()
}

/// Splits `s` at the first occurrence of `pat`, if there is one.
pub fn split_once_at(s: &str, pat: &str) -> (r: Option<(String, String)>)
    requires
        pat@.len() >= 1,
    ensures
        match r {
            Some(p) => {
                &&& find_sub_spec(s@, pat@) is Some
                &&& {
                    let i = find_sub_spec(s@, pat@)->0;
                    p.0@ == s@.subrange(0, i) && p.1@ == s@.subrange(
                        i + pat@.len(),
                        s@.len() as int,
                    )
                }
            },
            None => find_sub_spec(s@, pat@) is None,
        },
{
    let n = s.unicode_len();
    let m = pat.unicode_len();
    match find_sub(s, pat) {
        None => None,
        Some(i) => {
            proof {
                lemma_first_match_from(s@, pat@, 0);
            }
            let head = substring_of(s, 0, i);
            let tail = substring_of(s, i + m, n);
            Some((head, tail))
        },
    }
}

/// Splits `s` on every occurrence of `pat`.
pub fn split_all(s: &str, pat: &str) -> (r: Vec<String>)
    requires
        pat@.len() >= 1,
    ensures
        views_of(r@) == split_seq(s@, pat@),
{
    let mut pieces: Vec<String> = Vec::new();
    let mut rest: String = s.to_owned();
    loop
        invariant
            pat@.len() >= 1,
            views_of(pieces@) + split_seq(rest@, pat@) == split_seq(s@, pat@),
        decreases rest@.len(),
    {
        let n = rest.as_str().unicode_len();
        let m = pat.unicode_len();
        match find_sub(rest.as_str(), pat) {
            None => {
                let ghost before = pieces@;
                pieces.push(rest);
                proof {
                    assert(views_of(pieces@) =~= views_of(before).push(pieces@[pieces@.len()
                        - 1]@));
                    assert(views_of(pieces@) =~= split_seq(s@, pat@));
                }
                return pieces;
            },
            Some(i) => {
                proof {
                    lemma_first_match_from(rest@, pat@, 0);
                }
                let head = substring_of(rest.as_str(), 0, i);
                let tail = substring_of(rest.as_str(), i + m, n);
                let ghost before = pieces@;
                let ghost oldrest = rest@;
                pieces.push(head);
                rest = tail;
                proof {
                    assert(views_of(pieces@) =~= views_of(before).push(oldrest.subrange(
                        0,
                        i as int,
                    )));
                    assert(views_of(pieces@) + split_seq(rest@, pat@) =~= split_seq(s@, pat@));
                }
            },
        }
    }
}

/// The whitespace-separated tokens of `s`, in order.
pub fn ws_tokens(s: &str) -> (r: Vec<String>)
    ensures
        views_of(r@) == ws_tokens_spec(s@),
{
    let n = s.unicode_len();
    let mut toks: Vec<String> = Vec::new();
    let mut i: usize = 0;
    let mut start: usize = 0;
    let mut in_tok = false;
    while i < n
        invariant
            n == s@.len(),
            i <= n,
            in_tok ==> start < i,
            views_of(toks@) + ws_split_from(
                s@,
                i as int,
                if in_tok {
                    s@.subrange(start as int, i as int)
                } else {
                    Seq::empty()
                },
            ) == ws_tokens_spec(s@),
        decreases n - i,
    {
        let c = s.get_char(i);
        let ghost cur = if in_tok {
            s@.subrange(start as int, i as int)
        } else {
            Seq::<char>::empty()
        };
        if c == ' ' || c == '\t' || c == '\r' || c == '\n' {
            if in_tok {
                let tok = substring_of(s, start, i);
                let ghost before = toks@;
                toks.push(tok);
                in_tok = false;
                proof {
                    assert(views_of(toks@) =~= views_of(before).push(cur));
                    assert(views_of(toks@) + ws_split_from(s@, i + 1, Seq::<char>::empty())
                        =~= ws_tokens_spec(s@));
                }
            }
        } else {
            if !in_tok {
                start = i;
                in_tok = true;
                proof {
                    assert(s@.subrange(start as int, i + 1) =~= cur.push(s@[i as int]));
                }
            } else {
                proof {
                    assert(s@.subrange(start as int, i + 1) =~= cur.push(s@[i as int]));
                }
            }
        }
        i += 1;
    }
    if in_tok {
        let tok = substring_of(s, start, n);
        let ghost before = toks@;
        toks.push(tok);
        proof {
            assert(views_of(toks@) =~= views_of(before).push(s@.subrange(start as int, n as int)));
            assert(views_of(toks@) =~= ws_tokens_spec(s@));
        }
    } else {
        proof {
            assert(views_of(toks@) =~= ws_tokens_spec(s@));
        }
    }
    toks
}

/// Case-insensitive character comparison.
fn ci_eq_char_exec(a: char, b: char) -> (r: bool)
    ensures
        r == ci_eq_char(a, b),
{
    let x = a as u32;
    let y = b as u32;
    x == y || (65 <= x && x <= 90 && y == x + 32) || (65 <= y && y <= 90 && x == y + 32)
}

/// Case-insensitive string equality (ASCII case only).
pub fn ci_eq_str(a: &str, b: &str) -> (r: bool)
    ensures
        r == ci_eq(a@, b@),
{
    let an = a.unicode_len();
    let bn = b.unicode_len();
    if an != bn {
        return false;
    }
    let mut i: usize = 0;
    while i < an
        invariant
            an == a@.len(),
            an == b@.len(),
            i <= an,
            forall|k: int| 0 <= k < i ==> ci_eq_char(a@[k], b@[k]),
        decreases an - i,
    {
        if !ci_eq_char_exec(a.get_char(i), b.get_char(i)) {
            return false;
        }
        i += 1;
    }
    true
}

/// Whether `s` begins with `p`.
pub fn starts_with_str(s: &str, p: &str) -> (r: bool)
    ensures
        r == starts_with_spec(s@, p@),
{
    let n = s.unicode_len();
    let m = p.unicode_len();
    if m > n {
        return false;
    }
    match_here(s, p, 0)
}

/// Whether `s` begins with `p`, up to ASCII case.
pub fn starts_with_ci_str(s: &str, p: &str) -> (r: bool)
    ensures
        r == starts_with_ci_spec(s@, p@),
{
    let n = s.unicode_len();
    let m = p.unicode_len();
    if m > n {
        return false;
    }
    let mut i: usize = 0;
    while i < m
        invariant
            n == s@.len(),
            m == p@.len(),
            m <= n,
            i <= m,
            forall|k: int| 0 <= k < i ==> ci_eq_char(s@[k], p@[k]),
        decreases m - i,
    {
        if !ci_eq_char_exec(s.get_char(i), p.get_char(i)) {
            proof {
                assert(!ci_eq(s@.subrange(0, m as int), p@)) by {
                    assert(s@.subrange(0, m as int)[i as int] == s@[i as int]);
                }
            }
            return false;
        }
        i += 1;
    }
    proof {
        assert(forall|k: int| 0 <= k < m ==> #[trigger] ci_eq_char(
            s@.subrange(0, m as int)[k],
            p@[k],
        ));
    }
    true
}

/// Whether the character at position `i` of `s` is a space or a tab.
fn sp_at(s: &str, i: usize) -> (r: bool)
    ensures
        r == (i < s@.len() && is_sp(s@[i as int])),
{
    if i < s.unicode_len() {
        let c = s.get_char(i);
        c == ' ' || c == '\t'
    } else {
        false
    }
}

/// Strips leading and trailing spaces and tabs.
pub fn trim_str(s: &str) -> (r: String)
    ensures
        r@ == trim_spec(s@),
{
    let n = s.unicode_len();
    proof {
        assert(s@.subrange(0, n as int) =~= s@);
    }
    let mut a: usize = 0;
    while a < n && sp_at(s, a)
        invariant
            n == s@.len(),
            a <= n,
            trim_front(s@) == trim_front(s@.subrange(a as int, n as int)),
        decreases n - a,
    {
        proof {
            assert(s@.subrange(a as int, n as int).drop_first() =~= s@.subrange(a + 1, n as int));
        }
        a += 1;
    }
    proof {
        if a < n {
            assert(trim_front(s@.subrange(a as int, n as int)) == s@.subrange(a as int, n as int));
        } else {
            assert(s@.subrange(a as int, n as int) =~= Seq::<char>::empty());
        }
    }
    let mut b: usize = n;
    while b > a && sp_at(s, b - 1)
        invariant
            n == s@.len(),
            a <= b <= n,
            trim_front(s@) == trim_front(s@.subrange(a as int, n as int)),
            trim_back(s@.subrange(a as int, n as int)) == trim_back(s@.subrange(a as int, b as int)),
        decreases b,
    {
        proof {
            assert(s@.subrange(a as int, b as int).drop_last() =~= s@.subrange(a as int, b - 1));
        }
        b -= 1;
    }
    proof {
        if b > a {
            assert(trim_back(s@.subrange(a as int, b as int)) == s@.subrange(a as int, b as int));
        } else {
            assert(s@.subrange(a as int, b as int) =~= Seq::<char>::empty());
        }
    }
    substring_of(s, a, b)
}

/// Renders `n` in decimal.
pub fn usize_to_dec(n: usize) -> (r: String)
    ensures
        r@ == dec_str(n as nat),
    decreases n,
{
    let digits = "0123456789";
    proof {
        reveal_strlit("0123456789");
    }
    let d = n % 10;
    let ds = digits.substring_char(d, d + 1);
    proof {
        assert(ds@ =~= seq![dec_digit(d as int)]);
    }
    if n < 10 {
        ds.to_owned()
    } else {
        let hi = usize_to_dec(n / 10);
        proof {
            assert((hi@ + ds@) =~= dec_str((n / 10) as nat).push(dec_digit((n % 10) as int)));
        }
        hi.concat(ds)
    }
}

} // verus!
