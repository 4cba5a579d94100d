//! Verified text utilities: decimal parsing and rendering.
//!
//! These back the version parser, the duration parser and the places where
//! the library renders a number into a label or a status line.

use vstd::prelude::*;
use vstd::string::StrSliceExecFns;
use vstd::string::StringExecFns;

verus! {

/// True for the ASCII decimal digits.
pub open spec fn spec_is_digit(c: char) -> bool {
    '0' <= c && c <= '9'
}

/// Numeric value of an ASCII decimal digit.
pub open spec fn spec_digit_val(c: char) -> nat {
    (c as int - '0' as int) as nat
}

/// Value of a string of decimal digits, most significant first.
pub open spec fn spec_digits_val(s: Seq<char>) -> nat
    decreases s.len(),
{
    if s.len() == 0 {
        0
    } else {
        spec_digits_val(s.drop_last()) * 10 + spec_digit_val(s.last())
    }
}

/// True when every character of `s` is an ASCII decimal digit.
pub open spec fn spec_all_digits(s: Seq<char>) -> bool {
    forall|i: int| 0 <= i < s.len() ==> spec_is_digit(#[trigger] s[i])
}

/// The digit body of an integer literal: an optional leading `+` sign
/// is dropped, as `u64::from_str` drops it.
pub open spec fn spec_number_body(s: Seq<char>) -> Seq<char> {
    if s.len() >= 1 && s[0] == '+' {
        s.subrange(1, s.len() as int)
    } else {
        s
    }
}

/// What an unsigned decimal literal denotes: `None` unless the text is an
/// optional `+` sign followed by one or more digits.
pub open spec fn spec_parse_nat(s: Seq<char>) -> Option<nat> {
    let body = spec_number_body(s);
    if body.len() >= 1 && spec_all_digits(body) {
        Some(spec_digits_val(body))
    } else {
        None
    }
}

/// `u64::from_str`: the denoted value if it is in range.
pub open spec fn spec_parse_u64(s: Seq<char>) -> Option<nat> {
    match spec_parse_nat(s) {
        Some(v) => if v <= u64::MAX {
            Some(v)
        } else {
            None
        },
        None => None,
    }
}

/// `u8::from_str`: the denoted value if it is in range.
pub open spec fn spec_parse_u8(s: Seq<char>) -> Option<nat> {
    match spec_parse_nat(s) {
        Some(v) => if v <= u8::MAX {
            Some(v)
        } else {
            None
        },
        None => None,
    }
}

/// Why a piece of text failed to parse as an unsigned number.
#[derive(Clone, Copy, Debug, PartialEq, Eq, Structural)]
pub enum ParseNumberError {
    /// Empty, or holding a character that is not a decimal digit.
    NotANumber,
    /// A well-formed number that does not fit the target type.
    Overflow,
}

/// Appending digits to a digit string can only grow its value.
proof fn lemma_digits_prefix_le(s: Seq<char>, i: int)
    requires
        0 <= i <= s.len(),
    ensures
        spec_digits_val(s.subrange(0, i)) <= spec_digits_val(s),
    decreases s.len() - i,
{
    if i < s.len() {
        lemma_digits_prefix_le(s, i + 1);
        assert(s.subrange(0, i + 1).drop_last() =~= s.subrange(0, i));
        assert(spec_digits_val(s.subrange(0, i)) <= spec_digits_val(s.subrange(0, i + 1)));
    } else {
        assert(s.subrange(0, i) =~= s);
    }
}

/// Parses the digit body `s[from..]` as a value bounded by `max`.
fn parse_digits_bounded(s: &str, from: usize, max: u64) -> (r: Result<u64, ParseNumberError>)
    requires
        from <= s@.len(),
        s@.len() <= usize::MAX,
    ensures
        ({
            let body = s@.subrange(from as int, s@.len() as int);
            &&& r matches Ok(v) ==> body.len() >= 1 && spec_all_digits(body)
                && spec_digits_val(body) == v && v <= max
            &&& r == Err::<u64, ParseNumberError>(ParseNumberError::NotANumber) <==> !(body.len()
                >= 1 && spec_all_digits(body))
            &&& r == Err::<u64, ParseNumberError>(ParseNumberError::Overflow) <==> (body.len() >= 1
                && spec_all_digits(body) && spec_digits_val(body) > max)
        }),
{
    let ghost body = s@.subrange(from as int, s@.len() as int);
    let n = s.unicode_len();
    if from == n {
        return Err(ParseNumberError::NotANumber);
    }
    let mut acc: u64 = 0;
    let mut i: usize = from;
    while i < n
        invariant
            from <= i <= n,
            n == s@.len(),
            body == s@.subrange(from as int, s@.len() as int),
            spec_all_digits(s@.subrange(from as int, i as int)),
            acc == spec_digits_val(s@.subrange(from as int, i as int)),
            acc <= max,
            max <= u64::MAX,
        decreases n - i,
    {
        let c = s.get_char(i);
        if !('0' <= c && c <= '9') {
            assert(!spec_all_digits(body)) by {
                assert(body[i - from] == s@[i as int]);
            }
            return Err(ParseNumberError::NotANumber);
        }
        let d: u64 = (c as u32 as u64) - ('0' as u32 as u64);
        assert(d == spec_digit_val(c));
        assert(s@.subrange(from as int, i + 1).drop_last() =~= s@.subrange(from as int, i as int));
        assert(s@.subrange(from as int, i + 1).last() == c);
        if acc > max / 10 || (acc == max / 10 && d > max % 10) {
            // The value of the digits seen so far already exceeds `max`;
            // any digits that follow can only make it larger.
            assert(acc * 10 + d > max) by (nonlinear_arith)
                requires
                    acc <= u64::MAX,
                    d < 10,
                    acc > max / 10 || (acc == max / 10 && d > max % 10),
                    max <= u64::MAX,
            ;
            // Check the rest so that a stray non-digit still reports
            // `NotANumber`, as `u64::from_str` does.
            let mut j: usize = i + 1;
            while j < n
                invariant
                    i < j <= n,
                    n == s@.len(),
                    spec_all_digits(s@.subrange(from as int, j as int)),
                    from <= i,
                    body == s@.subrange(from as int, s@.len() as int),
                decreases n - j,
            {
                let c2 = s.get_char(j);
                if !('0' <= c2 && c2 <= '9') {
                    assert(!spec_all_digits(body)) by {
                        assert(body[j - from] == s@[j as int]);
                    }
                    return Err(ParseNumberError::NotANumber);
                }
                assert(s@.subrange(from as int, j + 1).drop_last() =~= s@.subrange(
                    from as int,
                    j as int,
                ));
                j = j + 1;
            }
            assert(s@.subrange(from as int, n as int) =~= body);
            proof {
                lemma_digits_prefix_le(body, i + 1 - from);
                assert(body.subrange(0, i + 1 - from) =~= s@.subrange(from as int, i + 1));
            }
            return Err(ParseNumberError::Overflow);
        }
        assert(acc * 10 + d <= max) by (nonlinear_arith)
            requires
                d < 10,
                acc <= max / 10,
                acc == max / 10 ==> d <= max % 10,
        ;
        acc = acc * 10 + d;
        i = i + 1;
    }
    assert(s@.subrange(from as int, n as int) =~= body);
    Ok(acc)
}

/// Parses `s` as `u64::from_str` does: an optional `+` sign, then digits.
pub fn parse_u64(s: &str) -> (r: Result<u64, ParseNumberError>)
    ensures
        r matches Ok(v) ==> spec_parse_u64(s@) == Some(v as nat),
        r is Err <==> spec_parse_u64(s@) is None,
        r == Err::<u64, ParseNumberError>(ParseNumberError::NotANumber) <==> spec_parse_nat(s@)
            is None,
{
    let n = s.unicode_len();
    let from: usize = if n >= 1 && s.get_char(0) == '+' {
        1
    } else {
        0
    };
    proof {
        if from == 1 {
            assert(s@.subrange(1, s@.len() as int) =~= spec_number_body(s@));
        } else {
            assert(s@.subrange(0, s@.len() as int) =~= spec_number_body(s@));
        }
    }
    let r = parse_digits_bounded(s, from, u64::MAX);
    proof {
        if r is Err {
            let e = r->Err_0;
            assert(e == ParseNumberError::NotANumber || e == ParseNumberError::Overflow);
        }
    }
    r
}

/// Parses `s` as `usize::from_str` does: an optional `+` sign, then
/// digits, in the pointer-sized range.
pub open spec fn spec_parse_usize(s: Seq<char>) -> Option<nat> {
    match spec_parse_nat(s) {
        Some(v) => if v <= usize::MAX {
            Some(v)
        } else {
            None
        },
        None => None,
    }
}

/// Parses `s` as `usize::from_str` does.
pub fn parse_usize(s: &str) -> (r: Result<usize, ParseNumberError>)
    ensures
        r matches Ok(v) ==> spec_parse_usize(s@) == Some(v as nat),
        r is Err <==> spec_parse_usize(s@) is None,
{
    let n = s.unicode_len();
    let from: usize = if n >= 1 && s.get_char(0) == '+' {
        1
    } else {
        0
    };
    proof {
        if from == 1 {
            assert(s@.subrange(1, s@.len() as int) =~= spec_number_body(s@));
        } else {
            assert(s@.subrange(0, s@.len() as int) =~= spec_number_body(s@));
        }
    }
    match parse_digits_bounded(s, from, usize::MAX as u64) {
        Ok(v) => Ok(v as usize),
        Err(e) => Err(e),
    }
}

/// Index of the first `ch` in `s` at or after `from`; `s.len()` if none.
pub open spec fn spec_find_char(s: Seq<char>, ch: char, from: int) -> int
    decreases s.len() - from,
{
    if from < 0 || from >= s.len() {
        s.len() as int
    } else if s[from] == ch {
        from
    } else {
        spec_find_char(s, ch, from + 1)
    }
}

/// Finds the first occurrence of `ch` at or after `from`.
pub fn find_char(s: &str, ch: char, from: usize) -> (r: usize)
    requires
        from <= s@.len(),
    ensures
        r == spec_find_char(s@, ch, from as int),
        from <= r <= s@.len(),
{
    let n = s.unicode_len();
    let mut i: usize = from;
    while i < n
        invariant
            from <= i <= n,
            n == s@.len(),
            spec_find_char(s@, ch, from as int) == spec_find_char(s@, ch, i as int),
        decreases n - i,
    {
        if s.get_char(i) == ch {
            return i;
        }
        i = i + 1;
    }
    n
}

/// Index of the first occurrence of `pat` in `s` at or after `from`, if
/// any.
pub open spec fn spec_find_sub(s: Seq<char>, pat: Seq<char>, from: int) -> Option<int>
    decreases (if from <= s.len() {
        s.len() - from
    } else {
        0
    }),
{
    if pat.len() == 0 {
        if 0 <= from <= s.len() {
            Some(from)
        } else {
            None
        }
    } else if from < 0 || from + pat.len() > s.len() {
        None
    } else if s.subrange(from, from + pat.len()) == pat {
        Some(from)
    } else {
        spec_find_sub(s, pat, from + 1)
    }
}

/// Whether `pat` occurs in `s` at position `at`.
fn matches_at(s: &str, pat: &str, at: usize) -> (r: bool)
    requires
        at + pat@.len() <= s@.len(),
    ensures
        r == (s@.subrange(at as int, at + pat@.len()) == pat@),
{
    let n = s.unicode_len();
    let m = pat.unicode_len();
    let mut j: usize = 0;
    while j < m
        invariant
            0 <= j <= m,
            m == pat@.len(),
            n == s@.len(),
            at + m <= n,
            forall|i: int| 0 <= i < j ==> s@[at + i] == pat@[i],
        decreases m - j,
    {
        if s.get_char(at + j) != pat.get_char(j) {
            assert(s@.subrange(at as int, at + pat@.len())[j as int] != pat@[j as int]);
            return false;
        }
        j = j + 1;
    }
    proof {
        assert(s@.subrange(at as int, at + pat@.len()) =~= pat@);
    }
    true
}

/// Finds the first occurrence of `pat` in `s`.
pub fn find_sub(s: &str, pat: &str) -> (r: Option<usize>)
    ensures
        r matches Some(i) ==> spec_find_sub(s@, pat@, 0) == Some(i as int) && i + pat@.len()
            <= s@.len(),
        r is None <==> spec_find_sub(s@, pat@, 0) is None,
{
    let n = s.unicode_len();
    let m = pat.unicode_len();
    if m == 0 {
        return Some(0);
    }
    if m > n {
        return None;
    }
    let mut i: usize = 0;
    while i <= n - m
        invariant
            0 <= i <= n - m + 1,
            1 <= m <= n,
            n == s@.len(),
            m == pat@.len(),
            spec_find_sub(s@, pat@, 0) == spec_find_sub(s@, pat@, i as int),
        decreases n - m - i + 1,
    {
        if matches_at(s, pat, i) {
            return Some(i);
        }
        i = i + 1;
    }
    None
}

/// Parses `s` as `u8::from_str` does: an optional `+` sign, then digits.
pub fn parse_u8(s: &str) -> (r: Result<u8, ParseNumberError>)
    ensures
        r matches Ok(v) ==> spec_parse_u8(s@) == Some(v as nat),
        r is Err <==> spec_parse_u8(s@) is None,
        r == Err::<u8, ParseNumberError>(ParseNumberError::NotANumber) <==> spec_parse_nat(s@)
            is None,
{
    let n = s.unicode_len();
    let from: usize = if n >= 1 && s.get_char(0) == '+' {
        1
    } else {
        0
    };
    proof {
        if from == 1 {
            assert(s@.subrange(1, s@.len() as int) =~= spec_number_body(s@));
        } else {
            assert(s@.subrange(0, s@.len() as int) =~= spec_number_body(s@));
        }
    }
    match parse_digits_bounded(s, from, 255) {
        Ok(v) => Ok(v as u8),
        Err(e) => Err(e),
    }
}

/// Character-for-character equality of two string slices.
pub fn str_eq(a: &str, b: &str) -> (r: bool)
    ensures
        r == (a@ == b@),
{
    let na = a.unicode_len();
    let nb = b.unicode_len();
    if na != nb {
        assert(a@ != b@) by {
            assert(a@.len() != b@.len());
        }
        return false;
    }
    let mut i: usize = 0;
    while i < na
        invariant
            0 <= i <= na,
            na == a@.len(),
            na == b@.len(),
            forall|j: int| 0 <= j < i ==> a@[j] == b@[j],
        decreases na - i,
    {
        if a.get_char(i) != b.get_char(i) {
            return false;
        }
        i = i + 1;
    }
    proof {
        assert(a@ =~= b@);
    }
    true
}

/// Strict lexicographic order on character sequences: the order
/// `str`'s comparison gives, since UTF-8 byte order follows code-point
/// order.
pub open spec fn spec_lex_less(a: Seq<char>, b: Seq<char>) -> bool
    decreases a.len(),
{
    if b.len() == 0 {
        false
    } else if a.len() == 0 {
        true
    } else if a[0] != b[0] {
        a[0] < b[0]
    } else {
        spec_lex_less(a.drop_first(), b.drop_first())
    }
}

/// Nothing comes strictly before itself.
pub proof fn lemma_lex_less_irrefl(a: Seq<char>)
    ensures
        !spec_lex_less(a, a),
    decreases a.len(),
{
    if a.len() > 0 {
        lemma_lex_less_irrefl(a.drop_first());
    }
}

/// The lexicographic order chains.
pub proof fn lemma_lex_less_trans(a: Seq<char>, b: Seq<char>, c: Seq<char>)
    requires
        spec_lex_less(a, b),
        spec_lex_less(b, c),
    ensures
        spec_lex_less(a, c),
    decreases a.len(),
{
    if a.len() == 0 {
    } else {
        if a[0] == b[0] && b[0] == c[0] {
            lemma_lex_less_trans(a.drop_first(), b.drop_first(), c.drop_first());
        }
    }
}

/// Two sequences neither of which comes before the other are equal.
pub proof fn lemma_lex_less_connex(a: Seq<char>, b: Seq<char>)
    requires
        !spec_lex_less(a, b),
        !spec_lex_less(b, a),
    ensures
        a =~= b,
    decreases a.len(),
{
    if a.len() == 0 {
        assert(b.len() == 0);
    } else if b.len() == 0 {
        assert(spec_lex_less(b, a));
    } else {
        assert(a[0] == b[0]);
        lemma_lex_less_connex(a.drop_first(), b.drop_first());
        assert(a.drop_first() == b.drop_first());
        assert forall|i: int| 0 <= i < a.len() implies a[i] == b[i] by {
            if i > 0 {
                assert(a[i] == a.drop_first()[i - 1]);
                assert(b[i] == b.drop_first()[i - 1]);
            }
        }
    }
}

/// Whether `a` comes strictly before `b` lexicographically.
pub fn str_lex_less(a: &str, b: &str) -> (r: bool)
    ensures
        r == spec_lex_less(a@, b@),
{
    let na = a.unicode_len();
    let nb = b.unicode_len();
    let mut i: usize = 0;
    proof {
        assert(a@.skip(0) =~= a@);
        assert(b@.skip(0) =~= b@);
    }
    while i < na && i < nb
        invariant
            0 <= i,
            i <= na,
            i <= nb,
            na == a@.len(),
            nb == b@.len(),
            spec_lex_less(a@, b@) == spec_lex_less(a@.skip(i as int), b@.skip(i as int)),
        decreases na - i,
    {
        let ca = a.get_char(i);
        let cb = b.get_char(i);
        proof {
            assert(a@.skip(i as int)[0] == a@[i as int]);
            assert(b@.skip(i as int)[0] == b@[i as int]);
            assert(a@.skip(i as int).drop_first() =~= a@.skip(i + 1));
            assert(b@.skip(i as int).drop_first() =~= b@.skip(i + 1));
        }
        if ca != cb {
            return ca < cb;
        }
        i = i + 1;
    }
    proof {
        if i == na {
            assert(a@.skip(i as int).len() == 0);
        } else {
            assert(b@.skip(i as int).len() == 0);
        }
    }
    na < nb
}

/// The Unicode `White_Space` characters, the set `char::is_whitespace` tests.
pub open spec fn spec_is_whitespace(c: char) -> bool {
    ||| c == ' '
    ||| ('\u{09}' <= c && c <= '\u{0D}')
    ||| c == '\u{85}'
    ||| c == '\u{A0}'
    ||| c == '\u{1680}'
    ||| ('\u{2000}' <= c && c <= '\u{200A}')
    ||| c == '\u{2028}'
    ||| c == '\u{2029}'
    ||| c == '\u{202F}'
    ||| c == '\u{205F}'
    ||| c == '\u{3000}'
}

/// `s` with its leading whitespace dropped.
pub open spec fn spec_trim_start(s: Seq<char>) -> Seq<char>
    decreases s.len(),
{
    if s.len() > 0 && spec_is_whitespace(s[0]) {
        spec_trim_start(s.drop_first())
    } else {
        s
    }
}

/// `s` with its trailing whitespace dropped.
pub open spec fn spec_trim_end(s: Seq<char>) -> Seq<char>
    decreases s.len(),
{
    if s.len() > 0 && spec_is_whitespace(s.last()) {
        spec_trim_end(s.drop_last())
    } else {
        s
    }
}

/// What `str::trim` returns.
pub open spec fn spec_trim(s: Seq<char>) -> Seq<char> {
    spec_trim_end(spec_trim_start(s))
}

/// Whether `c` is one of the Unicode `White_Space` characters.
pub fn is_whitespace_char(c: char) -> (r: bool)
    ensures
        r == spec_is_whitespace(c),
{
    c == ' ' || ('\u{09}' <= c && c <= '\u{0D}') || c == '\u{85}' || c == '\u{A0}' || c
        == '\u{1680}' || ('\u{2000}' <= c && c <= '\u{200A}') || c == '\u{2028}' || c == '\u{2029}'
        || c == '\u{202F}' || c == '\u{205F}' || c == '\u{3000}'
}

proof fn lemma_trim_start_at(s: Seq<char>, k: int)
    requires
        0 <= k <= s.len(),
        forall|i: int| 0 <= i < k ==> spec_is_whitespace(#[trigger] s[i]),
        k == s.len() || !spec_is_whitespace(s[k]),
    ensures
        spec_trim_start(s) == s.subrange(k, s.len() as int),
    decreases k,
{
    if k == 0 {
        assert(s.subrange(0, s.len() as int) =~= s);
    } else {
        assert(spec_is_whitespace(s[0]));
        let t = s.drop_first();
        lemma_trim_start_at(t, k - 1);
        assert(t.subrange(k - 1, t.len() as int) =~= s.subrange(k, s.len() as int));
    }
}

proof fn lemma_trim_end_at(s: Seq<char>, k: int)
    requires
        0 <= k <= s.len(),
        forall|i: int| k <= i < s.len() ==> spec_is_whitespace(#[trigger] s[i]),
        k == 0 || !spec_is_whitespace(s[k - 1]),
    ensures
        spec_trim_end(s) == s.subrange(0, k),
    decreases s.len() - k,
{
    if k == s.len() {
        if s.len() > 0 && spec_is_whitespace(s.last()) {
            assert(false);
        }
        assert(s.subrange(0, k) =~= s);
    } else {
        assert(spec_is_whitespace(s.last()));
        let t = s.drop_last();
        lemma_trim_end_at(t, k);
        assert(t.subrange(0, k) =~= s.subrange(0, k));
    }
}

/// What `str::trim` does: both ends stripped of whitespace.
pub fn trim(s: &str) -> (r: &str)
    ensures
        r@ == spec_trim(s@),
{
    let n = s.unicode_len();
    let mut start: usize = 0;
    while start < n && is_whitespace_char(s.get_char(start))
        invariant
            0 <= start <= n,
            n == s@.len(),
            forall|i: int| 0 <= i < start ==> spec_is_whitespace(#[trigger] s@[i]),
        decreases n - start,
    {
        start = start + 1;
    }
    let mut end: usize = n;
    while end > start && is_whitespace_char(s.get_char(end - 1))
        invariant
            start <= end <= n,
            n == s@.len(),
            forall|i: int| 0 <= i < start ==> spec_is_whitespace(#[trigger] s@[i]),
            start == n || !spec_is_whitespace(s@[start as int]),
            forall|i: int| end <= i < n ==> spec_is_whitespace(#[trigger] s@[i]),
        decreases end,
    {
        end = end - 1;
    }
    proof {
        lemma_trim_start_at(s@, start as int);
        let t = s@.subrange(start as int, s@.len() as int);
        if end == start {
            lemma_trim_end_at(t, 0);
        } else {
            lemma_trim_end_at(t, end - start);
        }
        assert(t.subrange(0, end - start) =~= s@.subrange(start as int, end as int));
    }
    s.substring_char(start, end)
}

/// The one-character string slice for a decimal digit.
fn digit_str(d: u64) -> (r: &'static str)
    requires
        d < 10,
    ensures
        r@ =~= seq![spec_digit_char(d as nat)],
{
    proof {
        reveal_strlit("0");
        reveal_strlit("1");
        reveal_strlit("2");
        reveal_strlit("3");
        reveal_strlit("4");
        reveal_strlit("5");
        reveal_strlit("6");
        reveal_strlit("7");
        reveal_strlit("8");
        reveal_strlit("9");
    }
    if d == 0 {
        "0"
    } else if d == 1 {
        "1"
    } else if d == 2 {
        "2"
    } else if d == 3 {
        "3"
    } else if d == 4 {
        "4"
    } else if d == 5 {
        "5"
    } else if d == 6 {
        "6"
    } else if d == 7 {
        "7"
    } else if d == 8 {
        "8"
    } else {
        "9"
    }
}

/// The decimal characters of low digits collected least significant
/// first: the digit collected first comes out last.
pub open spec fn spec_low_digits(digits: Seq<u64>) -> Seq<char>
    decreases digits.len(),
{
    if digits.len() == 0 {
        Seq::empty()
    } else {
        spec_low_digits(digits.drop_first()) + seq![spec_digit_char(digits.first() as nat)]
    }
}

/// A digit appended at the back comes out at the front.
proof fn lemma_low_digits_push(s: Seq<u64>, d: u64)
    ensures
        spec_low_digits(s.push(d)) =~= seq![spec_digit_char(d as nat)] + spec_low_digits(s),
    decreases s.len(),
{
    if s.len() == 0 {
        assert(s.push(d).drop_first() =~= Seq::<u64>::empty());
        assert(s.push(d).len() == 1 && s.push(d).first() == d);
        assert(spec_low_digits(s.push(d)) == spec_low_digits(s.push(d).drop_first()) + seq![
            spec_digit_char(s.push(d).first() as nat),
        ]);
        assert(spec_low_digits(s.push(d)) =~= seq![spec_digit_char(d as nat)]);
        assert(seq![spec_digit_char(d as nat)] + spec_low_digits(s) =~= seq![
            spec_digit_char(d as nat),
        ]);
    } else {
        assert(s.push(d).drop_first() =~= s.drop_first().push(d));
        lemma_low_digits_push(s.drop_first(), d);
        assert(s.push(d).first() == s.first());
        assert(spec_low_digits(s.push(d)) == spec_low_digits(s.drop_first().push(d)) + seq![
            spec_digit_char(s.first() as nat),
        ]);
        assert((seq![spec_digit_char(d as nat)] + spec_low_digits(s.drop_first())) + seq![
            spec_digit_char(s.first() as nat),
        ] =~= seq![spec_digit_char(d as nat)] + (spec_low_digits(s.drop_first()) + seq![
            spec_digit_char(s.first() as nat),
        ]));
        assert(spec_low_digits(s) == spec_low_digits(s.drop_first()) + seq![
            spec_digit_char(s.first() as nat),
        ]);
    }
}

/// Renders `n` in decimal, as `u64`'s `Display` writes it.
pub fn u64_to_string(n: u64) -> (r: String)
    ensures
        r@ == spec_decimal(n as nat),
{
    let mut digits: Vec<u64> = Vec::new();
    let mut m: u64 = n;
    proof {
        assert(spec_decimal(n as nat) + spec_low_digits(Seq::<u64>::empty()) =~= spec_decimal(
            n as nat,
        ));
    }
    while m >= 10
        invariant
            forall|k: int| 0 <= k < digits@.len() ==> 0 <= #[trigger] digits@[k] < 10,
            spec_decimal(n as nat) =~= spec_decimal(m as nat) + spec_low_digits(digits@),
        decreases m,
    {
        let d: u64 = m % 10;
        proof {
            lemma_low_digits_push(digits@, d);
            assert(spec_decimal(m as nat) == spec_decimal((m / 10) as nat).push(spec_digit_char(
                (m % 10) as nat,
            )));
            assert(spec_decimal((m / 10) as nat).push(spec_digit_char(d as nat)) =~= spec_decimal(
                (m / 10) as nat,
            ) + seq![spec_digit_char(d as nat)]);
            assert(spec_decimal((m / 10) as nat) + spec_low_digits(digits@.push(d))
                =~= spec_decimal((m / 10) as nat) + (seq![spec_digit_char(d as nat)]
                + spec_low_digits(digits@)));
            assert(spec_decimal((m / 10) as nat) + (seq![spec_digit_char(d as nat)]
                + spec_low_digits(digits@)) =~= (spec_decimal((m / 10) as nat) + seq![
                spec_digit_char(d as nat),
            ]) + spec_low_digits(digits@));
        }
        digits.push(d);
        m = m / 10;
    }
    let mut out = String::new();
    out.append(digit_str(m));
    proof {
        assert(out@ =~= spec_decimal(m as nat));
    }
    let mut k: usize = digits.len();
    proof {
        assert(digits@.skip(k as int) =~= Seq::<u64>::empty());
        assert(out@ + Seq::<char>::empty() =~= out@);
    }
    while k > 0
        invariant
            0 <= k <= digits@.len(),
            forall|j: int| 0 <= j < digits@.len() ==> 0 <= #[trigger] digits@[j] < 10,
            out@ =~= spec_decimal(m as nat) + spec_low_digits(digits@.skip(k as int)),
            spec_decimal(n as nat) =~= spec_decimal(m as nat) + spec_low_digits(digits@),
            m < 10,
        decreases k,
    {
        k = k - 1;
        proof {
            assert(digits@.skip(k as int).drop_first() =~= digits@.skip(k + 1));
            assert(digits@.skip(k as int).first() == digits@[k as int]);
            assert(spec_low_digits(digits@.skip(k as int)) == spec_low_digits(digits@.skip(k + 1))
                + seq![spec_digit_char(digits@[k as int] as nat)]);
        }
        out.append(digit_str(digits[k]));
    }
    proof {
        assert(digits@.skip(0) =~= digits@);
    }
    out
}

/// The decimal digit character for a value below ten.
pub open spec fn spec_digit_char(d: nat) -> char {
    if d == 0 {
        '0'
    } else if d == 1 {
        '1'
    } else if d == 2 {
        '2'
    } else if d == 3 {
        '3'
    } else if d == 4 {
        '4'
    } else if d == 5 {
        '5'
    } else if d == 6 {
        '6'
    } else if d == 7 {
        '7'
    } else if d == 8 {
        '8'
    } else {
        '9'
    }
}

/// The decimal rendering of a natural number, as `u64`'s `Display` writes it.
pub open spec fn spec_decimal(n: nat) -> Seq<char>
    decreases n,
{
    if n < 10 {
        seq![spec_digit_char(n)]
    } else {
        spec_decimal(n / 10).push(spec_digit_char(n % 10))
    }
}

} // verus!
