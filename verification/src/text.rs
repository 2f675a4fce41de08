//! Character-level text helpers with their specifications.
use vstd::prelude::*;
use vstd::utf8::{decode_utf8, valid_utf8};

verus! {

/// Unicode `White_Space` property, as used by `char::is_whitespace`.
pub open spec fn is_ws(c: char) -> bool {
    ||| c == ' '
    ||| ('\u{9}' <= c && c <= '\u{d}')
    ||| c == '\u{85}'
    ||| c == '\u{a0}'
    ||| c == '\u{1680}'
    ||| ('\u{2000}' <= c && c <= '\u{200a}')
    ||| c == '\u{2028}'
    ||| c == '\u{2029}'
    ||| c == '\u{202f}'
    ||| c == '\u{205f}'
    ||| c == '\u{3000}'
}

pub fn char_is_ws(c: char) -> (r: bool)
    ensures
        r == is_ws(c),
{
    c == ' ' || ('\u{9}' <= c && c <= '\u{d}') || c == '\u{85}' || c == '\u{a0}' || c == '\u{1680}'
        || ('\u{2000}' <= c && c <= '\u{200a}') || c == '\u{2028}' || c == '\u{2029}' || c
        == '\u{202f}' || c == '\u{205f}' || c == '\u{3000}'
}

/// ASCII lowercase of one character.
pub open spec fn lower_char(c: char) -> char {
    if 'A' <= c && c <= 'Z' {
        ((c as u32 + 32) as u8) as char
    } else {
        c
    }
}

pub open spec fn to_ascii_lower(s: Seq<char>) -> Seq<char> {
    s.map_values(|c: char| lower_char(c))
}

/// Does `pat` occur in `s` starting at `i`?
pub open spec fn occurs_at<T>(s: Seq<T>, pat: Seq<T>, i: int) -> bool {
    0 <= i && i + pat.len() <= s.len() && s.subrange(i, i + pat.len()) == pat
}

pub open spec fn contains<T>(s: Seq<T>, pat: Seq<T>) -> bool {
    exists|i: int| occurs_at(s, pat, i)
}

pub open spec fn starts_with<T>(s: Seq<T>, pat: Seq<T>) -> bool {
    occurs_at(s, pat, 0)
}

/// Index of the first occurrence of `pat` in `s` at or after `from`.
pub open spec fn find_spec<T>(s: Seq<T>, pat: Seq<T>, from: int) -> Option<int>
    decreases s.len() + 1 - from,
{
    if from < 0 || from > s.len() {
        None
    } else if occurs_at(s, pat, from) {
        Some(from)
    } else {
        find_spec(s, pat, from + 1)
    }
}

pub proof fn lemma_find_spec<T>(s: Seq<T>, pat: Seq<T>, from: int)
    requires
        0 <= from,
    ensures
        match find_spec(s, pat, from) {
            Some(i) => from <= i <= s.len() && occurs_at(s, pat, i) && forall|j: int|
                from <= j < i ==> !occurs_at(s, pat, j),
            None => forall|j: int| from <= j ==> !occurs_at(s, pat, j),
        },
    decreases s.len() + 1 - from,
{
    if from > s.len() {
        assert forall|j: int| from <= j implies !occurs_at(s, pat, j) by {}
    } else if !occurs_at(s, pat, from) {
        lemma_find_spec(s, pat, from + 1);
    }
}

/// Number of leading whitespace characters.
pub open spec fn leading_ws(s: Seq<char>) -> nat
    decreases s.len(),
{
    if s.len() > 0 && is_ws(s[0]) {
        1 + leading_ws(s.drop_first())
    } else {
        0
    }
}

/// Number of trailing whitespace characters.
pub open spec fn trailing_ws(s: Seq<char>) -> nat
    decreases s.len(),
{
    if s.len() > 0 && is_ws(s.last()) {
        1 + trailing_ws(s.drop_last())
    } else {
        0
    }
}

pub open spec fn trim_start(s: Seq<char>) -> Seq<char> {
    s.subrange(leading_ws(s) as int, s.len() as int)
}

pub open spec fn trim_end(s: Seq<char>) -> Seq<char> {
    s.subrange(0, s.len() - trailing_ws(s))
}

/// `str::trim`: whitespace removed from both ends.
pub open spec fn trim(s: Seq<char>) -> Seq<char> {
    trim_end(trim_start(s))
}

pub proof fn lemma_leading_ws_bound(s: Seq<char>)
    ensures
        leading_ws(s) <= s.len(),
        forall|i: int| 0 <= i < leading_ws(s) ==> is_ws(#[trigger] s[i]),
        leading_ws(s) < s.len() ==> !is_ws(s[leading_ws(s) as int]),
    decreases s.len(),
{
    if s.len() > 0 && is_ws(s[0]) {
        lemma_leading_ws_bound(s.drop_first());
        assert forall|i: int| 0 <= i < leading_ws(s) implies is_ws(#[trigger] s[i]) by {
            if i > 0 {
                assert(s[i] == s.drop_first()[i - 1]);
            }
        }
    }
}

pub proof fn lemma_trailing_ws_bound(s: Seq<char>)
    ensures
        trailing_ws(s) <= s.len(),
        forall|i: int| s.len() - trailing_ws(s) <= i < s.len() ==> is_ws(#[trigger] s[i]),
        trailing_ws(s) < s.len() ==> !is_ws(s[s.len() - trailing_ws(s) - 1]),
    decreases s.len(),
{
    if s.len() > 0 && is_ws(s.last()) {
        lemma_trailing_ws_bound(s.drop_last());
        assert forall|i: int| s.len() - trailing_ws(s) <= i < s.len() implies is_ws(#[trigger] s[i]) by {
            if i < s.len() - 1 {
                assert(s[i] == s.drop_last()[i]);
            }
        }
    }
}

/// Decimal digits of a natural number, most significant first.
pub open spec fn decimal(n: nat) -> Seq<char>
    decreases n,
{
    if n < 10 {
        seq![digit_char(n)]
    } else {
        decimal(n / 10).push(digit_char(n % 10))
    }
}

pub open spec fn digit_char(d: nat) -> char {
    ((d + 48) as u8) as char
}

pub open spec fn is_digit(c: char) -> bool {
    '0' <= c && c <= '9'
}

pub open spec fn digit_value(c: char) -> nat {
    (c as u32 - 48) as nat
}

/// Value of a nonempty run of decimal digits.
pub open spec fn digits_value(s: Seq<char>) -> nat
    decreases s.len(),
{
    if s.len() == 0 {
        0
    } else {
        digits_value(s.drop_last()) * 10 + digit_value(s.last())
    }
}

pub open spec fn all_digits(s: Seq<char>) -> bool {
    forall|i: int| 0 <= i < s.len() ==> is_digit(#[trigger] s[i])
}

/// What `str::parse::<usize>` accepts: an optional `+`, then one or more digits,
/// with a value that fits in `usize`.
pub open spec fn parse_usize_spec(s: Seq<char>) -> Option<nat> {
    let body = if s.len() > 0 && s[0] == '+' { s.drop_first() } else { s };
    if body.len() > 0 && all_digits(body) && digits_value(body) <= usize::MAX {
        Some(digits_value(body))
    } else {
        None
    }
}


/// Lexicographic order of character sequences by code point, which is the
/// order of `str` (byte-wise comparison of UTF-8 preserves code point order).
pub open spec fn seq_lt(a: Seq<char>, b: Seq<char>) -> bool
    decreases a.len(),
{
    if a.len() == 0 {
        b.len() > 0
    } else if b.len() == 0 {
        false
    } else if a[0] == b[0] {
        seq_lt(a.drop_first(), b.drop_first())
    } else {
        a[0] < b[0]
    }
}

pub proof fn lemma_lt_irreflexive(a: Seq<char>)
    ensures
        !seq_lt(a, a),
    decreases a.len(),
{
    if a.len() > 0 {
        lemma_lt_irreflexive(a.drop_first());
    }
}

pub proof fn lemma_lt_trichotomy(a: Seq<char>, b: Seq<char>)
    ensures
        a == b || seq_lt(a, b) || seq_lt(b, a),
        !(seq_lt(a, b) && seq_lt(b, a)),
    decreases a.len(),
{
    if a.len() > 0 && b.len() > 0 {
        if a[0] == b[0] {
            lemma_lt_trichotomy(a.drop_first(), b.drop_first());
            if a.drop_first() == b.drop_first() {
                assert(a == seq![a[0]] + a.drop_first());
                assert(b == seq![b[0]] + b.drop_first());
            }
        } else {
        }
    } else if a.len() == 0 && b.len() == 0 {
        assert(a == b);
    }
}

pub proof fn lemma_lt_transitive(a: Seq<char>, b: Seq<char>, c: Seq<char>)
    requires
        seq_lt(a, b),
        seq_lt(b, c),
    ensures
        seq_lt(a, c),
    decreases a.len(),
{
    if a.len() > 0 && b.len() > 0 && c.len() > 0 {
        if a[0] == b[0] && b[0] == c[0] {
            lemma_lt_transitive(a.drop_first(), b.drop_first(), c.drop_first());
        }
    }
}

proof fn lemma_lt_skip(a: Seq<char>, b: Seq<char>, i: int)
    requires
        0 <= i <= a.len(),
        i <= b.len(),
        forall|j: int| 0 <= j < i ==> a[j] == b[j],
    ensures
        seq_lt(a, b) == seq_lt(a.skip(i), b.skip(i)),
    decreases i,
{
    if i > 0 {
        assert(a[0] == b[0]);
        lemma_lt_skip(a.drop_first(), b.drop_first(), i - 1);
        assert(a.drop_first().skip(i - 1) == a.skip(i));
        assert(b.drop_first().skip(i - 1) == b.skip(i));
    } else {
        assert(a.skip(0) == a);
        assert(b.skip(0) == b);
    }
}

/// `a < b` in string order.
pub fn seq_lt_exec(a: &Vec<char>, b: &Vec<char>) -> (r: bool)
    ensures
        r == seq_lt(a@, b@),
{
    let mut i: usize = 0;
    while i < a.len() && i < b.len() && a[i] == b[i]
        invariant
            i <= a.len(),
            i <= b.len(),
            forall|j: int| 0 <= j < i ==> a@[j] == b@[j],
        decreases a.len() - i,
    {
        i += 1;
    }
    proof {
        lemma_lt_skip(a@, b@, i as int);
    }
    let ghost sa = a@.skip(i as int);
    let ghost sb = b@.skip(i as int);
    if i == a.len() {
        i < b.len()
    } else if i == b.len() {
        false
    } else {
        assert(sa[0] == a@[i as int]);
        assert(sb[0] == b@[i as int]);
        a[i] < b[i]
    }
}

/// `String::push`: appends one character to the end of the string.
#[verifier::external_body]
pub(crate) fn push_char(s: &mut String, c: char)
    ensures
        final(s)@ == old(s)@.push(c),
{
    s.push(c);
}

/// The characters of a string slice, in order.
pub fn chars_of(s: &str) -> (v: Vec<char>)
    ensures
        v@ == s@,
{
    let n = s.unicode_len();
    let mut v: Vec<char> = Vec::new();
    let mut i: usize = 0;
    while i < n
        invariant
            n == s@.len(),
            i <= n,
            v@ == s@.subrange(0, i as int),
        decreases n - i,
    {
        v.push(s.get_char(i));
        i += 1;
    }
    v
}

/// A string holding the characters `s[from..to]`.
pub fn string_from_range(s: &Vec<char>, from: usize, to: usize) -> (r: String)
    requires
        from <= to <= s.len(),
    ensures
        r@ == s@.subrange(from as int, to as int),
{
    let mut r = String::new();
    let mut i = from;
    while i < to
        invariant
            from <= i <= to <= s.len(),
            r@ == s@.subrange(from as int, i as int),
        decreases to - i,
    {
        push_char(&mut r, s[i]);
        i += 1;
    }
    r
}

pub fn string_from_chars(s: &Vec<char>) -> (r: String)
    ensures
        r@ == s@,
{
    let r = string_from_range(s, 0, s.len());
    assert(s@.subrange(0, s@.len() as int) == s@);
    r
}

/// Appends the characters of `tail` to `s`.
pub fn push_str(s: &mut String, tail: &str)
    ensures
        final(s)@ == old(s)@ + tail@,
{
    let t = chars_of(tail);
    let mut i: usize = 0;
    while i < t.len()
        invariant
            i <= t.len(),
            t@ == tail@,
            s@ == old(s)@ + tail@.subrange(0, i as int),
        decreases t.len() - i,
    {
        push_char(s, t[i]);
        i += 1;
        assert(tail@.subrange(0, i as int) == tail@.subrange(0, i - 1).push(t@[i - 1]));
    }
    assert(tail@.subrange(0, t.len() as int) == tail@);
}

/// Equality of two strings, character by character.
pub fn str_eq(a: &str, b: &str) -> (r: bool)
    ensures
        r == (a@ == b@),
{
    let x = chars_of(a);
    let y = chars_of(b);
    if x.len() != y.len() {
        return false;
    }
    let mut i: usize = 0;
    while i < x.len()
        invariant
            x@ == a@,
            y@ == b@,
            x.len() == y.len(),
            i <= x.len(),
            forall|j: int| 0 <= j < i ==> x@[j] == y@[j],
        decreases x.len() - i,
    {
        if x[i] != y[i] {
            assert(x@[i as int] != y@[i as int]);
            return false;
        }
        i += 1;
    }
    assert(x@ == y@);
    true
}

/// Does `pat` occur in `s` at position `i`?
pub fn occurs_at_exec(s: &Vec<char>, pat: &Vec<char>, i: usize) -> (r: bool)
    ensures
        r == occurs_at(s@, pat@, i as int),
{
    if i > s.len() || pat.len() > s.len() - i {
        return false;
    }
    let mut k: usize = 0;
    while k < pat.len()
        invariant
            i + pat.len() <= s.len(),
            k <= pat.len(),
            forall|j: int| 0 <= j < k ==> s@[i + j] == pat@[j],
        decreases pat.len() - k,
    {
        if s[i + k] != pat[k] {
            assert(s@.subrange(i as int, i + pat.len())[k as int] != pat@[k as int]);
            return false;
        }
        k += 1;
    }
    assert(s@.subrange(i as int, i + pat.len()) == pat@);
    true
}

/// First occurrence of `pat` in `s` at or after `from`.
pub fn find_from(s: &Vec<char>, pat: &Vec<char>, from: usize) -> (r: Option<usize>)
    ensures
        match r {
            Some(i) => find_spec(s@, pat@, from as int) == Some(i as int),
            None => find_spec(s@, pat@, from as int) is None,
        },
{
    let mut i = from;
    while i <= s.len()
        invariant
            from <= i,
            find_spec(s@, pat@, from as int) == find_spec(s@, pat@, i as int),
        decreases s.len() + 1 - i,
    {
        if occurs_at_exec(s, pat, i) {
            return Some(i);
        }
        if i == s.len() {
            assert(find_spec(s@, pat@, i as int + 1) is None);
            return None;
        }
        i += 1;
    }
    None
}

pub fn contains_exec(s: &Vec<char>, pat: &Vec<char>) -> (r: bool)
    ensures
        r == contains(s@, pat@),
{
    proof {
        lemma_find_spec(s@, pat@, 0);
    }
    match find_from(s, pat, 0) {
        Some(i) => true,
        None => false,
    }
}

/// Decimal digits of `n` (`n.to_string()` for an unsigned integer).
pub fn decimal_string(n: u64) -> (r: String)
    ensures
        r@ == decimal(n as nat),
{
    // Digits are produced least significant first, then written out in reverse.
    let mut digits: Vec<char> = Vec::new();
    let mut m = n;
    let ghost mut rest: Seq<char> = Seq::empty();
    while m >= 10
        invariant
            m <= n,
            decimal(n as nat) == decimal(m as nat) + rest,
            digits@.len() == rest.len(),
            forall|i: int| 0 <= i < rest.len() ==> rest[i] == #[trigger] digits@[rest.len() - 1 - i],
        decreases m,
    {
        let d = (m % 10) as u8;
        let c = ((d + 48) as u8) as char;
        digits.push(c);
        proof {
            assert(decimal(m as nat) == decimal((m / 10) as nat).push(digit_char((m % 10) as nat)));
            assert(decimal(m as nat) + rest == decimal((m / 10) as nat) + (seq![c] + rest));
            let old_rest = rest;
            rest = seq![c] + rest;
            assert forall|i: int| 0 <= i < rest.len() implies rest[i] == #[trigger] digits@[rest.len() - 1 - i] by {
                if i > 0 {
                    assert(rest[i] == old_rest[i - 1]);
                    assert(old_rest[i - 1] == digits@[old_rest.len() - 1 - (i - 1)]);
                }
            }
        }
        m = m / 10;
    }
    let c = (((m % 10) as u8) + 48) as char;
    digits.push(c);
    proof {
        assert(decimal(m as nat) == seq![digit_char(m as nat)]);
        let old_rest = rest;
        rest = seq![c] + rest;
        assert forall|i: int| 0 <= i < rest.len() implies rest[i] == #[trigger] digits@[rest.len() - 1 - i] by {
            if i > 0 {
                assert(rest[i] == old_rest[i - 1]);
                assert(old_rest[i - 1] == digits@[old_rest.len() - 1 - (i - 1)]);
            }
        }
    }
    assert(decimal(n as nat) == rest);
    let mut r = String::new();
    let mut k: usize = digits.len();
    while k > 0
        invariant
            k <= digits.len(),
            digits@.len() == rest.len(),
            forall|i: int| 0 <= i < rest.len() ==> rest[i] == #[trigger] digits@[rest.len() - 1 - i],
            r@ == rest.subrange(0, (digits.len() - k) as int),
        decreases k,
    {
        k -= 1;
        let ghost j = (digits.len() - 1 - k) as int;
        assert(rest[j] == digits@[rest.len() - 1 - j]);
        push_char(&mut r, digits[k]);
        assert(rest.subrange(0, j + 1) == rest.subrange(0, j).push(rest[j]));
    }
    assert(rest.subrange(0, digits.len() as int) == rest);
    r
}

/// End of the run of non-whitespace characters starting at `i`.
pub open spec fn token_end(s: Seq<char>, i: int) -> int
    decreases s.len() - i,
{
    if i < 0 || i >= s.len() || is_ws(s[i]) {
        i
    } else {
        token_end(s, i + 1)
    }
}

pub proof fn lemma_token_end(s: Seq<char>, i: int)
    requires
        0 <= i <= s.len(),
    ensures
        i <= token_end(s, i) <= s.len(),
        i < s.len() && !is_ws(s[i]) ==> i < token_end(s, i),
        forall|k: int| i <= k < token_end(s, i) ==> !is_ws(#[trigger] s[k]),
        token_end(s, i) < s.len() ==> is_ws(s[token_end(s, i)]),
    decreases s.len() - i,
{
    if i < s.len() && !is_ws(s[i]) {
        lemma_token_end(s, i + 1);
    }
}

/// Whitespace-separated tokens of `s[i..]` (`str::split_whitespace`).
pub open spec fn tokens_from(s: Seq<char>, i: int) -> Seq<Seq<char>>
    decreases s.len() - i,
{
    if i < 0 || i >= s.len() {
        Seq::empty()
    } else if is_ws(s[i]) {
        tokens_from(s, i + 1)
    } else {
        let j = token_end(s, i);
        proof {
            lemma_token_end(s, i);
        }
        seq![s.subrange(i, j)] + tokens_from(s, j)
    }
}

/// `str::split_whitespace`.
pub open spec fn tokens(s: Seq<char>) -> Seq<Seq<char>> {
    tokens_from(s, 0)
}

pub open spec fn views_of(v: Seq<Vec<char>>) -> Seq<Seq<char>> {
    v.map_values(|x: Vec<char>| x@)
}

/// The characters `s[from..to]`.
pub fn slice_chars(s: &Vec<char>, from: usize, to: usize) -> (r: Vec<char>)
    requires
        from <= to <= s.len(),
    ensures
        r@ == s@.subrange(from as int, to as int),
{
    let mut r: Vec<char> = Vec::new();
    let mut i = from;
    while i < to
        invariant
            from <= i <= to <= s.len(),
            r@ == s@.subrange(from as int, i as int),
        decreases to - i,
    {
        r.push(s[i]);
        i += 1;
    }
    r
}

/// Whitespace-separated tokens of `s` (`str::split_whitespace`).
pub fn split_ws(s: &Vec<char>) -> (r: Vec<Vec<char>>)
    ensures
        views_of(r@) == tokens(s@),
{
    let mut r: Vec<Vec<char>> = Vec::new();
    let mut i: usize = 0;
    while i < s.len()
        invariant
            i <= s.len(),
            tokens(s@) == views_of(r@) + tokens_from(s@, i as int),
        decreases s.len() - i,
    {
        if char_is_ws(s[i]) {
            i += 1;
        } else {
            let start = i;
            proof {
                lemma_token_end(s@, start as int);
            }
            while i < s.len() && !char_is_ws(s[i])
                invariant
                    start <= i <= s.len(),
                    token_end(s@, start as int) == token_end(s@, i as int),
                decreases s.len() - i,
            {
                i += 1;
            }
            let tok = slice_chars(s, start, i);
            proof {
                assert(views_of(r@.push(tok)) == views_of(r@).push(tok@));
                assert(tokens_from(s@, start as int) == seq![s@.subrange(start as int, i as int)] + tokens_from(
                    s@,
                    i as int,
                ));
                assert(views_of(r@) + tokens_from(s@, start as int) == views_of(r@).push(tok@) + tokens_from(
                    s@,
                    i as int,
                ));
            }
            r.push(tok);
        }
    }
    proof {
        assert(tokens_from(s@, i as int) == Seq::<Seq<char>>::empty());
        assert(views_of(r@) + Seq::<Seq<char>>::empty() == views_of(r@));
    }
    r
}

/// End of the line starting at `i`: the next `\n`, or the end of the text.
pub open spec fn line_end(s: Seq<char>, i: int) -> int
    decreases s.len() - i,
{
    if i < 0 || i >= s.len() || s[i] == '\n' {
        i
    } else {
        line_end(s, i + 1)
    }
}

pub proof fn lemma_line_end(s: Seq<char>, i: int)
    requires
        0 <= i <= s.len(),
    ensures
        i <= line_end(s, i) <= s.len(),
        forall|k: int| i <= k < line_end(s, i) ==> #[trigger] s[k] != '\n',
        line_end(s, i) < s.len() ==> s[line_end(s, i)] == '\n',
    decreases s.len() - i,
{
    if i < s.len() && s[i] != '\n' {
        lemma_line_end(s, i + 1);
    }
}

/// A line without its carriage return before the newline.
pub open spec fn strip_cr(l: Seq<char>) -> Seq<char> {
    if l.len() > 0 && l.last() == '\r' {
        l.drop_last()
    } else {
        l
    }
}

/// Lines of `s[i..]` (`str::lines`): split at `\n`, a `\r` before the `\n`
/// dropped, no empty line after a final `\n`.
pub open spec fn lines_from(s: Seq<char>, i: int) -> Seq<Seq<char>>
    decreases s.len() - i,
{
    if i < 0 || i >= s.len() {
        Seq::empty()
    } else {
        let j = line_end(s, i);
        proof {
            lemma_line_end(s, i);
        }
        if j < s.len() {
            seq![strip_cr(s.subrange(i, j))] + lines_from(s, j + 1)
        } else {
            seq![s.subrange(i, j)]
        }
    }
}

/// `str::lines`.
pub open spec fn lines(s: Seq<char>) -> Seq<Seq<char>> {
    lines_from(s, 0)
}

/// The lines of `s` (`str::lines`).
pub fn split_lines(s: &Vec<char>) -> (r: Vec<Vec<char>>)
    ensures
        views_of(r@) == lines(s@),
{
    let mut r: Vec<Vec<char>> = Vec::new();
    let mut i: usize = 0;
    while i < s.len()
        invariant
            i <= s.len(),
            lines(s@) == views_of(r@) + lines_from(s@, i as int),
        decreases s.len() - i,
    {
        let start = i;
        proof {
            lemma_line_end(s@, start as int);
        }
        while i < s.len() && s[i] != '\n'
            invariant
                start <= i <= s.len(),
                line_end(s@, start as int) == line_end(s@, i as int),
            decreases s.len() - i,
        {
            i += 1;
        }
        if i < s.len() {
            let mut end = i;
            if end > start && s[end - 1] == '\r' {
                end = end - 1;
            }
            let line = slice_chars(s, start, end);
            proof {
                let l = s@.subrange(start as int, i as int);
                assert(strip_cr(l) == line@) by {
                    if l.len() > 0 && l.last() == '\r' {
                        assert(l.drop_last() == s@.subrange(start as int, end as int));
                    }
                }
                assert(views_of(r@.push(line)) == views_of(r@).push(line@));
                assert(views_of(r@) + lines_from(s@, start as int) == views_of(r@).push(line@) + lines_from(
                    s@,
                    i + 1,
                ));
            }
            r.push(line);
            i += 1;
        } else {
            let line = slice_chars(s, start, i);
            proof {
                assert(views_of(r@.push(line)) == views_of(r@).push(line@));
                assert(lines_from(s@, i as int) == Seq::<Seq<char>>::empty());
                assert(views_of(r@) + lines_from(s@, start as int) == views_of(r@).push(line@) + lines_from(
                    s@,
                    i as int,
                ));
            }
            r.push(line);
        }
    }
    proof {
        assert(views_of(r@) + Seq::<Seq<char>>::empty() == views_of(r@));
    }
    r
}

/// End of the field starting at `i`: the next `sep`, or the end of the text.
pub open spec fn field_end(s: Seq<char>, sep: char, i: int) -> int
    decreases s.len() - i,
{
    if i < 0 || i >= s.len() || s[i] == sep {
        i
    } else {
        field_end(s, sep, i + 1)
    }
}

pub proof fn lemma_field_end(s: Seq<char>, sep: char, i: int)
    requires
        0 <= i <= s.len(),
    ensures
        i <= field_end(s, sep, i) <= s.len(),
        forall|k: int| i <= k < field_end(s, sep, i) ==> #[trigger] s[k] != sep,
        field_end(s, sep, i) < s.len() ==> s[field_end(s, sep, i)] == sep,
    decreases s.len() - i,
{
    if i < s.len() && s[i] != sep {
        lemma_field_end(s, sep, i + 1);
    }
}

/// Fields of `s[i..]` separated by `sep` (`str::split` with a character).
pub open spec fn fields_from(s: Seq<char>, sep: char, i: int) -> Seq<Seq<char>>
    decreases s.len() + 1 - i,
{
    if i < 0 || i > s.len() {
        Seq::empty()
    } else {
        let j = field_end(s, sep, i);
        proof {
            lemma_field_end(s, sep, i);
        }
        if j < s.len() {
            seq![s.subrange(i, j)] + fields_from(s, sep, j + 1)
        } else {
            seq![s.subrange(i, j)]
        }
    }
}

/// `str::split(sep)`: always at least one field.
pub open spec fn fields(s: Seq<char>, sep: char) -> Seq<Seq<char>> {
    fields_from(s, sep, 0)
}

/// The fields of `s` separated by `sep` (`str::split`).
pub fn split_char(s: &Vec<char>, sep: char) -> (r: Vec<Vec<char>>)
    ensures
        views_of(r@) == fields(s@, sep),
{
    let mut r: Vec<Vec<char>> = Vec::new();
    let mut i: usize = 0;
    loop
        invariant
            i <= s.len(),
            fields(s@, sep) == views_of(r@) + fields_from(s@, sep, i as int),
        decreases s.len() - i,
    {
        let start = i;
        proof {
            lemma_field_end(s@, sep, start as int);
        }
        while i < s.len() && s[i] != sep
            invariant
                start <= i <= s.len(),
                field_end(s@, sep, start as int) == field_end(s@, sep, i as int),
            decreases s.len() - i,
        {
            i += 1;
        }
        let field = slice_chars(s, start, i);
        proof {
            assert(views_of(r@.push(field)) == views_of(r@).push(field@));
        }
        r.push(field);
        if i == s.len() {
            proof {
                assert(fields_from(s@, sep, start as int) == seq![field@]);
                assert(views_of(r@) == views_of(r@).drop_last().push(field@));
            }
            return r;
        }
        proof {
            assert(fields_from(s@, sep, start as int) == seq![field@] + fields_from(s@, sep, i + 1));
            assert(views_of(r@).drop_last() + fields_from(s@, sep, start as int) == views_of(r@) + fields_from(
                s@,
                sep,
                i + 1,
            ));
        }
        i += 1;
    }
}

/// The characters of `s` with leading and trailing whitespace removed (`str::trim`).
pub fn trim_chars(s: &Vec<char>) -> (r: Vec<char>)
    ensures
        r@ == trim(s@),
{
    proof {
        lemma_leading_ws_bound(s@);
    }
    let mut a: usize = 0;
    while a < s.len() && char_is_ws(s[a])
        invariant
            a <= s.len(),
            a <= leading_ws(s@),
            forall|k: int| 0 <= k < a ==> is_ws(#[trigger] s@[k]),
            leading_ws(s@) <= s.len(),
            forall|i: int| 0 <= i < leading_ws(s@) ==> is_ws(#[trigger] s@[i]),
            leading_ws(s@) < s.len() ==> !is_ws(s@[leading_ws(s@) as int]),
        decreases s.len() - a,
    {
        a += 1;
    }
    let ghost t = trim_start(s@);
    assert(a == leading_ws(s@));
    proof {
        lemma_trailing_ws_bound(t);
    }
    let mut b: usize = s.len();
    while b > a && char_is_ws(s[b - 1])
        invariant
            a <= b <= s.len(),
            t == s@.subrange(a as int, s.len() as int),
            b - a >= t.len() - trailing_ws(t),
            trailing_ws(t) <= t.len(),
            forall|i: int| t.len() - trailing_ws(t) <= i < t.len() ==> is_ws(#[trigger] t[i]),
            trailing_ws(t) < t.len() ==> !is_ws(t[t.len() - trailing_ws(t) - 1]),
        decreases b,
    {
        assert(t[(b - 1 - a) as int] == s@[b - 1]);
        b -= 1;
    }
    assert(b - a == t.len() - trailing_ws(t)) by {
        if b > a {
            assert(t[(b - 1 - a) as int] == s@[b - 1]);
        }
    }
    let r = slice_chars(s, a, b);
    assert(r@ == trim_end(t));
    r
}

proof fn lemma_digits_prefix(s: Seq<char>, k: int)
    requires
        0 <= k <= s.len(),
    ensures
        digits_value(s.take(k)) <= digits_value(s),
    decreases s.len(),
{
    if k < s.len() {
        lemma_digits_prefix(s.drop_last(), k);
        assert(s.drop_last().take(k) == s.take(k));
    } else {
        assert(s.take(k) == s);
    }
}

/// `str::parse::<usize>` on the characters of `s`.
pub fn parse_usize_chars(s: &Vec<char>) -> (r: Option<usize>)
    ensures
        match r {
            Some(v) => parse_usize_spec(s@) == Some(v as nat),
            None => parse_usize_spec(s@) is None,
        },
{
    let start: usize = if s.len() > 0 && s[0] == '+' { 1 } else { 0 };
    let ghost body = if s@.len() > 0 && s@[0] == '+' { s@.drop_first() } else { s@ };
    assert(body == s@.subrange(start as int, s.len() as int));
    if start >= s.len() {
        return None;
    }
    let mut i = start;
    while i < s.len()
        invariant
            start <= i <= s.len(),
            body == s@.subrange(start as int, s.len() as int),
            body == (if s@.len() > 0 && s@[0] == '+' { s@.drop_first() } else { s@ }),
            forall|k: int| 0 <= k < i - start ==> is_digit(#[trigger] body[k]),
        decreases s.len() - i,
    {
        if !('0' <= s[i] && s[i] <= '9') {
            assert(!is_digit(body[i - start]));
            return None;
        }
        i += 1;
    }
    assert(all_digits(body));
    let mut value: u128 = 0;
    let mut k = start;
    while k < s.len()
        invariant
            start <= k <= s.len(),
            body == s@.subrange(start as int, s.len() as int),
            body == (if s@.len() > 0 && s@[0] == '+' { s@.drop_first() } else { s@ }),
            all_digits(body),
            value == digits_value(body.take(k - start)),
            value <= usize::MAX,
        decreases s.len() - k,
    {
        assert(body[k - start] == s@[k as int]);
        assert(is_digit(body[k - start]));
        let d = (s[k] as u32 - 48) as u128;
        assert(body.take(k + 1 - start).drop_last() == body.take(k - start));
        value = value * 10 + d;
        k += 1;
        if value > usize::MAX as u128 {
            proof {
                lemma_digits_prefix(body, k - start);
            }
            return None;
        }
    }
    assert(body.take(body.len() as int) == body);
    Some(value as usize)
}

/// Whether `str::parse::<usize>` fails on `s` with an invalid digit (rather
/// than with overflow), when it fails: digits are read left to right and the
/// first bad character or the first overflowing digit decides.
pub open spec fn usize_error_is_invalid_digit(body: Seq<char>, i: int, acc: nat) -> bool
    decreases body.len() - i,
{
    if i < 0 || i >= body.len() {
        true
    } else if !is_digit(body[i]) {
        true
    } else if acc * 10 + digit_value(body[i]) > usize::MAX {
        false
    } else {
        usize_error_is_invalid_digit(body, i + 1, acc * 10 + digit_value(body[i]))
    }
}

/// Display text of the error of `str::parse::<usize>` on `s`.
pub open spec fn usize_error_text(s: Seq<char>) -> Seq<char> {
    if s.len() == 0 {
        "cannot parse integer from empty string"@
    } else {
        let body = if s[0] == '+' { s.drop_first() } else { s };
        if usize_error_is_invalid_digit(body, 0, 0) {
            "invalid digit found in string"@
        } else {
            "number too large to fit in target type"@
        }
    }
}

/// The error text of `str::parse::<usize>` on `s`.
pub fn usize_error_message(s: &Vec<char>) -> (r: &'static str)
    ensures
        r@ == usize_error_text(s@),
{
    if s.len() == 0 {
        return "cannot parse integer from empty string";
    }
    let start: usize = if s[0] == '+' { 1 } else { 0 };
    let ghost body = if s@[0] == '+' { s@.drop_first() } else { s@ };
    assert(body == s@.subrange(start as int, s.len() as int));
    let mut acc: u128 = 0;
    let mut i = start;
    while i < s.len()
        invariant
            start <= i <= s.len(),
            s.len() > 0,
            body == s@.subrange(start as int, s.len() as int),
            body == (if s@[0] == '+' { s@.drop_first() } else { s@ }),
            acc <= usize::MAX,
            usize_error_is_invalid_digit(body, 0, 0) == usize_error_is_invalid_digit(
                body,
                i - start,
                acc as nat,
            ),
        decreases s.len() - i,
    {
        assert(body[i - start] == s@[i as int]);
        if !('0' <= s[i] && s[i] <= '9') {
            return "invalid digit found in string";
        }
        let v = acc * 10 + (s[i] as u32 - 48) as u128;
        if v > usize::MAX as u128 {
            return "number too large to fit in target type";
        }
        acc = v;
        i += 1;
    }
    "invalid digit found in string"
}


/// ASCII lowercase of the characters of `s` (`str::to_ascii_lowercase`).
pub fn lowercase_chars(s: &Vec<char>) -> (r: Vec<char>)
    ensures
        r@ == to_ascii_lower(s@),
{
    let mut r: Vec<char> = Vec::new();
    let mut i: usize = 0;
    while i < s.len()
        invariant
            i <= s.len(),
            r@ == to_ascii_lower(s@.subrange(0, i as int)),
        decreases s.len() - i,
    {
        let c = s[i];
        let l = if 'A' <= c && c <= 'Z' {
            #[verifier::truncate]
            let b = (c as u32 + 32) as u8;
            b as char
        } else {
            c
        };
        assert(l == lower_char(s@[i as int]));
        r.push(l);
        assert(s@.subrange(0, i + 1) == s@.subrange(0, i as int).push(s@[i as int]));
        i += 1;
    }
    assert(s@.subrange(0, s.len() as int) == s@);
    r
}

/// `s` without its leading run of `c` (`str::trim_start_matches(c)`).
pub open spec fn trim_char_start(s: Seq<char>, c: char) -> Seq<char>
    decreases s.len(),
{
    if s.len() > 0 && s[0] == c {
        trim_char_start(s.drop_first(), c)
    } else {
        s
    }
}

/// `s` without its trailing run of `c` (`str::trim_end_matches(c)`).
pub open spec fn trim_char_end(s: Seq<char>, c: char) -> Seq<char>
    decreases s.len(),
{
    if s.len() > 0 && s.last() == c {
        trim_char_end(s.drop_last(), c)
    } else {
        s
    }
}

/// `s` without leading and trailing runs of `c` (`str::trim_matches(c)`).
pub open spec fn trim_char(s: Seq<char>, c: char) -> Seq<char> {
    trim_char_end(trim_char_start(s, c), c)
}

/// The characters of `s` without their leading run of `c`.
pub fn trim_start_char(s: &Vec<char>, c: char) -> (r: Vec<char>)
    ensures
        r@ == trim_char_start(s@, c),
{
    let mut a: usize = 0;
    assert(s@.subrange(0, s.len() as int) == s@);
    while a < s.len() && s[a] == c
        invariant
            a <= s.len(),
            trim_char_start(s@, c) == trim_char_start(s@.subrange(a as int, s.len() as int), c),
        decreases s.len() - a,
    {
        assert(s@.subrange(a as int, s.len() as int).drop_first() == s@.subrange(
            a + 1,
            s.len() as int,
        ));
        a += 1;
    }
    slice_chars(s, a, s.len())
}

/// The characters of `s` without their trailing run of `c`.
pub fn trim_end_char(s: &Vec<char>, c: char) -> (r: Vec<char>)
    ensures
        r@ == trim_char_end(s@, c),
{
    let mut b: usize = s.len();
    assert(s@.subrange(0, s.len() as int) == s@);
    while b > 0 && s[b - 1] == c
        invariant
            b <= s.len(),
            trim_char_end(s@, c) == trim_char_end(s@.subrange(0, b as int), c),
        decreases b,
    {
        assert(s@.subrange(0, b as int).drop_last() == s@.subrange(0, b - 1));
        b -= 1;
    }
    slice_chars(s, 0, b)
}

/// The characters of `s` without leading and trailing runs of `c`.
pub fn trim_matches_char(s: &Vec<char>, c: char) -> (r: Vec<char>)
    ensures
        r@ == trim_char(s@, c),
{
    let t = trim_start_char(s, c);
    trim_end_char(&t, c)
}

/// The second piece of `s` split at `pat` (`s.split(pat).nth(1)`), for a
/// nonempty pattern: the text after the first occurrence, up to the next one.
pub open spec fn split_second(s: Seq<char>, pat: Seq<char>) -> Option<Seq<char>> {
    match find_spec(s, pat, 0) {
        None => None,
        Some(i) => {
            let start = i + pat.len();
            match find_spec(s, pat, start) {
                Some(j) => Some(s.subrange(start, j)),
                None => Some(s.subrange(start, s.len() as int)),
            }
        },
    }
}

/// `s.split(pat).nth(1)` for a nonempty pattern.
pub fn split_second_exec(s: &Vec<char>, pat: &Vec<char>) -> (r: Option<Vec<char>>)
    requires
        pat.len() > 0,
    ensures
        match r {
            Some(v) => split_second(s@, pat@) == Some(v@),
            None => split_second(s@, pat@) is None,
        },
{
    proof {
        lemma_find_spec(s@, pat@, 0);
    }
    let first = find_from(s, pat, 0);
    match first {
        None => None,
        Some(i) => {
            assert(occurs_at(s@, pat@, i as int));
            let n = s.len();
            let m = pat.len();
            assert(i + m <= n);
            let start = i + m;
            proof {
                lemma_find_spec(s@, pat@, start as int);
            }
            match find_from(s, pat, start) {
                Some(j) => {
                    assert(find_spec(s@, pat@, start as int) == Some(j as int));
                    assert(occurs_at(s@, pat@, j as int));
                    Some(slice_chars(s, start, j))
                },
                None => Some(slice_chars(s, start, s.len())),
            }
        },
    }
}

/// The pieces joined with `sep` between neighbours (`[..].join(sep)`).
pub open spec fn join(parts: Seq<Seq<char>>, sep: Seq<char>) -> Seq<char>
    decreases parts.len(),
{
    if parts.len() == 0 {
        Seq::empty()
    } else if parts.len() == 1 {
        parts[0]
    } else {
        join(parts.drop_last(), sep) + sep + parts.last()
    }
}

pub open spec fn string_views(v: Seq<String>) -> Seq<Seq<char>> {
    v.map_values(|x: String| x@)
}

pub proof fn lemma_string_views_push(v: Seq<String>, x: String)
    ensures
        string_views(v.push(x)) == string_views(v).push(x@),
{
    assert(string_views(v.push(x)) =~= string_views(v).push(x@));
}

pub proof fn lemma_take_push<T>(s: Seq<T>, i: int)
    requires
        0 <= i < s.len(),
    ensures
        s.take(i + 1) == s.take(i).push(s[i]),
{
    assert(s.take(i + 1) =~= s.take(i).push(s[i]));
}

/// The strings joined with `sep` between neighbours.
pub fn join_strings(parts: &Vec<String>, sep: &str) -> (r: String)
    ensures
        r@ == join(string_views(parts@), sep@),
{
    let mut r = String::new();
    let mut i: usize = 0;
    while i < parts.len()
        invariant
            i <= parts.len(),
            r@ == join(string_views(parts@).take(i as int), sep@),
        decreases parts.len() - i,
    {
        let ghost prev = string_views(parts@).take(i as int);
        if i > 0 {
            push_str(&mut r, sep);
        }
        push_str(&mut r, parts[i].as_str());
        proof {
            let next = string_views(parts@).take(i + 1);
            assert(next.drop_last() == prev);
            assert(next.last() == parts@[i as int]@);
            if i == 0 {
                assert(r@ == Seq::<char>::empty() + parts@[0]@);
            }
        }
        i += 1;
    }
    assert(string_views(parts@).take(parts.len() as int) == string_views(parts@));
    r
}


/// Display text of the error `std::str::from_utf8` reports for `bytes`.
pub uninterp spec fn utf8_error_text(bytes: Seq<u8>) -> Seq<char>;

/// `std::str::from_utf8`, owned: the text when the bytes are well-formed
/// UTF-8 (`valid_utf8`), decoded as `decode_utf8` states; else the error's
/// display text, which the contract names without stating it.
#[verifier::external_body]
pub(crate) fn utf8_text(bytes: &[u8]) -> (r: Result<String, String>)
    ensures
        r is Ok <==> valid_utf8(bytes@),
        r matches Ok(s) ==> s@ == decode_utf8(bytes@),
        r matches Err(e) ==> e@ == utf8_error_text(bytes@),
{
    std::str::from_utf8(bytes).map(|s| s.to_string()).map_err(|e| e.to_string())
}
} // verus!
