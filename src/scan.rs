//! Scanner primitives: recognisers over a character sequence that return the
//! end of what they consumed, and consume nothing when they fail.

use vstd::prelude::*;

verus! {

/// Space, tab, carriage return and newline.
pub open spec fn is_ws_char(c: char) -> bool {
    c == ' ' || c == '\t' || c == '\r' || c == '\n'
}

pub open spec fn is_ascii_alpha(c: char) -> bool {
    ('a' <= c && c <= 'z') || ('A' <= c && c <= 'Z')
}

pub open spec fn is_digit(c: char) -> bool {
    '0' <= c && c <= '9'
}

/// A character that may begin an identifier.
pub open spec fn ident_start_char(c: char) -> bool {
    is_ascii_alpha(c) || c == '_' || c >= '\u{80}'
}

/// A character that may continue an identifier.
pub open spec fn ident_tail_char(c: char) -> bool {
    is_ascii_alpha(c) || is_digit(c) || c == '_' || c >= '\u{80}'
}

/// Whether `c` is space, tab, carriage return or newline.
pub fn is_ws(c: char) -> (r: bool)
    ensures
        r == is_ws_char(c),
{
    c == ' ' || c == '\t' || c == '\r' || c == '\n'
}

/// Whether `c` is not whitespace.
pub fn not_ws(c: char) -> (r: bool)
    ensures
        r == !is_ws_char(c),
{
    !is_ws(c)
}

/// The end of the run of whitespace that starts at `pos`.
pub fn skip_ws(s: &[char], pos: usize) -> (r: usize)
    requires
        pos <= s@.len(),
    ensures
        pos <= r <= s@.len(),
        forall|i: int| pos <= i < r ==> is_ws_char(s@[i]),
        r == s@.len() || !is_ws_char(s@[r as int]),
{
    let mut i = pos;
    while i < s.len() && is_ws(s[i])
        invariant
            pos <= i <= s@.len(),
            forall|j: int| pos <= j < i ==> is_ws_char(s@[j]),
        decreases s@.len() - i,
    {
        i = i + 1;
    }
    i
}

/// `s` holds the characters `d` at `pos`.
pub open spec fn has_at(s: Seq<char>, pos: int, d: (char, char)) -> bool {
    0 <= pos && pos + 2 <= s.len() && s[pos] == d.0 && s[pos + 1] == d.1
}

/// Whether the two characters `d` stand at `pos`.
pub fn tag(s: &[char], pos: usize, d: (char, char)) -> (r: bool)
    requires
        pos <= s@.len(),
    ensures
        r == has_at(s@, pos as int, d),
{
    s.len() - pos >= 2 && s[pos] == d.0 && s[pos + 1] == d.1
}

/// Whether `c` may begin an identifier.
pub fn is_ident_start(c: char) -> (r: bool)
    ensures
        r == ident_start_char(c),
{
    ('a' <= c && c <= 'z') || ('A' <= c && c <= 'Z') || c == '_' || c >= '\u{80}'
}

/// Whether `c` may continue an identifier.
pub fn is_ident_tail(c: char) -> (r: bool)
    ensures
        r == ident_tail_char(c),
{
    ('a' <= c && c <= 'z') || ('A' <= c && c <= 'Z') || ('0' <= c && c <= '9') || c == '_'
        || c >= '\u{80}'
}

/// The first index at or after `i` that does not hold an identifier tail
/// character.
pub open spec fn tail_end(s: Seq<char>, i: int) -> int
    decreases s.len() - i,
{
    if i < 0 || i >= s.len() || !ident_tail_char(s[i]) {
        i
    } else {
        tail_end(s, i + 1)
    }
}

/// Where the identifier at `p` ends, if one starts there.
pub open spec fn ident_end(s: Seq<char>, p: int) -> Option<int> {
    if 0 <= p < s.len() && ident_start_char(s[p]) {
        Some(tail_end(s, p + 1))
    } else {
        None
    }
}

proof fn lemma_tail_end(s: Seq<char>, i: int, r: int)
    requires
        0 <= i <= r <= s.len(),
        forall|j: int| i <= j < r ==> ident_tail_char(s[j]),
        r == s.len() || !ident_tail_char(s[r]),
    ensures
        tail_end(s, i) == r,
    decreases r - i,
{
    if i < r {
        lemma_tail_end(s, i + 1, r);
    }
}

/// The end of the identifier that starts at `pos`, if one does: a start
/// character, then as many tail characters as follow.
pub fn identifier(s: &[char], pos: usize) -> (r: Option<usize>)
    requires
        pos <= s@.len(),
    ensures
        r is None <==> (pos == s@.len() || !ident_start_char(s@[pos as int])),
        r matches Some(e) ==> pos < e <= s@.len()
            && forall|i: int| pos < i < e ==> ident_tail_char(s@[i]),
        r matches Some(e) ==> e == s@.len() || !ident_tail_char(s@[e as int]),
        r matches Some(e) ==> ident_at(s@, pos as int, e as int),
        r is None ==> forall|e: int| !ident_at(s@, pos as int, e),
        match r {
            Some(e) => ident_end(s@, pos as int) == Some(e as int),
            None => ident_end(s@, pos as int) is None,
        },
{
    if pos == s.len() {
        return None;
    }
    let c = s[pos];
    if !is_ident_start(c) {
        return None;
    }
    let mut i = pos + 1;
    while i < s.len() && is_ident_tail(s[i])
        invariant
            pos < i <= s@.len(),
            forall|j: int| pos < j < i ==> ident_tail_char(s@[j]),
        decreases s@.len() - i,
    {
        i = i + 1;
    }
    proof { lemma_tail_end(s@, pos + 1, i as int); }
    Some(i)
}

} // verus!

verus! {

/// `s[from..to]` holds the characters of `k`.
pub open spec fn span_is(s: Seq<char>, from: int, to: int, k: Seq<char>) -> bool {
    0 <= from <= to <= s.len() && s.subrange(from, to) == k
}

/// Whether `s[from..to]` holds the characters of `k`.
pub fn span_eq(s: &[char], from: usize, to: usize, k: &str) -> (r: bool)
    requires
        from <= to <= s@.len(),
    ensures
        r == span_is(s@, from as int, to as int, k@),
{
    let kc = crate::text::chars_of(k);
    if kc.len() != to - from {
        return false;
    }
    let mut i: usize = 0;
    while i < kc.len()
        invariant
            kc@ == k@,
            kc@.len() == to - from,
            from <= to <= s@.len(),
            i <= kc@.len(),
            forall|j: int| 0 <= j < i ==> s@[from + j] == kc@[j],
        decreases kc@.len() - i,
    {
        if s[from + i] != kc[i] {
            assert(s@.subrange(from as int, to as int)[i as int] != k@[i as int]);
            return false;
        }
        i = i + 1;
    }
    assert(s@.subrange(from as int, to as int) =~= k@);
    true
}

/// The identifier that starts at `pos` ends at `e`.
pub open spec fn ident_at(s: Seq<char>, pos: int, e: int) -> bool {
    &&& 0 <= pos < e <= s.len()
    &&& ident_start_char(s[pos])
    &&& forall|i: int| pos < i < e ==> ident_tail_char(s[i])
    &&& (e == s.len() || !ident_tail_char(s[e]))
}

/// Where the keyword `k` at `pos` ends: an identifier that is exactly `k`.
pub open spec fn keyword_end(s: Seq<char>, pos: int, k: Seq<char>) -> Option<int> {
    match ident_end(s, pos) {
        Some(e) => if span_is(s, pos, e, k) { Some(e) } else { None },
        None => None,
    }
}

/// The end of the keyword `k` at `pos`: an identifier that is exactly `k`.
pub fn keyword(s: &[char], pos: usize, k: &str) -> (r: Option<usize>)
    requires
        pos <= s@.len(),
    ensures
        r matches Some(e) ==> ident_at(s@, pos as int, e as int) && span_is(s@, pos as int, e as int, k@),
        r is None ==> forall|e: int| ident_at(s@, pos as int, e) ==> !span_is(s@, pos as int, e, k@),
        match r {
            Some(e) => keyword_end(s@, pos as int, k@) == Some(e as int),
            None => keyword_end(s@, pos as int, k@) is None,
        },
{
    match identifier(s, pos) {
        Some(e) => {
            if span_eq(s, pos, e, k) {
                Some(e)
            } else {
                proof {
                    assert forall|e2: int| ident_at(s@, pos as int, e2) implies e2 == e by {
                        if e2 < e { assert(ident_tail_char(s@[e2])); }
                        if e2 > e { assert(ident_tail_char(s@[e as int])); }
                    };
                }
                None
            }
        },
        None => None,
    }
}

/// The end of the run of digits that starts at `pos`.
fn digits(s: &[char], pos: usize) -> (r: usize)
    requires
        pos <= s@.len(),
    ensures
        pos <= r <= s@.len(),
        forall|i: int| pos <= i < r ==> is_digit(s@[i]),
        r == s@.len() || !is_digit(s@[r as int]),
{
    let mut i = pos;
    while i < s.len() && '0' <= s[i] && s[i] <= '9'
        invariant
            pos <= i <= s@.len(),
            forall|j: int| pos <= j < i ==> is_digit(s@[j]),
        decreases s@.len() - i,
    {
        i = i + 1;
    }
    i
}

/// The first index at or after `pos` that does not hold a digit.
pub open spec fn digits_end(s: Seq<char>, pos: int) -> int
    decreases s.len() - pos,
{
    if pos < 0 || pos >= s.len() || !is_digit(s[pos]) {
        pos
    } else {
        digits_end(s, pos + 1)
    }
}

proof fn lemma_digits_end(s: Seq<char>, pos: int, r: int)
    requires
        0 <= pos <= r <= s.len(),
        forall|i: int| pos <= i < r ==> is_digit(s[i]),
        r == s.len() || !is_digit(s[r]),
    ensures
        digits_end(s, pos) == r,
    decreases r - pos,
{
    if pos < r {
        lemma_digits_end(s, pos + 1, r);
    }
}

/// Where a number literal at `pos` ends: digits, then optionally a `.` and
/// more digits; no sign and no exponent.
pub open spec fn num_lit_end(s: Seq<char>, pos: int) -> Option<int> {
    let a = digits_end(s, pos);
    if a == pos {
        None
    } else if a < s.len() && s[a] == '.' && digits_end(s, a + 1) > a + 1 {
        Some(digits_end(s, a + 1))
    } else {
        Some(a)
    }
}

/// The end of the number literal at `pos`, if one stands there.
pub fn num_lit(s: &[char], pos: usize) -> (r: Option<usize>)
    requires
        pos <= s@.len(),
    ensures
        match r {
            Some(e) => num_lit_end(s@, pos as int) == Some(e as int),
            None => num_lit_end(s@, pos as int) is None,
        },
{
    let a = digits(s, pos);
    proof { lemma_digits_end(s@, pos as int, a as int); }
    if a == pos {
        return None;
    }
    if a < s.len() && s[a] == '.' {
        let b = digits(s, a + 1);
        proof { lemma_digits_end(s@, a + 1, b as int); }
        if b > a + 1 {
            return Some(b);
        }
    }
    Some(a)
}

/// Where the body of a literal quoted by `q` ends, from `i` on: at the
/// first unescaped `q`; a `\` protects the character after it.
pub open spec fn quoted_end(s: Seq<char>, i: int, q: char) -> Option<int>
    decreases s.len() - i,
{
    if i < 0 || i >= s.len() {
        None
    } else if s[i] == q {
        Some(i)
    } else if s[i] == '\\' {
        if i + 1 < s.len() {
            quoted_end(s, i + 2, q)
        } else {
            None
        }
    } else {
        quoted_end(s, i + 1, q)
    }
}

/// The literal quoted by `q` at `pos`: the index of its closing quote.
fn quoted(s: &[char], pos: usize, q: char) -> (r: Option<usize>)
    requires
        pos <= s@.len(),
    ensures
        match r {
            Some(e) => pos < s@.len() && s@[pos as int] == q && quoted_end(s@, pos + 1, q)
                == Some(e as int),
            None => !(pos < s@.len() && s@[pos as int] == q) || quoted_end(s@, pos + 1, q) is None,
        },
{
    if pos == s.len() || s[pos] != q {
        return None;
    }
    let mut i = pos + 1;
    while i < s.len() && s[i] != q
        invariant
            pos < i <= s@.len() + 1,
            quoted_end(s@, pos + 1, q) == quoted_end(s@, i as int, q),
        decreases s@.len() + 1 - i,
    {
        if s[i] == '\\' {
            if i + 1 >= s.len() {
                return None;
            }
            i = i + 2;
        } else {
            i = i + 1;
        }
    }
    if i >= s.len() {
        None
    } else {
        Some(i)
    }
}

/// A string literal at `pos`: the index of its closing `"`.
pub fn str_lit(s: &[char], pos: usize) -> (r: Option<usize>)
    requires
        pos <= s@.len(),
    ensures
        match r {
            Some(e) => pos < s@.len() && s@[pos as int] == '"' && quoted_end(s@, pos + 1, '"')
                == Some(e as int),
            None => !(pos < s@.len() && s@[pos as int] == '"') || quoted_end(s@, pos + 1, '"') is None,
        },
{
    quoted(s, pos, '"')
}

/// A character literal at `pos`: the index of its closing `'`.
pub fn char_lit(s: &[char], pos: usize) -> (r: Option<usize>)
    requires
        pos <= s@.len(),
    ensures
        match r {
            Some(e) => pos < s@.len() && s@[pos as int] == '\'' && quoted_end(s@, pos + 1, '\'')
                == Some(e as int),
            None => !(pos < s@.len() && s@[pos as int] == '\'') || quoted_end(s@, pos + 1, '\'') is None,
        },
{
    quoted(s, pos, '\'')
}

} // verus!

verus! {

/// The scan for the `)` that closes an open parenthesis, from index `k` on,
/// with `nested` parentheses open, inside a string literal or not, and after
/// an escaping `\` or not. Parentheses inside a string literal do not count.
/// Where the input ends before the closing `)`, the scan fails.
pub open spec fn paren_scan(s: Seq<char>, pos: int, k: int, nested: nat, in_str: bool, escaped: bool) -> Option<int>
    decreases s.len() - k,
{
    if k < 0 || k >= s.len() {
        None
    } else {
        let b = s[k];
        let counts = (b != '(' && b != ')') || !in_str;
        if counts && b == ')' && nested == 0 {
            Some(k)
        } else {
            let nested2: nat = if counts && b == '(' {
                nested + 1
            } else if counts && b == ')' {
                (nested - 1) as nat
            } else {
                nested
            };
            let in_str2 = if counts && b == '"' {
                if in_str { escaped } else { true }
            } else {
                in_str
            };
            let esc1 = if counts && b == '\\' { !escaped } else { escaped };
            let esc2 = if esc1 && b != '\\' { false } else { esc1 };
            paren_scan(s, pos, k + 1, nested2, in_str2, esc2)
        }
    }
}

/// Scans from `pos` for the `)` that closes a parenthesis opened before
/// `pos`, and returns its index; fails where the input ends first.
pub fn nested_parenthesis(s: &[char], pos: usize) -> (r: Option<usize>)
    requires
        pos <= s@.len(),
    ensures
        match r {
            Some(e) => paren_scan(s@, pos as int, pos as int, 0, false, false) == Some(e as int),
            None => paren_scan(s@, pos as int, pos as int, 0, false, false) is None,
        },
{
    let mut nested: usize = 0;
    let mut in_str = false;
    let mut escaped = false;
    let mut k = pos;
    while k < s.len()
        invariant
            pos <= k <= s@.len(),
            nested <= k - pos,
            paren_scan(s@, pos as int, pos as int, 0, false, false)
                == paren_scan(s@, pos as int, k as int, nested as nat, in_str, escaped),
        decreases s@.len() - k,
    {
        let b = s[k];
        if !(b == '(' || b == ')') || !in_str {
            if b == '(' {
                nested = nested + 1;
            } else if b == ')' {
                if nested == 0 {
                    return Some(k);
                }
                nested = nested - 1;
            } else if b == '"' {
                if in_str {
                    if !escaped {
                        in_str = false;
                    }
                } else {
                    in_str = true;
                }
            } else if b == '\\' {
                escaped = !escaped;
            }
        }
        if escaped && b != '\\' {
            escaped = false;
        }
        k = k + 1;
    }
    None
}

/// What std's `char::is_uppercase` returns for `c`.
pub uninterp spec fn is_uppercase_char(c: char) -> bool;

/// Relies on std's char::is_uppercase: whether `c` has Unicode's Uppercase
/// property. ASCII capitals have it; ASCII lower-case letters, digits and
/// `_` do not.
#[verifier::external_body]
fn char_is_uppercase(c: char) -> (r: bool)
    ensures
        r == is_uppercase_char(c),
        ('A' <= c && c <= 'Z') ==> r,
        (('a' <= c && c <= 'z') || is_digit(c) || c == '_') ==> !r,
{
    c.is_uppercase()
}

/// A lower-case ASCII letter, a digit or `_`.
pub open spec fn lower_ident_char(c: char) -> bool {
    ('a' <= c && c <= 'z') || is_digit(c) || c == '_'
}

/// Every character of `s[from..to]` is a lower-case ASCII letter, a digit
/// or `_`.
pub open spec fn all_lower(s: Seq<char>, from: int, to: int) -> bool {
    forall|i: int| from <= i < to ==> lower_ident_char(s[i])
}

/// Some character of `s[from..to]` is upper-case.
pub open spec fn has_upper(s: Seq<char>, from: int, to: int) -> bool {
    exists|i: int| from <= i < to && is_uppercase_char(s[i])
}

/// Whether some character of `s[from..to]` is upper-case.
pub fn any_upper(s: &[char], from: usize, to: usize) -> (r: bool)
    requires
        from <= to <= s@.len(),
    ensures
        r == has_upper(s@, from as int, to as int),
        all_lower(s@, from as int, to as int) ==> !r,
{
    let mut i = from;
    while i < to
        invariant
            from <= i <= to <= s@.len(),
            forall|j: int| from <= j < i ==> !is_uppercase_char(s@[j]),
        decreases to - i,
    {
        if char_is_uppercase(s[i]) {
            return true;
        }
        i = i + 1;
    }
    false
}

/// Where a `::` separator at `p` ends, with the whitespace around it.
pub open spec fn sep_end(s: Seq<char>, p: int) -> Option<int> {
    let a = skip_ws_end(s, p);
    if has_at(s, a, (':', ':')) {
        Some(skip_ws_end(s, a + 2))
    } else {
        None
    }
}

/// The end of `::` at `pos`, with the whitespace around it.
pub fn path_sep(s: &[char], pos: usize) -> (r: Option<usize>)
    requires
        pos <= s@.len(),
    ensures
        r matches Some(e) ==> pos + 2 <= e <= s@.len() && sep_end(s@, pos as int) == Some(e as int),
        r is None <==> sep_end(s@, pos as int) is None,
{
    let a = skip_ws(s, pos);
    proof { lemma_skip_ws_end(s@, pos as int, a as int); }
    if s.len() - a >= 2 && tag(s, a, (':', ':')) {
        let b = skip_ws(s, a + 2);
        proof { lemma_skip_ws_end(s@, a + 2, b as int); }
        Some(b)
    } else {
        None
    }
}

/// An identifier has one end.
pub proof fn lemma_ident_at_unique(s: Seq<char>, pos: int, e1: int, e2: int)
    requires
        ident_at(s, pos, e1),
        ident_at(s, pos, e2),
    ensures
        e1 == e2,
{
    if e1 < e2 {
        assert(ident_tail_char(s[e1]));
    }
    if e2 < e1 {
        assert(ident_tail_char(s[e2]));
    }
}

/// The first index at or after `pos` that does not hold whitespace.
pub open spec fn skip_ws_end(s: Seq<char>, pos: int) -> int
    decreases s.len() - pos,
{
    if pos < 0 || pos >= s.len() || !is_ws_char(s[pos]) {
        pos
    } else {
        skip_ws_end(s, pos + 1)
    }
}

pub proof fn lemma_skip_ws_end(s: Seq<char>, pos: int, r: int)
    requires
        0 <= pos <= r <= s.len(),
        forall|i: int| pos <= i < r ==> is_ws_char(s[i]),
        r == s.len() || !is_ws_char(s[r]),
    ensures
        skip_ws_end(s, pos) == r,
    decreases r - pos,
{
    if pos < r {
        lemma_skip_ws_end(s, pos + 1, r);
    }
}

} // verus!

verus! {

/// A number literal ends after where it starts.
pub proof fn lemma_num_lit_end(s: Seq<char>, pos: int)
    requires
        0 <= pos <= s.len(),
    ensures
        num_lit_end(s, pos) matches Some(e) ==> pos < e <= s.len(),
{
    lemma_digits_end_bounds(s, pos);
    let a = digits_end(s, pos);
    if a < s.len() && a >= pos {
        lemma_digits_end_bounds(s, a + 1);
    }
}

pub proof fn lemma_digits_end_bounds(s: Seq<char>, pos: int)
    requires
        0 <= pos <= s.len(),
    ensures
        pos <= digits_end(s, pos) <= s.len(),
    decreases s.len() - pos,
{
    if pos < s.len() && is_digit(s[pos]) {
        lemma_digits_end_bounds(s, pos + 1);
    }
}

} // verus!

verus! {

pub proof fn lemma_quoted_end_bounds(s: Seq<char>, i: int, q: char)
    requires
        0 <= i,
    ensures
        quoted_end(s, i, q) matches Some(e) ==> i <= e < s.len(),
    decreases s.len() - i,
{
    if 0 <= i < s.len() && s[i] != q {
        if s[i] == '\\' {
            if i + 1 < s.len() {
                lemma_quoted_end_bounds(s, i + 2, q);
            }
        } else {
            lemma_quoted_end_bounds(s, i + 1, q);
        }
    }
}

pub proof fn lemma_paren_scan_bounds(s: Seq<char>, pos: int, k: int, nested: nat, in_str: bool, escaped: bool)
    requires
        0 <= pos <= k,
    ensures
        paren_scan(s, pos, k, nested, in_str, escaped) matches Some(e) ==> k <= e < s.len(),
    decreases s.len() - k,
{
    if k < s.len() {
        let b = s[k];
        let counts = (b != '(' && b != ')') || !in_str;
        if !(counts && b == ')' && nested == 0) {
            let nested2: nat = if counts && b == '(' {
                nested + 1
            } else if counts && b == ')' {
                (nested - 1) as nat
            } else {
                nested
            };
            let in_str2 = if counts && b == '"' {
                if in_str { escaped } else { true }
            } else {
                in_str
            };
            let esc1 = if counts && b == '\\' { !escaped } else { escaped };
            let esc2 = if esc1 && b != '\\' { false } else { esc1 };
            lemma_paren_scan_bounds(s, pos, k + 1, nested2, in_str2, esc2);
        }
    }
}

} // verus!

verus! {

/// The run of whitespace from `pos` on ends within `s`, and where it ends
/// after `pos`, `pos` holds whitespace.
pub proof fn lemma_skip_ws_end_bounds(s: Seq<char>, pos: int)
    requires
        0 <= pos <= s.len(),
    ensures
        pos <= skip_ws_end(s, pos) <= s.len(),
        skip_ws_end(s, pos) > pos ==> is_ws_char(s[pos]),
    decreases s.len() - pos,
{
    if pos < s.len() && is_ws_char(s[pos]) {
        lemma_skip_ws_end_bounds(s, pos + 1);
    }
}

} // verus!
