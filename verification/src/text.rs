//! Character-level helpers shared by the layout modules: decoding strings into
//! characters, building them back, display widths and character classes.

use unicode_width::UnicodeWidthChar;
use unicode_width::UnicodeWidthStr;
use vstd::prelude::*;

verus! {

/// Display width, in terminal columns, that `unicode_width` assigns to a whole string.
pub uninterp spec fn str_width(s: Seq<char>) -> usize;

/// Display width that `unicode_width` assigns to one character (`None` for control characters).
pub uninterp spec fn char_width(c: char) -> Option<usize>;

/// Whether a character has the Unicode `White_Space` property (`char::is_whitespace`).
pub uninterp spec fn whitespace(c: char) -> bool;

/// Whether a character is alphabetic or numeric in the Unicode sense (`char::is_alphanumeric`).
pub uninterp spec fn alphanumeric(c: char) -> bool;

/// `unicode_width::UnicodeWidthStr::width`: the contract claims only that the
/// result is the function's value on the string's characters.
#[verifier::external_body]
pub(crate) fn display_width(s: &str) -> (w: usize)
    ensures
        w == str_width(s@),
{
    UnicodeWidthStr::width(s)
}

/// `unicode_width::UnicodeWidthChar::width`: the contract claims only that the
/// result is the function's value on the character.
#[verifier::external_body]
pub(crate) fn char_display_width(c: char) -> (w: Option<usize>)
    ensures
        w == char_width(c),
{
    UnicodeWidthChar::width(c)
}

/// `char::is_whitespace`: the contract claims only that the result is the
/// class's value on the character.
#[verifier::external_body]
pub(crate) fn is_whitespace(c: char) -> (b: bool)
    ensures
        b == whitespace(c),
{
    c.is_whitespace()
}

/// `char::is_alphanumeric`: the contract claims only that the result is the
/// class's value on the character.
#[verifier::external_body]
pub(crate) fn is_alphanumeric(c: char) -> (b: bool)
    ensures
        b == alphanumeric(c),
{
    c.is_alphanumeric()
}

/// `String::push`: the character is appended at the end.
#[verifier::external_body]
pub(crate) fn push_char(s: &mut String, c: char)
    ensures
        final(s)@ == old(s)@.push(c),
{
    s.push(c);
}

/// The characters of `s`, in order.
pub fn chars_of(s: &str) -> (out: Vec<char>)
    ensures
        out@ == s@,
{
    let mut out: Vec<char> = Vec::new();
    for c in it: s.chars()
        invariant
            out@ == it.seq().take(it.index()),
    {
        out.push(c);
    }
    out
}

/// A string holding exactly the given characters.
pub fn string_of(chars: &Vec<char>) -> (out: String)
    ensures
        out@ == chars@,
{
    let mut out = String::new();
    let n = chars.len();
    for i in 0..n
        invariant
            n == chars.len(),
            out@ == chars@.take(i as int),
    {
        push_char(&mut out, chars[i]);
        assert(chars@.take(i + 1) == chars@.take(i as int).push(chars@[i as int]));
    }
    assert(chars@.take(n as int) == chars@);
    out
}

/// A fresh string with the contents of `s`.
pub fn owned(s: &str) -> (out: String)
    ensures
        out@ == s@,
{
    String::from_str(s)
}

/// `s` followed by `t`.
pub fn concat2(s: &str, t: &str) -> (out: String)
    ensures
        out@ == s@ + t@,
{
    let mut out = String::from_str(s);
    out.append(t);
    out
}

/// `s`, then `t`, then `u`.
pub fn concat3(s: &str, t: &str, u: &str) -> (out: String)
    ensures
        out@ == s@ + t@ + u@,
{
    let mut out = String::from_str(s);
    out.append(t);
    out.append(u);
    out
}

/// Whether two strings hold the same characters.
pub fn str_eq(a: &str, b: &str) -> (r: bool)
    ensures
        r == (a@ == b@),
{
    let x = chars_of(a);
    let y = chars_of(b);
    if x.len() != y.len() {
        return false;
    }
    let n = x.len();
    for i in 0..n
        invariant
            n == x.len(),
            n == y.len(),
            x@ == a@,
            y@ == b@,
            forall|j: int| 0 <= j < i ==> x@[j] == y@[j],
    {
        if x[i] != y[i] {
            return false;
        }
    }
    assert(x@ =~= y@);
    true
}

/// Whether `c` occurs in `s`.
pub fn contains_char(s: &str, c: char) -> (r: bool)
    ensures
        r == s@.contains(c),
{
    let x = chars_of(s);
    let n = x.len();
    for i in 0..n
        invariant
            n == x.len(),
            x@ == s@,
            forall|j: int| 0 <= j < i ==> x@[j] != c,
    {
        if x[i] == c {
            return true;
        }
    }
    false
}

/// The ASCII upper-case form of one character; other characters are unchanged.
pub open spec fn ascii_upper(c: char) -> char {
    if 'a' <= c && c <= 'z' {
        ((c as u32) - 32) as char
    } else {
        c
    }
}

/// The ASCII lower-case form of one character; other characters are unchanged.
pub open spec fn ascii_lower(c: char) -> char {
    if 'A' <= c && c <= 'Z' {
        ((c as u32) + 32) as char
    } else {
        c
    }
}

/// `str::to_ascii_uppercase`: every ASCII letter upper-cased, everything else kept.
pub fn to_ascii_uppercase(s: &str) -> (out: String)
    ensures
        out@ == s@.map_values(|c: char| ascii_upper(c)),
{
    let x = chars_of(s);
    let mut out = String::new();
    let n = x.len();
    for i in 0..n
        invariant
            n == x.len(),
            x@ == s@,
            out@ == s@.take(i as int).map_values(|c: char| ascii_upper(c)),
    {
        let c = x[i];
        let u = if 'a' <= c && c <= 'z' {
            ((c as u8) - 32) as char
        } else {
            c
        };
        push_char(&mut out, u);
        assert(s@.take(i + 1).map_values(|c: char| ascii_upper(c)) =~= s@.take(
            i as int,
        ).map_values(|c: char| ascii_upper(c)).push(ascii_upper(c)));
    }
    assert(s@.take(n as int) =~= s@);
    out
}

/// `str::to_ascii_lowercase`: every ASCII letter lower-cased, everything else kept.
pub fn to_ascii_lowercase(s: &str) -> (out: String)
    ensures
        out@ == s@.map_values(|c: char| ascii_lower(c)),
{
    let x = chars_of(s);
    let mut out = String::new();
    let n = x.len();
    for i in 0..n
        invariant
            n == x.len(),
            x@ == s@,
            out@ == s@.take(i as int).map_values(|c: char| ascii_lower(c)),
    {
        let c = x[i];
        let u = if 'A' <= c && c <= 'Z' {
            ((c as u8) + 32) as char
        } else {
            c
        };
        push_char(&mut out, u);
        assert(s@.take(i + 1).map_values(|c: char| ascii_lower(c)) =~= s@.take(
            i as int,
        ).map_values(|c: char| ascii_lower(c)).push(ascii_lower(c)));
    }
    assert(s@.take(n as int) =~= s@);
    out
}

/// Whether `s` begins with `prefix`.
pub open spec fn has_prefix(s: Seq<char>, prefix: Seq<char>) -> bool {
    prefix.len() <= s.len() && s.take(prefix.len() as int) == prefix
}

/// `str::starts_with` for a string pattern.
pub fn starts_with(s: &str, prefix: &str) -> (r: bool)
    ensures
        r == has_prefix(s@, prefix@),
{
    let x = chars_of(s);
    let p = chars_of(prefix);
    if p.len() > x.len() {
        return false;
    }
    let n = p.len();
    for i in 0..n
        invariant
            n == p.len(),
            n <= x.len(),
            x@ == s@,
            p@ == prefix@,
            forall|j: int| 0 <= j < i ==> x@[j] == p@[j],
    {
        if x[i] != p[i] {
            assert(s@.take(n as int)[i as int] != prefix@[i as int]);
            return false;
        }
    }
    assert(s@.take(n as int) =~= prefix@);
    true
}

/// `str::eq_ignore_ascii_case`: equal once ASCII letters are folded to lower case.
pub fn eq_ignore_ascii_case(a: &str, b: &str) -> (r: bool)
    ensures
        r == (a@.map_values(|c: char| ascii_lower(c)) == b@.map_values(|c: char| ascii_lower(c))),
{
    let x = to_ascii_lowercase(a);
    let y = to_ascii_lowercase(b);
    str_eq(x.as_str(), y.as_str())
}

/// The ASCII digit for a value below ten.
pub open spec fn digit_char(d: nat) -> char {
    (48 + d) as char
}

/// The decimal spelling of `n`, without leading zeros.
pub open spec fn decimal(n: nat) -> Seq<char>
    decreases n,
{
    if n < 10 {
        seq![digit_char(n)]
    } else {
        decimal(n / 10).push(digit_char(n % 10))
    }
}

/// `to_string` on an unsigned integer: the decimal spelling of `n`.
pub fn decimal_string(n: u128) -> (out: String)
    ensures
        out@ == decimal(n as nat),
    decreases n,
{
    let d: u8 = (n % 10) as u8;
    let c = (48u8 + d) as char;
    if n < 10 {
        let mut out = String::new();
        push_char(&mut out, c);
        assert(out@ =~= seq![digit_char(n as nat)]);
        out
    } else {
        let mut out = decimal_string(n / 10);
        push_char(&mut out, c);
        out
    }
}

/// Whether `pattern` occurs in `s` as a contiguous run.
pub open spec fn has_substring(s: Seq<char>, pattern: Seq<char>) -> bool {
    exists|i: int| 0 <= i && i + pattern.len() <= s.len() && #[trigger] s.subrange(i, i + pattern.len()) == pattern
}

/// `str::contains` for a string pattern.
pub fn contains_str(s: &str, pattern: &str) -> (r: bool)
    ensures
        r == has_substring(s@, pattern@),
{
    let x = chars_of(s);
    let p = chars_of(pattern);
    let n = x.len();
    let m = p.len();
    if m > n {
        assert forall|i: int| 0 <= i && i + m <= n implies #[trigger] s@.subrange(i, i + m) != pattern@ by {}
        return false;
    }
    let mut i: usize = 0;
    while i <= n - m
        invariant
            n == x.len(),
            m == p.len(),
            m <= n,
            x@ == s@,
            p@ == pattern@,
            i <= n - m + 1,
            forall|k: int| 0 <= k < i ==> #[trigger] s@.subrange(k, k + m) != pattern@,
        decreases n - i,
    {
        let mut j: usize = 0;
        let mut same = true;
        while j < m && same
            invariant
                n == x.len(),
                m == p.len(),
                i + m <= n,
                j <= m,
                same ==> forall|t: int| 0 <= t < j ==> x@[i + t] == p@[t],
                !same ==> j > 0 && x@[i + j - 1] != p@[j - 1],
            decreases m - j, (if same { 1int } else { 0int }),
        {
            if x[i + j] != p[j] {
                same = false;
            }
            j = j + 1;
        }
        if same {
            assert(s@.subrange(i as int, i + m) =~= pattern@);
            return true;
        }
        assert(s@.subrange(i as int, i + m)[j - 1] != pattern@[j - 1]);
        i = i + 1;
    }
    false
}

/// `parts` joined with `sep` between consecutive entries.
pub open spec fn join_spec(parts: Seq<Seq<char>>, sep: Seq<char>) -> Seq<char>
    decreases parts.len(),
{
    if parts.len() == 0 {
        Seq::empty()
    } else if parts.len() == 1 {
        parts[0]
    } else {
        join_spec(parts.drop_last(), sep) + sep + parts.last()
    }
}

/// The strings joined with `sep`; see [`join_spec`].
pub fn join(parts: &Vec<String>, sep: &str) -> (out: String)
    ensures
        out@ == join_spec(parts@.map_values(|s: String| s@), sep@),
{
    let ghost v = parts@.map_values(|s: String| s@);
    let mut out = String::new();
    let n = parts.len();
    for i in 0..n
        invariant
            n == parts.len(),
            v == parts@.map_values(|s: String| s@),
            out@ == join_spec(v.take(i as int), sep@),
    {
        assert(v.take(i + 1).drop_last() =~= v.take(i as int));
        if i > 0 {
            out.append(sep);
        } else {
            assert(out@ =~= Seq::<char>::empty());
        }
        out.append(parts[i].as_str());
        assert(v.take(i + 1).last() == parts[i as int]@);
        if i == 0 {
            assert(out@ =~= v.take(1)[0]);
        }
    }
    assert(v.take(n as int) =~= v);
    out
}

/// The value of an optional string.
pub open spec fn opt_view(o: Option<String>) -> Option<Seq<char>> {
    match o {
        Some(s) => Some(s@),
        None => None,
    }
}

/// The value of an optional borrowed string.
pub open spec fn opt_str_view(o: Option<&str>) -> Option<Seq<char>> {
    match o {
        Some(s) => Some(s@),
        None => None,
    }
}

/// A copy of an optional string.
pub fn clone_option(label: &Option<String>) -> (out: Option<String>)
    ensures
        opt_view(out) == opt_view(*label),
{
    match label {
        Some(l) => Some(owned(l.as_str())),
        None => None,
    }
}


} // verus!
