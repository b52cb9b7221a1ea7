use vstd::prelude::*;
use vstd::string::StringExecFns;
use vstd::utf8::is_ascii_chars;

verus! {

/// Name for what `str::to_lowercase` returns: the Unicode lowercase mapping
/// of a string, which takes the Unicode tables to state.
pub uninterp spec fn unicode_lowercase(s: Seq<char>) -> Seq<char>;

/// Name for what `str::to_uppercase` returns: the Unicode uppercase mapping
/// of a string, which takes the Unicode tables to state.
pub uninterp spec fn unicode_uppercase(s: Seq<char>) -> Seq<char>;

/// `A`..=`Z` mapped to `a`..=`z`; every other character unchanged.
pub open spec fn ascii_lower(c: char) -> char {
    if 'A' <= c && c <= 'Z' {
        ((c as u32) + 32) as char
    } else {
        c
    }
}

/// `a`..=`z` mapped to `A`..=`Z`; every other character unchanged.
pub open spec fn ascii_upper(c: char) -> char {
    if 'a' <= c && c <= 'z' {
        ((c as u32) - 32) as char
    } else {
        c
    }
}

/// Character-wise ASCII lowercasing of a sequence.
pub open spec fn ascii_lower_all(s: Seq<char>) -> Seq<char> {
    Seq::new(s.len(), |i: int| ascii_lower(s[i]))
}

/// Character-wise ASCII uppercasing of a sequence.
pub open spec fn ascii_upper_all(s: Seq<char>) -> Seq<char> {
    Seq::new(s.len(), |i: int| ascii_upper(s[i]))
}

/// What lowercasing gives: for ASCII text `A`..=`Z` become `a`..=`z` and
/// everything else is kept; otherwise the Unicode mapping.
pub open spec fn lowercased(s: Seq<char>) -> Seq<char> {
    if is_ascii_chars(s) {
        ascii_lower_all(s)
    } else {
        unicode_lowercase(s)
    }
}

/// What uppercasing gives: for ASCII text `a`..=`z` become `A`..=`Z` and
/// everything else is kept; otherwise the Unicode mapping.
pub open spec fn uppercased(s: Seq<char>) -> Seq<char> {
    if is_ascii_chars(s) {
        ascii_upper_all(s)
    } else {
        unicode_uppercase(s)
    }
}

/// Calls `str::to_lowercase`. The contract names the result
/// `unicode_lowercase` of the input and, for input made of ASCII characters
/// only, states what the documentation gives for them: `A`..=`Z` become
/// `a`..=`z` one for one and everything else is kept. Nothing is stated of
/// the Unicode tables for other characters.
#[verifier::external_body]
pub(crate) fn to_lowercase(s: &str) -> (r: String)
    ensures
        r@ == unicode_lowercase(s@),
        is_ascii_chars(s@) ==> r@ == ascii_lower_all(s@),
{
    s.to_lowercase()
}

/// Calls `str::to_uppercase`. The contract names the result
/// `unicode_uppercase` of the input and, for input made of ASCII characters
/// only, states what the documentation gives for them: `a`..=`z` become
/// `A`..=`Z` one for one and everything else is kept. Nothing is stated of
/// the Unicode tables for other characters.
#[verifier::external_body]
pub(crate) fn to_uppercase(s: &str) -> (r: String)
    ensures
        r@ == unicode_uppercase(s@),
        is_ascii_chars(s@) ==> r@ == ascii_upper_all(s@),
{
    s.to_uppercase()
}

/// The characters with the Unicode White_Space property, the ones `str::trim`
/// removes: U+0009 to U+000D, the space, U+0085, U+00A0, U+1680, U+2000 to
/// U+200A, U+2028, U+2029, U+202F, U+205F and U+3000.
pub open spec fn is_white_space(c: char) -> bool {
    ||| '\u{9}' <= c && c <= '\u{d}'
    ||| c == ' '
    ||| c == '\u{85}'
    ||| c == '\u{a0}'
    ||| c == '\u{1680}'
    ||| '\u{2000}' <= c && c <= '\u{200a}'
    ||| c == '\u{2028}'
    ||| c == '\u{2029}'
    ||| c == '\u{202f}'
    ||| c == '\u{205f}'
    ||| c == '\u{3000}'
}

/// `s` without its leading white space.
pub open spec fn trim_start(s: Seq<char>) -> Seq<char>
    decreases s.len(),
{
    if s.len() > 0 && is_white_space(s[0]) {
        trim_start(s.drop_first())
    } else {
        s
    }
}

/// `s` without its trailing white space.
pub open spec fn trim_end(s: Seq<char>) -> Seq<char>
    decreases s.len(),
{
    if s.len() > 0 && is_white_space(s.last()) {
        trim_end(s.drop_last())
    } else {
        s
    }
}

/// `s` without leading and trailing white space.
pub open spec fn trimmed(s: Seq<char>) -> Seq<char> {
    trim_end(trim_start(s))
}

/// Calls `str::trim`, which, as documented, removes leading and trailing
/// characters with the Unicode White_Space property.
#[verifier::external_body]
pub(crate) fn trim(s: &str) -> (r: &str)
    ensures
        r@ == trimmed(s@),
{
    s.trim()
}

/// Calls `String::push`, which appends one character at the end.
#[verifier::external_body]
pub(crate) fn push_char(s: &mut String, c: char)
    ensures
        final(s)@ == old(s)@.push(c),
{
    s.push(c)
}

/// The characters of a string, in order.
pub(crate) fn chars_of(s: &str) -> (v: Vec<char>)
    ensures
        v@ == s@,
{
    let mut v: Vec<char> = Vec::new();
    for c in it: s.chars()
        invariant
            v@ == it.seq().take(it.index()),
            it.seq() == s@,
    {
        v.push(c);
    }
    v
}

/// The decimal digit character for `d < 10`.
pub open spec fn digit_char(d: nat) -> char {
    ((48 + d) as u32) as char
}

/// Decimal notation of a natural number, without leading zeros.
pub open spec fn decimal(n: nat) -> Seq<char>
    decreases n,
{
    if n < 10 {
        seq![digit_char(n)]
    } else {
        decimal(n / 10).push(digit_char(n % 10))
    }
}

/// Decimal notation of `n`, as `format!("{}", n)` writes a `usize`.
pub(crate) fn usize_to_decimal(n: usize) -> (r: String)
    ensures
        r@ == decimal(n as nat),
    decreases n,
{
    if n < 10 {
        let mut s = String::new();
        push_char(&mut s, (48u8 + n as u8) as char);
        s
    } else {
        let mut s = usize_to_decimal(n / 10);
        push_char(&mut s, (48u8 + (n % 10) as u8) as char);
        s
    }
}

/// `prefix`, then `middle`, then `suffix`.
pub(crate) fn concat3(prefix: &str, middle: &str, suffix: &str) -> (r: String)
    ensures
        r@ == prefix@ + middle@ + suffix@,
{
    let mut s = String::from_str(prefix);
    s.append(middle);
    s.append(suffix);
    s
}

} // verus!
