//! Unicode case mapping and character classes, taken from the standard
//! library; their tables are named here, not restated, and only their ASCII
//! part is spelled out.

use vstd::prelude::*;

verus! {

/// What `str::to_lowercase` returns for a string: the Unicode lowercase
/// mapping of each character, with the context rule for a final sigma.
pub uninterp spec fn spec_to_lowercase(s: Seq<char>) -> Seq<char>;

/// What `str::to_uppercase` returns for a string (Unicode uppercase mapping).
pub uninterp spec fn spec_to_uppercase(s: Seq<char>) -> Seq<char>;

/// The characters that `char::to_lowercase` yields for `c` (one to three).
pub uninterp spec fn spec_char_to_lowercase(c: char) -> Seq<char>;

/// Whether `c` is alphabetic or numeric in the sense of `char::is_alphanumeric`.
pub uninterp spec fn spec_is_alphanumeric(c: char) -> bool;

/// Whether every character of `s` is ASCII.
pub open spec fn is_ascii(s: Seq<char>) -> bool {
    forall|i: int| 0 <= i < s.len() ==> (#[trigger] s[i] as u32) < 128
}

/// ASCII lowercase of `c`: `A`-`Z` become `a`-`z`, all else stays.
pub open spec fn ascii_lower_char(c: char) -> char {
    if 'A' <= c && c <= 'Z' {
        ((c as u32) + 32) as char
    } else {
        c
    }
}

/// ASCII uppercase of `c`: `a`-`z` become `A`-`Z`, all else stays.
pub open spec fn ascii_upper_char(c: char) -> char {
    if 'a' <= c && c <= 'z' {
        ((c as u32) - 32) as char
    } else {
        c
    }
}

/// `s` with each character mapped by `ascii_lower_char`.
pub open spec fn ascii_lower(s: Seq<char>) -> Seq<char> {
    Seq::new(s.len(), |i: int| ascii_lower_char(s[i]))
}

/// `s` with each character mapped by `ascii_upper_char`.
pub open spec fn ascii_upper(s: Seq<char>) -> Seq<char> {
    Seq::new(s.len(), |i: int| ascii_upper_char(s[i]))
}

/// Whether `c` is an ASCII letter or digit.
pub open spec fn is_ascii_alnum(c: char) -> bool {
    ('a' <= c && c <= 'z') || ('A' <= c && c <= 'Z') || ('0' <= c && c <= '9')
}

/// What `str::to_lowercase` returns: on ASCII text, each letter lowercased
/// one for one; on any other text, the named Unicode mapping.
pub open spec fn lowercase(s: Seq<char>) -> Seq<char> {
    if is_ascii(s) {
        ascii_lower(s)
    } else {
        spec_to_lowercase(s)
    }
}

/// What `str::to_uppercase` returns: on ASCII text, each letter uppercased
/// one for one; on any other text, the named Unicode mapping.
pub open spec fn uppercase(s: Seq<char>) -> Seq<char> {
    if is_ascii(s) {
        ascii_upper(s)
    } else {
        spec_to_uppercase(s)
    }
}

/// What `char::to_lowercase` yields: for an ASCII character its one ASCII
/// lowercase, otherwise the named mapping.
pub open spec fn char_lowercase(c: char) -> Seq<char> {
    if (c as u32) < 128 {
        seq![ascii_lower_char(c)]
    } else {
        spec_char_to_lowercase(c)
    }
}

/// What `char::is_alphanumeric` answers: for an ASCII character, whether it
/// is a letter or a digit, otherwise the named class.
pub open spec fn alphanumeric(c: char) -> bool {
    if (c as u32) < 128 {
        is_ascii_alnum(c)
    } else {
        spec_is_alphanumeric(c)
    }
}

/// Calls `str::to_lowercase` on the string made of `s`: the result is the
/// named Unicode lowercase mapping of `s`, which on ASCII text lowercases
/// each letter one for one (the documented ASCII subset of the mapping).
#[verifier::external_body]
pub fn to_lowercase(s: &Vec<char>) -> (r: Vec<char>)
    ensures
        r@ == spec_to_lowercase(s@),
        r@ == lowercase(s@),
{
    let text: String = s.iter().collect();
    text.to_lowercase().chars().collect()
}

/// Calls `str::to_uppercase` on the string made of `s`: the result is the
/// named Unicode uppercase mapping of `s`, which on ASCII text uppercases
/// each letter one for one.
#[verifier::external_body]
pub fn to_uppercase(s: &Vec<char>) -> (r: Vec<char>)
    ensures
        r@ == spec_to_uppercase(s@),
        r@ == uppercase(s@),
{
    let text: String = s.iter().collect();
    text.to_uppercase().chars().collect()
}

/// Calls `char::to_lowercase`: the characters it yields are the named
/// lowercase mapping of `c`, a single ASCII lowercase for an ASCII `c`.
#[verifier::external_body]
pub fn char_to_lowercase(c: char) -> (r: Vec<char>)
    ensures
        r@ == spec_char_to_lowercase(c),
        r@ == char_lowercase(c),
{
    c.to_lowercase().collect()
}

/// Calls `char::is_alphanumeric`: the answer is the named class of `c`,
/// which for an ASCII `c` holds exactly of letters and digits.
#[verifier::external_body]
pub fn is_alphanumeric(c: char) -> (b: bool)
    ensures
        b == spec_is_alphanumeric(c),
        b == alphanumeric(c),
{
    c.is_alphanumeric()
}

/// Collects the characters of `v` into a `String` (`FromIterator<char>`):
/// the string holds exactly those characters, in order.
#[verifier::external_body]
pub fn string_from_chars(v: &Vec<char>) -> (s: String)
    ensures
        s@ == v@,
{
    v.iter().collect()
}

} // verus!
