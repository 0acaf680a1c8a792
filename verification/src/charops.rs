//! Character classification and string building helpers.
//!
//! Unicode classification and case mapping live in std; outside the ASCII
//! range their behaviour is table-driven, so it is named by uninterpreted
//! spec functions. Within ASCII the tables are small and documented, and the
//! spec functions below state them concretely.
use vstd::prelude::*;

verus! {

/// What `char::is_alphanumeric` returns for a non-ASCII character.
pub uninterp spec fn spec_alnum_nonascii(c: char) -> bool;

/// What `char::is_whitespace` returns for a non-ASCII character.
pub uninterp spec fn spec_space_nonascii(c: char) -> bool;

/// What `char::to_lowercase` yields for a non-ASCII character.
pub uninterp spec fn spec_lower_nonascii(c: char) -> Seq<char>;

/// What `char::is_alphabetic` returns for a non-ASCII character.
pub uninterp spec fn spec_alpha_nonascii(c: char) -> bool;

pub open spec fn is_ascii_char(c: char) -> bool {
    (c as u32) < 128
}

pub open spec fn is_ascii_letter(c: char) -> bool {
    ('a' <= c && c <= 'z') || ('A' <= c && c <= 'Z')
}

pub open spec fn is_ascii_digit_char(c: char) -> bool {
    '0' <= c && c <= '9'
}

/// ASCII lowercase of a single character; identity outside 'A'..='Z'.
pub open spec fn ascii_lower(c: char) -> char {
    if 'A' <= c && c <= 'Z' {
        ((c as u32) + 32) as char
    } else {
        c
    }
}

/// What `char::is_alphanumeric` returns: within ASCII, the letters and
/// digits; beyond, the Unicode Alphabetic and Nd/Nl/No characters.
pub open spec fn alnum_of(c: char) -> bool {
    if is_ascii_char(c) {
        is_ascii_letter(c) || is_ascii_digit_char(c)
    } else {
        spec_alnum_nonascii(c)
    }
}

/// What `char::is_whitespace` returns: within ASCII, space, tab, line feed,
/// vertical tab, form feed and carriage return; beyond, Unicode White_Space.
pub open spec fn space_of(c: char) -> bool {
    if is_ascii_char(c) {
        c == ' ' || c == '\t' || c == '\n' || c == '\r' || c == '\u{b}' || c == '\u{c}'
    } else {
        spec_space_nonascii(c)
    }
}

/// What `char::to_lowercase` yields: within ASCII, the single ASCII
/// lowercase character; beyond, the Unicode lowercase mapping.
pub open spec fn lower_of(c: char) -> Seq<char> {
    if is_ascii_char(c) {
        seq![ascii_lower(c)]
    } else {
        spec_lower_nonascii(c)
    }
}

/// What `char::is_alphabetic` returns: within ASCII, the letters; beyond,
/// Unicode Alphabetic.
pub open spec fn alpha_of(c: char) -> bool {
    if is_ascii_char(c) {
        is_ascii_letter(c)
    } else {
        spec_alpha_nonascii(c)
    }
}

/// Relies on char::is_alphanumeric of std.
#[verifier::external_body]
pub fn char_is_alnum(c: char) -> (r: bool)
    ensures
        r == alnum_of(c),
        !is_ascii_char(c) ==> r == spec_alnum_nonascii(c),
{
    c.is_alphanumeric()
}

/// Relies on char::is_whitespace of std.
#[verifier::external_body]
pub fn char_is_space(c: char) -> (r: bool)
    ensures
        r == space_of(c),
        !is_ascii_char(c) ==> r == spec_space_nonascii(c),
{
    c.is_whitespace()
}

/// Relies on char::to_lowercase of std: when no mapping exists the iterator
/// yields the character itself, so the result is never empty.
#[verifier::external_body]
pub fn char_to_lower(c: char) -> (r: Vec<char>)
    ensures
        r@ == lower_of(c),
        !is_ascii_char(c) ==> r@ == spec_lower_nonascii(c),
        r@.len() >= 1,
{
    c.to_lowercase().collect()
}

/// Relies on char::is_alphabetic of std.
#[verifier::external_body]
pub fn char_is_alpha(c: char) -> (r: bool)
    ensures
        r == alpha_of(c),
        !is_ascii_char(c) ==> r == spec_alpha_nonascii(c),
{
    c.is_alphabetic()
}

/// Whether a code point is a Unicode scalar value, the domain of `char`.
pub open spec fn is_scalar_value(v: int) -> bool {
    (0 <= v < 0xD800) || (0xE000 <= v <= 0x10FFFF)
}

/// Relies on char::from_u32: Some exactly for Unicode scalar values (not a
/// surrogate and at most 0x10FFFF), holding the character with that code.
#[verifier::external_body]
pub fn u32_to_char(v: u32) -> (r: Option<char>)
    ensures
        (r is Some) <==> is_scalar_value(v as int),
        r is Some ==> (r->0 as u32) == v,
{
    char::from_u32(v)
}

/// Relies on String::from_iter over chars: the string holds exactly the
/// given characters in order.
#[verifier::external_body]
pub fn chars_to_string(v: &Vec<char>) -> (s: String)
    ensures
        s@ == v@,
{
    v.iter().collect()
}

/// Collect the characters of a string slice into a vector.
pub fn str_to_chars(s: &str) -> (v: Vec<char>)
    ensures
        v@ == s@,
{
    let n = s.unicode_len();
    let mut v: Vec<char> = Vec::new();
    let mut i: usize = 0;
    while i < n
        invariant
            n == s@.len(),
            i <= n,
            v@ == s@.take(i as int),
        decreases n - i,
    {
        v.push(s.get_char(i));
        i += 1;
        proof {
            assert(v@ =~= s@.take(i as int));
        }
    }
    proof {
        assert(s@.take(n as int) =~= s@);
    }
    v
}


/// Whether two string slices hold the same characters.
pub fn str_eq(a: &str, b: &str) -> (r: bool)
    ensures
        r == (a@ == b@),
{
    let na = a.unicode_len();
    let nb = b.unicode_len();
    if na != nb {
        return false;
    }
    let mut i: usize = 0;
    while i < na
        invariant
            i <= na,
            na == a@.len(),
            na == b@.len(),
            forall|j: int| 0 <= j < i ==> a@[j] == b@[j],
        decreases na - i,
    {
        if a.get_char(i) != b.get_char(i) {
            return false;
        }
        i += 1;
    }
    proof {
        assert(a@ =~= b@);
    }
    true
}
} // verus!
