//! Language rules for the per-entry pipeline: when a title is worth sending
//! to the translation engine.
//!
//! A title is translated only when it is non-blank, contains no CJK code
//! point, has at least one ASCII letter, and ASCII letters make up at least
//! six tenths of its letters.
use vstd::prelude::*;

use crate::charops::alpha_of;
use crate::charops::char_is_alpha;
use crate::charops::char_is_space;
use crate::charops::is_ascii_letter;
use crate::charops::space_of;
use crate::charops::str_to_chars;

verus! {

/// The CJK ranges of Unicode: the unified ideographs, their extensions and
/// the compatibility ideographs.
pub open spec fn is_cjk(c: char) -> bool {
    let v = c as u32;
    (0x4E00 <= v && v <= 0x9FFF) || (0x3400 <= v && v <= 0x4DBF) || (0x20000 <= v && v
        <= 0x2A6DF) || (0x2A700 <= v && v <= 0x2B73F) || (0x2B740 <= v && v <= 0x2B81F) || (
    0x2B820 <= v && v <= 0x2CEAF) || (0xF900 <= v && v <= 0xFAFF) || (0x2F800 <= v && v
        <= 0x2FA1F)
}

pub open spec fn spec_contains_cjk(s: Seq<char>) -> bool {
    exists|i: int| 0 <= i < s.len() && is_cjk(s[i])
}

pub open spec fn spec_is_blank(s: Seq<char>) -> bool {
    forall|i: int| 0 <= i < s.len() ==> space_of(s[i])
}

/// How many characters of `s` satisfy `p`.
pub open spec fn count_pred(s: Seq<char>, p: spec_fn(char) -> bool) -> nat
    decreases s.len(),
{
    if s.len() == 0 {
        0
    } else {
        count_pred(s.drop_last(), p) + (if p(s.last()) {
            1nat
        } else {
            0nat
        })
    }
}

pub open spec fn ascii_letter_pred() -> spec_fn(char) -> bool {
    |c: char| is_ascii_letter(c)
}

pub open spec fn letter_pred() -> spec_fn(char) -> bool {
    |c: char| alpha_of(c)
}

/// Whether a title qualifies for translation: non-blank, no CJK, at least
/// one ASCII letter, and an ASCII share of at least 0.6 among its letters.
pub open spec fn spec_should_translate(s: Seq<char>) -> bool {
    let ascii = count_pred(s, ascii_letter_pred());
    let letters = count_pred(s, letter_pred());
    &&& !spec_is_blank(s)
    &&& !spec_contains_cjk(s)
    &&& letters > 0
    &&& ascii > 0
    &&& 5 * ascii >= 3 * letters
}

pub fn contains_cjk(value: &str) -> (r: bool)
    ensures
        r == spec_contains_cjk(value@),
{
    let v = str_to_chars(value);
    let n = v.len();
    let mut i: usize = 0;
    while i < n
        invariant
            i <= n,
            n == v@.len(),
            v@ == value@,
            forall|j: int| 0 <= j < i ==> !is_cjk(v@[j]),
        decreases n - i,
    {
        let code = v[i] as u32;
        let hit = (0x4E00 <= code && code <= 0x9FFF) || (0x3400 <= code && code <= 0x4DBF) || (
        0x20000 <= code && code <= 0x2A6DF) || (0x2A700 <= code && code <= 0x2B73F) || (0x2B740
            <= code && code <= 0x2B81F) || (0x2B820 <= code && code <= 0x2CEAF) || (0xF900 <= code
            && code <= 0xFAFF) || (0x2F800 <= code && code <= 0x2FA1F);
        if hit {
            return true;
        }
        i += 1;
    }
    false
}

fn is_blank(v: &Vec<char>) -> (r: bool)
    ensures
        r == spec_is_blank(v@),
{
    let n = v.len();
    let mut i: usize = 0;
    while i < n
        invariant
            i <= n,
            n == v@.len(),
            forall|j: int| 0 <= j < i ==> space_of(v@[j]),
        decreases n - i,
    {
        if !char_is_space(v[i]) {
            return false;
        }
        i += 1;
    }
    true
}

fn char_is_ascii_letter(c: char) -> (r: bool)
    ensures
        r == is_ascii_letter(c),
{
    let code = c as u32;
    (97 <= code && code <= 122) || (65 <= code && code <= 90)
}

/// Decide whether a title should be translated before deduplication.
pub fn should_translate_title(title: &str) -> (r: bool)
    ensures
        r == spec_should_translate(title@),
{
    let v = str_to_chars(title);
    if is_blank(&v) {
        return false;
    }
    if contains_cjk(title) {
        return false;
    }
    let n = v.len();
    let mut ascii: usize = 0;
    let mut letters: usize = 0;
    let mut i: usize = 0;
    while i < n
        invariant
            i <= n,
            n == v@.len(),
            ascii == count_pred(v@.take(i as int), ascii_letter_pred()),
            letters == count_pred(v@.take(i as int), letter_pred()),
            ascii <= i,
            letters <= i,
        decreases n - i,
    {
        let c = v[i];
        proof {
            assert(v@.take(i + 1 as int).drop_last() =~= v@.take(i as int));
            assert(v@.take(i + 1 as int).last() == v@[i as int]);
            assert(ascii_letter_pred()(v@[i as int]) == is_ascii_letter(v@[i as int]));
            assert(letter_pred()(v@[i as int]) == alpha_of(v@[i as int]));
        }
        if char_is_ascii_letter(c) {
            ascii += 1;
            letters += 1;
            proof {
                assert(alpha_of(c));
            }
        } else if char_is_alpha(c) {
            letters += 1;
        }
        i += 1;
    }
    proof {
        assert(v@.take(n as int) =~= v@);
    }
    if letters == 0 {
        return false;
    }
    if ascii == 0 {
        return false;
    }
    let a128: u128 = 5u128 * (ascii as u128);
    let l128: u128 = 3u128 * (letters as u128);
    a128 >= l128
}

} // verus!
