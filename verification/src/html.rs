//! A small HTML cleaner for feed summaries, and a minimal entity decoder.
//!
//! The cleaner removes `<script>` and `<style>` blocks (case-insensitive,
//! and to the end of input when unterminated), strips remaining tags by
//! discarding characters between `<` and the next `>`, collapses whitespace
//! runs to a single space and trims the ends. The decoder handles the named
//! entities `amp`, `lt`, `gt`, `quot` and `apos` and numeric `&#N;` and
//! `&#xH;` references; anything else is copied through unchanged.
use vstd::prelude::*;

use crate::charops::ascii_lower;
use crate::charops::char_is_space;
use crate::charops::chars_to_string;
use crate::charops::is_scalar_value;
use crate::charops::space_of;
use crate::charops::str_to_chars;
use crate::charops::u32_to_char;
use crate::text::spec_trim_spaces;
use crate::text::trim_spaces;

verus! {

/// Whether `pat` (already lowercase) matches at the start of `s`,
/// comparing ASCII case-insensitively.
pub open spec fn prefix_matches_ci(s: Seq<char>, pat: Seq<char>) -> bool {
    s.len() >= pat.len() && forall|k: int| 0 <= k < pat.len() ==> ascii_lower(s[k]) == pat[k]
}

/// The first position of a case-insensitive match of `pat` in `s`;
/// `s.len()` when there is none.
pub open spec fn first_ci_match(s: Seq<char>, pat: Seq<char>) -> int
    decreases s.len(),
{
    if s.len() == 0 {
        0
    } else if prefix_matches_ci(s, pat) {
        0
    } else {
        1 + first_ci_match(s.drop_first(), pat)
    }
}

pub proof fn lemma_first_ci_match_props(s: Seq<char>, pat: Seq<char>)
    requires
        pat.len() > 0,
    ensures
        0 <= first_ci_match(s, pat) <= s.len(),
        first_ci_match(s, pat) < s.len() ==> prefix_matches_ci(
            s.skip(first_ci_match(s, pat)),
            pat,
        ),
        forall|j: int|
            0 <= j < first_ci_match(s, pat) ==> !prefix_matches_ci(#[trigger] s.skip(j), pat),
    decreases s.len(),
{
    if s.len() == 0 {
    } else if prefix_matches_ci(s, pat) {
        assert(s.skip(0) =~= s);
    } else {
        lemma_first_ci_match_props(s.drop_first(), pat);
        let p = first_ci_match(s.drop_first(), pat);
        if p < s.drop_first().len() {
            assert(s.drop_first().skip(p) =~= s.skip(p + 1));
        }
        assert(s.skip(0) =~= s);
        assert forall|j: int| 0 < j < 1 + p implies !prefix_matches_ci(
            #[trigger] s.skip(j),
            pat,
        ) by {
            assert(s.drop_first().skip(j - 1) =~= s.skip(j));
        }
    }
}

/// Repeatedly remove `open .. close` blocks (case-insensitive). An opening
/// tag with no closing tag removes everything to the end of input.
#[via_fn]
proof fn remove_blocks_decreases(s: Seq<char>, open: Seq<char>, close: Seq<char>) {
    if open.len() > 0 && close.len() > 0 {
        lemma_first_ci_match_props(s, open);
        let p = first_ci_match(s, open);
        if p < s.len() {
            let rest = s.skip(p);
            lemma_first_ci_match_props(rest, close);
            let q = first_ci_match(rest, close);
            if q < rest.len() {
                assert(rest.skip(q).len() >= close.len());
            }
        }
    }
}

pub open spec fn remove_blocks(s: Seq<char>, open: Seq<char>, close: Seq<char>) -> Seq<char>
    recommends
        open.len() > 0,
        close.len() > 0,
    decreases s.len(),
    via remove_blocks_decreases
{
    if open.len() == 0 || close.len() == 0 {
        s
    } else {
    let p = first_ci_match(s, open);
    if p >= s.len() {
        s
    } else {
        let rest = s.skip(p);
        let q = first_ci_match(rest, close);
        if q >= rest.len() {
            s.take(p)
        } else {
            remove_blocks(s.take(p) + rest.skip(q + close.len()), open, close)
        }
    }
    }
}

/// Strip tags: discard every character between `<` and the next `>`.
/// State is (output, inside-tag flag).
pub open spec fn spec_strip_step(acc: (Seq<char>, bool), c: char) -> (Seq<char>, bool) {
    if c == '<' {
        (acc.0, true)
    } else if c == '>' {
        (acc.0, false)
    } else if !acc.1 {
        (acc.0.push(c), false)
    } else {
        acc
    }
}

pub open spec fn spec_strip_tags(s: Seq<char>) -> (Seq<char>, bool)
    decreases s.len(),
{
    if s.len() == 0 {
        (Seq::<char>::empty(), false)
    } else {
        spec_strip_step(spec_strip_tags(s.drop_last()), s.last())
    }
}

/// Collapse whitespace runs to a single space. State is (output, whether the
/// last written character was a collapsed space).
pub open spec fn spec_collapse_step(acc: (Seq<char>, bool), c: char) -> (Seq<char>, bool) {
    if space_of(c) {
        if !acc.1 {
            (acc.0.push(' '), true)
        } else {
            acc
        }
    } else {
        (acc.0.push(c), false)
    }
}

pub open spec fn spec_collapse_ws(s: Seq<char>) -> (Seq<char>, bool)
    decreases s.len(),
{
    if s.len() == 0 {
        (Seq::<char>::empty(), false)
    } else {
        spec_collapse_step(spec_collapse_ws(s.drop_last()), s.last())
    }
}

pub open spec fn script_open() -> Seq<char> {
    seq!['<', 's', 'c', 'r', 'i', 'p', 't']
}

pub open spec fn script_close() -> Seq<char> {
    seq!['<', '/', 's', 'c', 'r', 'i', 'p', 't', '>']
}

pub open spec fn style_open() -> Seq<char> {
    seq!['<', 's', 't', 'y', 'l', 'e']
}

pub open spec fn style_close() -> Seq<char> {
    seq!['<', '/', 's', 't', 'y', 'l', 'e', '>']
}

/// The whole cleaning pass over a summary.
pub open spec fn spec_strip_html(s: Seq<char>) -> Seq<char> {
    let no_script = remove_blocks(s, script_open(), script_close());
    let no_style = remove_blocks(no_script, style_open(), style_close());
    spec_trim_spaces(spec_collapse_ws(spec_strip_tags(no_style).0).0)
}

pub(crate) fn lower_ascii_char(c: char) -> (r: char)
    ensures
        r == ascii_lower(c),
{
    let code = c as u32;
    if 65 <= code && code <= 90 {
        let low = u32_to_char(code + 32);
        match low {
            Some(l) => {
                proof {
                    vstd::utf8::char_u32_cast(l, (code + 32) as u32);
                }
                l
            },
            None => c,
        }
    } else {
        c
    }
}


/// The value of a digit in the given radix, or -1 when it is none.
pub open spec fn spec_digit(c: char, radix: int) -> int {
    let v = if '0' <= c && c <= '9' {
        c as int - '0' as int
    } else if 'a' <= c && c <= 'f' {
        10 + c as int - 'a' as int
    } else if 'A' <= c && c <= 'F' {
        10 + c as int - 'A' as int
    } else {
        -1
    };
    if 0 <= v < radix {
        v
    } else {
        -1
    }
}

/// The numeric value of a digit string, most significant digit first.
pub open spec fn spec_digits_val(s: Seq<char>, radix: int) -> int
    decreases s.len(),
{
    if s.len() == 0 {
        0
    } else {
        spec_digits_val(s.drop_last(), radix) * radix + spec_digit(s.last(), radix)
    }
}

pub open spec fn all_digits(s: Seq<char>, radix: int) -> bool {
    forall|k: int| 0 <= k < s.len() ==> spec_digit(s[k], radix) >= 0
}

/// A numeric entity body parses when it is a non-empty digit string whose
/// value fits in 32 bits.
pub open spec fn spec_parse_num(s: Seq<char>, radix: int) -> Option<int> {
    if s.len() > 0 && all_digits(s, radix) && spec_digits_val(s, radix) <= 0xFFFF_FFFF {
        Some(spec_digits_val(s, radix))
    } else {
        None
    }
}

/// What a `&...;` entity body (without `&` and `;`) decodes to, if anything.
pub open spec fn spec_decode_entity(body: Seq<char>) -> Option<char> {
    if body == seq!['a', 'm', 'p'] {
        Some('&')
    } else if body == seq!['l', 't'] {
        Some('<')
    } else if body == seq!['g', 't'] {
        Some('>')
    } else if body == seq!['q', 'u', 'o', 't'] {
        Some('"')
    } else if body == seq!['a', 'p', 'o', 's'] {
        Some('\'')
    } else if body.len() >= 2 && body[0] == '#' && body[1] == 'x' {
        match spec_parse_num(body.skip(2), 16) {
            Some(v) => if is_scalar_value(v) {
                Some(((v as u32) as char))
            } else {
                None
            },
            None => None,
        }
    } else if body.len() >= 1 && body[0] == '#' {
        match spec_parse_num(body.skip(1), 10) {
            Some(v) => if is_scalar_value(v) {
                Some(((v as u32) as char))
            } else {
                None
            },
            None => None,
        }
    } else {
        None
    }
}

/// The position of the first ';' in `s`, or `s.len()` when there is none.
pub open spec fn first_semi(s: Seq<char>) -> int
    decreases s.len(),
{
    if s.len() == 0 {
        0
    } else if s.first() == ';' {
        0
    } else {
        1 + first_semi(s.drop_first())
    }
}

proof fn lemma_first_semi_at(s: Seq<char>, k: int)
    requires
        0 <= k <= s.len(),
        forall|j: int| 0 <= j < k ==> s[j] != ';',
        k < s.len() ==> s[k] == ';',
    ensures
        first_semi(s) == k,
    decreases k,
{
    if k == 0 {
    } else {
        lemma_first_semi_at(s.drop_first(), k - 1);
    }
}

#[via_fn]
proof fn spec_unescape_decreases(s: Seq<char>) {
    if s.len() > 0 && s.first() == '&' {
        lemma_first_semi_at_props(s.drop_first());
    }
}

proof fn lemma_first_semi_at_props(s: Seq<char>)
    ensures
        0 <= first_semi(s) <= s.len(),
    decreases s.len(),
{
    if s.len() > 0 && s.first() != ';' {
        lemma_first_semi_at_props(s.drop_first());
    }
}

/// Minimal entity decoding: at each '&' whose entity up to the next ';'
/// decodes, the decoded character replaces it; otherwise characters are
/// copied unchanged.
pub open spec fn spec_unescape(s: Seq<char>) -> Seq<char>
    decreases s.len(),
    via spec_unescape_decreases
{
    if s.len() == 0 {
        Seq::<char>::empty()
    } else if s.first() == '&' {
        let k = first_semi(s.drop_first());
        if k < s.len() - 1 {
            let body = s.subrange(1, 1 + k);
            match spec_decode_entity(body) {
                Some(c) => seq![c] + spec_unescape(s.skip(k + 2)),
                None => seq![s.first()] + spec_unescape(s.drop_first()),
            }
        } else {
            seq![s.first()] + spec_unescape(s.drop_first())
        }
    } else {
        seq![s.first()] + spec_unescape(s.drop_first())
    }
}

fn digit_val(c: char, radix: u32) -> (r: i32)
    requires
        radix == 10 || radix == 16,
    ensures
        r as int == spec_digit(c, radix as int),
        -1 <= r < radix,
{
    let code = c as u32;
    let v: i32 = if 48 <= code && code <= 57 {
        (code - 48) as i32
    } else if 97 <= code && code <= 102 {
        (code - 87) as i32
    } else if 65 <= code && code <= 70 {
        (code - 55) as i32
    } else {
        -1
    };
    if 0 <= v && (v as u32) < radix {
        v
    } else {
        -1
    }
}

proof fn lemma_digits_val_monotone(s: Seq<char>, i: int, radix: int)
    requires
        2 <= radix,
        0 <= i <= s.len(),
        all_digits(s, radix),
    ensures
        spec_digits_val(s.take(i), radix) <= spec_digits_val(s, radix),
        spec_digits_val(s, radix) >= 0,
    decreases s.len() - i,
{
    if i == s.len() {
        assert(s.take(i) =~= s);
        lemma_digits_val_nonneg(s, radix);
    } else {
        lemma_digits_val_monotone(s, i + 1, radix);
        let a = spec_digits_val(s.take(i), radix);
        let d = spec_digit(s[i], radix);
        assert(s.take(i + 1).drop_last() =~= s.take(i));
        assert(s.take(i + 1).last() == s[i]);
        lemma_digits_val_nonneg(s.take(i), radix);
        assert(a * radix + d >= a) by (nonlinear_arith)
            requires
                a >= 0,
                radix >= 2,
                d >= 0,
        ;
    }
}

proof fn lemma_digits_val_nonneg(s: Seq<char>, radix: int)
    requires
        all_digits(s, radix),
        2 <= radix,
    ensures
        spec_digits_val(s, radix) >= 0,
    decreases s.len(),
{
    if s.len() > 0 {
        assert(all_digits(s.drop_last(), radix));
        lemma_digits_val_nonneg(s.drop_last(), radix);
        let a = spec_digits_val(s.drop_last(), radix);
        let d = spec_digit(s.last(), radix);
        assert(a * radix + d >= 0) by (nonlinear_arith)
            requires
                a >= 0,
                radix >= 2,
                d >= 0,
        ;
    }
}

/// Parse the digits of `v[start..end]` in the given radix; None when a
/// character is no digit or the value does not fit in 32 bits.
pub(crate) fn parse_num(v: &Vec<char>, start: usize, end: usize, radix: u32) -> (r: Option<u32>)
    requires
        start <= end <= v@.len(),
        radix == 10 || radix == 16,
    ensures
        ({
            let s = v@.subrange(start as int, end as int);
            match r {
                Some(val) => spec_parse_num(s, radix as int) == Some(val as int),
                None => spec_parse_num(s, radix as int) is None,
            }
        }),
{
    let ghost s = v@.subrange(start as int, end as int);
    if start == end {
        return None;
    }
    let mut acc: u64 = 0;
    let mut over: bool = false;
    let mut k: usize = start;
    while k < end
        invariant
            start <= k <= end <= v@.len(),
            radix == 10 || radix == 16,
            s == v@.subrange(start as int, end as int),
            all_digits(s.take(k - start), radix as int),
            !over ==> acc as int == spec_digits_val(s.take(k - start), radix as int),
            !over ==> acc <= 0xFFFF_FFFF,
            over ==> spec_digits_val(s.take(k - start), radix as int) > 0xFFFF_FFFF,
        decreases end - k,
    {
        let d = digit_val(v[k], radix);
        proof {
            assert(s[k - start] == v@[k as int]);
            assert(s.take(k + 1 - start).drop_last() =~= s.take(k - start));
            assert(s.take(k + 1 - start).last() == s[k - start]);
        }
        if d < 0 {
            return None;
        }
        if !over {
            proof {
                assert((acc as int) * (radix as int) + d <= 0xFFFF_FFFF * 16 + 15)
                    by (nonlinear_arith)
                    requires
                        acc <= 0xFFFF_FFFF,
                        radix <= 16,
                        d <= 15,
                ;
            }
            let next: u64 = acc * (radix as u64) + (d as u64);
            if next > 0xFFFF_FFFF {
                over = true;
                proof {
                    lemma_digits_val_nonneg(s.take(k - start), radix as int);
                }
            } else {
                acc = next;
            }
        } else {
            proof {
                let a = spec_digits_val(s.take(k - start), radix as int);
                assert(a * (radix as int) + d > 0xFFFF_FFFF) by (nonlinear_arith)
                    requires
                        a > 0xFFFF_FFFF,
                        radix >= 2,
                        d >= 0,
                ;
            }
        }
        k += 1;
    }
    proof {
        assert(s.take(end - start) =~= s);
    }
    if over {
        None
    } else {
        Some(acc as u32)
    }
}

/// Decode the entity body `v[start..end]` (between '&' and ';').
fn decode_entity(v: &Vec<char>, start: usize, end: usize) -> (r: Option<char>)
    requires
        start <= end <= v@.len(),
    ensures
        r == spec_decode_entity(v@.subrange(start as int, end as int)),
{
    let ghost body = v@.subrange(start as int, end as int);
    let n = end - start;
    if n == 3 && v[start] == 'a' && v[start + 1] == 'm' && v[start + 2] == 'p' {
        proof {
            assert(body =~= seq!['a', 'm', 'p']);
        }
        return Some('&');
    }
    if n == 2 && v[start] == 'l' && v[start + 1] == 't' {
        proof {
            assert(body =~= seq!['l', 't']);
        }
        return Some('<');
    }
    if n == 2 && v[start] == 'g' && v[start + 1] == 't' {
        proof {
            assert(body =~= seq!['g', 't']);
        }
        return Some('>');
    }
    if n == 4 && v[start] == 'q' && v[start + 1] == 'u' && v[start + 2] == 'o' && v[start + 3]
        == 't' {
        proof {
            assert(body =~= seq!['q', 'u', 'o', 't']);
        }
        return Some('"');
    }
    if n == 4 && v[start] == 'a' && v[start + 1] == 'p' && v[start + 2] == 'o' && v[start + 3]
        == 's' {
        proof {
            assert(body =~= seq!['a', 'p', 'o', 's']);
        }
        return Some('\'');
    }
    proof {
        assert(body != seq!['a', 'm', 'p'] && body != seq!['l', 't'] && body != seq!['g', 't']
            && body != seq!['q', 'u', 'o', 't'] && body != seq!['a', 'p', 'o', 's']) by {
            if body == seq!['a', 'm', 'p'] {
                assert(body.len() == 3 && body[0] == 'a' && body[1] == 'm' && body[2] == 'p');
            }
            if body == seq!['l', 't'] {
                assert(body.len() == 2 && body[0] == 'l' && body[1] == 't');
            }
            if body == seq!['g', 't'] {
                assert(body.len() == 2 && body[0] == 'g' && body[1] == 't');
            }
            if body == seq!['q', 'u', 'o', 't'] {
                assert(body.len() == 4 && body[0] == 'q' && body[1] == 'u' && body[2] == 'o'
                    && body[3] == 't');
            }
            if body == seq!['a', 'p', 'o', 's'] {
                assert(body.len() == 4 && body[0] == 'a' && body[1] == 'p' && body[2] == 'o'
                    && body[3] == 's');
            }
        }
    }
    if n >= 2 && v[start] == '#' && v[start + 1] == 'x' {
        proof {
            assert(body.skip(2) =~= v@.subrange(start + 2 as int, end as int));
        }
        let parsed = parse_num(v, start + 2, end, 16);
        match parsed {
            Some(val) => {
                let c = u32_to_char(val);
                proof {
                    if c is Some {
                        vstd::utf8::char_u32_cast(c->0, val);
                    }
                }
                c
            },
            None => None,
        }
    } else if n >= 1 && v[start] == '#' {
        proof {
            assert(body.skip(1) =~= v@.subrange(start + 1 as int, end as int));
        }
        let parsed = parse_num(v, start + 1, end, 10);
        match parsed {
            Some(val) => {
                let c = u32_to_char(val);
                proof {
                    if c is Some {
                        vstd::utf8::char_u32_cast(c->0, val);
                    }
                }
                c
            },
            None => None,
        }
    } else {
        None
    }
}

fn find_semi(v: &Vec<char>, from: usize) -> (r: usize)
    requires
        from <= v@.len(),
    ensures
        from <= r <= v@.len(),
        r - from == first_semi(v@.skip(from as int)),
{
    let n = v.len();
    let mut k: usize = from;
    while k < n && v[k] != ';'
        invariant
            from <= k <= n,
            n == v@.len(),
            forall|j: int| from <= j < k ==> v@[j] != ';',
        decreases n - k,
    {
        k += 1;
    }
    proof {
        let s = v@.skip(from as int);
        assert(forall|j: int| 0 <= j < k - from ==> s[j] == v@[j + from] && s[j] != ';');
        lemma_first_semi_at(s, k - from);
    }
    k
}

/// Decode the minimal entity set in a title or cleaned summary.
pub fn html_unescape_minimal(input: &str) -> (r: String)
    ensures
        r@ == spec_unescape(input@),
{
    let v = str_to_chars(input);
    let n = v.len();
    let mut out: Vec<char> = Vec::new();
    let mut i: usize = 0;
    proof {
        assert(v@.skip(0) =~= v@);
    }
    while i < n
        invariant
            i <= n,
            n == v@.len(),
            spec_unescape(v@) == out@ + spec_unescape(v@.skip(i as int)),
        decreases n - i,
    {
        let ghost rest = v@.skip(i as int);
        let ghost old_out = out@;
        proof {
            assert(rest.first() == v@[i as int]);
            assert(rest.drop_first() =~= v@.skip(i + 1 as int));
        }
        let c = v[i];
        if c == '&' {
            let semi = find_semi(&v, i + 1);
            proof {
                assert(v@.skip(i + 1 as int) =~= rest.drop_first());
                lemma_first_semi_at_props(rest.drop_first());
            }
            if semi < n {
                // an entity candidate runs from i+1 up to the ';' at `semi`
                proof {
                    assert(rest.subrange(1, 1 + (semi - (i + 1))) =~= v@.subrange(
                        i + 1 as int,
                        semi as int,
                    ));
                }
                let decoded = decode_entity(&v, i + 1, semi);
                match decoded {
                    Some(d) => {
                        out.push(d);
                        proof {
                            let k = semi - (i + 1);
                            assert(rest.skip(k + 2) =~= v@.skip(semi + 1 as int));
                            assert(old_out + (seq![d] + spec_unescape(v@.skip(semi + 1 as int)))
                                =~= out@ + spec_unescape(v@.skip(semi + 1 as int)));
                        }
                        i = semi + 1;
                    }
                    None => {
                        out.push(c);
                        proof {
                            assert(old_out + (seq![c] + spec_unescape(rest.drop_first()))
                                =~= out@ + spec_unescape(v@.skip(i + 1 as int)));
                        }
                        i += 1;
                    }
                }
            } else {
                out.push(c);
                proof {
                    assert(old_out + (seq![c] + spec_unescape(rest.drop_first())) =~= out@
                        + spec_unescape(v@.skip(i + 1 as int)));
                }
                i += 1;
            }
        } else {
            out.push(c);
            proof {
                assert(old_out + (seq![c] + spec_unescape(rest.drop_first())) =~= out@
                    + spec_unescape(v@.skip(i + 1 as int)));
            }
            i += 1;
        }
    }
    proof {
        assert(v@.skip(n as int) =~= Seq::<char>::empty());
        assert(out@ + Seq::<char>::empty() =~= out@);
    }
    chars_to_string(&out)
}

fn matches_at(v: &Vec<char>, pat: &Vec<char>, k: usize) -> (r: bool)
    requires
        k <= v@.len(),
    ensures
        r == prefix_matches_ci(v@.skip(k as int), pat@),
{
    let n = v.len();
    let m = pat.len();
    if n - k < m {
        return false;
    }
    let mut t: usize = 0;
    while t < m
        invariant
            k + m <= n,
            t <= m,
            n == v@.len(),
            m == pat@.len(),
            forall|u: int| 0 <= u < t ==> ascii_lower(v@.skip(k as int)[u]) == pat@[u],
        decreases m - t,
    {
        let lc = lower_ascii_char(v[k + t]);
        if lc != pat[t] {
            proof {
                assert(v@.skip(k as int)[t as int] == v@[k + t]);
            }
            return false;
        }
        proof {
            assert(v@.skip(k as int)[t as int] == v@[k + t]);
        }
        t += 1;
    }
    true
}

proof fn lemma_first_ci_at(s: Seq<char>, pat: Seq<char>, k: int)
    requires
        pat.len() > 0,
        0 <= k <= s.len(),
        forall|j: int| 0 <= j < k ==> !prefix_matches_ci(s.skip(j), pat),
        k < s.len() ==> prefix_matches_ci(s.skip(k), pat),
    ensures
        first_ci_match(s, pat) == k,
    decreases k,
{
    if s.len() == 0 {
    } else if k == 0 {
        if s.len() > 0 {
            assert(s.skip(0) =~= s);
        }
    } else {
        assert(s.skip(0) =~= s);
        assert(!prefix_matches_ci(s, pat));
        assert forall|j: int| 0 <= j < k - 1 implies !prefix_matches_ci(
            s.drop_first().skip(j),
            pat,
        ) by {
            assert(s.drop_first().skip(j) =~= s.skip(j + 1));
        }
        if k - 1 < s.drop_first().len() {
            assert(s.drop_first().skip(k - 1) =~= s.skip(k));
        }
        lemma_first_ci_at(s.drop_first(), pat, k - 1);
    }
}

fn find_ci(v: &Vec<char>, pat: &Vec<char>, from: usize) -> (r: usize)
    requires
        from <= v@.len(),
        pat@.len() > 0,
    ensures
        from <= r <= v@.len(),
        r - from == first_ci_match(v@.skip(from as int), pat@),
{
    let n = v.len();
    let mut k: usize = from;
    while k < n
        invariant
            from <= k <= n,
            n == v@.len(),
            pat@.len() > 0,
            forall|j: int|
                0 <= j < k - from ==> !prefix_matches_ci(
                    #[trigger] v@.skip(from as int).skip(j),
                    pat@,
                ),
        decreases n - k,
    {
        let hit = matches_at(v, pat, k);
        proof {
            assert(v@.skip(k as int) =~= v@.skip(from as int).skip(k - from));
        }
        if hit {
            proof {
                lemma_first_ci_at(v@.skip(from as int), pat@, k - from);
            }
            return k;
        }
        k += 1;
    }
    proof {
        lemma_first_ci_at(v@.skip(from as int), pat@, n - from);
    }
    n
}

fn splice_out(v: &Vec<char>, p: usize, q: usize) -> (r: Vec<char>)
    requires
        p <= q <= v@.len(),
    ensures
        r@ == v@.take(p as int) + v@.skip(q as int),
{
    let n = v.len();
    let mut out: Vec<char> = Vec::new();
    let mut i: usize = 0;
    while i < p
        invariant
            i <= p <= q <= n,
            n == v@.len(),
            out@ == v@.take(i as int),
        decreases p - i,
    {
        out.push(v[i]);
        i += 1;
        proof {
            assert(v@.take(i as int) =~= v@.take(i - 1 as int).push(v@[i - 1 as int]));
        }
    }
    let mut j: usize = q;
    while j < n
        invariant
            p <= q <= j <= n,
            n == v@.len(),
            out@ == v@.take(p as int) + v@.subrange(q as int, j as int),
        decreases n - j,
    {
        out.push(v[j]);
        j += 1;
        proof {
            assert(v@.take(p as int) + v@.subrange(q as int, j as int) =~= (v@.take(p as int)
                + v@.subrange(q as int, j - 1 as int)).push(v@[j - 1 as int]));
        }
    }
    proof {
        assert(v@.subrange(q as int, n as int) =~= v@.skip(q as int));
    }
    out
}

fn remove_blocks_exec(v: Vec<char>, open: &Vec<char>, close: &Vec<char>) -> (r: Vec<char>)
    requires
        open@.len() > 0,
        close@.len() > 0,
    ensures
        r@ == remove_blocks(v@, open@, close@),
{
    let mut buf = v;
    let ghost orig = buf@;
    let mut done = false;
    while !done
        invariant
            open@.len() > 0,
            close@.len() > 0,
            remove_blocks(buf@, open@, close@) == remove_blocks(orig, open@, close@),
            done ==> buf@ == remove_blocks(orig, open@, close@),
        decreases buf@.len(), (if done { 0int } else { 1int }),
    {
        let n = buf.len();
        let p = find_ci(&buf, open, 0);
        proof {
            assert(buf@.skip(0) =~= buf@);
        }
        if p == n {
            done = true;
        } else {
            let q = find_ci(&buf, close, p);
            proof {
                assert(buf@.skip(p as int) =~= buf@.skip(0).skip(p as int));
                assert(first_ci_match(buf@.skip(p as int), close@) == q - p);
            }
            if q == n {
                // unterminated block: drop from the opening tag to the end
                let ghost pre = buf@;
                buf.truncate(p);
                proof {
                    assert(buf@ =~= pre.take(p as int));
                    lemma_first_ci_match_props(pre, open@);
                    let cut0 = pre.take(p as int);
                    assert forall|j: int| 0 <= j < p implies !prefix_matches_ci(
                        #[trigger] cut0.skip(j),
                        open@,
                    ) by {
                        if prefix_matches_ci(cut0.skip(j), open@) {
                            assert forall|t: int| 0 <= t < open@.len() implies ascii_lower(
                                pre.skip(j)[t],
                            ) == open@[t] by {
                                assert(cut0.skip(j)[t] == pre[j + t]);
                                assert(pre.skip(j)[t] == pre[j + t]);
                                assert(ascii_lower(cut0.skip(j)[t]) == open@[t]);
                            }
                            assert(prefix_matches_ci(pre.skip(j), open@));
                        }
                    }
                    lemma_first_ci_at(cut0, open@, p as int);
                }
                done = true;
            } else {
                let ghost pre = buf@;
                proof {
                    lemma_first_ci_match_props(pre.skip(p as int), close@);
                    assert(prefix_matches_ci(pre.skip(p as int).skip(q - p), close@));
                    assert(pre.skip(p as int).skip(q - p) =~= pre.skip(q as int));
                }
                let cut = q + close.len();
                let nb = splice_out(&buf, p, cut);
                proof {
                    assert(pre.skip(p as int).skip(q - p + close@.len()) =~= pre.skip(
                        cut as int,
                    ));
                    assert(nb@ =~= pre.take(p as int) + pre.skip(p as int).skip(
                        q - p + close@.len(),
                    ));
                }
                buf = nb;
            }
        }
    }
    buf
}

fn strip_tags_exec(v: &Vec<char>) -> (r: Vec<char>)
    ensures
        r@ == spec_strip_tags(v@).0,
{
    let n = v.len();
    let mut out: Vec<char> = Vec::new();
    let mut in_tag = false;
    let mut i: usize = 0;
    while i < n
        invariant
            i <= n,
            n == v@.len(),
            (out@, in_tag) == spec_strip_tags(v@.take(i as int)),
        decreases n - i,
    {
        let c = v[i];
        if c == '<' {
            in_tag = true;
        } else if c == '>' {
            in_tag = false;
        } else if !in_tag {
            out.push(c);
        }
        proof {
            assert(v@.take(i + 1 as int).drop_last() =~= v@.take(i as int));
            assert(v@.take(i + 1 as int).last() == v@[i as int]);
        }
        i += 1;
    }
    proof {
        assert(v@.take(n as int) =~= v@);
    }
    out
}

fn collapse_ws_exec(v: &Vec<char>) -> (r: Vec<char>)
    ensures
        r@ == spec_collapse_ws(v@).0,
{
    let n = v.len();
    let mut out: Vec<char> = Vec::new();
    let mut last_space = false;
    let mut i: usize = 0;
    while i < n
        invariant
            i <= n,
            n == v@.len(),
            (out@, last_space) == spec_collapse_ws(v@.take(i as int)),
        decreases n - i,
    {
        let c = v[i];
        if char_is_space(c) {
            if !last_space {
                out.push(' ');
                last_space = true;
            }
        } else {
            out.push(c);
            last_space = false;
        }
        proof {
            assert(v@.take(i + 1 as int).drop_last() =~= v@.take(i as int));
            assert(v@.take(i + 1 as int).last() == v@[i as int]);
        }
        i += 1;
    }
    proof {
        assert(v@.take(n as int) =~= v@);
    }
    out
}

/// Clean a feed summary: drop script and style blocks, strip the remaining
/// tags, collapse whitespace runs and trim the ends.
pub fn strip_html_basic(input: &str) -> (r: String)
    ensures
        r@ == spec_strip_html(input@),
{
    let chars = str_to_chars(input);
    let s_open = vec!['<', 's', 'c', 'r', 'i', 'p', 't'];
    let s_close = vec!['<', '/', 's', 'c', 'r', 'i', 'p', 't', '>'];
    let t_open = vec!['<', 's', 't', 'y', 'l', 'e'];
    let t_close = vec!['<', '/', 's', 't', 'y', 'l', 'e', '>'];
    proof {
        assert(s_open@ =~= script_open());
        assert(s_close@ =~= script_close());
        assert(t_open@ =~= style_open());
        assert(t_close@ =~= style_close());
    }
    let b1 = remove_blocks_exec(chars, &s_open, &s_close);
    let b2 = remove_blocks_exec(b1, &t_open, &t_close);
    let stripped = strip_tags_exec(&b2);
    let collapsed = collapse_ws_exec(&stripped);
    let trimmed = trim_spaces(&collapsed);
    chars_to_string(&trimmed)
}

/// Whether a lowercase pattern occurs in `s`, comparing ASCII
/// case-insensitively.
pub fn contains_ci(s: &str, pat: &str) -> (r: bool)
    requires
        pat@.len() > 0,
    ensures
        r == (first_ci_match(s@, pat@) < s@.len()),
{
    let v = str_to_chars(s);
    let p = str_to_chars(pat);
    let hit = find_ci(&v, &p, 0);
    proof {
        assert(v@.skip(0) =~= v@);
        lemma_first_ci_match_props(v@, pat@);
    }
    hit < v.len()
}

/// The position of the first '.' in `s`, or `s.len()` when there is none.
pub open spec fn first_dot(s: Seq<char>) -> int
    decreases s.len(),
{
    if s.len() == 0 {
        0
    } else if s.first() == '.' {
        0
    } else {
        1 + first_dot(s.drop_first())
    }
}

pub(crate) proof fn lemma_first_dot_at(s: Seq<char>, k: int)
    requires
        0 <= k <= s.len(),
        forall|j: int| 0 <= j < k ==> s[j] != '.',
        k < s.len() ==> s[k] == '.',
    ensures
        first_dot(s) == k,
    decreases k,
{
    if k > 0 {
        lemma_first_dot_at(s.drop_first(), k - 1);
    }
}
} // verus!
