//! The chat protocol spoken with the model providers: the fixed prompts,
//! the input framing, the tolerant reading of fenced JSON answers, and the
//! request signature of the lexicon-translation service.
use vstd::prelude::*;

use crate::charops::chars_to_string;
use crate::charops::str_to_chars;
use crate::config::spec_starts_with;
use crate::config::starts_with_lit;
use crate::engine::TranslationResult;
use crate::text::spec_trim_ws;
use crate::text::trim_ws;

verus! {

/// The system prompt for translations: answer as a JSON object with a
/// `title` and an optional `description`, nothing else.
pub fn translation_prompt() -> (r: &'static str) {
    "你是一名专业的财经翻译，请将输入的英文新闻标题和摘要翻译成自然、准确的简体中文。输出必须是 JSON，格式为 {\"title\": \"...\", \"description\": \"...\"}，如果没有摘要可返回 null。不得添加多余文字。"
}

/// The system prompt for similarity judgments: answer as a JSON object
/// with `is_duplicate`, `reason` and `confidence`, nothing else.
pub fn similarity_prompt() -> (r: &'static str) {
    "你是一名资深的新闻比对助手，需要判断两条新闻是否描述同一事件。输出必须是 JSON，字段 is_duplicate、reason、confidence。"
}

/// What the user message of a translation call holds.
pub open spec fn spec_translation_input(
    title: Seq<char>,
    description: Option<Seq<char>>,
) -> Seq<char> {
    ("Title: ")@ + title + ("\n")@ + (match description {
        Some(d) => ("Summary: ")@ + d,
        None => ("Summary:")@,
    })
}

/// Frame a title and optional summary for the translation prompt.
pub fn build_translation_input(title: &str, description: Option<&String>) -> (r: String)
    ensures
        r@ == spec_translation_input(
            title@,
            (match description {
                Some(d) => Some(d@),
                None => None,
            }),
        ),
{
    let mut out = str_to_chars("Title: ");
    let mut tv = str_to_chars(title);
    out.append(&mut tv);
    let mut nl0 = str_to_chars("\n");
    out.append(&mut nl0);
    match description {
        Some(d) => {
            let mut pre = str_to_chars("Summary: ");
            out.append(&mut pre);
            let mut dv = str_to_chars(d.as_str());
            out.append(&mut dv);
            proof {
                assert(out@ =~= spec_translation_input(title@, Some(d@)));
            }
        },
        None => {
            let mut pre = str_to_chars("Summary:");
            out.append(&mut pre);
            proof {
                assert(("Title: ")@ + title@ + ("\n")@ + ("Summary:")@ =~= out@);
            }
        },
    }
    chars_to_string(&out)
}

/// A short description of one article, fed to the similarity judge.
pub struct ArticleSnippet {
    pub title: String,
    pub source: Option<String>,
    pub url: Option<String>,
    pub published_at: Option<String>,
    pub summary: Option<String>,
}

pub open spec fn spec_part_source(s: &ArticleSnippet) -> Seq<char> {
    match s.source {
        Some(v) => ("\n")@ + ("来源: ")@ + v@,
        None => Seq::<char>::empty(),
    }
}

pub open spec fn spec_part_url(s: &ArticleSnippet) -> Seq<char> {
    match s.url {
        Some(v) => ("\n")@ + ("链接: ")@ + v@,
        None => Seq::<char>::empty(),
    }
}

pub open spec fn spec_part_published(s: &ArticleSnippet) -> Seq<char> {
    match s.published_at {
        Some(v) => ("\n")@ + ("发布时间: ")@ + v@,
        None => Seq::<char>::empty(),
    }
}

pub open spec fn spec_part_summary(s: &ArticleSnippet) -> Seq<char> {
    match s.summary {
        Some(v) => ("\n")@ + ("摘要: ")@ + v@,
        None => Seq::<char>::empty(),
    }
}

/// One labelled block of the similarity prompt.
pub open spec fn spec_snippet_lines(s: &ArticleSnippet, label: Seq<char>) -> Seq<char> {
    label + ("\n")@ + ("标题: ")@ + s.title@ + spec_part_source(s) + spec_part_url(s)
        + spec_part_published(s) + spec_part_summary(s) + ("\n")@
}

#[verifier::rlimit(100)]
fn push_snippet_lines(out: &mut Vec<char>, s: &ArticleSnippet, label: &str)
    ensures
        final(out)@ == old(out)@ + spec_snippet_lines(s, label@),
{
    let mut lv = str_to_chars(label);
    out.append(&mut lv);
    let mut nl0 = str_to_chars("\n");
    out.append(&mut nl0);
    let mut t0 = str_to_chars("标题: ");
    out.append(&mut t0);
    let mut t1 = str_to_chars(s.title.as_str());
    out.append(&mut t1);
    let ghost acc0 = old(out)@ + label@ + ("\n")@ + ("标题: ")@ + s.title@;
    proof {
        assert(out@ =~= acc0);
    }
    match &s.source {
        Some(v) => {
            let mut nl = str_to_chars("\n");
            out.append(&mut nl);
            let mut p = str_to_chars("来源: ");
            out.append(&mut p);
            let mut vv = str_to_chars(v.as_str());
            out.append(&mut vv);
        },
        None => {},
    }
    let ghost acc1 = acc0 + spec_part_source(s);
    proof {
        assert(out@ =~= acc1);
    }
    match &s.url {
        Some(v) => {
            let mut nl = str_to_chars("\n");
            out.append(&mut nl);
            let mut p = str_to_chars("链接: ");
            out.append(&mut p);
            let mut vv = str_to_chars(v.as_str());
            out.append(&mut vv);
        },
        None => {},
    }
    let ghost acc2 = acc1 + spec_part_url(s);
    proof {
        assert(out@ =~= acc2);
    }
    match &s.published_at {
        Some(v) => {
            let mut nl = str_to_chars("\n");
            out.append(&mut nl);
            let mut p = str_to_chars("发布时间: ");
            out.append(&mut p);
            let mut vv = str_to_chars(v.as_str());
            out.append(&mut vv);
        },
        None => {},
    }
    let ghost acc3 = acc2 + spec_part_published(s);
    proof {
        assert(out@ =~= acc3);
    }
    match &s.summary {
        Some(v) => {
            let mut nl = str_to_chars("\n");
            out.append(&mut nl);
            let mut p = str_to_chars("摘要: ");
            out.append(&mut p);
            let mut vv = str_to_chars(v.as_str());
            out.append(&mut vv);
        },
        None => {},
    }
    let ghost acc4 = acc3 + spec_part_summary(s);
    proof {
        assert(out@ =~= acc4);
    }
    let mut nl1 = str_to_chars("\n");
    out.append(&mut nl1);
    proof {
        assert(out@ =~= acc4 + ("\n")@);
        assert(acc4 + ("\n")@ =~= old(out)@ + spec_snippet_lines(s, label@));
    }
}

/// The instruction line of the similarity prompt.
pub open spec fn spec_similarity_instruction() -> Seq<char> {
    ("请比较以下两条新闻是否描述同一事件。若认为是同一新闻，请输出 JSON {\"is_duplicate\": true, \"reason\": \"简要原因\", \"confidence\": 0-1之间的小数}；如果不是，请输出对应的 false。除该 JSON 外不要包含额外文字。")@
}

pub fn similarity_instruction() -> (r: &'static str)
    ensures
        r@ == spec_similarity_instruction(),
{
    "请比较以下两条新闻是否描述同一事件。若认为是同一新闻，请输出 JSON {\"is_duplicate\": true, \"reason\": \"简要原因\", \"confidence\": 0-1之间的小数}；如果不是，请输出对应的 false。除该 JSON 外不要包含额外文字。"
}

/// The whole user message of one similarity judgment.
pub open spec fn spec_similarity_prompt_body(
    a: &ArticleSnippet,
    b: &ArticleSnippet,
    instruction: Seq<char>,
) -> Seq<char> {
    instruction + ("\n\n")@ + spec_snippet_lines(a, ("新闻A")@) + ("\n")@ + spec_snippet_lines(
        b,
        ("新闻B")@,
    ) + ("\n")@
}

/// Frame two articles for the similarity judge.
pub fn build_prompt(a: &ArticleSnippet, b: &ArticleSnippet) -> (r: String)
    ensures
        r@ == spec_similarity_prompt_body(a, b, spec_similarity_instruction()),
{
    let instr = similarity_instruction();
    let mut out = str_to_chars(instr);
    let mut nl2 = str_to_chars("\n\n");
    out.append(&mut nl2);
    proof {
        assert(out@ =~= instr@ + ("\n\n")@);
    }
    push_snippet_lines(&mut out, a, "新闻A");
    let mut nl3 = str_to_chars("\n");
    out.append(&mut nl3);
    push_snippet_lines(&mut out, b, "新闻B");
    let mut nl4 = str_to_chars("\n");
    out.append(&mut nl4);
    proof {
        assert(out@ =~= spec_similarity_prompt_body(a, b, spec_similarity_instruction()));
    }
    chars_to_string(&out)
}

/// Strip every copy of a leading marker.
pub open spec fn spec_strip_prefix_rep(s: Seq<char>, pat: Seq<char>) -> Seq<char>
    decreases s.len(),
{
    if pat.len() > 0 && spec_starts_with(s, pat) && s.len() >= pat.len() {
        spec_strip_prefix_rep(s.skip(pat.len() as int), pat)
    } else {
        s
    }
}

/// Strip every copy of a trailing marker.
pub open spec fn spec_strip_suffix_rep(s: Seq<char>, pat: Seq<char>) -> Seq<char>
    decreases s.len(),
{
    if pat.len() > 0 && s.len() >= pat.len() && s.skip(s.len() - pat.len()) == pat {
        spec_strip_suffix_rep(s.take(s.len() - pat.len()), pat)
    } else {
        s
    }
}

/// A fenced answer with the fences removed: markers of a JSON code block
/// at either end are dropped, whitespace trimmed.
pub open spec fn spec_clean_payload(s: Seq<char>) -> Seq<char> {
    spec_trim_ws(
        spec_strip_suffix_rep(
            spec_strip_prefix_rep(
                spec_strip_prefix_rep(spec_trim_ws(s), ("```json")@),
                ("```")@,
            ),
            ("```")@,
        ),
    )
}

fn strip_prefix_rep(s: &String, pat: &str) -> (r: String)
    requires
        pat@.len() > 0,
    ensures
        r@ == spec_strip_prefix_rep(s@, pat@),
    decreases s@.len(),
{
    if starts_with_lit(s.as_str(), pat) {
        let m = pat.unicode_len();
        let n = s.as_str().unicode_len();
        let tail = s.as_str().substring_char(m, n);
        let tail_string = tail.to_owned();
        proof {
            assert(tail_string@ =~= s@.skip(pat@.len() as int));
        }
        strip_prefix_rep(&tail_string, pat)
    } else {
        s.clone()
    }
}

fn strip_suffix_rep(s: &String, pat: &str) -> (r: String)
    requires
        pat@.len() > 0,
    ensures
        r@ == spec_strip_suffix_rep(s@, pat@),
    decreases s@.len(),
{
    let n = s.as_str().unicode_len();
    let m = pat.unicode_len();
    if n >= m {
        let end = s.as_str().substring_char(n - m, n);
        let mut same = true;
        let mut i: usize = 0;
        while i < m
            invariant
                i <= m,
                m == pat@.len(),
                n == s@.len(),
                n >= m,
                end@ == s@.skip(n - m as int),
                same == (forall|j: int| 0 <= j < i ==> end@[j] == pat@[j]),
            decreases m - i,
        {
            if end.get_char(i) != pat.get_char(i) {
                proof {
                    assert(end@[i as int] != pat@[i as int]);
                }
                same = false;
                i = m;
            } else {
                proof {
                    assert(end@[i as int] == pat@[i as int]);
                }
                i += 1;
            }
        }
        if same {
            proof {
                assert(end@ =~= pat@);
            }
            let head = s.as_str().substring_char(0, n - m);
            let head_string = head.to_owned();
            proof {
                assert(head_string@ =~= s@.take(n - m as int));
            }
            strip_suffix_rep(&head_string, pat)
        } else {
            proof {
                assert(s@.skip(n - m as int) != pat@);
            }
            s.clone()
        }
    } else {
        s.clone()
    }
}

/// Remove code fences and surrounding whitespace from a model answer.
pub fn clean_payload(content: &str) -> (r: String)
    ensures
        r@ == spec_clean_payload(content@),
{
    proof {
        reveal_strlit("```json");
        reveal_strlit("```");
    }
    let t = trim_ws(content);
    let a = strip_prefix_rep(&t, "```json");
    let b = strip_prefix_rep(&a, "```");
    let c = strip_suffix_rep(&b, "```");
    trim_ws(c.as_str())
}

/// What serde_json reads out of a translation answer: the `title` string
/// and the optional `description` string, a function of the text alone.
pub uninterp spec fn translation_payload_of(s: Seq<char>) -> Option<
    (Seq<char>, Option<Seq<char>>),
>;

/// Relies on serde_json::from_str and Value's accessors: reads a JSON
/// object's `title` string and optional `description` string.
#[verifier::external_body]
fn parse_translation_json(s: &str) -> (r: Option<(String, Option<String>)>)
    ensures
        (r is Some) <==> (translation_payload_of(s@) is Some),
        r is Some ==> ((r->0).0@, (match (r->0).1 {
            Some(d) => Some(d@),
            None => None,
        })) == translation_payload_of(s@)->0,
{
    let v: serde_json::Value = serde_json::from_str(s).ok()?;
    let title = v.get("title")?.as_str()?.to_string();
    let description = v.get("description").and_then(|d| d.as_str()).map(|d| d.to_string());
    Some((title, description))
}

/// What serde_json reads out of a similarity judgment: the `is_duplicate`
/// flag, the optional `reason` string, and the decimal text of the
/// optional `confidence` number, a function of the input text alone.
pub uninterp spec fn decision_payload_of(s: Seq<char>) -> Option<
    (bool, Option<Seq<char>>, Option<Seq<char>>),
>;

/// Relies on serde_json::from_str and Value's accessors: reads a JSON
/// object's `is_duplicate` flag, optional `reason` string, and the text
/// of its optional `confidence` number.
#[verifier::external_body]
fn parse_decision_json(s: &str) -> (r: Option<(bool, Option<String>, Option<String>)>)
    ensures
        (r is Some) <==> (decision_payload_of(s@) is Some),
        r is Some ==> ((r->0).0, (match (r->0).1 {
            Some(v) => Some(v@),
            None => None,
        }), (match (r->0).2 {
            Some(v) => Some(v@),
            None => None,
        })) == decision_payload_of(s@)->0,
{
    let v: serde_json::Value = serde_json::from_str(s).ok()?;
    let is_duplicate = v.get("is_duplicate")?.as_bool()?;
    let reason = v.get("reason").and_then(|x| x.as_str()).map(|x| x.to_string());
    let confidence = v.get("confidence").filter(|x| x.is_number()).map(|x| x.to_string());
    Some((is_duplicate, reason, confidence))
}

/// The thousandths a decimal fraction names: digits, at most one point,
/// the value floored to thousandths; None when the text is no such number
/// or the value does not fit.
pub open spec fn spec_decimal_permille(s: Seq<char>) -> Option<u32> {
    let dot = crate::html::first_dot(s);
    if dot == s.len() {
        match crate::html::spec_parse_num(s, 10) {
            Some(v) => if v * 1000 <= 0xFFFF_FFFF {
                Some((v * 1000) as u32)
            } else {
                None
            },
            None => None,
        }
    } else {
        let intpart = s.take(dot);
        let frac = s.skip(dot + 1);
        let f3 = if frac.len() >= 3 {
            frac.take(3)
        } else if frac.len() == 2 {
            frac.push('0')
        } else if frac.len() == 1 {
            frac.push('0').push('0')
        } else {
            seq!['0', '0', '0']
        };
        match (crate::html::spec_parse_num(intpart, 10), crate::html::spec_parse_num(f3, 10)) {
            (Some(i), Some(f)) => if i * 1000 + f <= 0xFFFF_FFFF {
                Some((i * 1000 + f) as u32)
            } else {
                None
            },
            _ => None,
        }
    }
}


proof fn lemma_three_digits_bound(s: Seq<char>)
    requires
        s.len() == 3,
        crate::html::all_digits(s, 10),
    ensures
        0 <= crate::html::spec_digits_val(s, 10) <= 999,
{
    reveal_with_fuel(crate::html::spec_digits_val, 4);
    let s2 = s.drop_last();
    let s1 = s2.drop_last();
    assert(s1.drop_last().len() == 0);
    assert(s1.last() == s[0]);
    assert(s2.last() == s[1]);
    assert(s.last() == s[2]);
    let d0 = crate::html::spec_digit(s[0], 10);
    let d1 = crate::html::spec_digit(s[1], 10);
    let d2 = crate::html::spec_digit(s[2], 10);
    assert(0 <= d0 < 10 && 0 <= d1 < 10 && 0 <= d2 < 10);
    assert(crate::html::spec_digits_val(s1, 10) == d0);
    assert(crate::html::spec_digits_val(s2, 10) == d0 * 10 + d1);
    assert(crate::html::spec_digits_val(s, 10) == (d0 * 10 + d1) * 10 + d2);
    assert((d0 * 10 + d1) * 10 + d2 <= 999) by (nonlinear_arith)
        requires
            0 <= d0 < 10,
            0 <= d1 < 10,
            0 <= d2 < 10,
    ;
}

/// Read a confidence number's text as thousandths.
pub fn decimal_permille(s: &str) -> (r: Option<u32>)
    ensures
        r == spec_decimal_permille(s@),
{
    let v = str_to_chars(s);
    let n = v.len();
    let mut dot: usize = 0;
    while dot < n && v[dot] != '.'
        invariant
            dot <= n,
            n == v@.len(),
            v@ == s@,
            forall|j: int| 0 <= j < dot ==> v@[j] != '.',
        decreases n - dot,
    {
        dot += 1;
    }
    proof {
        crate::html::lemma_first_dot_at(s@, dot as int);
    }
    if dot == n {
        match crate::html::parse_num(&v, 0, n, 10) {
            Some(val) => {
                proof {
                    assert(v@.subrange(0, n as int) =~= s@);
                }
                if val <= 0xFFFF_FFFFu32 / 1000 {
                    Some(val * 1000)
                } else {
                    proof {
                        assert((val as int) * 1000 > 0xFFFF_FFFF) by (nonlinear_arith)
                            requires
                                val > 0xFFFF_FFFFu32 / 1000,
                        ;
                    }
                    None
                }
            },
            None => {
                proof {
                    assert(v@.subrange(0, n as int) =~= s@);
                }
                None
            },
        }
    } else {
        let ghost intpart = s@.take(dot as int);
        let ghost frac = s@.skip(dot + 1 as int);
        let iv = crate::html::parse_num(&v, 0, dot, 10);
        proof {
            assert(v@.subrange(0, dot as int) =~= intpart);
        }
        let mut f3: Vec<char> = Vec::new();
        let mut k: usize = dot + 1;
        while k < n && f3.len() < 3
            invariant
                dot + 1 <= k <= n,
                f3@.len() <= 3,
                n == v@.len(),
                v@ == s@,
                f3@.len() == k - (dot + 1),
                f3@ == s@.skip(dot + 1 as int).take(k - (dot + 1) as int),
            decreases n - k,
        {
            f3.push(v[k]);
            k += 1;
            proof {
                assert(s@.skip(dot + 1 as int).take(k - (dot + 1) as int) =~= s@.skip(
                    dot + 1 as int,
                ).take(k - 1 - (dot + 1) as int).push(s@[k - 1 as int]));
            }
        }
        if f3.len() == 2 {
            f3.push('0');
        } else if f3.len() == 1 {
            f3.push('0');
            f3.push('0');
        } else if f3.len() == 0 {
            f3.push('0');
            f3.push('0');
            f3.push('0');
        }
        proof {
            let fr = s@.skip(dot + 1 as int);
            let expect = if fr.len() >= 3 {
                fr.take(3)
            } else if fr.len() == 2 {
                fr.push('0')
            } else if fr.len() == 1 {
                fr.push('0').push('0')
            } else {
                seq!['0', '0', '0']
            };
            if fr.len() >= 3 {
                assert(fr.take(3) =~= expect);
            } else {
                assert(fr.take(fr.len() as int) =~= fr);
            }
            assert(f3@ =~= expect);
        }
        let fv = crate::html::parse_num(&f3, 0, f3.len(), 10);
        proof {
            assert(f3@.subrange(0, f3@.len() as int) =~= f3@);
        }
        proof {
            if crate::html::spec_parse_num(f3@, 10) is Some {
                lemma_three_digits_bound(f3@);
            }
        }
        match (iv, fv) {
            (Some(i), Some(f)) => {
                if i < 4294967 || (i == 4294967 && f <= 295) {
                    proof {
                        assert((i as int) * 1000 + f <= 0xFFFF_FFFF) by (nonlinear_arith)
                            requires
                                i < 4294967 || (i == 4294967 && f <= 295),
                                f <= 999,
                        ;
                    }
                    Some(i * 1000 + f)
                } else {
                    proof {
                        assert((i as int) * 1000 + f > 0xFFFF_FFFF) by (nonlinear_arith)
                            requires
                                i >= 4294967,
                                !(i == 4294967 && f <= 295),
                                f >= 0,
                        ;
                    }
                    None
                }
            },
            _ => None,
        }
    }
}

/// A provider's translation answer, read out of its (possibly fenced)
/// JSON: the title trimmed, a blank description dropped. The raw text is
/// tried when the unfenced text does not parse.
pub fn parse_translation(content: &str) -> (r: Option<TranslationResult>)
    ensures
        ({
            let cleaned = translation_payload_of(spec_clean_payload(content@));
            let raw = translation_payload_of(spec_trim_ws(content@));
            let chosen = if cleaned is Some {
                cleaned
            } else {
                raw
            };
            match chosen {
                Some((t, d)) => (r is Some) && (r->0).title@ == spec_trim_ws(t) && (match (
                    (r->0).description,
                    d,
                ) {
                    (Some(rd), Some(dd)) => spec_trim_ws(dd).len() > 0 && rd@ == spec_trim_ws(
                        dd,
                    ),
                    (None, Some(dd)) => spec_trim_ws(dd).len() == 0,
                    (None, None) => true,
                    _ => false,
                }),
                None => r is None,
            }
        }),
{
    let cleaned = clean_payload(content);
    let parsed = match parse_translation_json(cleaned.as_str()) {
        Some(p) => Some(p),
        None => {
            let raw = trim_ws(content);
            parse_translation_json(raw.as_str())
        },
    };
    match parsed {
        Some((t, d)) => {
            let title = trim_ws(t.as_str());
            let description = match d {
                Some(dd) => {
                    let dt = trim_ws(dd.as_str());
                    if dt.as_str().unicode_len() > 0 {
                        Some(dt)
                    } else {
                        None
                    }
                },
                None => None,
            };
            Some(TranslationResult { title, description })
        },
        None => None,
    }
}

/// A similarity judgment as plain values.
pub struct LlmDecision {
    pub is_duplicate: bool,
    pub reason: Option<String>,
    pub confidence: Option<u32>,
}

/// A provider's similarity judgment, read out of its (possibly fenced)
/// JSON; the raw text is tried when the unfenced text does not parse.
pub fn parse_decision(content: &str) -> (r: Option<LlmDecision>)
    ensures
        ({
            let cleaned = decision_payload_of(spec_clean_payload(content@));
            let raw = decision_payload_of(spec_trim_ws(content@));
            let chosen = if cleaned is Some {
                cleaned
            } else {
                raw
            };
            match chosen {
                Some((dup, reason, conf)) => (r is Some) && (r->0).is_duplicate == dup && (match (
                    (r->0).reason,
                    reason,
                ) {
                    (Some(a), Some(b)) => a@ == b,
                    (None, None) => true,
                    _ => false,
                }) && (r->0).confidence == (match conf {
                    Some(ct) => spec_decimal_permille(ct),
                    None => None,
                }),
                None => r is None,
            }
        }),
{
    let cleaned = clean_payload(content);
    let parsed = match parse_decision_json(cleaned.as_str()) {
        Some(p) => Some(p),
        None => {
            let raw = trim_ws(content);
            parse_decision_json(raw.as_str())
        },
    };
    match parsed {
        Some((dup, reason, conf)) => {
            let confidence = match conf {
                Some(ct) => decimal_permille(ct.as_str()),
                None => None,
            };
            Some(LlmDecision { is_duplicate: dup, reason, confidence })
        },
        None => None,
    }
}

/// What md5 makes of a string's bytes, written as 32 lowercase hex digits.
pub uninterp spec fn md5_hex_of(s: Seq<char>) -> Seq<char>;

/// Relies on md5::compute and its lowercase-hex display: the digest is a
/// function of the input bytes alone, sixteen bytes shown as 32 digits.
#[verifier::external_body]
fn md5_hex(s: &str) -> (r: String)
    ensures
        r@ == md5_hex_of(s@),
        r@.len() == 32,
{
    format!("{:x}", md5::compute(s.as_bytes()))
}

/// The request signature of the lexicon-translation service: the md5 hex
/// digest of app id, query, salt and secret, concatenated in that order.
pub fn generate_signature(app_id: &str, query: &str, salt: &str, secret_key: &str) -> (r: String)
    ensures
        r@ == md5_hex_of(app_id@ + query@ + salt@ + secret_key@),
        r@.len() == 32,
{
    let mut raw = str_to_chars(app_id);
    let mut q = str_to_chars(query);
    raw.append(&mut q);
    let mut sl = str_to_chars(salt);
    raw.append(&mut sl);
    let mut sk = str_to_chars(secret_key);
    raw.append(&mut sk);
    let joined = chars_to_string(&raw);
    proof {
        assert(joined@ =~= app_id@ + query@ + salt@ + secret_key@);
    }
    md5_hex(joined.as_str())
}

/// Relies on std::time::SystemTime: the milliseconds since the Unix epoch,
/// or zero when the clock is before it.
#[verifier::external_body]
pub fn now_unix_millis() -> (r: u64)
{
    std::time::SystemTime::now().duration_since(std::time::UNIX_EPOCH).map(
        |d| d.as_millis() as u64,
    ).unwrap_or(0)
}

/// Decimal digits of a request salt.
pub open spec fn spec_u64_digits(n: nat) -> Seq<char>
    decreases n,
{
    let d = ((48 + (n % 10)) as u32) as char;
    if n < 10 {
        seq![d]
    } else {
        spec_u64_digits(n / 10).push(d)
    }
}

fn push_u64_digits(out: &mut Vec<char>, n: u64)
    ensures
        final(out)@ == old(out)@ + spec_u64_digits(n as nat),
    decreases n,
{
    let d = n % 10;
    let code: u32 = 48 + (d as u32);
    let c = match crate::charops::u32_to_char(code) {
        Some(c) => {
            proof {
                vstd::utf8::char_u32_cast(c, code);
            }
            c
        },
        None => ' ',
    };
    if n < 10 {
        out.push(c);
        proof {
            assert(out@ =~= old(out)@ + spec_u64_digits(n as nat));
        }
    } else {
        push_u64_digits(out, n / 10);
        out.push(c);
        proof {
            assert(out@ =~= old(out)@ + spec_u64_digits(n as nat));
        }
    }
}

/// A request salt's text: the given milliseconds in decimal.
pub fn salt_from_millis(millis: u64) -> (r: String)
    ensures
        r@ == spec_u64_digits(millis as nat),
{
    let mut v: Vec<char> = Vec::new();
    push_u64_digits(&mut v, millis);
    chars_to_string(&v)
}

/// A fresh salt for one request: the current time in milliseconds, in
/// decimal. The clock decides the value; the text is its decimal form.
pub fn generate_salt() -> (r: String)
    ensures
        exists|millis: u64| r@ == spec_u64_digits(millis as nat),
{
    let now = now_unix_millis();
    let salt = salt_from_millis(now);
    proof {
        assert(salt@ == spec_u64_digits(now as nat));
    }
    salt
}


/// The failures the lexicon-translation service reports.
#[derive(Debug)]
pub enum BaiduError {
    QuotaExceeded,
    Api { code: String, message: String },
    Other { message: String },
}

/// Fold a lexicon-service failure into the translation layer's error kind.
pub fn map_baidu_error(err: BaiduError) -> (r: crate::engine::TranslationError)
    ensures
        match err {
            BaiduError::QuotaExceeded => r is QuotaExceeded,
            BaiduError::Api { code, message } => (match r {
                crate::engine::TranslationError::Api { code: c2, message: m2 } => c2 == code
                    && m2 == message,
                _ => false,
            }),
            BaiduError::Other { message } => (match r {
                crate::engine::TranslationError::Other { message: m2 } => m2 == message,
                _ => false,
            }),
        },
{
    match err {
        BaiduError::QuotaExceeded => crate::engine::TranslationError::QuotaExceeded,
        BaiduError::Api { code, message } => crate::engine::TranslationError::Api {
            code,
            message,
        },
        BaiduError::Other { message } => crate::engine::TranslationError::Other { message },
    }
}
} // verus!
