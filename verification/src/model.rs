//! The shapes the admin layer exchanges with the core, the core's error
//! kind, and the small rules the settings endpoints enforce.
use vstd::prelude::*;

use crate::html::first_ci_match;
use crate::store::FeedRecord;

verus! {

pub struct ArticleOut {
    pub id: i64,
    pub title: String,
    pub url: String,
    pub description: Option<String>,
    pub language: Option<String>,
    pub source_domain: String,
    pub published_at: i64,
    pub click_count: i64,
}

pub struct FeedOut {
    pub id: i64,
    pub url: String,
    pub title: Option<String>,
    pub site_url: Option<String>,
    pub source_domain: String,
    pub enabled: bool,
    pub fetch_interval_seconds: i64,
    pub filter_condition: Option<String>,
    pub last_fetch_at: Option<i64>,
    pub last_fetch_status: Option<i64>,
    pub fail_count: i64,
}

pub struct PageResp<T> {
    pub page: u32,
    pub page_size: u32,
    pub total_hint: u64,
    pub items: Vec<T>,
}

pub struct ArticleListQuery {
    pub from: Option<String>,
    pub to: Option<String>,
    pub page: u32,
    pub page_size: u32,
    pub keyword: Option<String>,
}

impl Default for ArticleListQuery {
    /// The first page of twenty, unfiltered.
    fn default() -> (r: Self)
        ensures
            r.from is None && r.to is None && r.keyword is None,
            r.page == 1 && r.page_size == 20,
    {
        ArticleListQuery { from: None, to: None, page: 1, page_size: 20, keyword: None }
    }
}

pub struct AdminLoginPayload {
    pub username: String,
    pub password: String,
}

pub struct AdminLogoutPayload {
    pub token: String,
}

pub struct AdminLoginResponse {
    pub token: String,
    pub expires_in: u64,
}

pub struct FeedUpsertPayload {
    pub id: Option<i64>,
    pub url: String,
    pub source_domain: String,
    pub enabled: Option<bool>,
    pub fetch_interval_seconds: Option<i64>,
    pub title: Option<String>,
    pub site_url: Option<String>,
    pub filter_condition: Option<String>,
}

pub struct FeedTestPayload {
    pub url: String,
}

pub struct FeedTestResult {
    pub status: u16,
    pub title: Option<String>,
    pub site_url: Option<String>,
    pub entry_count: usize,
}

pub struct TranslationSettingsOut {
    pub provider: String,
    pub translation_enabled: bool,
    pub deepseek_configured: bool,
    pub ollama_configured: bool,
    pub deepseek_api_key_masked: Option<String>,
    pub deepseek_error: Option<String>,
    pub ollama_error: Option<String>,
    pub ollama_base_url: Option<String>,
    pub ollama_model: Option<String>,
    pub translate_descriptions: bool,
}

pub struct TranslationSettingsUpdate {
    pub provider: Option<String>,
    pub translation_enabled: Option<bool>,
    pub deepseek_api_key: Option<String>,
    pub ollama_base_url: Option<String>,
    pub ollama_model: Option<String>,
    pub translate_descriptions: Option<bool>,
}

pub struct AiDedupSettingsUpdate {
    pub enabled: Option<bool>,
    pub provider: Option<String>,
}

pub struct ModelTestPayload {
    pub provider: String,
}

pub struct HealthResponse {
    pub status: String,
}

pub struct FeaturedQuery {
    pub limit: Option<i64>,
}

pub struct EmitEvent {
    pub level: String,
    pub code: String,
    pub addition_info: Option<String>,
}

/// The error kinds the core reports to its callers.
#[derive(Debug)]
pub enum AppError {
    BadRequest { message: String },
    Unauthorized { message: String },
    NotFound { message: String },
    Internal { message: String },
}

impl AppError {
    /// The text carried by the error.
    pub fn message(&self) -> (r: &String)
        ensures
            match self {
                AppError::BadRequest { message } => r@ == message@,
                AppError::Unauthorized { message } => r@ == message@,
                AppError::NotFound { message } => r@ == message@,
                AppError::Internal { message } => r@ == message@,
            },
    {
        match self {
            AppError::BadRequest { message } => message,
            AppError::Unauthorized { message } => message,
            AppError::NotFound { message } => message,
            AppError::Internal { message } => message,
        }
    }
}

/// The admin session states a token can be in.
#[derive(Clone, Copy, Debug, PartialEq, Eq, Structural)]
pub enum SessionStatus {
    Valid,
    Expired,
    Invalid,
}

/// The marker carried by an authenticated admin request.
#[derive(Clone, Copy, Debug)]
pub struct AdminIdentity;

/// The error returned when the admin credentials do not match.
pub fn invalid_credentials_error() -> (r: AppError)
    ensures
        r is Unauthorized,
{
    AppError::Unauthorized { message: String::from_str("invalid username or password") }
}

/// Turn a stored feed row into its outward shape.
pub fn feed_row_to_out(row: FeedRecord) -> (r: FeedOut)
    ensures
        r.id == row.id && r.url == row.url && r.title == row.title && r.site_url == row.site_url,
        r.source_domain == row.source_domain && r.enabled == row.enabled,
        r.fetch_interval_seconds == row.fetch_interval_seconds,
        r.filter_condition == row.filter_condition,
        r.last_fetch_at == row.last_fetch_at,
        r.last_fetch_status == row.last_fetch_status,
        r.fail_count == row.fail_count,
{
    FeedOut {
        id: row.id,
        url: row.url,
        title: row.title,
        site_url: row.site_url,
        source_domain: row.source_domain,
        enabled: row.enabled,
        fetch_interval_seconds: row.fetch_interval_seconds,
        filter_condition: row.filter_condition,
        last_fetch_at: row.last_fetch_at,
        last_fetch_status: row.last_fetch_status,
        fail_count: row.fail_count,
    }
}

/// Whether a (lowercase) pattern occurs anywhere in `s`, ASCII
/// case-insensitively.
pub open spec fn spec_contains_ci(s: Seq<char>, pat: Seq<char>) -> bool {
    first_ci_match(s, pat) < s.len()
}

/// A positional placeholder: a dollar sign directly followed by a digit.
pub open spec fn spec_has_placeholder(s: Seq<char>) -> bool {
    exists|i: int|
        0 <= i < s.len() - 1 && s[i] == '$' && crate::charops::is_ascii_digit_char(
            #[trigger] s[i + 1],
        )
}

/// A feed's filter condition is accepted only when it carries no statement
/// separator or comment marker, no data-changing keyword and no positional
/// placeholder.
pub open spec fn spec_filter_condition_ok(s: Seq<char>) -> bool {
    &&& !spec_contains_ci(s, ";"@)
    &&& !spec_contains_ci(s, "--"@)
    &&& !spec_contains_ci(s, "/*"@)
    &&& !spec_contains_ci(s, "*/"@)
    &&& !spec_contains_ci(s, "drop"@)
    &&& !spec_contains_ci(s, "alter"@)
    &&& !spec_contains_ci(s, "insert"@)
    &&& !spec_contains_ci(s, "update"@)
    &&& !spec_contains_ci(s, "delete"@)
    &&& !spec_has_placeholder(s)
}

/// Whether the text holds a positional placeholder.
fn has_placeholder(s: &str) -> (r: bool)
    ensures
        r == spec_has_placeholder(s@),
{
    let v = crate::charops::str_to_chars(s);
    let n = v.len();
    if n < 2 {
        return false;
    }
    let mut i: usize = 0;
    while i < n - 1
        invariant
            i <= n,
            n >= 2,
            n == v@.len(),
            v@ == s@,
            forall|j: int|
                0 <= j < i ==> !(v@[j] == '$' && crate::charops::is_ascii_digit_char(
                    #[trigger] v@[j + 1],
                )),
        decreases n - i,
    {
        if v[i] == '$' {
            let nxt = v[i + 1] as u32;
            let hit = 48 <= nxt && nxt <= 57;
            proof {
                assert(nxt == v@[i + 1 as int] as u32);
                vstd::utf8::char_u32_cast(v@[i + 1 as int], nxt);
                assert(hit == crate::charops::is_ascii_digit_char(v@[i + 1 as int]));
            }
            if hit {
                proof {
                    assert(v@[i as int] == '$' && crate::charops::is_ascii_digit_char(
                        v@[i + 1 as int],
                    ));
                }
                return true;
            }
        }
        i += 1;
    }
    false
}

/// Check a filter condition against the denylist; Err names the reason.
pub fn validate_filter_condition(condition: &str) -> (r: Result<(), AppError>)
    ensures
        (r is Ok) <==> spec_filter_condition_ok(condition@),
        r is Err ==> (r->Err_0 is BadRequest),
{
    proof {
        reveal_strlit(";");
        reveal_strlit("--");
        reveal_strlit("/*");
        reveal_strlit("*/");
        reveal_strlit("drop");
        reveal_strlit("alter");
        reveal_strlit("insert");
        reveal_strlit("update");
        reveal_strlit("delete");
    }
    if crate::html::contains_ci(condition, ";") || crate::html::contains_ci(condition, "--")
        || crate::html::contains_ci(condition, "/*") || crate::html::contains_ci(
        condition,
        "*/",
    ) {
        return Err(
            AppError::BadRequest {
                message: String::from_str(
                    "the filter condition may not hold a semicolon or comment marker",
                ),
            },
        );
    }
    if crate::html::contains_ci(condition, "drop") || crate::html::contains_ci(
        condition,
        "alter",
    ) || crate::html::contains_ci(condition, "insert") || crate::html::contains_ci(
        condition,
        "update",
    ) || crate::html::contains_ci(condition, "delete") {
        return Err(
            AppError::BadRequest {
                message: String::from_str(
                    "the filter condition must be a boolean expression without data-changing statements",
                ),
            },
        );
    }
    if has_placeholder(condition) {
        return Err(
            AppError::BadRequest {
                message: String::from_str(
                    "the filter condition may not name positional placeholders",
                ),
            },
        );
    }
    Ok(())
}

/// The boolean values a settings string may carry.
pub open spec fn spec_parse_bool(s: Seq<char>) -> Option<bool> {
    if s == "true"@ || s == "1"@ || s == "yes"@ || s == "on"@ {
        Some(true)
    } else if s == "false"@ || s == "0"@ || s == "no"@ || s == "off"@ {
        Some(false)
    } else {
        None
    }
}

/// Read a persisted boolean setting; unknown spellings are None.
pub fn parse_bool_setting(value: &str) -> (r: Option<bool>)
    ensures
        r == spec_parse_bool(value@),
{
    proof {
        reveal_strlit("true");
        reveal_strlit("1");
        reveal_strlit("yes");
        reveal_strlit("on");
        reveal_strlit("false");
        reveal_strlit("0");
        reveal_strlit("no");
        reveal_strlit("off");
    }
    if crate::charops::str_eq(value, "true") || crate::charops::str_eq(value, "1")
        || crate::charops::str_eq(value, "yes") || crate::charops::str_eq(value, "on") {
        Some(true)
    } else if crate::charops::str_eq(value, "false") || crate::charops::str_eq(value, "0")
        || crate::charops::str_eq(value, "no") || crate::charops::str_eq(value, "off") {
        Some(false)
    } else {
        None
    }
}

/// The automatic choice of a similarity-judging provider when none was
/// named: the priority order restricted to the configured ones.
pub fn pick_ai_dedup_provider(deepseek_ok: bool, ollama_ok: bool) -> (r: Option<&'static str>)
    ensures
        deepseek_ok ==> r is Some && r->0@ == ("deepseek")@,
        !deepseek_ok && ollama_ok ==> r is Some && r->0@ == ("ollama")@,
        !deepseek_ok && !ollama_ok ==> r is None,
{
    if deepseek_ok {
        Some("deepseek")
    } else if ollama_ok {
        Some("ollama")
    } else {
        None
    }
}

/// Whether a name is accepted for the similarity-judging provider.
pub fn valid_ai_dedup_provider(name: &str) -> (r: bool)
    ensures
        r == (name@ == ("deepseek")@ || name@ == ("ollama")@),
{
    crate::charops::str_eq(name, "deepseek") || crate::charops::str_eq(name, "ollama")
}


/// The source domain an upsert stores: the ASCII-lowered given domain, or
/// the lowered host the URL parses to when the given one is blank; None
/// when neither yields a non-empty name.
pub open spec fn spec_resolved_domain(
    url_t: Seq<char>,
    given_t: Seq<char>,
) -> Option<Seq<char>> {
    if given_t.len() > 0 {
        Some(crate::text::lower_ascii_seq(given_t))
    } else {
        match crate::urlnorm::parsed_url_of(url_t) {
            Some(p) => match p.host {
                Some(h) => if h.len() > 0 {
                    Some(crate::text::lower_ascii_seq(h))
                } else {
                    None
                },
                None => None,
            },
            None => None,
        }
    }
}

/// Whether an upsert's filter condition passes: absent, blank, or clean
/// against the denylist.
pub open spec fn spec_filter_ok_opt(fc: Option<String>) -> bool {
    match fc {
        Some(raw) => crate::text::spec_trim_ws(raw@).len() == 0 || spec_filter_condition_ok(
            crate::text::spec_trim_ws(raw@),
        ),
        None => true,
    }
}

/// Check and normalize an admin feed upsert: it succeeds exactly when the
/// URL is non-blank, a source domain can be resolved (the given one
/// lowercased, or the URL's host when it is blank), and any filter
/// condition is blank or passes the denylist.
pub fn prepare_feed_upsert(payload: FeedUpsertPayload) -> (r: Result<
    crate::store::FeedUpsertRecord,
    AppError,
>)
    ensures
        (r is Ok) <==> (crate::text::spec_trim_ws(payload.url@).len() > 0
            && (spec_resolved_domain(
            crate::text::spec_trim_ws(payload.url@),
            crate::text::spec_trim_ws(payload.source_domain@),
        ) is Some) && spec_filter_ok_opt(payload.filter_condition)),
        r is Ok ==> (r->Ok_0).source_domain@ == spec_resolved_domain(
            crate::text::spec_trim_ws(payload.url@),
            crate::text::spec_trim_ws(payload.source_domain@),
        )->0,
        r is Ok ==> (r->Ok_0).url@ == crate::text::spec_trim_ws(payload.url@),
        r is Ok ==> (r->Ok_0).title == payload.title && (r->Ok_0).site_url == payload.site_url
            && (r->Ok_0).enabled == payload.enabled && (r->Ok_0).fetch_interval_seconds
            == payload.fetch_interval_seconds,
        r is Ok ==> (match (r->Ok_0).filter_condition {
            Some(c) => (match payload.filter_condition {
                Some(raw) => c@ == crate::text::spec_trim_ws(raw@) && c@.len() > 0
                    && spec_filter_condition_ok(c@),
                None => false,
            }),
            None => (match payload.filter_condition {
                Some(raw) => crate::text::spec_trim_ws(raw@).len() == 0,
                None => true,
            }),
        }),
        r is Err ==> ((r->Err_0 is BadRequest)),
{
    let url = crate::text::trim_ws(payload.url.as_str());
    if url.as_str().unicode_len() == 0 {
        return Err(AppError::BadRequest { message: String::from_str("url is required") });
    }
    let given = crate::text::trim_ws(payload.source_domain.as_str());
    let source_domain: String = if given.as_str().unicode_len() == 0 {
        match crate::urlnorm::infer_source_domain(url.as_str()) {
            Some(h) => h,
            None => {
                return Err(
                    AppError::BadRequest {
                        message: String::from_str(
                            "the source domain cannot be inferred from the URL",
                        ),
                    },
                );
            },
        }
    } else {
        crate::model::lower_ascii(given.as_str())
    };
    if source_domain.as_str().unicode_len() == 0 {
        return Err(
            AppError::BadRequest { message: String::from_str("source_domain is required") },
        );
    }
    let filter_condition: Option<String> = match &payload.filter_condition {
        Some(raw) => {
            let t = crate::text::trim_ws(raw.as_str());
            if t.as_str().unicode_len() == 0 {
                None
            } else {
                match validate_filter_condition(t.as_str()) {
                    Ok(_) => Some(t),
                    Err(e) => {
                        return Err(e);
                    },
                }
            }
        },
        None => None,
    };
    Ok(
        crate::store::FeedUpsertRecord {
            url,
            title: payload.title,
            site_url: payload.site_url,
            source_domain,
            enabled: payload.enabled,
            fetch_interval_seconds: payload.fetch_interval_seconds,
            filter_condition,
        },
    )
}

/// ASCII-lowercase a string, leaving other characters alone.
pub fn lower_ascii(s: &str) -> (r: String)
    ensures
        r@ == s@.map_values(|c: char| crate::charops::ascii_lower(c)),
{
    let v = crate::charops::str_to_chars(s);
    let n = v.len();
    let mut low: Vec<char> = Vec::new();
    let mut i: usize = 0;
    while i < n
        invariant
            i <= n,
            n == v@.len(),
            v@ == s@,
            low@ == v@.take(i as int).map_values(|c: char| crate::charops::ascii_lower(c)),
        decreases n - i,
    {
        let lc = crate::html::lower_ascii_char(v[i]);
        low.push(lc);
        proof {
            assert(v@.take(i + 1 as int).map_values(|c: char| crate::charops::ascii_lower(c))
                =~= v@.take(i as int).map_values(|c: char| crate::charops::ascii_lower(c)).push(
                crate::charops::ascii_lower(v@[i as int]),
            ));
        }
        i += 1;
    }
    proof {
        assert(v@.take(n as int) =~= v@);
    }
    crate::charops::chars_to_string(&low)
}
} // verus!
