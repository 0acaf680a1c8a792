use newsriver::charops::str_eq;
use newsriver::engine::mask_secret;
use newsriver::engine::parse_provider;
use newsriver::engine::truncate_error;
use newsriver::engine::TranslatorProvider;
use newsriver::html::html_unescape_minimal;
use newsriver::html::strip_html_basic;
use newsriver::langrules::contains_cjk;
use newsriver::langrules::should_translate_title;
use newsriver::llmproto::build_translation_input;
use newsriver::llmproto::decimal_permille;
use newsriver::llmproto::generate_signature;
use newsriver::llmproto::parse_decision;
use newsriver::llmproto::parse_translation;
use newsriver::model::parse_bool_setting;
use newsriver::model::validate_filter_condition;
use newsriver::text::jaccard_permille;
use newsriver::text::jaccard_reaches;
use newsriver::text::normalize_title_for_comparison;
use newsriver::text::prepare_title_signature;
use newsriver::text::trim_ws;
use newsriver::urlnorm::normalize_article_url;

#[test]
fn title_signature_is_case_and_spacing_insensitive() {
    let a = prepare_title_signature("Foo Bar");
    let b = prepare_title_signature("foo  bar");
    assert_eq!(a.normalized, b.normalized);
    assert_eq!(a.tokens, b.tokens);
    assert_eq!(a.tokens, vec!["foo".to_string(), "bar".to_string()]);
}

#[test]
fn title_normalization_replaces_punctuation_and_trims() {
    assert_eq!(normalize_title_for_comparison("  Hello, World!  "), "hello world");
    assert_eq!(normalize_title_for_comparison("A--B__C"), "a b c");
    assert_eq!(normalize_title_for_comparison(""), "");
}

#[test]
fn short_tokens_are_dropped_from_signatures() {
    let sig = prepare_title_signature("A to Z map");
    assert_eq!(sig.tokens, vec!["to".to_string(), "map".to_string()]);
}

#[test]
fn jaccard_counts_are_exact() {
    let a = prepare_title_signature("alpha beta gamma");
    let b = prepare_title_signature("alpha beta delta");
    // intersection {alpha, beta}, union {alpha, beta, gamma, delta}
    assert_eq!(jaccard_permille(&a.tokens, &b.tokens), 500);
    assert!(jaccard_reaches(&a.tokens, &b.tokens, 5, 10));
    assert!(!jaccard_reaches(&a.tokens, &b.tokens, 6, 10));
    let empty = prepare_title_signature("");
    assert_eq!(jaccard_permille(&a.tokens, &empty.tokens), 0);
    assert!(!jaccard_reaches(&a.tokens, &empty.tokens, 1, 10));
}

#[test]
fn identical_token_sets_reach_every_threshold() {
    let a = prepare_title_signature("Central bank raises rates by 25 bps");
    let b = prepare_title_signature("central bank RAISES rates by 25 bps");
    assert_eq!(jaccard_permille(&a.tokens, &b.tokens), 1000);
    assert!(jaccard_reaches(&a.tokens, &b.tokens, 9, 10));
}

#[test]
fn tracking_parameters_are_stripped_and_queries_sorted() {
    let got = normalize_article_url("https://a.example.com:443/x/?utm_source=x&b=2&a=1#frag");
    assert_eq!(got.as_deref(), Some("https://a.example.com/x?a=1&b=2"));
}

#[test]
fn url_normalization_is_idempotent_on_strings() {
    for raw in [
        "https://a.example.com:443/x/?utm_source=x&b=2&a=1#frag",
        "http://example.com:80//",
        "https://user:pw@h.example.org/p/q/?z=1&y=2&fbclid=abc",
        "https://example.com/?ref=x",
    ] {
        let once = normalize_article_url(raw).expect("parses");
        let twice = normalize_article_url(&once).expect("still parses");
        assert_eq!(once, twice);
    }
}

#[test]
fn unparseable_urls_are_reported() {
    assert_eq!(normalize_article_url("not a url"), None);
    assert_eq!(normalize_article_url(""), None);
}

#[test]
fn script_and_style_blocks_are_removed() {
    assert_eq!(
        strip_html_basic("<script>var x;</script>Hello <b>world</b>"),
        "Hello world"
    );
    assert_eq!(strip_html_basic("a<style>p{}</style>b"), "ab");
    // an unterminated block swallows the rest of the input
    assert_eq!(strip_html_basic("keep<SCRIPT>lost forever"), "keep");
    assert_eq!(strip_html_basic("  lots   of\n spaces  "), "lots of spaces");
}

#[test]
fn minimal_entities_are_decoded() {
    assert_eq!(html_unescape_minimal("B&amp;M"), "B&M");
    assert_eq!(html_unescape_minimal("&lt;tag&gt;"), "<tag>");
    assert_eq!(html_unescape_minimal("&quot;q&quot; &apos;a&apos;"), "\"q\" 'a'");
    assert_eq!(html_unescape_minimal("&#65;&#x42;"), "AB");
    assert_eq!(html_unescape_minimal("&unknown; stays"), "&unknown; stays");
    assert_eq!(html_unescape_minimal("no ampersand"), "no ampersand");
    assert_eq!(html_unescape_minimal("&#xD800; invalid"), "&#xD800; invalid");
}

#[test]
fn cjk_titles_are_not_translated() {
    assert!(contains_cjk("央行加息"));
    assert!(!should_translate_title("央行加息"));
    assert!(!contains_cjk("plain ascii"));
}

#[test]
fn ascii_dominant_titles_are_translated() {
    assert!(should_translate_title("Market rallies on rate cut"));
    assert!(!should_translate_title("   "));
    assert!(!should_translate_title("12345 !!!"));
    // one ASCII letter among many other letters falls under the ratio
    assert!(!should_translate_title("aйоыэюяйоыэюя"));
}

#[test]
fn filter_conditions_are_screened() {
    assert!(validate_filter_condition("source_domain <> 'spam.example'").is_ok());
    assert!(validate_filter_condition("a; drop table x").is_err());
    assert!(validate_filter_condition("a -- b").is_err());
    assert!(validate_filter_condition("DELETE from x").is_err());
    assert!(validate_filter_condition("id = $1").is_err());
    // any positional placeholder and any bare keyword are refused
    assert!(validate_filter_condition("id = $7").is_err());
    assert!(validate_filter_condition("status = 'delete'").is_err());
    assert!(validate_filter_condition("cost > 5 -- cheap").is_err());
}

#[test]
fn bool_settings_accept_the_documented_spellings() {
    for t in ["true", "1", "yes", "on"] {
        assert_eq!(parse_bool_setting(t), Some(true));
    }
    for f in ["false", "0", "no", "off"] {
        assert_eq!(parse_bool_setting(f), Some(false));
    }
    assert_eq!(parse_bool_setting("TRUE"), None);
    assert_eq!(parse_bool_setting(""), None);
}

#[test]
fn provider_names_parse_loosely() {
    assert_eq!(parse_provider(" DeepSeek "), Some(TranslatorProvider::Deepseek));
    assert_eq!(parse_provider("baidu"), Some(TranslatorProvider::Baidu));
    assert_eq!(parse_provider("OLLAMA\n"), Some(TranslatorProvider::Ollama));
    assert_eq!(parse_provider("other"), None);
    assert_eq!(TranslatorProvider::Deepseek.as_str(), "deepseek");
}

#[test]
fn secrets_are_masked_and_errors_truncated() {
    assert_eq!(mask_secret(""), "");
    assert_eq!(mask_secret("ab"), "\u{2022}\u{2022}\u{2022}\u{2022}");
    assert_eq!(mask_secret("abcdefgh"), "\u{2022}\u{2022}\u{2022}\u{2022}efgh");
    let long = "x".repeat(250);
    assert_eq!(truncate_error(&long).chars().count(), 200);
    assert_eq!(truncate_error("short"), "short");
}

#[test]
fn translation_input_is_framed_exactly() {
    assert_eq!(
        build_translation_input("Rates rise", Some(&"A summary".to_string())),
        "Title: Rates rise\nSummary: A summary"
    );
    assert_eq!(build_translation_input("Rates rise", None), "Title: Rates rise\nSummary:");
}

#[test]
fn fenced_translation_payloads_are_read() {
    let fenced = "```json\n{\"title\": \" 标题 \", \"description\": \"概要\"}\n```";
    let got = parse_translation(fenced).expect("parses");
    assert_eq!(got.title, "标题");
    assert_eq!(got.description.as_deref(), Some("概要"));
    let bare = "{\"title\": \"T\", \"description\": \"   \"}";
    let got2 = parse_translation(bare).expect("parses");
    assert_eq!(got2.title, "T");
    assert_eq!(got2.description, None);
    assert!(parse_translation("not json").is_none());
}

#[test]
fn decision_payloads_carry_confidence_in_thousandths() {
    let content = "{\"is_duplicate\": true, \"reason\": \"same event\", \"confidence\": 0.9}";
    let got = parse_decision(content).expect("parses");
    assert!(got.is_duplicate);
    assert_eq!(got.reason.as_deref(), Some("same event"));
    assert_eq!(got.confidence, Some(900));
    let nodup = parse_decision("{\"is_duplicate\": false}").expect("parses");
    assert!(!nodup.is_duplicate);
    assert_eq!(nodup.confidence, None);
}

#[test]
fn decimal_texts_become_thousandths() {
    assert_eq!(decimal_permille("0.9"), Some(900));
    assert_eq!(decimal_permille("0.85"), Some(850));
    assert_eq!(decimal_permille("1"), Some(1000));
    assert_eq!(decimal_permille("0.1234"), Some(123));
    assert_eq!(decimal_permille("oops"), None);
}

#[test]
fn request_signatures_are_md5_hex() {
    // md5("abc") is a fixed digest; the signature concatenates its inputs
    assert_eq!(generate_signature("a", "b", "c", ""), "900150983cd24fb0d6963f7d28e17f72");
    assert_eq!(
        generate_signature("app", "query", "salt", "secret"),
        format!("{:x}", md5::compute("appquerysaltsecret".as_bytes()))
    );
}

#[test]
fn whitespace_trim_and_string_equality_work() {
    assert_eq!(trim_ws("  a b \t\n"), "a b");
    assert!(str_eq("abc", "abc"));
    assert!(!str_eq("abc", "abd"));
}

#[test]
fn public_api_base_addresses_get_the_api_suffix() {
    assert_eq!(
        newsriver::config::ensure_api_suffix("https://x.example.com///"),
        "https://x.example.com/api"
    );
    assert_eq!(
        newsriver::config::ensure_api_suffix("https://x.example.com/api"),
        "https://x.example.com/api"
    );
    assert_eq!(newsriver::config::format_host_base(" 127.0.0.1:8080 "), "http://127.0.0.1:8080");
    assert_eq!(
        newsriver::config::format_host_base("https://x.example.com"),
        "https://x.example.com"
    );
}

#[test]
fn the_frontend_address_prefers_the_explicit_setting() {
    let config = newsriver::config::AppConfig {
        server: newsriver::config::ServerConfig { bind: "127.0.0.1:8080".to_string() },
        db: newsriver::config::DbConfig { url: String::new(), max_connections: 5 },
        fetcher: newsriver::fetchround::FetcherConfig {
            interval_secs: 60,
            batch_size: 4,
            concurrency: 1,
            request_timeout_secs: 10,
            quick_retry_attempts: 0,
            quick_retry_delay_secs: 0,
        },
        logging: newsriver::config::LoggingConfig { file: String::new(), level: None },
        http_client: newsriver::config::HttpClientConfig { http_proxy: None, https_proxy: None },
        deployment: newsriver::config::DeploymentConfig {
            domain: Some("news.example.com".to_string()),
            public_api_base_url: Some("https://api.example.com/".to_string()),
            backend: newsriver::config::DeploymentBackendConfig { bind_addr: None },
            ssl: None,
        },
        admin: newsriver::config::AdminConfig {
            username: "admin".to_string(),
            password: "SECRET-REDACTED".to_string(),
            session_ttl_secs: 300,
        },
    };
    let public = config.frontend_public_config();
    assert_eq!(public.api_base_url, "https://api.example.com/api");
}

#[test]
fn errors_carry_their_messages() {
    let err = newsriver::model::invalid_credentials_error();
    assert_eq!(err.message(), "invalid username or password");
}

#[test]
fn feed_rows_convert_to_their_outward_shape() {
    let row = newsriver::store::FeedRecord {
        id: 9,
        url: "https://a.example.com/feed".to_string(),
        title: Some("A".to_string()),
        site_url: None,
        source_domain: "a.example.com".to_string(),
        enabled: true,
        fetch_interval_seconds: 600,
        filter_condition: None,
        last_etag: None,
        last_fetch_at: Some(5),
        last_fetch_status: Some(200),
        fail_count: 0,
    };
    let out = newsriver::model::feed_row_to_out(row);
    assert_eq!(out.id, 9);
    assert_eq!(out.last_fetch_at, Some(5));
    assert_eq!(out.last_fetch_status, Some(200));
}

#[test]
fn the_auto_picked_judge_follows_the_priority() {
    assert_eq!(newsriver::model::pick_ai_dedup_provider(true, true), Some("deepseek"));
    assert_eq!(newsriver::model::pick_ai_dedup_provider(false, true), Some("ollama"));
    assert_eq!(newsriver::model::pick_ai_dedup_provider(false, false), None);
    assert!(newsriver::model::valid_ai_dedup_provider("ollama"));
    assert!(!newsriver::model::valid_ai_dedup_provider("other"));
}

#[test]
fn lexicon_service_failures_map_to_translation_errors() {
    let quota = newsriver::llmproto::map_baidu_error(newsriver::llmproto::BaiduError::QuotaExceeded);
    assert!(matches!(quota, newsriver::engine::TranslationError::QuotaExceeded));
    let api = newsriver::llmproto::map_baidu_error(newsriver::llmproto::BaiduError::Api {
        code: "54001".to_string(),
        message: "bad sign".to_string(),
    });
    match api {
        newsriver::engine::TranslationError::Api { code, message } => {
            assert_eq!(code, "54001");
            assert_eq!(message, "bad sign");
        }
        _ => panic!("expected the api kind"),
    }
}
