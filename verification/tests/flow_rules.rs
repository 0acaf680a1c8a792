use newsriver::dedup::hist_decide;
use newsriver::dedup::DupReason;
use newsriver::dedup::HistCandidate;
use newsriver::dedup::HistDecision;
use newsriver::dedup::LlmOutcome;
use newsriver::engine::translate_fold;
use newsriver::engine::EngineState;
use newsriver::engine::ProviderOutcome;
use newsriver::engine::TranslationError;
use newsriver::engine::TranslationResult;
use newsriver::engine::TranslatorCredentialsUpdate;
use newsriver::engine::TranslatorProvider;
use newsriver::fetchround::classify_event;
use newsriver::fetchround::normalize_fetcher_config;
use newsriver::fetchround::FetchEvent;
use newsriver::fetchround::FetcherConfig;
use newsriver::fetchround::RoundMark;
use newsriver::pipeline::convert_entry;
use newsriver::pipeline::parse_feed;
use newsriver::pipeline::select_batch;
use newsriver::pipeline::ParsedEntry;
use newsriver::feedio::EntryLink;
use newsriver::store::NewArticle;
use newsriver::store::Store;
use newsriver::text::prepare_title_signature;

fn feed_fixture(store: &mut Store, id_hint: &str) -> i64 {
    // feeds are created directly; ids are chosen above any existing row
    let id = store.next_feed_id;
    store.next_feed_id += 1;
    store.feeds.push(newsriver::store::FeedRecord {
        id,
        url: format!("https://{id_hint}.example.com/feed"),
        title: None,
        site_url: None,
        source_domain: format!("{id_hint}.example.com"),
        enabled: true,
        fetch_interval_seconds: 600,
        filter_condition: None,
        last_etag: None,
        last_fetch_at: None,
        last_fetch_status: None,
        fail_count: 0,
    });
    id
}

fn article(feed_id: i64, title: &str, url: &str, domain: &str) -> NewArticle {
    NewArticle {
        feed_id: Some(feed_id),
        title: title.to_string(),
        url: url.to_string(),
        description: None,
        language: None,
        source_domain: domain.to_string(),
        published_at: 1_700_000_000,
    }
}

#[test]
fn upsert_by_feed_and_url_is_idempotent() {
    let mut store = Store::new();
    let fid = feed_fixture(&mut store, "a");
    let first = store.insert_articles(
        vec![article(fid, "One", "https://a.example.com/1", "a.example.com")],
        1,
    );
    assert_eq!(first.len(), 1);
    let again = store.insert_articles(
        vec![
            article(fid, "One again", "https://a.example.com/1", "a.example.com"),
            article(fid, "Two", "https://a.example.com/2", "a.example.com"),
        ],
        2,
    );
    // the clashing key is passed over; only the new URL is inserted
    assert_eq!(again.len(), 1);
    assert_eq!(store.articles.len(), 2);
    // every row carries itself as its canonical article
    for row in &store.articles {
        assert_eq!(row.canonical_id, Some(row.id));
    }
}

#[test]
fn provenance_rows_are_unique_per_article_and_source_url() {
    let mut store = Store::new();
    let rec = newsriver::store::SourceRecord {
        article_id: 7,
        feed_id: Some(1),
        source_name: None,
        source_url: "https://x.example.com/a".to_string(),
        published_at: 0,
        inserted_at: 0,
        decision: Some("primary".to_string()),
        confidence: None,
    };
    let rec2 = newsriver::store::SourceRecord {
        article_id: 7,
        feed_id: Some(1),
        source_name: None,
        source_url: "https://x.example.com/a".to_string(),
        published_at: 0,
        inserted_at: 0,
        decision: Some("recent_jaccard".to_string()),
        confidence: Some(950),
    };
    store.insert_source(rec);
    store.insert_source(rec2);
    assert_eq!(store.sources.len(), 1);
    assert_eq!(store.sources[0].decision.as_deref(), Some("primary"));
}

#[test]
fn feed_deletion_leaves_no_rows_behind() {
    let mut store = Store::new();
    let fid = feed_fixture(&mut store, "a");
    let other = feed_fixture(&mut store, "b");
    store.insert_articles(
        vec![
            article(fid, "Mine", "https://a.example.com/1", "a.example.com"),
            article(other, "Theirs", "https://b.example.com/1", "b.example.com"),
        ],
        1,
    );
    store.insert_source(newsriver::store::SourceRecord {
        article_id: store.articles[0].id,
        feed_id: Some(fid),
        source_name: None,
        source_url: "https://a.example.com/1".to_string(),
        published_at: 0,
        inserted_at: 0,
        decision: Some("primary".to_string()),
        confidence: None,
    });
    assert!(store.delete_feed_cascade(fid));
    assert!(store.articles.iter().all(|a| a.feed_id != Some(fid)));
    assert!(store.sources.iter().all(|s| s.feed_id != Some(fid)));
    assert!(store.feeds.iter().all(|f| f.id != fid));
    // the other feed is untouched
    assert_eq!(store.articles.len(), 1);
    assert!(!store.delete_feed_cascade(fid));
}

#[test]
fn marks_update_the_feed_row_as_the_round_demands() {
    let mut store = Store::new();
    let fid = feed_fixture(&mut store, "a");
    assert!(store.mark_failure(fid, 100, 500));
    assert_eq!(store.feeds[0].fail_count, 1);
    assert_eq!(store.feeds[0].last_fetch_at, Some(100));
    assert!(store.mark_failure(fid, 110, 500));
    assert_eq!(store.feeds[0].fail_count, 2);
    // the 304 path resets the counter without touching articles
    assert!(store.mark_not_modified(fid, 120, 304));
    assert_eq!(store.feeds[0].fail_count, 0);
    assert_eq!(store.feeds[0].last_fetch_status, Some(304));
    assert!(store.mark_failure(fid, 130, 500));
    assert!(store.mark_success(fid, 140, 200, Some("etag-1".to_string()), None, None));
    assert_eq!(store.feeds[0].fail_count, 0);
    assert_eq!(store.feeds[0].last_fetch_at, Some(140));
    assert_eq!(store.feeds[0].last_etag.as_deref(), Some("etag-1"));
}

#[test]
fn not_modified_answers_skip_parsing() {
    let mark = classify_event(&FetchEvent::NotModified, false);
    assert!(matches!(mark, RoundMark::MarkNotModified { status: 304 }));
    let fail_early = classify_event(&FetchEvent::HttpError { status: Some(502) }, false);
    assert!(matches!(fail_early, RoundMark::MarkFailure { status: 502, persist: false }));
    let fail_last = classify_event(&FetchEvent::ParseError { status: 200 }, true);
    assert!(matches!(fail_last, RoundMark::MarkFailure { status: 200, persist: true }));
}

#[test]
fn fetcher_defaults_replace_zeroes() {
    let c = normalize_fetcher_config(FetcherConfig {
        interval_secs: 0,
        batch_size: 0,
        concurrency: 0,
        request_timeout_secs: 0,
        quick_retry_attempts: 2,
        quick_retry_delay_secs: 0,
    });
    assert_eq!(c.interval_secs, 60);
    assert_eq!(c.batch_size, 4);
    assert_eq!(c.concurrency, 1);
    assert_eq!(c.request_timeout_secs, 10);
    assert_eq!(c.quick_retry_delay_secs, 10);
}

#[test]
fn filter_condition_deletes_only_this_feeds_failing_rows() {
    let mut store = Store::new();
    let fid = feed_fixture(&mut store, "a");
    let other = feed_fixture(&mut store, "spam");
    store.insert_articles(
        vec![
            article(fid, "Ok", "https://a.example.com/1", "a.example.com"),
            article(fid, "Spam", "https://a.example.com/2", "spam.example"),
            article(other, "Elsewhere", "https://spam.example.com/1", "spam.example"),
        ],
        1,
    );
    // the predicate `source_domain <> 'spam.example'`, judged per row
    let keep: Vec<bool> = store.articles.iter().map(|a| a.source_domain != "spam.example").collect();
    let deleted = store.apply_filter_condition(fid, &keep);
    assert_eq!(deleted, 1);
    assert_eq!(store.articles.len(), 2);
    assert!(store.articles.iter().any(|a| a.title == "Ok"));
    assert!(store.articles.iter().any(|a| a.title == "Elsewhere"));
}

#[test]
fn settings_upsert_and_delete_by_key() {
    let mut store = Store::new();
    store.upsert_setting("translation.enabled".to_string(), "true".to_string());
    store.upsert_setting("translation.enabled".to_string(), "false".to_string());
    assert_eq!(store.settings.len(), 1);
    assert_eq!(
        store.get_setting(&"translation.enabled".to_string()).map(|v| v.as_str()),
        Some("false")
    );
    store.delete_setting(&"translation.enabled".to_string());
    assert!(store.get_setting(&"translation.enabled".to_string()).is_none());
}

#[test]
fn due_feeds_are_the_enabled_stale_ones_oldest_first() {
    let mut store = Store::new();
    let fid = feed_fixture(&mut store, "a");
    let fresh = feed_fixture(&mut store, "b");
    let oldest = feed_fixture(&mut store, "c");
    store.feeds[1].last_fetch_at = Some(1_000);
    store.feeds[2].last_fetch_at = Some(10);
    let due = store.due_feeds(1_100, 10);
    // only the never-fetched and the long-stale feed are due, NULLS first
    assert_eq!(due, vec![(fid, None), (oldest, Some(10))]);
    let due_later = store.due_feeds(1_000 + 600, 10);
    assert_eq!(due_later, vec![(fid, None), (oldest, Some(10)), (fresh, Some(1_000))]);
    // the batch size caps the selection
    let capped = store.due_feeds(1_000 + 600, 2);
    assert_eq!(capped, vec![(fid, None), (oldest, Some(10))]);
}

#[test]
fn intra_batch_near_duplicates_keep_only_the_first() {
    let sigs = vec![
        prepare_title_signature("Market rallies!"),
        prepare_title_signature("market rallies"),
        prepare_title_signature("Entirely different story"),
    ];
    let accepted = select_batch(&sigs);
    assert_eq!(accepted, vec![0, 2]);
}

#[test]
fn empty_token_sets_are_dropped_from_batches() {
    let sigs = vec![prepare_title_signature("!!"), prepare_title_signature("Real title")];
    assert_eq!(select_batch(&sigs), vec![1]);
}

fn candidate(id: i64, title: &str) -> HistCandidate {
    let sig = prepare_title_signature(title);
    HistCandidate {
        article_id: id,
        title: title.to_string(),
        url: format!("https://h.example.com/{id}"),
        description: None,
        source_domain: "h.example.com".to_string(),
        published_at: 0,
        tokens: sig.tokens,
    }
}

#[test]
fn historical_jaccard_hits_drop_the_entry_with_confidence() {
    let sig = prepare_title_signature("central bank RAISES rates by 25 bps");
    let cands = vec![candidate(42, "Central bank raises rates by 25 bps")];
    let outcomes = vec![LlmOutcome::Failed, LlmOutcome::Failed, LlmOutcome::Failed];
    let (decision, used) = hist_decide(&sig, &cands, false, false, &outcomes);
    match decision {
        HistDecision::DuplicateOf { index, reason, confidence } => {
            assert_eq!(index, 0);
            assert!(matches!(reason, DupReason::RecentJaccard));
            assert!(confidence.unwrap() >= 900);
        }
        HistDecision::Unique => panic!("expected a duplicate"),
    }
    assert_eq!(used, 0);
}

#[test]
fn llm_accept_drops_the_entry_with_its_reason() {
    let sig = prepare_title_signature("alpha beta gamma");
    // intersection 2 of union 3: inside the band, below the strict bar
    let cands = vec![candidate(7, "alpha beta")];
    let outcomes = vec![
        LlmOutcome::Duplicate { reason: Some("same event".to_string()), confidence: Some(900) },
        LlmOutcome::Failed,
        LlmOutcome::Failed,
    ];
    let (decision, used) = hist_decide(&sig, &cands, true, true, &outcomes);
    match decision {
        HistDecision::DuplicateOf { index, reason, confidence } => {
            assert_eq!(index, 0);
            match reason {
                DupReason::Llm { reason } => assert_eq!(reason.as_deref(), Some("same event")),
                DupReason::RecentJaccard => panic!("expected the model's reason"),
            }
            assert_eq!(confidence, Some(900));
        }
        HistDecision::Unique => panic!("expected a duplicate"),
    }
    assert_eq!(used, 1);
}

#[test]
fn llm_timeouts_count_against_the_budget_and_scanning_continues() {
    let sig = prepare_title_signature("alpha beta gamma");
    let cands = vec![candidate(1, "alpha beta"), candidate(2, "alpha beta gamma")];
    let outcomes = vec![LlmOutcome::Failed, LlmOutcome::Failed, LlmOutcome::Failed];
    let (decision, used) = hist_decide(&sig, &cands, true, true, &outcomes);
    // the first candidate's failed call is counted, the second still matches
    match decision {
        HistDecision::DuplicateOf { index, reason, .. } => {
            assert_eq!(index, 1);
            assert!(matches!(reason, DupReason::RecentJaccard));
        }
        HistDecision::Unique => panic!("expected the second candidate to match"),
    }
    assert_eq!(used, 1);
}

#[test]
fn llm_band_without_a_usable_provider_is_skipped() {
    let sig = prepare_title_signature("alpha beta gamma");
    let cands = vec![candidate(1, "alpha beta")];
    let outcomes = vec![LlmOutcome::Failed, LlmOutcome::Failed, LlmOutcome::Failed];
    let (decision, used) = hist_decide(&sig, &cands, true, false, &outcomes);
    assert!(matches!(decision, HistDecision::Unique));
    assert_eq!(used, 0);
    let (disabled, used2) = hist_decide(&sig, &cands, false, true, &outcomes);
    assert!(matches!(disabled, HistDecision::Unique));
    assert_eq!(used2, 0);
}

#[test]
fn unverified_providers_are_never_in_the_translate_order() {
    let mut engine = EngineState::new();
    assert!(engine.translate_order().is_empty());
    let upd = TranslatorCredentialsUpdate {
        deepseek_api_key: Some("key-123456".to_string()),
        ..Default::default()
    };
    let req = engine.update_credentials(upd).expect("update holds");
    assert!(req.deepseek);
    // configured but unverified: still not in the order
    assert!(engine.translate_order().is_empty());
    engine.apply_verification(TranslatorProvider::Deepseek, Ok(()));
    assert_eq!(engine.translate_order(), vec![TranslatorProvider::Deepseek]);
    // a failed verification blocks use again until one succeeds
    engine.apply_verification(TranslatorProvider::Deepseek, Err("boom".to_string()));
    assert!(engine.translate_order().is_empty());
    let snap = engine.snapshot();
    assert!(!snap.deepseek_configured);
    assert_eq!(snap.deepseek_error.as_deref(), Some("boom"));
    engine.apply_verification(TranslatorProvider::Deepseek, Ok(()));
    assert_eq!(engine.translate_order(), vec![TranslatorProvider::Deepseek]);
}

#[test]
fn selecting_an_unconfigured_provider_is_refused() {
    let mut engine = EngineState::new();
    assert!(engine.set_provider(TranslatorProvider::Ollama).is_err());
    let upd = TranslatorCredentialsUpdate {
        ollama_base_url: Some("http://127.0.0.1:11434".to_string()),
        ollama_model: Some("some-model".to_string()),
        ..Default::default()
    };
    engine.update_credentials(upd).expect("update holds");
    let needs_verify = engine.set_provider(TranslatorProvider::Ollama).expect("configured");
    assert!(needs_verify);
    assert_eq!(engine.provider, TranslatorProvider::Ollama);
}

#[test]
fn credentials_are_trimmed_and_empty_values_clear() {
    let mut engine = EngineState::new();
    let upd = TranslatorCredentialsUpdate {
        deepseek_api_key: Some("  spaced-key  ".to_string()),
        ..Default::default()
    };
    engine.update_credentials(upd).expect("update holds");
    assert_eq!(engine.deepseek_api_key.as_deref(), Some("spaced-key"));
    let clear = TranslatorCredentialsUpdate {
        deepseek_api_key: Some("   ".to_string()),
        ..Default::default()
    };
    engine.update_credentials(clear).expect("update holds");
    assert_eq!(engine.deepseek_api_key, None);
}

#[test]
fn translate_outcomes_fold_like_the_provider_loop() {
    let ok = |t: &str| {
        ProviderOutcome::Translated(TranslationResult { title: t.to_string(), description: None })
    };
    let res = translate_fold(vec![
        ProviderOutcome::Failed(TranslationError::NotConfigured),
        ok("第二"),
    ]);
    assert_eq!(res.unwrap().unwrap().title, "第二");
    let silent = translate_fold(vec![ProviderOutcome::Failed(TranslationError::NotConfigured)]);
    assert!(silent.unwrap().is_none());
    let err = translate_fold(vec![
        ProviderOutcome::Failed(TranslationError::QuotaExceeded),
        ProviderOutcome::Failed(TranslationError::Other { message: "late".to_string() }),
    ]);
    match err {
        Err(TranslationError::Other { message }) => assert_eq!(message, "late"),
        _ => panic!("expected the last real failure"),
    }
    let empty: Vec<ProviderOutcome> = Vec::new();
    assert!(translate_fold(empty).unwrap().is_none());
}

#[test]
fn feed_bytes_parse_into_plain_entries() {
    let rss = br#"<?xml version="1.0"?>
<rss version="2.0"><channel>
<title>Example Feed</title>
<link>https://site.example.com/</link>
<item><title>First post</title><link>https://site.example.com/p/1?utm_source=rss</link>
<description>Some &lt;b&gt;rich&lt;/b&gt; text</description></item>
</channel></rss>"#;
    let parsed = parse_feed(&rss.to_vec()).expect("well-formed feed");
    assert_eq!(parsed.title.as_deref(), Some("Example Feed"));
    assert_eq!(parsed.entries.len(), 1);
    let art = convert_entry(&parsed.entries[0], 5, &"site.example.com".to_string(), 1_700_000_000)
        .expect("entry has title and link");
    assert_eq!(art.title, "First post");
    assert_eq!(art.url, "https://site.example.com/p/1");
    assert_eq!(art.feed_id, Some(5));
    assert!(parse_feed(&b"not xml".to_vec()).is_none());
}

#[test]
fn entries_prefer_the_alternate_link() {
    let entry = ParsedEntry {
        title: Some("  Spaced title &amp; more  ".to_string()),
        links: vec![
            EntryLink { rel: Some("enclosure".to_string()), href: "https://e.example.com/file".to_string() },
            EntryLink { rel: Some("alternate".to_string()), href: "https://e.example.com/post/".to_string() },
        ],
        summary: Some("<p>Hello   world</p>".to_string()),
        language: Some("en".to_string()),
        published: None,
        updated: Some(123),
    };
    let art = convert_entry(&entry, 1, &"e.example.com".to_string(), 999).expect("converts");
    assert_eq!(art.title, "Spaced title & more");
    assert_eq!(art.url, "https://e.example.com/post");
    assert_eq!(art.description.as_deref(), Some("Hello world"));
    assert_eq!(art.published_at, 123);
    let blank = ParsedEntry {
        title: Some("   ".to_string()),
        links: vec![],
        summary: None,
        language: None,
        published: None,
        updated: None,
    };
    assert!(convert_entry(&blank, 1, &"e.example.com".to_string(), 999).is_none());
}

#[test]
fn feed_upsert_keeps_absent_fields_and_defaults_new_rows() {
    let mut store = Store::new();
    let id = store.upsert_feed(newsriver::store::FeedUpsertRecord {
        url: "https://a.example.com/feed".to_string(),
        title: Some("First".to_string()),
        site_url: None,
        source_domain: "a.example.com".to_string(),
        enabled: None,
        fetch_interval_seconds: None,
        filter_condition: None,
    });
    assert!(store.feeds[0].enabled);
    assert_eq!(store.feeds[0].fetch_interval_seconds, 600);
    let id2 = store.upsert_feed(newsriver::store::FeedUpsertRecord {
        url: "https://a.example.com/feed".to_string(),
        title: None,
        site_url: Some("https://a.example.com/".to_string()),
        source_domain: "a.example.com".to_string(),
        enabled: Some(false),
        fetch_interval_seconds: Some(120),
        filter_condition: None,
    });
    assert_eq!(id, id2);
    assert_eq!(store.feeds.len(), 1);
    // the absent title is kept, the given fields replace the stored ones
    assert_eq!(store.feeds[0].title.as_deref(), Some("First"));
    assert_eq!(store.feeds[0].site_url.as_deref(), Some("https://a.example.com/"));
    assert!(!store.feeds[0].enabled);
    assert_eq!(store.feeds[0].fetch_interval_seconds, 120);
}

#[test]
fn clicks_count_up_by_one() {
    let mut store = Store::new();
    let fid = feed_fixture(&mut store, "a");
    let inserted = store.insert_articles(
        vec![article(fid, "One", "https://a.example.com/1", "a.example.com")],
        1,
    );
    assert!(store.increment_click(inserted[0]));
    assert!(store.increment_click(inserted[0]));
    assert_eq!(store.articles[0].click_count, 2);
    assert!(!store.increment_click(inserted[0] + 100));
}

#[test]
fn a_missing_provider_setting_is_written_once() {
    let mut store = Store::new();
    store.ensure_provider_setting("translation.provider".to_string(), "deepseek".to_string());
    assert_eq!(
        store.get_setting(&"translation.provider".to_string()).map(|v| v.as_str()),
        Some("deepseek")
    );
    store.ensure_provider_setting("translation.provider".to_string(), "ollama".to_string());
    assert_eq!(
        store.get_setting(&"translation.provider".to_string()).map(|v| v.as_str()),
        Some("deepseek")
    );
}

#[test]
fn page_windows_are_clamped() {
    assert_eq!(newsriver::store::page_window(0, 20), (1, 20, 0));
    assert_eq!(newsriver::store::page_window(3, 100), (3, 50, 100));
    assert_eq!(newsriver::store::page_window(2, 0), (2, 1, 1));
}

#[test]
fn feed_payloads_are_checked_and_normalized() {
    let ok = newsriver::model::prepare_feed_upsert(newsriver::model::FeedUpsertPayload {
        id: None,
        url: "  https://News.Example.com/rss  ".to_string(),
        source_domain: "".to_string(),
        enabled: None,
        fetch_interval_seconds: None,
        title: None,
        site_url: None,
        filter_condition: Some("  source_domain <> 'spam.example'  ".to_string()),
    })
    .expect("a well-formed payload");
    assert_eq!(ok.url, "https://News.Example.com/rss");
    // the domain is inferred from the URL host
    assert_eq!(ok.source_domain, "news.example.com");
    assert_eq!(ok.filter_condition.as_deref(), Some("source_domain <> 'spam.example'"));
    let blank = newsriver::model::prepare_feed_upsert(newsriver::model::FeedUpsertPayload {
        id: None,
        url: "   ".to_string(),
        source_domain: "x".to_string(),
        enabled: None,
        fetch_interval_seconds: None,
        title: None,
        site_url: None,
        filter_condition: None,
    });
    assert!(blank.is_err());
    let bad_condition = newsriver::model::prepare_feed_upsert(newsriver::model::FeedUpsertPayload {
        id: None,
        url: "https://a.example.com/rss".to_string(),
        source_domain: "A.Example.COM".to_string(),
        enabled: None,
        fetch_interval_seconds: None,
        title: None,
        site_url: None,
        filter_condition: Some("x; drop table".to_string()),
    });
    assert!(bad_condition.is_err());
}

#[test]
fn inferred_domains_come_from_the_url_host() {
    assert_eq!(
        newsriver::urlnorm::infer_source_domain("https://Sub.Example.ORG/path").as_deref(),
        Some("sub.example.org")
    );
    assert_eq!(newsriver::urlnorm::infer_source_domain("not a url"), None);
}

#[test]
fn the_recent_snapshot_is_newest_first_and_capped() {
    let mut store = Store::new();
    let fid = feed_fixture(&mut store, "a");
    let mut arts = Vec::new();
    for (pos, when) in [(1, 50i64), (2, 200), (3, 120)] {
        let mut a = article(fid, "Title here", &format!("https://a.example.com/{pos}"), "a.example.com");
        a.published_at = when;
        arts.push(a);
    }
    let ids = store.insert_articles(arts, 1);
    let recent = store.recent_articles(2);
    assert_eq!(recent, vec![(ids[1], 200), (ids[2], 120)]);
    let all = store.recent_articles(10);
    assert_eq!(all, vec![(ids[1], 200), (ids[2], 120), (ids[0], 50)]);
}

#[test]
fn the_paused_scan_names_the_candidate_in_the_band() {
    let sig = prepare_title_signature("alpha beta gamma");
    let cands = vec![
        candidate(1, "unrelated words entirely"),
        candidate(2, "alpha beta"),
        candidate(3, "alpha beta gamma"),
    ];
    // the scan passes the unrelated candidate and pauses at the in-band one
    match newsriver::dedup::hist_scan(&sig, &cands, true, true, 0, 0) {
        newsriver::dedup::ScanStep::NeedJudgment { index, checks } => {
            assert_eq!(index, 1);
            assert_eq!(checks, 0);
        }
        _ => panic!("expected a consultation pause"),
    }
    // resuming past it reaches the strict match
    match newsriver::dedup::hist_scan(&sig, &cands, true, true, 2, 1) {
        newsriver::dedup::ScanStep::Duplicate { index, checks, .. } => {
            assert_eq!(index, 2);
            assert_eq!(checks, 1);
        }
        _ => panic!("expected the strict hit"),
    }
    // without a usable model the band is passed over silently
    match newsriver::dedup::hist_scan(&sig, &cands, true, false, 0, 0) {
        newsriver::dedup::ScanStep::Duplicate { index, .. } => assert_eq!(index, 2),
        _ => panic!("expected the strict hit"),
    }
}

#[test]
fn the_entry_gate_checks_tokens_then_the_batch() {
    let seen = vec![prepare_title_signature("Market rallies!")];
    let empty = prepare_title_signature("!!");
    assert!(matches!(
        newsriver::pipeline::entry_gate(&empty, &seen),
        newsriver::pipeline::EntryGate::EmptyTokens
    ));
    let dup = prepare_title_signature("market rallies");
    assert!(matches!(
        newsriver::pipeline::entry_gate(&dup, &seen),
        newsriver::pipeline::EntryGate::IntraBatchDuplicate
    ));
    let fresh = prepare_title_signature("Something else entirely");
    assert!(matches!(
        newsriver::pipeline::entry_gate(&fresh, &seen),
        newsriver::pipeline::EntryGate::Proceed
    ));
}
