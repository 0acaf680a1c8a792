//! One feed's fetch round: how an HTTP answer is classified, what each
//! outcome does to the feed row, and the quick-retry schedule.
//!
//! A `304` is a success that only refreshes the fetch time and resets the
//! failure counter; any other non-2xx answer, a network error or a parse
//! error is a failure, persisted only on the round's last attempt.
use vstd::prelude::*;

use crate::store::Store;

verus! {

/// The fetcher's knobs; zeroes mean "use the default".
pub struct FetcherConfig {
    pub interval_secs: u64,
    pub batch_size: u32,
    pub concurrency: u32,
    pub request_timeout_secs: u64,
    pub quick_retry_attempts: u32,
    pub quick_retry_delay_secs: u64,
}

/// Replace unusable zeroes with the working defaults: a 60 second cadence,
/// batches of four, one worker, a ten second request timeout, and a ten
/// second pause between quick retries when any are configured.
pub fn normalize_fetcher_config(config: FetcherConfig) -> (r: FetcherConfig)
    ensures
        r.interval_secs == (if config.interval_secs == 0 {
            60u64
        } else {
            config.interval_secs
        }),
        r.batch_size == (if config.batch_size == 0 {
            4u32
        } else {
            config.batch_size
        }),
        r.concurrency == (if config.concurrency == 0 {
            1u32
        } else {
            config.concurrency
        }),
        r.request_timeout_secs == (if config.request_timeout_secs == 0 {
            10u64
        } else {
            config.request_timeout_secs
        }),
        r.quick_retry_delay_secs == (if config.quick_retry_attempts > 0
            && config.quick_retry_delay_secs == 0 {
            10u64
        } else {
            config.quick_retry_delay_secs
        }),
        r.quick_retry_attempts == config.quick_retry_attempts,
{
    let mut c = config;
    if c.interval_secs == 0 {
        c.interval_secs = 60;
    }
    if c.batch_size == 0 {
        c.batch_size = 4;
    }
    if c.concurrency == 0 {
        c.concurrency = 1;
    }
    if c.request_timeout_secs == 0 {
        c.request_timeout_secs = 10;
    }
    if c.quick_retry_attempts > 0 && c.quick_retry_delay_secs == 0 {
        c.quick_retry_delay_secs = 10;
    }
    c
}

/// What the fetch step of a round produced.
pub enum FetchEvent {
    /// The server answered 304: nothing new.
    NotModified,
    /// The request failed or the server answered outside 2xx.
    HttpError { status: Option<u16> },
    /// A 2xx answer whose body did not parse as a feed.
    ParseError { status: u16 },
    /// A 2xx answer with a parsed feed.
    Parsed { status: u16 },
}

/// What a round does to the feed row for one attempt's event.
pub enum RoundMark {
    /// Refresh the fetch time, reset failures (the 304 path).
    MarkNotModified { status: u16 },
    /// Count a failure against the feed; only the last attempt persists.
    MarkFailure { status: u16, persist: bool },
    /// Proceed to the per-entry pipeline; success is marked after commit.
    Process { status: u16 },
}

/// How many attempts a round makes: one plus the quick retries.
pub open spec fn spec_round_attempts(quick_retry_attempts: u32) -> int {
    1 + quick_retry_attempts
}

/// Whether an attempt (counted from zero) is the round's last, the only
/// one that persists a failure to the feed row.
pub fn is_last_attempt(attempt: u32, quick_retry_attempts: u32) -> (r: bool)
    requires
        attempt <= quick_retry_attempts,
    ensures
        r == (attempt + 1 == spec_round_attempts(quick_retry_attempts)),
{
    attempt == quick_retry_attempts
}

/// Decide what one attempt's event does to the feed row.
pub fn classify_event(event: &FetchEvent, is_last: bool) -> (r: RoundMark)
    ensures
        match *event {
            FetchEvent::NotModified => r == (RoundMark::MarkNotModified { status: 304u16 }),
            FetchEvent::HttpError { status } => r == (RoundMark::MarkFailure {
                status: (match status {
                    Some(s) => s,
                    None => 0u16,
                }),
                persist: is_last,
            }),
            FetchEvent::ParseError { status } => r == (RoundMark::MarkFailure {
                status,
                persist: is_last,
            }),
            FetchEvent::Parsed { status } => r == (RoundMark::Process { status }),
        },
{
    match event {
        FetchEvent::NotModified => RoundMark::MarkNotModified { status: 304 },
        FetchEvent::HttpError { status } => RoundMark::MarkFailure {
            status: (match status {
                Some(s) => *s,
                None => 0,
            }),
            persist: is_last,
        },
        FetchEvent::ParseError { status } => RoundMark::MarkFailure {
            status: *status,
            persist: is_last,
        },
        FetchEvent::Parsed { status } => RoundMark::Process { status: *status },
    }
}

/// Apply a round mark to the feed row. A success path (here the 304 mark)
/// always sets the fetch time and resets the failure counter; a persisted
/// failure steps the counter up by exactly one; a failure on an earlier
/// attempt changes nothing.
pub fn apply_round_mark(store: &mut Store, feed_id: i64, mark: &RoundMark, now: i64) -> (r: bool)
    requires
        old(store).wf(),
        forall|k: int|
            0 <= k < old(store).feeds@.len() ==> (#[trigger] old(store).feeds@[k]).fail_count
                < i64::MAX,
    ensures
        final(store).wf(),
        final(store).articles == old(store).articles,
        final(store).sources == old(store).sources,
        final(store).settings == old(store).settings,
        match *mark {
            RoundMark::MarkNotModified { status } => r == (exists|k: int|
                0 <= k < old(store).feeds@.len() && (#[trigger] old(store).feeds@[k]).id
                    == feed_id) && (r ==> exists|k: int|
                0 <= k < old(store).feeds@.len() && (#[trigger] old(store).feeds@[k]).id
                    == feed_id && final(store).feeds@[k].last_fetch_at == Some(now) && final(store).feeds@[k].fail_count == 0 && final(store).feeds@[k].last_fetch_status == Some(
                    status as i64,
                )),
            RoundMark::MarkFailure { status, persist } => (persist ==> (r == (exists|k: int|
                0 <= k < old(store).feeds@.len() && (#[trigger] old(store).feeds@[k]).id
                    == feed_id) && (r ==> exists|k: int|
                0 <= k < old(store).feeds@.len() && (#[trigger] old(store).feeds@[k]).id
                    == feed_id && final(store).feeds@[k].fail_count == old(store).feeds@[k].fail_count + 1 && final(store).feeds@[k].last_fetch_at == Some(now))))
                && (!persist ==> *final(store) == *old(store)),
            RoundMark::Process { status } => *final(store) == *old(store),
        },
{
    match mark {
        RoundMark::MarkNotModified { status } => {
            let hit = store.mark_not_modified(feed_id, now, *status as i64);
            proof {
                if hit {
                    let k = choose|k: int|
                        0 <= k < old(store).feeds@.len() && (#[trigger] old(store).feeds@[k]).id
                            == feed_id && store.feeds@ == old(store).feeds@.update(
                            k,
                            (crate::store::FeedRecord {
                                last_fetch_at: Some(now),
                                last_fetch_status: Some(*status as i64),
                                fail_count: 0,
                                ..old(store).feeds@[k]
                            }),
                        );
                    assert(store.feeds@[k].last_fetch_at == Some(now));
                }
            }
            hit
        },
        RoundMark::MarkFailure { status, persist } => {
            if *persist {
                let hit = store.mark_failure(feed_id, now, *status as i64);
                proof {
                    if hit {
                        let k = choose|k: int|
                            0 <= k < old(store).feeds@.len() && (
                            #[trigger] old(store).feeds@[k]).id == feed_id && store.feeds@ == old(store).feeds@.update(
                                k,
                                (crate::store::FeedRecord {
                                    last_fetch_at: Some(now),
                                    last_fetch_status: Some(*status as i64),
                                    fail_count: (old(store).feeds@[k].fail_count + 1) as i64,
                                    ..old(store).feeds@[k]
                                }),
                            );
                        assert(store.feeds@[k].fail_count == old(store).feeds@[k].fail_count + 1);
                    }
                }
                hit
            } else {
                false
            }
        },
        RoundMark::Process { status } => true,
    }
}

} // verus!
