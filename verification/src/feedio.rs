//! The boundary to the syndication parser: feed bytes go in, plain values
//! come out. Parsing is a pure computation of the bytes, done by feed_rs;
//! each item here only converts its results into the library's shapes.
use vstd::prelude::*;

verus! {

#[verifier::external_type_specification]
#[verifier::external_body]
pub struct ExFeed(feed_rs::model::Feed);

#[verifier::external_type_specification]
#[verifier::external_body]
pub struct ExEntry(feed_rs::model::Entry);

#[verifier::external_type_specification]
#[verifier::external_body]
pub struct ExParseFeedError(feed_rs::parser::ParseFeedError);

/// One link of an entry, as plain values.
pub struct EntryLink {
    pub rel: Option<String>,
    pub href: String,
}

/// Relies on feed_rs::parser::parse: decodes RSS/Atom/JSON feed bytes, a
/// pure function of the bytes.
#[verifier::external_body]
pub(crate) fn parse_feed_bytes(bytes: &Vec<u8>) -> (r: Result<
    feed_rs::model::Feed,
    feed_rs::parser::ParseFeedError,
>)
{
    feed_rs::parser::parse(&bytes[..])
}

/// Relies on feed_rs::model::Feed: reads the feed's title text.
#[verifier::external_body]
pub(crate) fn feed_title(f: &feed_rs::model::Feed) -> (r: Option<String>)
{
    f.title.as_ref().map(|t| t.content.clone())
}

/// Relies on feed_rs::model::Feed: reads the first link's address.
#[verifier::external_body]
pub(crate) fn feed_first_link(f: &feed_rs::model::Feed) -> (r: Option<String>)
{
    f.links.first().map(|l| l.href.clone())
}

/// Relies on feed_rs::model::Feed: moves the entries out.
#[verifier::external_body]
pub(crate) fn feed_entries(f: feed_rs::model::Feed) -> (r: Vec<feed_rs::model::Entry>)
{
    f.entries
}

/// Relies on feed_rs::model::Entry: reads the title text.
#[verifier::external_body]
pub(crate) fn entry_title(e: &feed_rs::model::Entry) -> (r: Option<String>)
{
    e.title.as_ref().map(|t| t.content.clone())
}

/// Relies on feed_rs::model::Entry: reads the links as (rel, href) pairs.
#[verifier::external_body]
pub(crate) fn entry_links(e: &feed_rs::model::Entry) -> (r: Vec<EntryLink>)
{
    e.links.iter().map(
        |l| EntryLink { rel: l.rel.clone(), href: l.href.clone() },
    ).collect()
}

/// Relies on feed_rs::model::Entry: reads the summary text.
#[verifier::external_body]
pub(crate) fn entry_summary(e: &feed_rs::model::Entry) -> (r: Option<String>)
{
    e.summary.as_ref().map(|s| s.content.clone())
}

/// Relies on feed_rs::model::Entry: reads the language tag.
#[verifier::external_body]
pub(crate) fn entry_language(e: &feed_rs::model::Entry) -> (r: Option<String>)
{
    e.language.clone()
}

/// Relies on feed_rs::model::Entry and chrono's timestamp conversion:
/// reads the published time as Unix seconds.
#[verifier::external_body]
pub(crate) fn entry_published_epoch(e: &feed_rs::model::Entry) -> (r: Option<i64>)
{
    e.published.map(|d| d.timestamp())
}

/// Relies on feed_rs::model::Entry and chrono's timestamp conversion:
/// reads the updated time as Unix seconds.
#[verifier::external_body]
pub(crate) fn entry_updated_epoch(e: &feed_rs::model::Entry) -> (r: Option<i64>)
{
    e.updated.map(|d| d.timestamp())
}

} // verus!
