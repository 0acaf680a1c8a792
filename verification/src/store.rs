//! The relational store's rules, as a verified in-memory model: feeds,
//! articles, provenance rows and settings, with the uniqueness and
//! referential invariants the schema promises.
//!
//! Every article's `canonical_id` names an existing article with an id no
//! larger than its own; `(feed_id, url)` is unique among articles and
//! `(article_id, source_url)` among provenance rows; deleting a feed leaves
//! no article or provenance row behind. The SQL layer that executes these
//! operations against a database lives outside; this model is what those
//! operations must do.
use vstd::prelude::*;

use crate::charops::str_eq;

verus! {

/// A subscribed feed.
pub struct FeedRecord {
    pub id: i64,
    pub url: String,
    pub title: Option<String>,
    pub site_url: Option<String>,
    pub source_domain: String,
    pub enabled: bool,
    pub fetch_interval_seconds: i64,
    pub filter_condition: Option<String>,
    pub last_etag: Option<String>,
    pub last_fetch_at: Option<i64>,
    pub last_fetch_status: Option<i64>,
    pub fail_count: i64,
}

/// A stored article.
pub struct ArticleRecord {
    pub id: i64,
    pub feed_id: Option<i64>,
    pub title: String,
    pub url: String,
    pub description: Option<String>,
    pub language: Option<String>,
    pub source_domain: String,
    pub published_at: i64,
    pub fetched_at: i64,
    pub click_count: i64,
    pub canonical_id: Option<i64>,
}

/// One provenance row: how a source URL was classified.
pub struct SourceRecord {
    pub article_id: i64,
    pub feed_id: Option<i64>,
    pub source_name: Option<String>,
    pub source_url: String,
    pub published_at: i64,
    pub inserted_at: i64,
    pub decision: Option<String>,
    pub confidence: Option<u32>,
}

/// A new article before insertion.
pub struct NewArticle {
    pub feed_id: Option<i64>,
    pub title: String,
    pub url: String,
    pub description: Option<String>,
    pub language: Option<String>,
    pub source_domain: String,
    pub published_at: i64,
}

/// A key/value setting row.
pub struct SettingRecord {
    pub key: String,
    pub value: String,
}

/// The store's tables.
pub struct Store {
    pub feeds: Vec<FeedRecord>,
    pub articles: Vec<ArticleRecord>,
    pub sources: Vec<SourceRecord>,
    pub settings: Vec<SettingRecord>,
    pub next_feed_id: i64,
    pub next_article_id: i64,
}

pub open spec fn article_key_clash(a: ArticleRecord, b: ArticleRecord) -> bool {
    a.feed_id is Some && a.feed_id == b.feed_id && a.url@ == b.url@
}



/// The rows kept when a feed is deleted.
pub open spec fn keep_feed_pred(feed_id: i64) -> spec_fn(FeedRecord) -> bool {
    |f: FeedRecord| f.id != feed_id
}

pub open spec fn keep_article_pred(feed_id: i64) -> spec_fn(ArticleRecord) -> bool {
    |a: ArticleRecord| a.feed_id != Some(feed_id)
}

pub open spec fn keep_source_pred(feed_id: i64) -> spec_fn(SourceRecord) -> bool {
    |s: SourceRecord| s.feed_id != Some(feed_id)
}

/// Relies on core::mem::take: moves the vector out, leaving an empty one.
#[verifier::external_body]
fn take_vec<T>(v: &mut Vec<T>) -> (r: Vec<T>)
    ensures
        r@ == old(v)@,
        final(v)@ == Seq::<T>::empty(),
{
    core::mem::take(v)
}


/// The stored row an accepted entry becomes.
pub open spec fn spec_row_of(a: NewArticle, id: i64, now: i64) -> ArticleRecord {
    ArticleRecord {
        id,
        feed_id: a.feed_id,
        title: a.title,
        url: a.url,
        description: a.description,
        language: a.language,
        source_domain: a.source_domain,
        published_at: a.published_at,
        fetched_at: now,
        click_count: 0,
        canonical_id: Some(id),
    }
}

/// Whether the table already holds this entry's (feed, url) key.
pub open spec fn spec_key_taken(rows: Seq<ArticleRecord>, a: NewArticle) -> bool {
    exists|k: int|
        0 <= k < rows.len() && (#[trigger] rows[k]).feed_id == a.feed_id && rows[k].url@
            == a.url@
}

/// The rows a batch insert appends: entries are taken in order, an entry
/// whose key is already on the (growing) table is passed over, the others
/// get consecutive fresh ids.
pub open spec fn spec_inserted_rows(
    arts: Seq<NewArticle>,
    rows: Seq<ArticleRecord>,
    next_id: int,
    now: i64,
) -> Seq<ArticleRecord>
    decreases arts.len(),
{
    if arts.len() == 0 {
        Seq::<ArticleRecord>::empty()
    } else {
        let a = arts.first();
        if spec_key_taken(rows, a) {
            spec_inserted_rows(arts.drop_first(), rows, next_id, now)
        } else {
            let row = spec_row_of(a, next_id as i64, now);
            seq![row] + spec_inserted_rows(arts.drop_first(), rows.push(row), next_id + 1, now)
        }
    }
}

impl Store {
    /// An article's id is on the table.
    pub open spec fn has_article_id(&self, id: i64) -> bool {
        exists|k: int| 0 <= k < self.articles@.len() && (#[trigger] self.articles@[k]).id == id
    }

    /// The table invariants.
    pub open spec fn wf(&self) -> bool {
        &&& forall|i: int, j: int|
            0 <= i < j < self.feeds@.len() ==> (#[trigger] self.feeds@[i]).id != (
            #[trigger] self.feeds@[j]).id && self.feeds@[i].url@ != self.feeds@[j].url@
        &&& forall|i: int, j: int|
            0 <= i < j < self.articles@.len() ==> (#[trigger] self.articles@[i]).id != (
            #[trigger] self.articles@[j]).id && !article_key_clash(
                self.articles@[i],
                self.articles@[j],
            )
        &&& forall|i: int, j: int|
            0 <= i < j < self.sources@.len() ==> !((#[trigger] self.sources@[i]).article_id == (
            #[trigger] self.sources@[j]).article_id && self.sources@[i].source_url@
                == self.sources@[j].source_url@)
        &&& forall|i: int|
            0 <= i < self.articles@.len() ==> (match (#[trigger] self.articles@[i]).canonical_id {
                Some(c) => c == self.articles@[i].id,
                None => true,
            })
        &&& forall|i: int|
            0 <= i < self.articles@.len() ==> (#[trigger] self.articles@[i]).id
                < self.next_article_id
        &&& forall|i: int|
            0 <= i < self.feeds@.len() ==> (#[trigger] self.feeds@[i]).id < self.next_feed_id
        &&& forall|i: int, j: int|
            0 <= i < j < self.settings@.len() ==> (#[trigger] self.settings@[i]).key@ != (
            #[trigger] self.settings@[j]).key@
    }

    /// An empty store.
    pub fn new() -> (r: Store)
        ensures
            r.wf(),
            r.feeds@.len() == 0 && r.articles@.len() == 0 && r.sources@.len() == 0
                && r.settings@.len() == 0,
    {
        Store {
            feeds: Vec::new(),
            articles: Vec::new(),
            sources: Vec::new(),
            settings: Vec::new(),
            next_feed_id: 1,
            next_article_id: 1,
        }
    }

    /// The position of the article with a given (feed, url) key.
    fn find_article_by_key(&self, feed_id: i64, url: &String) -> (r: Option<usize>)
        ensures
            match r {
                Some(k) => k < self.articles@.len() && self.articles@[k as int].feed_id == Some(
                    feed_id,
                ) && self.articles@[k as int].url@ == url@,
                None => forall|k: int|
                    0 <= k < self.articles@.len() ==> !((#[trigger] self.articles@[k]).feed_id
                        == Some(feed_id) && self.articles@[k].url@ == url@),
            },
    {
        let n = self.articles.len();
        let mut k: usize = 0;
        while k < n
            invariant
                k <= n,
                n == self.articles@.len(),
                forall|j: int|
                    0 <= j < k ==> !((#[trigger] self.articles@[j]).feed_id == Some(feed_id)
                        && self.articles@[j].url@ == url@),
            decreases n - k,
        {
            let row = &self.articles[k];
            let fid_match = match row.feed_id {
                Some(f) => f == feed_id,
                None => false,
            };
            if fid_match && str_eq(row.url.as_str(), url.as_str()) {
                return Some(k);
            }
            k += 1;
        }
        None
    }

    /// Idempotent batch insert: each entry whose (feed, url) key is free is
    /// appended with a fresh id and its canonical id set to itself; the
    /// others are passed over. Existing rows are never touched.
    pub fn insert_articles(&mut self, arts: Vec<NewArticle>, now: i64) -> (r: Vec<i64>)
        requires
            old(self).wf(),
            forall|k: int| 0 <= k < arts@.len() ==> (#[trigger] arts@[k]).feed_id is Some,
            old(self).next_article_id + arts@.len() <= i64::MAX,
        ensures
            final(self).wf(),
            final(self).feeds == old(self).feeds,
            final(self).sources == old(self).sources,
            final(self).settings == old(self).settings,
            final(self).articles@.len() >= old(self).articles@.len(),
            // existing rows are untouched
            forall|k: int|
                0 <= k < old(self).articles@.len() ==> final(self).articles@[k] == old(
                    self,
                ).articles@[k],
            // every appended row carries its own id as canonical id
            forall|k: int|
                old(self).articles@.len() <= k < final(self).articles@.len() ==> (
                #[trigger] final(self).articles@[k]).canonical_id == Some(
                    final(self).articles@[k].id,
                ),
            // the returned ids are exactly the appended rows, in order
            r@.len() + old(self).articles@.len() == final(self).articles@.len(),
            forall|k: int|
                0 <= k < r@.len() ==> #[trigger] r@[k] == final(self).articles@[old(
                    self,
                ).articles@.len() + k].id,
            // the appended rows are exactly what the batch rules demand
            final(self).articles@ == old(self).articles@ + spec_inserted_rows(
                arts@,
                old(self).articles@,
                old(self).next_article_id as int,
                now,
            ),
    {
        let ghost base = self.articles@;
        let ghost all_arts = arts@;
        let n = arts.len();
        let mut inserted: Vec<i64> = Vec::new();
        let mut rest = arts;
        let mut i: usize = 0;
        proof {
            assert(self.articles@ =~= base + Seq::<ArticleRecord>::empty());
        }
        while rest.len() > 0
            invariant
                self.wf(),
                i + rest@.len() == n,
                all_arts.len() == n,
                rest@ == all_arts.skip(i as int),
                spec_inserted_rows(all_arts, base, old(self).next_article_id as int, now)
                    == self.articles@.skip(base.len() as int) + spec_inserted_rows(
                    rest@,
                    self.articles@,
                    self.next_article_id as int,
                    now,
                ),
                self.feeds == old(self).feeds,
                self.sources == old(self).sources,
                self.settings == old(self).settings,
                forall|k: int| 0 <= k < rest@.len() ==> (#[trigger] rest@[k]).feed_id is Some,
                self.next_article_id + rest@.len() <= i64::MAX,
                self.articles@.len() >= base.len(),
                forall|k: int| 0 <= k < base.len() ==> self.articles@[k] == base[k],
                forall|k: int|
                    base.len() <= k < self.articles@.len() ==> (
                    #[trigger] self.articles@[k]).canonical_id == Some(self.articles@[k].id),
                inserted@.len() + base.len() == self.articles@.len(),
                forall|k: int|
                    0 <= k < inserted@.len() ==> #[trigger] inserted@[k] == self.articles@[
                        base.len() + k].id,
            decreases rest@.len(),
        {
            proof {
                assert(all_arts.skip(i as int).first() == all_arts[i as int]);
                assert(all_arts.skip(i as int).drop_first() =~= all_arts.skip(i + 1 as int));
            }
            let art = rest.remove(0);
            let ghost gart = art;
            let fid = match art.feed_id {
                Some(f) => f,
                None => 0,
            };
            let clash = self.find_article_by_key(fid, &art.url);
            proof {
                match clash {
                    Some(kk) => {
                        assert(spec_key_taken(self.articles@, gart)) by {
                            assert((#[trigger] self.articles@[kk as int]).feed_id == Some(fid)
                                && self.articles@[kk as int].url@ == gart.url@);
                            assert(gart.feed_id == Some(fid));
                        }
                    },
                    None => {
                        assert(!spec_key_taken(self.articles@, gart)) by {
                            if spec_key_taken(self.articles@, gart) {
                                let w = choose|w: int|
                                    0 <= w < self.articles@.len() && (
                                    #[trigger] self.articles@[w]).feed_id == gart.feed_id
                                        && self.articles@[w].url@ == gart.url@;
                                assert(self.articles@[w].feed_id == Some(fid));
                            }
                        }
                    },
                }
            }
            match clash {
                Some(_) => {},
                None => {
                    let id = self.next_article_id;
                    let ghost pre = self.articles@;
                    let row = ArticleRecord {
                        id,
                        feed_id: art.feed_id,
                        title: art.title,
                        url: art.url,
                        description: art.description,
                        language: art.language,
                        source_domain: art.source_domain,
                        published_at: art.published_at,
                        fetched_at: now,
                        click_count: 0,
                        canonical_id: Some(id),
                    };
                    let ghost grow = spec_row_of(gart, id, now);
                    self.articles.push(row);
                    self.next_article_id = id + 1;
                    inserted.push(id);
                    proof {
                        assert(self.articles@ =~= pre.push(self.articles@.last()));
                        assert(self.articles@.last() == grow);
                        assert(self.articles@.skip(base.len() as int) =~= pre.skip(
                            base.len() as int,
                        ).push(grow));
                        assert(pre.skip(base.len() as int).push(grow) + spec_inserted_rows(
                            all_arts.skip(i + 1 as int),
                            pre.push(grow),
                            id + 1 as int,
                            now,
                        ) =~= pre.skip(base.len() as int) + (seq![grow] + spec_inserted_rows(
                            all_arts.skip(i + 1 as int),
                            pre.push(grow),
                            id + 1 as int,
                            now,
                        )));
                        assert forall|a: int, b: int|
                            0 <= a < b < self.articles@.len() implies (
                        #[trigger] self.articles@[a]).id != (#[trigger] self.articles@[b]).id
                            && !article_key_clash(self.articles@[a], self.articles@[b]) by {
                            if b == self.articles@.len() - 1 {
                                assert(self.articles@[a] == pre[a]);
                            }
                        }
                        assert forall|a: int|
                            0 <= a < self.articles@.len() implies (match (
                        #[trigger] self.articles@[a]).canonical_id {
                            Some(c) => c == self.articles@[a].id,
                            None => true,
                        }) by {
                            if a < pre.len() {
                                assert(self.articles@[a] == pre[a]);
                            }
                        }
                    }
                },
            }
            i += 1;
        }
        inserted
    }

    /// Record a provenance row; a second row for the same
    /// (article, source URL) pair is passed over.
    pub fn insert_source(&mut self, rec: SourceRecord)
        requires
            old(self).wf(),
        ensures
            final(self).wf(),
            final(self).feeds == old(self).feeds,
            final(self).articles == old(self).articles,
            final(self).settings == old(self).settings,
            // appended unless the key is taken
            (exists|k: int|
                0 <= k < old(self).sources@.len() && (#[trigger] old(self).sources@[k]).article_id
                    == rec.article_id && old(self).sources@[k].source_url@ == rec.source_url@)
                ==> final(self).sources == old(self).sources,
            !(exists|k: int|
                0 <= k < old(self).sources@.len() && (#[trigger] old(self).sources@[k]).article_id
                    == rec.article_id && old(self).sources@[k].source_url@ == rec.source_url@)
                ==> final(self).sources@ == old(self).sources@.push(rec),
    {
        let n = self.sources.len();
        let mut k: usize = 0;
        while k < n
            invariant
                *self == *old(self),
                self.wf(),
                k <= n,
                n == self.sources@.len(),
                forall|j: int|
                    0 <= j < k ==> !((#[trigger] self.sources@[j]).article_id == rec.article_id
                        && self.sources@[j].source_url@ == rec.source_url@),
            decreases n - k,
        {
            let row = &self.sources[k];
            if row.article_id == rec.article_id && str_eq(
                row.source_url.as_str(),
                rec.source_url.as_str(),
            ) {
                proof {
                    assert(self.sources@[k as int].article_id == rec.article_id
                        && self.sources@[k as int].source_url@ == rec.source_url@);
                }
                return ;
            }
            k += 1;
        }
        let ghost pre = self.sources@;
        self.sources.push(rec);
        proof {
            assert forall|a: int, b: int| 0 <= a < b < self.sources@.len() implies !((
            #[trigger] self.sources@[a]).article_id == (#[trigger] self.sources@[b]).article_id
                && self.sources@[a].source_url@ == self.sources@[b].source_url@) by {
                if b == self.sources@.len() - 1 {
                    assert(self.sources@[a] == pre[a]);
                }
            }
        }
    }

    /// Delete a feed and everything it produced, as one transaction:
    /// provenance rows first, then articles, then the feed row. Nothing of
    /// the feed remains; rows of other feeds are untouched.
    pub fn delete_feed_cascade(&mut self, feed_id: i64) -> (r: bool)
        requires
            old(self).wf(),
        ensures
            final(self).wf(),
            final(self).settings == old(self).settings,
            r == (exists|k: int|
                0 <= k < old(self).feeds@.len() && (#[trigger] old(self).feeds@[k]).id
                    == feed_id),
            !r ==> final(self).feeds == old(self).feeds && final(self).articles == old(
                self,
            ).articles && final(self).sources == old(self).sources,
            r ==> final(self).feeds@ == old(self).feeds@.filter(keep_feed_pred(feed_id)),
            r ==> final(self).articles@ == old(self).articles@.filter(
                keep_article_pred(feed_id),
            ),
            r ==> final(self).sources@ == old(self).sources@.filter(keep_source_pred(feed_id)),
            // the cascade leaves no article or provenance row of this feed
            forall|k: int|
                0 <= k < final(self).articles@.len() ==> r ==> (
                #[trigger] final(self).articles@[k]).feed_id != Some(feed_id),
            forall|k: int|
                0 <= k < final(self).sources@.len() ==> r ==> (
                #[trigger] final(self).sources@[k]).feed_id != Some(feed_id),
    {
        broadcast use vstd::prelude::Seq::lemma_filter_push;

        let n = self.feeds.len();
        let mut found = false;
        let mut k: usize = 0;
        while k < n
            invariant
                k <= n,
                n == self.feeds@.len(),
                found == exists|j: int|
                    0 <= j < k && (#[trigger] self.feeds@[j]).id == feed_id,
            decreases n - k,
        {
            if self.feeds[k].id == feed_id {
                found = true;
                proof {
                    assert(self.feeds@[k as int].id == feed_id);
                }
            }
            k += 1;
        }
        if !found {
            return false;
        }
        let mut new_sources: Vec<SourceRecord> = Vec::new();
        let mut rest_s = take_vec(&mut self.sources);
        let ghost all_s = rest_s@;
        let total_s = rest_s.len();
        proof {
            assert(all_s.take(0).filter(keep_source_pred(feed_id)) =~= Seq::<
                SourceRecord,
            >::empty());
        }
        let mut i: usize = 0;
        while rest_s.len() > 0
            invariant
                total_s == all_s.len(),
                i + rest_s@.len() == all_s.len(),
                rest_s@ == all_s.skip(i as int),
                new_sources@ == all_s.take(i as int).filter(keep_source_pred(feed_id)),
            decreases rest_s@.len(),
        {
            proof {
                assert(all_s.skip(i as int).first() == all_s[i as int]);
                assert(all_s.skip(i as int).drop_first() =~= all_s.skip(i + 1 as int));
                assert(all_s.take(i + 1 as int) =~= all_s.take(i as int).push(all_s[i as int]));
                all_s.take(i as int).lemma_filter_push(
                    all_s[i as int],
                    keep_source_pred(feed_id),
                );
            }
            let row = rest_s.remove(0);
            let keep = match row.feed_id {
                Some(f) => f != feed_id,
                None => true,
            };
            proof {
                assert(keep == keep_source_pred(feed_id)(all_s[i as int]));
            }
            if keep {
                new_sources.push(row);
            }
            i += 1;
        }
        proof {
            assert(all_s.take(i as int) =~= all_s);
        }
        self.sources = new_sources;
        let mut new_articles: Vec<ArticleRecord> = Vec::new();
        let mut rest_a = take_vec(&mut self.articles);
        let ghost all_a = rest_a@;
        let total_a = rest_a.len();
        proof {
            assert(all_a.take(0).filter(keep_article_pred(feed_id)) =~= Seq::<
                ArticleRecord,
            >::empty());
        }
        let mut j: usize = 0;
        while rest_a.len() > 0
            invariant
                total_a == all_a.len(),
                j + rest_a@.len() == all_a.len(),
                rest_a@ == all_a.skip(j as int),
                new_articles@ == all_a.take(j as int).filter(keep_article_pred(feed_id)),
            decreases rest_a@.len(),
        {
            proof {
                assert(all_a.skip(j as int).first() == all_a[j as int]);
                assert(all_a.skip(j as int).drop_first() =~= all_a.skip(j + 1 as int));
                assert(all_a.take(j + 1 as int) =~= all_a.take(j as int).push(all_a[j as int]));
                all_a.take(j as int).lemma_filter_push(
                    all_a[j as int],
                    keep_article_pred(feed_id),
                );
            }
            let row = rest_a.remove(0);
            let keep = match row.feed_id {
                Some(f) => f != feed_id,
                None => true,
            };
            proof {
                assert(keep == keep_article_pred(feed_id)(all_a[j as int]));
            }
            if keep {
                new_articles.push(row);
            }
            j += 1;
        }
        proof {
            assert(all_a.take(j as int) =~= all_a);
        }
        self.articles = new_articles;
        let mut new_feeds: Vec<FeedRecord> = Vec::new();
        let mut rest_f = take_vec(&mut self.feeds);
        let ghost all_f = rest_f@;
        let total_f = rest_f.len();
        proof {
            assert(all_f.take(0).filter(keep_feed_pred(feed_id)) =~= Seq::<
                FeedRecord,
            >::empty());
        }
        let mut w: usize = 0;
        while rest_f.len() > 0
            invariant
                total_f == all_f.len(),
                w + rest_f@.len() == all_f.len(),
                rest_f@ == all_f.skip(w as int),
                new_feeds@ == all_f.take(w as int).filter(keep_feed_pred(feed_id)),
            decreases rest_f@.len(),
        {
            proof {
                assert(all_f.skip(w as int).first() == all_f[w as int]);
                assert(all_f.skip(w as int).drop_first() =~= all_f.skip(w + 1 as int));
                assert(all_f.take(w + 1 as int) =~= all_f.take(w as int).push(all_f[w as int]));
                all_f.take(w as int).lemma_filter_push(all_f[w as int], keep_feed_pred(feed_id));
            }
            let row = rest_f.remove(0);
            let keep = row.id != feed_id;
            proof {
                assert(keep == keep_feed_pred(feed_id)(all_f[w as int]));
            }
            if keep {
                new_feeds.push(row);
            }
            w += 1;
        }
        proof {
            assert(all_f.take(w as int) =~= all_f);
        }
        self.feeds = new_feeds;
        proof {
            lemma_filter_wf_preserved(*old(self), *self, feed_id);
            all_a.filter_lemma(keep_article_pred(feed_id));
            all_s.filter_lemma(keep_source_pred(feed_id));
            assert forall|k: int|
                0 <= k < self.articles@.len() implies (#[trigger] self.articles@[k]).feed_id
                    != Some(feed_id) by {
                assert(keep_article_pred(feed_id)(self.articles@[k]));
            }
            assert forall|k: int|
                0 <= k < self.sources@.len() implies (#[trigger] self.sources@[k]).feed_id
                    != Some(feed_id) by {
                assert(keep_source_pred(feed_id)(self.sources@[k]));
            }
        }
        true
    }
}

/// A strictly increasing embedding of filtered positions into the source
/// sequence: each kept row comes from a source row, in order.
pub open spec fn filter_embedding_ok<A>(
    s: Seq<A>,
    p: spec_fn(A) -> bool,
    emb: spec_fn(int) -> int,
) -> bool {
    &&& forall|i: int|
        0 <= i < s.filter(p).len() ==> 0 <= #[trigger] emb(i) < s.len() && s[emb(i)] == s.filter(
            p,
        )[i] && p(s[emb(i)])
    &&& forall|i: int, j: int| 0 <= i < j < s.filter(p).len() ==> #[trigger] emb(i) < #[trigger] emb(j)
}

pub proof fn lemma_filter_embedding<A>(s: Seq<A>, p: spec_fn(A) -> bool)
    ensures
        exists|emb: spec_fn(int) -> int| filter_embedding_ok(s, p, emb),
    decreases s.len(),
{
    broadcast use vstd::prelude::Seq::lemma_filter_push;

    if s.len() == 0 {
        let emb = |i: int| 0int;
        assert(s.filter(p) =~= Seq::<A>::empty());
        assert(filter_embedding_ok(s, p, emb));
    } else {
        lemma_filter_embedding(s.drop_last(), p);
        let emb0 = choose|emb0: spec_fn(int) -> int| filter_embedding_ok(s.drop_last(), p, emb0);
        assert(s.drop_last().push(s.last()) =~= s);
        if p(s.last()) {
            let m = s.drop_last().filter(p).len() as int;
            let emb = |i: int|
                if i < m {
                    emb0(i)
                } else {
                    s.len() - 1
                };
            assert forall|i: int|
                0 <= i < s.filter(p).len() implies 0 <= #[trigger] emb(i) < s.len() && s[emb(i)]
                    == s.filter(p)[i] && p(s[emb(i)]) by {
                if i < m {
                    assert(s.drop_last()[emb0(i)] == s[emb0(i)]);
                }
            }
            assert(filter_embedding_ok(s, p, emb));
        } else {
            assert forall|i: int|
                0 <= i < s.filter(p).len() implies 0 <= #[trigger] emb0(i) < s.len() && s[emb0(i)]
                    == s.filter(p)[i] && p(s[emb0(i)]) by {
                assert(s.drop_last()[emb0(i)] == s[emb0(i)]);
            }
            assert(filter_embedding_ok(s, p, emb0));
        }
    }
}

/// A pairwise property of distinct rows survives filtering.
pub proof fn lemma_filter_pairwise<A>(
    s: Seq<A>,
    p: spec_fn(A) -> bool,
    r: spec_fn(A, A) -> bool,
)
    requires
        forall|i: int, j: int| 0 <= i < j < s.len() ==> r(#[trigger] s[i], #[trigger] s[j]),
    ensures
        forall|i: int, j: int|
            0 <= i < j < s.filter(p).len() ==> r(
                #[trigger] s.filter(p)[i],
                #[trigger] s.filter(p)[j],
            ),
{
    lemma_filter_embedding(s, p);
    let emb = choose|emb: spec_fn(int) -> int| filter_embedding_ok(s, p, emb);
    assert forall|i: int, j: int|
        0 <= i < j < s.filter(p).len() implies r(
            #[trigger] s.filter(p)[i],
            #[trigger] s.filter(p)[j],
        ) by {
        assert(emb(i) < emb(j));
        assert(s[emb(i)] == s.filter(p)[i]);
        assert(s[emb(j)] == s.filter(p)[j]);
    }
}

/// A rowwise property survives filtering.
pub proof fn lemma_filter_rowwise<A>(s: Seq<A>, p: spec_fn(A) -> bool, q: spec_fn(A) -> bool)
    requires
        forall|i: int| 0 <= i < s.len() ==> q(#[trigger] s[i]),
    ensures
        forall|i: int| 0 <= i < s.filter(p).len() ==> q(#[trigger] s.filter(p)[i]),
{
    lemma_filter_embedding(s, p);
    let emb = choose|emb: spec_fn(int) -> int| filter_embedding_ok(s, p, emb);
    assert forall|i: int| 0 <= i < s.filter(p).len() implies q(#[trigger] s.filter(p)[i]) by {
        assert(s[emb(i)] == s.filter(p)[i]);
    }
}

/// Filtering rows out preserves every table invariant: surviving rows were
/// all present before, in the same relative order.
proof fn lemma_filter_wf_preserved(pre: Store, post: Store, feed_id: i64)
    requires
        pre.wf(),
        post.feeds@ == pre.feeds@.filter(keep_feed_pred(feed_id)),
        post.articles@ == pre.articles@.filter(keep_article_pred(feed_id)),
        post.sources@ == pre.sources@.filter(keep_source_pred(feed_id)),
        post.settings == pre.settings,
        post.next_feed_id == pre.next_feed_id,
        post.next_article_id == pre.next_article_id,
    ensures
        post.wf(),
{
    let fp = keep_feed_pred(feed_id);
    let ap = keep_article_pred(feed_id);
    let sp = keep_source_pred(feed_id);
    lemma_filter_pairwise(
        pre.feeds@,
        fp,
        |a: FeedRecord, b: FeedRecord| a.id != b.id && a.url@ != b.url@,
    );
    lemma_filter_pairwise(
        pre.articles@,
        ap,
        |a: ArticleRecord, b: ArticleRecord| a.id != b.id && !article_key_clash(a, b),
    );
    lemma_filter_pairwise(
        pre.sources@,
        sp,
        |a: SourceRecord, b: SourceRecord|
            !(a.article_id == b.article_id && a.source_url@ == b.source_url@),
    );
    lemma_filter_rowwise(
        pre.articles@,
        ap,
        |a: ArticleRecord| (match a.canonical_id {
            Some(cc) => cc == a.id,
            None => true,
        }) && a.id < pre.next_article_id,
    );
    lemma_filter_rowwise(pre.feeds@, fp, |f: FeedRecord| f.id < pre.next_feed_id);
}

/// Every article's canonical id names an existing article and is at most
/// the article's own id.
pub proof fn lemma_canonical_integrity(s: Store)
    requires
        s.wf(),
    ensures
        forall|i: int|
            0 <= i < s.articles@.len() ==> (match (#[trigger] s.articles@[i]).canonical_id {
                Some(c) => c <= s.articles@[i].id && s.has_article_id(c),
                None => true,
            }),
{
    assert forall|i: int|
        0 <= i < s.articles@.len() implies (match (#[trigger] s.articles@[i]).canonical_id {
        Some(c) => c <= s.articles@[i].id && s.has_article_id(c),
        None => true,
    }) by {
        match s.articles@[i].canonical_id {
            Some(c) => {
                assert(c == s.articles@[i].id);
                assert(s.has_article_id(c));
            },
            None => {},
        }
    }
}


/// Whether a feed is due: enabled, and never fetched or fetched at least
/// its interval ago.
pub open spec fn spec_feed_due(f: FeedRecord, now: i64) -> bool {
    f.enabled && (match f.last_fetch_at {
        Some(t) => t + f.fetch_interval_seconds <= now,
        None => true,
    })
}

/// The surviving rows after a feed's filter condition ran: rows of other
/// feeds always stay; rows of this feed stay when the predicate held of
/// them, given per row.
pub open spec fn spec_filter_rows(
    arts: Seq<ArticleRecord>,
    feed_id: i64,
    keep: Seq<bool>,
) -> Seq<ArticleRecord>
    decreases arts.len(),
{
    if arts.len() == 0 {
        Seq::<ArticleRecord>::empty()
    } else {
        let head: Seq<ArticleRecord> = if arts.first().feed_id != Some(feed_id) || keep.first() {
            seq![arts.first()]
        } else {
            Seq::<ArticleRecord>::empty()
        };
        head + spec_filter_rows(arts.drop_first(), feed_id, keep.drop_first())
    }
}

proof fn lemma_filter_rows_sub(
    arts: Seq<ArticleRecord>,
    feed_id: i64,
    keep: Seq<bool>,
    q: spec_fn(ArticleRecord) -> bool,
    r: spec_fn(ArticleRecord, ArticleRecord) -> bool,
)
    requires
        forall|i: int| 0 <= i < arts.len() ==> q(#[trigger] arts[i]),
        forall|i: int, j: int| 0 <= i < j < arts.len() ==> r(#[trigger] arts[i], #[trigger] arts[j]),
    ensures
        forall|i: int|
            0 <= i < spec_filter_rows(arts, feed_id, keep).len() ==> q(
                #[trigger] spec_filter_rows(arts, feed_id, keep)[i],
            ),
        forall|i: int, j: int|
            0 <= i < j < spec_filter_rows(arts, feed_id, keep).len() ==> r(
                #[trigger] spec_filter_rows(arts, feed_id, keep)[i],
                #[trigger] spec_filter_rows(arts, feed_id, keep)[j],
            ),
    decreases arts.len(),
{
    if arts.len() > 0 {
        assert(forall|i: int|
            0 <= i < arts.drop_first().len() ==> #[trigger] arts.drop_first()[i] == arts[i + 1]);
        lemma_filter_rows_sub(arts.drop_first(), feed_id, keep.drop_first(), q, r);
        let out = spec_filter_rows(arts, feed_id, keep);
        let rest = spec_filter_rows(arts.drop_first(), feed_id, keep.drop_first());
        if arts.first().feed_id != Some(feed_id) || keep.first() {
            assert(out =~= seq![arts.first()] + rest);
            assert forall|i: int, j: int| 0 <= i < j < out.len() implies r(
                #[trigger] out[i],
                #[trigger] out[j],
            ) by {
                if i == 0 {
                    // the later row comes from the tail of the source
                    assert(out[j] == rest[j - 1]);
                    lemma_filter_rows_membership(arts.drop_first(), feed_id, keep.drop_first());
                    assert(arts.drop_first().contains(rest[j - 1]));
                    let w = choose|w: int|
                        0 <= w < arts.drop_first().len() && arts.drop_first()[w] == rest[j - 1];
                    assert(arts.drop_first()[w] == arts[w + 1]);
                    assert(r(arts[0], arts[w + 1]));
                    assert(out[0] == arts[0]);
                } else {
                    assert(r(rest[i - 1], rest[j - 1]));
                }
            }
        } else {
            assert(out =~= rest);
        }
    }
}

proof fn lemma_filter_rows_membership(
    arts: Seq<ArticleRecord>,
    feed_id: i64,
    keep: Seq<bool>,
)
    ensures
        forall|i: int|
            0 <= i < spec_filter_rows(arts, feed_id, keep).len() ==> arts.contains(
                #[trigger] spec_filter_rows(arts, feed_id, keep)[i],
            ),
    decreases arts.len(),
{
    if arts.len() > 0 {
        lemma_filter_rows_membership(arts.drop_first(), feed_id, keep.drop_first());
        let out = spec_filter_rows(arts, feed_id, keep);
        let rest = spec_filter_rows(arts.drop_first(), feed_id, keep.drop_first());
        assert forall|i: int| 0 <= i < out.len() implies arts.contains(#[trigger] out[i]) by {
            let head_len: int = if arts.first().feed_id != Some(feed_id) || keep.first() {
                1
            } else {
                0
            };
            if i < head_len {
                assert(out[i] == arts[0]);
            } else {
                assert(out[i] == rest[i - head_len]);
                assert(arts.drop_first().contains(rest[i - head_len]));
                let w = choose|w: int|
                    0 <= w < arts.drop_first().len() && #[trigger] arts.drop_first()[w] == rest[i
                        - head_len];
                assert(arts[w + 1] == rest[i - head_len]);
            }
        }
    }
}

impl Store {
    /// The position of a feed row by id.
    fn find_feed(&self, feed_id: i64) -> (r: Option<usize>)
        ensures
            match r {
                Some(k) => k < self.feeds@.len() && self.feeds@[k as int].id == feed_id,
                None => forall|k: int|
                    0 <= k < self.feeds@.len() ==> (#[trigger] self.feeds@[k]).id != feed_id,
            },
    {
        let n = self.feeds.len();
        let mut k: usize = 0;
        while k < n
            invariant
                k <= n,
                n == self.feeds@.len(),
                forall|j: int| 0 <= j < k ==> (#[trigger] self.feeds@[j]).id != feed_id,
            decreases n - k,
        {
            if self.feeds[k].id == feed_id {
                return Some(k);
            }
            k += 1;
        }
        None
    }

    /// Replace one feed row, keeping every other row in place.
    fn replace_feed(&mut self, k: usize, row: FeedRecord)
        requires
            old(self).wf(),
            k < old(self).feeds@.len(),
            row.id == old(self).feeds@[k as int].id,
            row.url@ == old(self).feeds@[k as int].url@,
        ensures
            final(self).wf(),
            final(self).feeds@ == old(self).feeds@.update(k as int, row),
            final(self).articles == old(self).articles,
            final(self).sources == old(self).sources,
            final(self).settings == old(self).settings,
    {
        let ghost pre = self.feeds@;
        let _ = self.feeds.remove(k);
        self.feeds.insert(k, row);
        proof {
            assert(self.feeds@ =~= pre.update(k as int, row));
            assert forall|i: int, j: int|
                0 <= i < j < self.feeds@.len() implies (#[trigger] self.feeds@[i]).id != (
            #[trigger] self.feeds@[j]).id && self.feeds@[i].url@ != self.feeds@[j].url@ by {
                assert(pre[i].id != pre[j].id && pre[i].url@ != pre[j].url@);
            }
        }
    }

    /// A successful round: fetch time and status set, etag stored, title
    /// and site URL kept unless the feed supplied new ones, failures reset.
    pub fn mark_success(
        &mut self,
        feed_id: i64,
        now: i64,
        status: i64,
        etag: Option<String>,
        title: Option<String>,
        site_url: Option<String>,
    ) -> (r: bool)
        requires
            old(self).wf(),
        ensures
            final(self).wf(),
            final(self).articles == old(self).articles,
            final(self).sources == old(self).sources,
            final(self).settings == old(self).settings,
            r == (exists|k: int|
                0 <= k < old(self).feeds@.len() && (#[trigger] old(self).feeds@[k]).id
                    == feed_id),
            !r ==> final(self).feeds == old(self).feeds,
            r ==> exists|k: int|
                0 <= k < old(self).feeds@.len() && (#[trigger] old(self).feeds@[k]).id == feed_id
                    && final(self).feeds@ == old(self).feeds@.update(
                    k,
                    (FeedRecord {
                        last_fetch_at: Some(now),
                        last_fetch_status: Some(status),
                        last_etag: (if etag is Some {
                            etag
                        } else {
                            old(self).feeds@[k].last_etag
                        }),
                        title: (if title is Some {
                            title
                        } else {
                            old(self).feeds@[k].title
                        }),
                        site_url: (if site_url is Some {
                            site_url
                        } else {
                            old(self).feeds@[k].site_url
                        }),
                        fail_count: 0,
                        ..old(self).feeds@[k]
                    }),
                ),
    {
        let pos = self.find_feed(feed_id);
        match pos {
            Some(k) => {
                let old_row = self.feeds.remove(k);
                let ghost pre = old(self).feeds@;
                let new_row = FeedRecord {
                    last_fetch_at: Some(now),
                    last_fetch_status: Some(status),
                    last_etag: (if etag.is_some() {
                        etag
                    } else {
                        old_row.last_etag
                    }),
                    title: (if title.is_some() {
                        title
                    } else {
                        old_row.title
                    }),
                    site_url: (if site_url.is_some() {
                        site_url
                    } else {
                        old_row.site_url
                    }),
                    fail_count: 0,
                    ..old_row
                };
                self.feeds.insert(k, new_row);
                proof {
                    assert(self.feeds@ =~= pre.update(k as int, self.feeds@[k as int]));
                    assert(pre[k as int].id == feed_id);
                    assert forall|i: int, j: int|
                        0 <= i < j < self.feeds@.len() implies (#[trigger] self.feeds@[i]).id != (
                    #[trigger] self.feeds@[j]).id && self.feeds@[i].url@
                        != self.feeds@[j].url@ by {
                        assert(pre[i].id != pre[j].id && pre[i].url@ != pre[j].url@);
                    }
                }
                true
            },
            None => false,
        }
    }

    /// A persisted failure: fetch time and status set, the failure counter
    /// stepped up by one.
    pub fn mark_failure(&mut self, feed_id: i64, now: i64, status: i64) -> (r: bool)
        requires
            old(self).wf(),
            forall|k: int|
                0 <= k < old(self).feeds@.len() ==> (#[trigger] old(self).feeds@[k]).fail_count
                    < i64::MAX,
        ensures
            final(self).wf(),
            final(self).articles == old(self).articles,
            final(self).sources == old(self).sources,
            final(self).settings == old(self).settings,
            r == (exists|k: int|
                0 <= k < old(self).feeds@.len() && (#[trigger] old(self).feeds@[k]).id
                    == feed_id),
            !r ==> final(self).feeds == old(self).feeds,
            r ==> exists|k: int|
                0 <= k < old(self).feeds@.len() && (#[trigger] old(self).feeds@[k]).id == feed_id
                    && final(self).feeds@ == old(self).feeds@.update(
                    k,
                    (FeedRecord {
                        last_fetch_at: Some(now),
                        last_fetch_status: Some(status),
                        fail_count: (old(self).feeds@[k].fail_count + 1) as i64,
                        ..old(self).feeds@[k]
                    }),
                ),
    {
        let pos = self.find_feed(feed_id);
        match pos {
            Some(k) => {
                let old_row = self.feeds.remove(k);
                let ghost pre = old(self).feeds@;
                let new_row = FeedRecord {
                    last_fetch_at: Some(now),
                    last_fetch_status: Some(status),
                    fail_count: old_row.fail_count + 1,
                    ..old_row
                };
                self.feeds.insert(k, new_row);
                proof {
                    assert(self.feeds@ =~= pre.update(k as int, self.feeds@[k as int]));
                    assert(pre[k as int].id == feed_id);
                    assert forall|i: int, j: int|
                        0 <= i < j < self.feeds@.len() implies (#[trigger] self.feeds@[i]).id != (
                    #[trigger] self.feeds@[j]).id && self.feeds@[i].url@
                        != self.feeds@[j].url@ by {
                        assert(pre[i].id != pre[j].id && pre[i].url@ != pre[j].url@);
                    }
                }
                true
            },
            None => false,
        }
    }

    /// A 304 answer: a success that only refreshes the fetch time and
    /// status and resets the failure counter.
    pub fn mark_not_modified(&mut self, feed_id: i64, now: i64, status: i64) -> (r: bool)
        requires
            old(self).wf(),
        ensures
            final(self).wf(),
            final(self).articles == old(self).articles,
            final(self).sources == old(self).sources,
            final(self).settings == old(self).settings,
            r == (exists|k: int|
                0 <= k < old(self).feeds@.len() && (#[trigger] old(self).feeds@[k]).id
                    == feed_id),
            !r ==> final(self).feeds == old(self).feeds,
            r ==> exists|k: int|
                0 <= k < old(self).feeds@.len() && (#[trigger] old(self).feeds@[k]).id == feed_id
                    && final(self).feeds@ == old(self).feeds@.update(
                    k,
                    (FeedRecord {
                        last_fetch_at: Some(now),
                        last_fetch_status: Some(status),
                        fail_count: 0,
                        ..old(self).feeds@[k]
                    }),
                ),
    {
        let pos = self.find_feed(feed_id);
        match pos {
            Some(k) => {
                let old_row = self.feeds.remove(k);
                let ghost pre = old(self).feeds@;
                let new_row = FeedRecord {
                    last_fetch_at: Some(now),
                    last_fetch_status: Some(status),
                    fail_count: 0,
                    ..old_row
                };
                self.feeds.insert(k, new_row);
                proof {
                    assert(self.feeds@ =~= pre.update(k as int, self.feeds@[k as int]));
                    assert(pre[k as int].id == feed_id);
                    assert forall|i: int, j: int|
                        0 <= i < j < self.feeds@.len() implies (#[trigger] self.feeds@[i]).id != (
                    #[trigger] self.feeds@[j]).id && self.feeds@[i].url@
                        != self.feeds@[j].url@ by {
                        assert(pre[i].id != pre[j].id && pre[i].url@ != pre[j].url@);
                    }
                }
                true
            },
            None => false,
        }
    }

    /// Run a feed's filter condition: given one judgment per current row,
    /// delete this feed's rows whose judgment is false. Rows of other feeds
    /// are never touched. The count of deleted rows comes back.
    pub fn apply_filter_condition(&mut self, feed_id: i64, keep: &Vec<bool>) -> (r: usize)
        requires
            old(self).wf(),
            keep@.len() == old(self).articles@.len(),
        ensures
            final(self).wf(),
            final(self).feeds == old(self).feeds,
            final(self).sources == old(self).sources,
            final(self).settings == old(self).settings,
            final(self).articles@ == spec_filter_rows(old(self).articles@, feed_id, keep@),
            final(self).articles@.len() + r == old(self).articles@.len(),
    {
        let mut new_articles: Vec<ArticleRecord> = Vec::new();
        let mut rest = take_vec(&mut self.articles);
        let ghost all = rest@;
        let total = rest.len();
        let mut i: usize = 0;
        let mut deleted: usize = 0;
        proof {
            assert(spec_filter_rows(all, feed_id, keep@) == new_articles@ + spec_filter_rows(
                all.skip(0),
                feed_id,
                keep@.skip(0),
            )) by {
                assert(all.skip(0) =~= all);
                assert(keep@.skip(0) =~= keep@);
                assert(new_articles@ + spec_filter_rows(all, feed_id, keep@) =~= spec_filter_rows(
                    all,
                    feed_id,
                    keep@,
                ));
            }
        }
        while rest.len() > 0
            invariant
                total == all.len(),
                keep@.len() == all.len(),
                i + rest@.len() == all.len(),
                rest@ == all.skip(i as int),
                i == new_articles@.len() + deleted,
                spec_filter_rows(all, feed_id, keep@) == new_articles@ + spec_filter_rows(
                    all.skip(i as int),
                    feed_id,
                    keep@.skip(i as int),
                ),
            decreases rest@.len(),
        {
            proof {
                assert(all.skip(i as int).first() == all[i as int]);
                assert(all.skip(i as int).drop_first() =~= all.skip(i + 1 as int));
                assert(keep@.skip(i as int).first() == keep@[i as int]);
                assert(keep@.skip(i as int).drop_first() =~= keep@.skip(i + 1 as int));
            }
            let row = rest.remove(0);
            let mine = match row.feed_id {
                Some(f) => f == feed_id,
                None => false,
            };
            let ghost old_new = new_articles@;
            if !mine || keep[i] {
                new_articles.push(row);
                proof {
                    assert(old_new + (seq![all[i as int]] + spec_filter_rows(
                        all.skip(i + 1 as int),
                        feed_id,
                        keep@.skip(i + 1 as int),
                    )) =~= new_articles@ + spec_filter_rows(
                        all.skip(i + 1 as int),
                        feed_id,
                        keep@.skip(i + 1 as int),
                    ));
                }
            } else {
                deleted += 1;
                proof {
                    assert(old_new + (Seq::<ArticleRecord>::empty() + spec_filter_rows(
                        all.skip(i + 1 as int),
                        feed_id,
                        keep@.skip(i + 1 as int),
                    )) =~= new_articles@ + spec_filter_rows(
                        all.skip(i + 1 as int),
                        feed_id,
                        keep@.skip(i + 1 as int),
                    ));
                }
            }
            i += 1;
        }
        proof {
            assert(all.skip(i as int).len() == 0);
            assert(spec_filter_rows(all.skip(i as int), feed_id, keep@.skip(i as int)) =~= Seq::<
                ArticleRecord,
            >::empty());
            assert(new_articles@ + Seq::<ArticleRecord>::empty() =~= new_articles@);
        }
        self.articles = new_articles;
        proof {
            lemma_filter_rows_sub(
                all,
                feed_id,
                keep@,
                |a: ArticleRecord| (match a.canonical_id {
                    Some(cc) => cc == a.id,
                    None => true,
                }) && a.id < old(self).next_article_id,
                |a: ArticleRecord, b: ArticleRecord| a.id != b.id && !article_key_clash(a, b),
            );
        }
        deleted
    }

    /// Read a setting's value.
    pub fn get_setting(&self, key: &String) -> (r: Option<&String>)
        ensures
            match r {
                Some(v) => exists|k: int|
                    0 <= k < self.settings@.len() && (#[trigger] self.settings@[k]).key@ == key@
                        && self.settings@[k].value@ == v@,
                None => forall|k: int|
                    0 <= k < self.settings@.len() ==> (#[trigger] self.settings@[k]).key@ != key@,
            },
    {
        let n = self.settings.len();
        let mut k: usize = 0;
        while k < n
            invariant
                k <= n,
                n == self.settings@.len(),
                forall|j: int| 0 <= j < k ==> (#[trigger] self.settings@[j]).key@ != key@,
            decreases n - k,
        {
            if str_eq(self.settings[k].key.as_str(), key.as_str()) {
                proof {
                    assert((#[trigger] self.settings@[k as int]).key@ == key@);
                }
                return Some(&self.settings[k].value);
            }
            k += 1;
        }
        None
    }

    /// Write a setting, replacing an existing row with the same key and
    /// leaving every other row in place.
    pub fn upsert_setting(&mut self, key: String, value: String)
        requires
            old(self).wf(),
        ensures
            final(self).wf(),
            final(self).feeds == old(self).feeds,
            final(self).articles == old(self).articles,
            final(self).sources == old(self).sources,
            exists|k: int|
                0 <= k < final(self).settings@.len() && (#[trigger] final(self).settings@[k]).key@
                    == key@ && final(self).settings@[k].value@ == value@,
            (exists|k: int|
                0 <= k < old(self).settings@.len() && (#[trigger] old(self).settings@[k]).key@
                    == key@) ==> exists|k: int|
                0 <= k < old(self).settings@.len() && (#[trigger] old(self).settings@[k]).key@
                    == key@ && final(self).settings@ == old(self).settings@.update(
                    k,
                    (SettingRecord { key, value }),
                ),
            !(exists|k: int|
                0 <= k < old(self).settings@.len() && (#[trigger] old(self).settings@[k]).key@
                    == key@) ==> final(self).settings@ == old(self).settings@.push(
                (SettingRecord { key, value }),
            ),
    {
        let n = self.settings.len();
        let mut k: usize = 0;
        while k < n
            invariant
                *self == *old(self),
                self.wf(),
                k <= n,
                n == self.settings@.len(),
                forall|j: int| 0 <= j < k ==> (#[trigger] self.settings@[j]).key@ != key@,
            decreases n - k,
        {
            if str_eq(self.settings[k].key.as_str(), key.as_str()) {
                let ghost pre = self.settings@;
                let _ = self.settings.remove(k);
                self.settings.insert(k, SettingRecord { key, value });
                proof {
                    assert(self.settings@ =~= pre.update(k as int, self.settings@[k as int]));
                    assert((#[trigger] self.settings@[k as int]).key@ == pre[k as int].key@);
                    assert forall|i: int, j: int|
                        0 <= i < j < self.settings@.len() implies (
                    #[trigger] self.settings@[i]).key@ != (#[trigger] self.settings@[j]).key@ by {
                        assert(pre[i].key@ != pre[j].key@);
                    }
                }
                return ;
            }
            k += 1;
        }
        let ghost pre = self.settings@;
        self.settings.push(SettingRecord { key, value });
        proof {
            assert((#[trigger] self.settings@[pre.len() as int]).key@ == key@);
            assert forall|i: int, j: int|
                0 <= i < j < self.settings@.len() implies (#[trigger] self.settings@[i]).key@ != (
            #[trigger] self.settings@[j]).key@ by {
                if j < pre.len() {
                    assert(pre[i].key@ != pre[j].key@);
                } else {
                    assert(self.settings@[i] == pre[i]);
                }
            }
        }
    }

    /// Remove a setting by key.
    pub fn delete_setting(&mut self, key: &String)
        requires
            old(self).wf(),
        ensures
            final(self).wf(),
            final(self).feeds == old(self).feeds,
            final(self).articles == old(self).articles,
            final(self).sources == old(self).sources,
            forall|k: int|
                0 <= k < final(self).settings@.len() ==> (#[trigger] final(self).settings@[k]).key@
                    != key@,
    {
        let mut out: Vec<SettingRecord> = Vec::new();
        let mut rest = take_vec(&mut self.settings);
        let ghost all = rest@;
        let total = rest.len();
        let mut i: usize = 0;
        while rest.len() > 0
            invariant
                total == all.len(),
                i + rest@.len() == all.len(),
                rest@ == all.skip(i as int),
                forall|j: int| 0 <= j < out@.len() ==> (#[trigger] out@[j]).key@ != key@,
                forall|a: int, b: int|
                    0 <= a < b < out@.len() ==> (#[trigger] out@[a]).key@ != (
                    #[trigger] out@[b]).key@,
                forall|j: int|
                    0 <= j < out@.len() ==> exists|w: int|
                        0 <= w < i && #[trigger] out@[j] == all[w],
                forall|a: int, b: int|
                    0 <= a < b < all.len() ==> (#[trigger] all[a]).key@ != (
                    #[trigger] all[b]).key@,
            decreases rest@.len(),
        {
            proof {
                assert(all.skip(i as int).first() == all[i as int]);
                assert(all.skip(i as int).drop_first() =~= all.skip(i + 1 as int));
            }
            let row = rest.remove(0);
            let matches_key = str_eq(row.key.as_str(), key.as_str());
            if !matches_key {
                let ghost old_out = out@;
                out.push(row);
                proof {
                    assert forall|a: int, b: int|
                        0 <= a < b < out@.len() implies (#[trigger] out@[a]).key@ != (
                    #[trigger] out@[b]).key@ by {
                        if b == out@.len() - 1 {
                            let w = choose|w: int| 0 <= w < i && #[trigger] old_out[a] == all[w];
                            assert(out@[b] == all[i as int]);
                            assert(all[w].key@ != all[i as int].key@);
                        } else {
                            assert(old_out[a].key@ != old_out[b].key@);
                        }
                    }
                    assert forall|j: int|
                        0 <= j < out@.len() implies exists|w: int|
                            0 <= w < i + 1 && #[trigger] out@[j] == all[w] by {
                        if j == out@.len() - 1 {
                            assert(out@[j] == all[i as int]);
                        } else {
                            let w0 = choose|w0: int|
                                0 <= w0 < i && #[trigger] old_out[j] == all[w0];
                            assert(out@[j] == all[w0]);
                        }
                    }
                }
            }
            i += 1;
        }
        self.settings = out;
    }

    /// The feeds due at `now`, as (id, last_fetch_at) pairs: never-fetched
    /// feeds first, then oldest fetch first, at most `limit` of them.
    pub fn due_feeds(&self, now: i64, limit: usize) -> (r: Vec<(i64, Option<i64>)>)
        requires
            forall|k: int|
                0 <= k < self.feeds@.len() ==> 0 <= (#[trigger] self.feeds@[k]).fetch_interval_seconds
                    && (match self.feeds@[k].last_fetch_at {
                    Some(t) => t + self.feeds@[k].fetch_interval_seconds <= i64::MAX,
                    None => true,
                }),
        ensures
            // as many due feeds as fit the batch
            ({
                let dcount = self.feeds@.filter(due_pred(now)).len();
                r@.len() == (if (limit as int) <= dcount {
                    limit as int
                } else {
                    dcount as int
                })
            }),
            // each pair is a due feed's id and fetch time
            forall|p: int|
                0 <= p < r@.len() ==> spec_pair_names_due_feed(
                    self.feeds@,
                    #[trigger] r@[p],
                    now,
                ),
            // never-fetched first, then by last fetch time ascending
            forall|p: int, q: int|
                0 <= p < q < r@.len() ==> spec_due_order_key((#[trigger] r@[p]).1)
                    <= spec_due_order_key((#[trigger] r@[q]).1),
            // a round that is not full has taken every due feed
            r@.len() < limit ==> forall|k: int|
                0 <= k < self.feeds@.len() && spec_feed_due(#[trigger] self.feeds@[k], now)
                    ==> r@.contains((self.feeds@[k].id, self.feeds@[k].last_fetch_at)),
    {
        broadcast use vstd::prelude::Seq::lemma_filter_push;
        broadcast use vstd::seq_lib::to_multiset_contains;

        let ghost pred = due_pred(now);
        let ghost pairf = due_pair_fn();
        let n = self.feeds.len();
        let mut pairs: Vec<(i64, Option<i64>)> = Vec::new();
        let mut k: usize = 0;
        proof {
            assert(self.feeds@.take(0).filter(pred) =~= Seq::<FeedRecord>::empty());
            assert(pairs@ =~= self.feeds@.take(0).filter(pred).map_values(pairf));
        }
        while k < n
            invariant
                k <= n,
                n == self.feeds@.len(),
                forall|j: int|
                    0 <= j < n ==> 0 <= (#[trigger] self.feeds@[j]).fetch_interval_seconds && (
                    match self.feeds@[j].last_fetch_at {
                        Some(t) => t + self.feeds@[j].fetch_interval_seconds <= i64::MAX,
                        None => true,
                    }),
                pred == due_pred(now),
                pairf == due_pair_fn(),
                pairs@ == self.feeds@.take(k as int).filter(pred).map_values(pairf),
            decreases n - k,
        {
            let ghost fview = self.feeds@;
            proof {
                assert(fview.take(k + 1 as int) =~= fview.take(k as int).push(fview[k as int]));
                fview.take(k as int).lemma_filter_push(fview[k as int], pred);
            }
            let row = &self.feeds[k];
            let due = row.enabled && (match row.last_fetch_at {
                Some(t) => t + row.fetch_interval_seconds <= now,
                None => true,
            });
            proof {
                assert(due == pred(fview[k as int]));
            }
            if due {
                pairs.push((row.id, row.last_fetch_at));
                proof {
                    assert(pairs@ =~= fview.take(k as int).filter(pred).map_values(pairf).push(
                        pairf(fview[k as int]),
                    ));
                    assert(fview.take(k + 1 as int).filter(pred).map_values(pairf) =~= fview.take(
                        k as int,
                    ).filter(pred).map_values(pairf).push(pairf(fview[k as int])));
                }
            } else {
                proof {
                    assert(fview.take(k + 1 as int).filter(pred) == fview.take(k as int).filter(
                        pred,
                    ));
                }
            }
            k += 1;
        }
        proof {
            assert(self.feeds@.take(n as int) =~= self.feeds@);
        }
        let sorted = sort_due_pairs(pairs);
        let ghost dues = self.feeds@.filter(pred);
        proof {
            assert(sorted@.to_multiset() =~= dues.map_values(pairf).to_multiset());
        }
        let total = sorted.len();
        let mut out: Vec<(i64, Option<i64>)> = Vec::new();
        let mut i: usize = 0;
        while i < total && i < limit
            invariant
                i <= total,
                i <= limit,
                total == sorted@.len(),
                out@ == sorted@.take(i as int),
            decreases total - i,
        {
            out.push(sorted[i]);
            i += 1;
            proof {
                assert(sorted@.take(i as int) =~= sorted@.take(i - 1 as int).push(
                    sorted@[i - 1 as int],
                ));
            }
        }
        proof {
            assert(dues.map_values(pairf).len() == dues.len());
            if total <= limit {
                assert(out@ =~= sorted@);
            }
            assert forall|p: int|
                0 <= p < out@.len() implies spec_pair_names_due_feed(
                self.feeds@,
                #[trigger] out@[p],
                now,
            ) by {
                assert(out@[p] == sorted@[p]);
                assert(sorted@.contains(sorted@[p]));
                assert(sorted@.to_multiset().count(sorted@[p]) > 0);
                assert(dues.map_values(pairf).to_multiset().count(sorted@[p]) > 0);
                assert(dues.map_values(pairf).contains(sorted@[p]));
                let w = choose|w: int|
                    0 <= w < dues.map_values(pairf).len() && dues.map_values(pairf)[w]
                        == sorted@[p];
                assert(dues.map_values(pairf)[w] == pairf(dues[w]));
                lemma_filter_embedding(self.feeds@, pred);
                let emb = choose|emb: spec_fn(int) -> int|
                    filter_embedding_ok(self.feeds@, pred, emb);
                assert(self.feeds@[emb(w)] == dues[w] && pred(self.feeds@[emb(w)]));
                assert((#[trigger] self.feeds@[emb(w)]).id == out@[p].0
                    && self.feeds@[emb(w)].last_fetch_at == out@[p].1 && spec_feed_due(
                    self.feeds@[emb(w)],
                    now,
                ));
            }
            assert(sorted@.len() == dues.len());
            assert(i == out@.len());
            assert(i <= limit && i <= total);
            assert(i >= total || i >= limit);
            assert(out@.len() == (if (limit as int) <= dues.len() {
                limit as int
            } else {
                dues.len() as int
            }));
            assert(dues == self.feeds@.filter(due_pred(now)));
            if out@.len() < limit {
                assert(out@ =~= sorted@);
                assert forall|kk: int|
                    0 <= kk < self.feeds@.len() && spec_feed_due(
                        #[trigger] self.feeds@[kk],
                        now,
                    ) implies out@.contains(
                    (self.feeds@[kk].id, self.feeds@[kk].last_fetch_at),
                ) by {
                    self.feeds@.filter_lemma(pred);
                    assert(dues.contains(self.feeds@[kk]));
                    let w = choose|w: int| 0 <= w < dues.len() && dues[w] == self.feeds@[kk];
                    assert(dues.map_values(pairf)[w] == pairf(self.feeds@[kk]));
                    assert(dues.map_values(pairf).contains(pairf(self.feeds@[kk])));
                    assert(dues.map_values(pairf).to_multiset().count(
                        pairf(self.feeds@[kk]),
                    ) > 0);
                    assert(sorted@.to_multiset().count(pairf(self.feeds@[kk])) > 0);
                    assert(sorted@.contains(pairf(self.feeds@[kk])));
                }
            }
        }
        out
    }
}

/// Whether a (id, last_fetch_at) pair names a due feed row.
pub open spec fn spec_pair_names_due_feed(
    feeds: Seq<FeedRecord>,
    pr: (i64, Option<i64>),
    now: i64,
) -> bool {
    exists|k: int|
        0 <= k < feeds.len() && (#[trigger] feeds[k]).id == pr.0 && feeds[k].last_fetch_at
            == pr.1 && spec_feed_due(feeds[k], now)
}

/// The due feeds at a given instant.
pub open spec fn due_pred(now: i64) -> spec_fn(FeedRecord) -> bool {
    |f: FeedRecord| spec_feed_due(f, now)
}

/// A feed row reduced to its id and fetch time.
pub open spec fn due_pair_fn() -> spec_fn(FeedRecord) -> (i64, Option<i64>) {
    |f: FeedRecord| (f.id, f.last_fetch_at)
}

/// Where a fetch time sorts: never-fetched feeds come before every fetch
/// time, then times ascend.
pub open spec fn spec_due_order_key(lfa: Option<i64>) -> int {
    match lfa {
        Some(t) => t as int,
        None => i64::MIN - 1,
    }
}

fn due_key_le(a: &(i64, Option<i64>), b: &(i64, Option<i64>)) -> (r: bool)
    ensures
        r == (spec_due_order_key(a.1) <= spec_due_order_key(b.1)),
{
    match (a.1, b.1) {
        (None, _) => true,
        (Some(_), None) => false,
        (Some(x), Some(y)) => x <= y,
    }
}

fn insert_due_pair(out: &mut Vec<(i64, Option<i64>)>, x: (i64, Option<i64>))
    requires
        forall|p: int, q: int|
            0 <= p < q < old(out)@.len() ==> spec_due_order_key((#[trigger] old(out)@[p]).1)
                <= spec_due_order_key((#[trigger] old(out)@[q]).1),
    ensures
        forall|p: int, q: int|
            0 <= p < q < final(out)@.len() ==> spec_due_order_key((#[trigger] final(out)@[p]).1)
                <= spec_due_order_key((#[trigger] final(out)@[q]).1),
        final(out)@.to_multiset() == old(out)@.to_multiset().insert(x),
        final(out)@.len() == old(out)@.len() + 1,
{
    broadcast use vstd::seq_lib::group_seq_properties;

    let n = out.len();
    let mut j: usize = 0;
    while j < n && due_key_le(&out[j], &x)
        invariant
            j <= n,
            n == out@.len(),
            *out == *old(out),
            forall|p: int|
                0 <= p < j ==> spec_due_order_key((#[trigger] out@[p]).1) <= spec_due_order_key(
                    x.1,
                ),
        decreases n - j,
    {
        j += 1;
    }
    let ghost m = out@;
    let ghost gj = j as int;
    proof {
        if j < n {
            assert(!(spec_due_order_key(m[gj].1) <= spec_due_order_key(x.1)));
        }
    }
    out.insert(j, x);
    proof {
        assert(out@ =~= m.insert(gj, x));
        vstd::seq_lib::to_multiset_insert(m, gj, x);
        assert forall|p: int, q: int|
            0 <= p < q < out@.len() implies spec_due_order_key((#[trigger] out@[p]).1)
                <= spec_due_order_key((#[trigger] out@[q]).1) by {
            if q < gj {
                assert(out@[p] == m[p] && out@[q] == m[q]);
            } else if p < gj && q == gj {
                assert(out@[p] == m[p] && out@[q] == x);
            } else if p < gj && q > gj {
                assert(out@[p] == m[p] && out@[q] == m[q - 1]);
            } else if p == gj {
                assert(out@[p] == x && out@[q] == m[q - 1]);
                if q - 1 > gj {
                    assert(spec_due_order_key(m[gj].1) <= spec_due_order_key(m[q - 1].1));
                }
            } else {
                assert(out@[p] == m[p - 1] && out@[q] == m[q - 1]);
            }
        }
    }
}

fn sort_due_pairs(pairs: Vec<(i64, Option<i64>)>) -> (r: Vec<(i64, Option<i64>)>)
    ensures
        r@.to_multiset() == pairs@.to_multiset(),
        r@.len() == pairs@.len(),
        forall|p: int, q: int|
            0 <= p < q < r@.len() ==> spec_due_order_key((#[trigger] r@[p]).1)
                <= spec_due_order_key((#[trigger] r@[q]).1),
{
    broadcast use vstd::seq_lib::group_seq_properties;

    let ghost all = pairs@;
    let mut rest = pairs;
    let total = rest.len();
    let mut out: Vec<(i64, Option<i64>)> = Vec::new();
    let mut i: usize = 0;
    proof {
        assert(all.take(0).to_multiset() =~= out@.to_multiset());
    }
    while rest.len() > 0
        invariant
            total == all.len(),
            i + rest@.len() == all.len(),
            rest@ == all.skip(i as int),
            out@.to_multiset() == all.take(i as int).to_multiset(),
            out@.len() == i,
            forall|p: int, q: int|
                0 <= p < q < out@.len() ==> spec_due_order_key((#[trigger] out@[p]).1)
                    <= spec_due_order_key((#[trigger] out@[q]).1),
        decreases rest@.len(),
    {
        proof {
            assert(all.skip(i as int).first() == all[i as int]);
            assert(all.skip(i as int).drop_first() =~= all.skip(i + 1 as int));
            assert(all.take(i + 1 as int) =~= all.take(i as int).push(all[i as int]));
            vstd::seq_lib::to_multiset_build(all.take(i as int), all[i as int]);
        }
        let x = rest.remove(0);
        insert_due_pair(&mut out, x);
        i += 1;
    }
    proof {
        assert(all.take(total as int) =~= all);
    }
    out
}

/// What an admin upsert supplies for a feed; absent values keep or
/// default the stored ones.
pub struct FeedUpsertRecord {
    pub url: String,
    pub title: Option<String>,
    pub site_url: Option<String>,
    pub source_domain: String,
    pub enabled: Option<bool>,
    pub fetch_interval_seconds: Option<i64>,
    pub filter_condition: Option<String>,
}

impl Store {
    /// The position of a feed row by URL.
    fn find_feed_by_url(&self, url: &String) -> (r: Option<usize>)
        ensures
            match r {
                Some(k) => k < self.feeds@.len() && self.feeds@[k as int].url@ == url@,
                None => forall|k: int|
                    0 <= k < self.feeds@.len() ==> (#[trigger] self.feeds@[k]).url@ != url@,
            },
    {
        let n = self.feeds.len();
        let mut k: usize = 0;
        while k < n
            invariant
                k <= n,
                n == self.feeds@.len(),
                forall|j: int| 0 <= j < k ==> (#[trigger] self.feeds@[j]).url@ != url@,
            decreases n - k,
        {
            if str_eq(self.feeds[k].url.as_str(), url.as_str()) {
                return Some(k);
            }
            k += 1;
        }
        None
    }

    /// Create or update the feed with this URL: on conflict the given
    /// values replace the stored ones where present (the source domain
    /// always), and the fetch bookkeeping is left alone; a new feed starts
    /// enabled with a 600 second interval unless told otherwise.
    pub fn upsert_feed(&mut self, rec: FeedUpsertRecord) -> (r: i64)
        requires
            old(self).wf(),
            old(self).next_feed_id < i64::MAX,
        ensures
            final(self).wf(),
            final(self).articles == old(self).articles,
            final(self).sources == old(self).sources,
            final(self).settings == old(self).settings,
            exists|k: int|
                0 <= k < final(self).feeds@.len() && (#[trigger] final(self).feeds@[k]).id == r
                    && final(self).feeds@[k].url@ == rec.url@,
            // an update rewrites exactly the addressed row
            (exists|k: int|
                0 <= k < old(self).feeds@.len() && (#[trigger] old(self).feeds@[k]).url@
                    == rec.url@) ==> exists|k: int|
                0 <= k < old(self).feeds@.len() && (#[trigger] old(self).feeds@[k]).url@
                    == rec.url@ && final(self).feeds@ == old(self).feeds@.update(
                    k,
                    (FeedRecord {
                        title: (if rec.title is Some {
                            rec.title
                        } else {
                            old(self).feeds@[k].title
                        }),
                        site_url: (if rec.site_url is Some {
                            rec.site_url
                        } else {
                            old(self).feeds@[k].site_url
                        }),
                        source_domain: rec.source_domain,
                        enabled: (match rec.enabled {
                            Some(e) => e,
                            None => old(self).feeds@[k].enabled,
                        }),
                        fetch_interval_seconds: (match rec.fetch_interval_seconds {
                            Some(v) => v,
                            None => old(self).feeds@[k].fetch_interval_seconds,
                        }),
                        filter_condition: rec.filter_condition,
                        ..old(self).feeds@[k]
                    }),
                ),
            // an insert appends one row with the defaults filled in
            !(exists|k: int|
                0 <= k < old(self).feeds@.len() && (#[trigger] old(self).feeds@[k]).url@
                    == rec.url@) ==> final(self).feeds@ == old(self).feeds@.push(
                (FeedRecord {
                    id: old(self).next_feed_id,
                    url: rec.url,
                    title: rec.title,
                    site_url: rec.site_url,
                    source_domain: rec.source_domain,
                    enabled: (match rec.enabled {
                        Some(e) => e,
                        None => true,
                    }),
                    fetch_interval_seconds: (match rec.fetch_interval_seconds {
                        Some(v) => v,
                        None => 600i64,
                    }),
                    filter_condition: rec.filter_condition,
                    last_etag: None,
                    last_fetch_at: None,
                    last_fetch_status: None,
                    fail_count: 0,
                }),
            ) && r == old(self).next_feed_id,
    {
        let pos = self.find_feed_by_url(&rec.url);
        match pos {
            Some(k) => {
                let ghost pre = self.feeds@;
                let old_row = self.feeds.remove(k);
                let new_row = FeedRecord {
                    title: (if rec.title.is_some() {
                        rec.title
                    } else {
                        old_row.title
                    }),
                    site_url: (if rec.site_url.is_some() {
                        rec.site_url
                    } else {
                        old_row.site_url
                    }),
                    source_domain: rec.source_domain,
                    enabled: (match rec.enabled {
                        Some(e) => e,
                        None => old_row.enabled,
                    }),
                    fetch_interval_seconds: (match rec.fetch_interval_seconds {
                        Some(v) => v,
                        None => old_row.fetch_interval_seconds,
                    }),
                    filter_condition: rec.filter_condition,
                    ..old_row
                };
                let id = new_row.id;
                self.feeds.insert(k, new_row);
                proof {
                    assert(self.feeds@ =~= pre.update(k as int, self.feeds@[k as int]));
                    assert(pre[k as int].url@ == rec.url@);
                    assert forall|i: int, j: int|
                        0 <= i < j < self.feeds@.len() implies (#[trigger] self.feeds@[i]).id != (
                    #[trigger] self.feeds@[j]).id && self.feeds@[i].url@
                        != self.feeds@[j].url@ by {
                        assert(pre[i].id != pre[j].id && pre[i].url@ != pre[j].url@);
                        assert(pre[k as int].url@ == self.feeds@[k as int].url@);
                    }
                }
                id
            },
            None => {
                let id = self.next_feed_id;
                let ghost pre = self.feeds@;
                self.feeds.push(
                    FeedRecord {
                        id,
                        url: rec.url,
                        title: rec.title,
                        site_url: rec.site_url,
                        source_domain: rec.source_domain,
                        enabled: (match rec.enabled {
                            Some(e) => e,
                            None => true,
                        }),
                        fetch_interval_seconds: (match rec.fetch_interval_seconds {
                            Some(v) => v,
                            None => 600
                        }),
                        filter_condition: rec.filter_condition,
                        last_etag: None,
                        last_fetch_at: None,
                        last_fetch_status: None,
                        fail_count: 0,
                    },
                );
                self.next_feed_id = id + 1;
                proof {
                    assert forall|i: int, j: int|
                        0 <= i < j < self.feeds@.len() implies (#[trigger] self.feeds@[i]).id != (
                    #[trigger] self.feeds@[j]).id && self.feeds@[i].url@
                        != self.feeds@[j].url@ by {
                        if j < pre.len() {
                            assert(pre[i].id != pre[j].id && pre[i].url@ != pre[j].url@);
                        } else {
                            assert(self.feeds@[i] == pre[i]);
                        }
                    }
                    assert(self.feeds@[pre.len() as int].id == id && self.feeds@[
                        pre.len() as int
                    ].url@ == self.feeds@.last().url@);
                }
                id
            },
        }
    }

    /// Count one reader click on an article; any other id changes nothing.
    pub fn increment_click(&mut self, article_id: i64) -> (r: bool)
        requires
            old(self).wf(),
            forall|k: int|
                0 <= k < old(self).articles@.len() ==> (#[trigger] old(
                    self,
                ).articles@[k]).click_count < i64::MAX,
        ensures
            final(self).wf(),
            final(self).feeds == old(self).feeds,
            final(self).sources == old(self).sources,
            final(self).settings == old(self).settings,
            r == (exists|k: int|
                0 <= k < old(self).articles@.len() && (#[trigger] old(self).articles@[k]).id
                    == article_id),
            !r ==> final(self).articles == old(self).articles,
            r ==> exists|k: int|
                0 <= k < old(self).articles@.len() && (#[trigger] old(self).articles@[k]).id
                    == article_id && final(self).articles@ == old(self).articles@.update(
                    k,
                    (ArticleRecord {
                        click_count: (old(self).articles@[k].click_count + 1) as i64,
                        ..old(self).articles@[k]
                    }),
                ),
    {
        let n = self.articles.len();
        let mut k: usize = 0;
        while k < n
            invariant
                *self == *old(self),
                self.wf(),
                k <= n,
                n == self.articles@.len(),
                forall|k2: int|
                    0 <= k2 < n ==> (#[trigger] self.articles@[k2]).click_count < i64::MAX,
                forall|j: int| 0 <= j < k ==> (#[trigger] self.articles@[j]).id != article_id,
            decreases n - k,
        {
            if self.articles[k].id == article_id {
                let ghost pre = self.articles@;
                let old_row = self.articles.remove(k);
                let new_row = ArticleRecord { click_count: old_row.click_count + 1, ..old_row };
                self.articles.insert(k, new_row);
                proof {
                    assert(self.articles@ =~= pre.update(k as int, self.articles@[k as int]));
                    assert(pre[k as int].id == article_id);
                    assert forall|a: int, b: int|
                        0 <= a < b < self.articles@.len() implies (
                    #[trigger] self.articles@[a]).id != (#[trigger] self.articles@[b]).id
                        && !article_key_clash(self.articles@[a], self.articles@[b]) by {
                        assert(pre[a].id != pre[b].id && !article_key_clash(pre[a], pre[b]));
                    }
                }
                return true;
            }
            k += 1;
        }
        false
    }

    /// Keep operating defaults across releases: a missing provider
    /// selection is written as the given default; an existing one stays.
    pub fn ensure_provider_setting(&mut self, key: String, default_value: String)
        requires
            old(self).wf(),
        ensures
            final(self).wf(),
            final(self).feeds == old(self).feeds,
            final(self).articles == old(self).articles,
            final(self).sources == old(self).sources,
            (forall|k: int|
                0 <= k < old(self).settings@.len() ==> (#[trigger] old(self).settings@[k]).key@
                    != key@) ==> exists|k: int|
                0 <= k < final(self).settings@.len() && (#[trigger] final(self).settings@[k]).key@
                    == key@ && final(self).settings@[k].value@ == default_value@,
            (exists|k: int|
                0 <= k < old(self).settings@.len() && (#[trigger] old(self).settings@[k]).key@
                    == key@) ==> final(self).settings == old(self).settings,
    {
        let existing = self.get_setting(&key);
        let missing = existing.is_none();
        if missing {
            self.upsert_setting(key, default_value);
        }
    }
}

/// The page window of an article listing: page zero reads as one, the
/// page size is clamped to 1..=50, and the offset skips the earlier pages.
pub fn page_window(page: u32, page_size: u32) -> (r: (u32, u32, u64))
    ensures
        r.0 == (if page == 0 {
            1u32
        } else {
            page
        }),
        r.1 == (if page_size == 0 {
            1u32
        } else if page_size > 50 {
            50u32
        } else {
            page_size
        }),
        r.2 == (r.0 - 1) * r.1,
{
    let p: u32 = if page == 0 {
        1
    } else {
        page
    };
    let s: u32 = if page_size == 0 {
        1
    } else if page_size > 50 {
        50
    } else {
        page_size
    };
    proof {
        assert(((p - 1) as int) * (s as int) <= 0xFFFF_FFFF * 50) by (nonlinear_arith)
            requires
                1 <= p <= 0xFFFF_FFFF,
                s <= 50,
        ;
    }
    let offset: u64 = ((p - 1) as u64) * (s as u64);
    (p, s, offset)
}

/// Whether an (id, published_at) pair names an article row.
pub open spec fn spec_pair_names_article(arts: Seq<ArticleRecord>, pr: (i64, i64)) -> bool {
    exists|k: int|
        0 <= k < arts.len() && (#[trigger] arts[k]).id == pr.0 && arts[k].published_at == pr.1
}

/// An article row reduced to its id and publication time.
pub open spec fn recent_pair_fn() -> spec_fn(ArticleRecord) -> (i64, i64) {
    |a: ArticleRecord| (a.id, a.published_at)
}

fn recent_key_ge(a: &(i64, i64), b: &(i64, i64)) -> (r: bool)
    ensures
        r == (a.1 >= b.1),
{
    a.1 >= b.1
}

fn insert_recent_pair(out: &mut Vec<(i64, i64)>, x: (i64, i64))
    requires
        forall|p: int, q: int|
            0 <= p < q < old(out)@.len() ==> (#[trigger] old(out)@[p]).1 >= (
            #[trigger] old(out)@[q]).1,
    ensures
        forall|p: int, q: int|
            0 <= p < q < final(out)@.len() ==> (#[trigger] final(out)@[p]).1 >= (
            #[trigger] final(out)@[q]).1,
        final(out)@.to_multiset() == old(out)@.to_multiset().insert(x),
        final(out)@.len() == old(out)@.len() + 1,
{
    broadcast use vstd::seq_lib::group_seq_properties;

    let n = out.len();
    let mut j: usize = 0;
    while j < n && recent_key_ge(&out[j], &x)
        invariant
            j <= n,
            n == out@.len(),
            *out == *old(out),
            forall|p: int| 0 <= p < j ==> (#[trigger] out@[p]).1 >= x.1,
        decreases n - j,
    {
        j += 1;
    }
    let ghost m = out@;
    let ghost gj = j as int;
    proof {
        if j < n {
            assert(!(m[gj].1 >= x.1));
        }
    }
    out.insert(j, x);
    proof {
        assert(out@ =~= m.insert(gj, x));
        vstd::seq_lib::to_multiset_insert(m, gj, x);
        assert forall|p: int, q: int|
            0 <= p < q < out@.len() implies (#[trigger] out@[p]).1 >= (
        #[trigger] out@[q]).1 by {
            if q < gj {
                assert(out@[p] == m[p] && out@[q] == m[q]);
            } else if p < gj && q == gj {
                assert(out@[p] == m[p] && out@[q] == x);
            } else if p < gj && q > gj {
                assert(out@[p] == m[p] && out@[q] == m[q - 1]);
            } else if p == gj {
                assert(out@[p] == x && out@[q] == m[q - 1]);
                if q - 1 > gj {
                    assert(m[gj].1 >= m[q - 1].1);
                }
            } else {
                assert(out@[p] == m[p - 1] && out@[q] == m[q - 1]);
            }
        }
    }
}

fn sort_recent_pairs(pairs: Vec<(i64, i64)>) -> (r: Vec<(i64, i64)>)
    ensures
        r@.to_multiset() == pairs@.to_multiset(),
        r@.len() == pairs@.len(),
        forall|p: int, q: int|
            0 <= p < q < r@.len() ==> (#[trigger] r@[p]).1 >= (#[trigger] r@[q]).1,
{
    broadcast use vstd::seq_lib::group_seq_properties;

    let ghost all = pairs@;
    let mut rest = pairs;
    let total = rest.len();
    let mut out: Vec<(i64, i64)> = Vec::new();
    let mut i: usize = 0;
    proof {
        assert(all.take(0).to_multiset() =~= out@.to_multiset());
    }
    while rest.len() > 0
        invariant
            total == all.len(),
            i + rest@.len() == all.len(),
            rest@ == all.skip(i as int),
            out@.to_multiset() == all.take(i as int).to_multiset(),
            out@.len() == i,
            forall|p: int, q: int|
                0 <= p < q < out@.len() ==> (#[trigger] out@[p]).1 >= (#[trigger] out@[q]).1,
        decreases rest@.len(),
    {
        proof {
            assert(all.skip(i as int).first() == all[i as int]);
            assert(all.skip(i as int).drop_first() =~= all.skip(i + 1 as int));
            assert(all.take(i + 1 as int) =~= all.take(i as int).push(all[i as int]));
            vstd::seq_lib::to_multiset_build(all.take(i as int), all[i as int]);
        }
        let x = rest.remove(0);
        insert_recent_pair(&mut out, x);
        i += 1;
    }
    proof {
        assert(all.take(total as int) =~= all);
    }
    out
}

impl Store {
    /// The recent-article snapshot held against new entries: the ids and
    /// publication times of the newest articles, newest first, at most
    /// `limit` of them.
    pub fn recent_articles(&self, limit: usize) -> (r: Vec<(i64, i64)>)
        ensures
            r@.len() == (if (limit as int) <= self.articles@.len() {
                limit as int
            } else {
                self.articles@.len() as int
            }),
            forall|p: int|
                0 <= p < r@.len() ==> spec_pair_names_article(self.articles@, #[trigger] r@[p]),
            forall|p: int, q: int|
                0 <= p < q < r@.len() ==> (#[trigger] r@[p]).1 >= (#[trigger] r@[q]).1,
            r@.len() < limit ==> forall|k: int|
                0 <= k < self.articles@.len() ==> r@.contains(
                    ((#[trigger] self.articles@[k]).id, self.articles@[k].published_at),
                ),
    {
        broadcast use vstd::seq_lib::to_multiset_contains;

        let ghost pairf = recent_pair_fn();
        let n = self.articles.len();
        let mut pairs: Vec<(i64, i64)> = Vec::new();
        let mut k: usize = 0;
        proof {
            assert(pairs@ =~= self.articles@.take(0).map_values(pairf));
        }
        while k < n
            invariant
                k <= n,
                n == self.articles@.len(),
                pairf == recent_pair_fn(),
                pairs@ == self.articles@.take(k as int).map_values(pairf),
            decreases n - k,
        {
            let row = &self.articles[k];
            pairs.push((row.id, row.published_at));
            proof {
                assert(self.articles@.take(k + 1 as int) =~= self.articles@.take(k as int).push(
                    self.articles@[k as int],
                ));
                assert(self.articles@.take(k + 1 as int).map_values(pairf)
                    =~= self.articles@.take(k as int).map_values(pairf).push(
                    pairf(self.articles@[k as int]),
                ));
            }
            k += 1;
        }
        proof {
            assert(self.articles@.take(n as int) =~= self.articles@);
        }
        let sorted = sort_recent_pairs(pairs);
        let total = sorted.len();
        let mut out: Vec<(i64, i64)> = Vec::new();
        let mut i: usize = 0;
        while i < total && i < limit
            invariant
                i <= total,
                i <= limit,
                total == sorted@.len(),
                out@ == sorted@.take(i as int),
            decreases total - i,
        {
            out.push(sorted[i]);
            i += 1;
            proof {
                assert(sorted@.take(i as int) =~= sorted@.take(i - 1 as int).push(
                    sorted@[i - 1 as int],
                ));
            }
        }
        proof {
            let avals = self.articles@.map_values(pairf);
            assert(avals.len() == self.articles@.len());
            if total <= limit {
                assert(out@ =~= sorted@);
            }
            assert forall|p: int|
                0 <= p < out@.len() implies spec_pair_names_article(
                self.articles@,
                #[trigger] out@[p],
            ) by {
                assert(out@[p] == sorted@[p]);
                assert(sorted@.contains(sorted@[p]));
                assert(sorted@.to_multiset().count(sorted@[p]) > 0);
                assert(avals.to_multiset().count(sorted@[p]) > 0);
                assert(avals.contains(sorted@[p]));
                let w = choose|w: int| 0 <= w < avals.len() && avals[w] == sorted@[p];
                assert(avals[w] == pairf(self.articles@[w]));
                assert((#[trigger] self.articles@[w]).id == out@[p].0
                    && self.articles@[w].published_at == out@[p].1);
            }
            if out@.len() < limit {
                assert(out@ =~= sorted@);
                assert forall|kk: int|
                    0 <= kk < self.articles@.len() implies out@.contains(
                    ((#[trigger] self.articles@[kk]).id, self.articles@[kk].published_at),
                ) by {
                    assert(avals[kk] == pairf(self.articles@[kk]));
                    assert(avals.contains(pairf(self.articles@[kk])));
                    assert(avals.to_multiset().count(pairf(self.articles@[kk])) > 0);
                    assert(sorted@.to_multiset().count(pairf(self.articles@[kk])) > 0);
                    assert(sorted@.contains(pairf(self.articles@[kk])));
                }
            }
        }
        out
    }
}
} // verus!
