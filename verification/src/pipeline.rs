//! The per-entry pipeline: turning a parsed entry into an article
//! candidate, and the intra-batch selection that keeps at most one of any
//! two near-identical entries.
use vstd::prelude::*;

use crate::dedup::spec_strict_dup;
use crate::feedio;
use crate::feedio::EntryLink;
use crate::html::html_unescape_minimal;
use crate::html::spec_strip_html;
use crate::html::spec_unescape;
use crate::html::strip_html_basic;
use crate::store::NewArticle;
use crate::text::spec_trim_ws;
use crate::text::trim_ws;
use crate::text::TitleSignature;
use crate::urlnorm::normalize_article_url;
use crate::urlnorm::parsed_url_of;
use crate::urlnorm::spec_normalize_parts;
use crate::urlnorm::spec_serialize_parts;

verus! {

/// A parsed feed entry, as plain values.
pub struct ParsedEntry {
    pub title: Option<String>,
    pub links: Vec<EntryLink>,
    pub summary: Option<String>,
    pub language: Option<String>,
    pub published: Option<i64>,
    pub updated: Option<i64>,
}

/// A parsed feed: its own title and address, and its entries.
pub struct ParsedFeed {
    pub title: Option<String>,
    pub site_url: Option<String>,
    pub entries: Vec<ParsedEntry>,
}

/// Decode feed bytes into plain values; None when the bytes are no feed.
pub fn parse_feed(bytes: &Vec<u8>) -> (r: Option<ParsedFeed>)
{
    let parsed = feedio::parse_feed_bytes(bytes);
    match parsed {
        Ok(feed) => {
            let title = feedio::feed_title(&feed);
            let site_url = feedio::feed_first_link(&feed);
            let raw_entries = feedio::feed_entries(feed);
            let mut entries: Vec<ParsedEntry> = Vec::new();
            let mut rest = raw_entries;
            while rest.len() > 0
                decreases rest@.len(),
            {
                let e = rest.remove(0);
                let links = feedio::entry_links(&e);
                entries.push(
                    ParsedEntry {
                        title: feedio::entry_title(&e),
                        links,
                        summary: feedio::entry_summary(&e),
                        language: feedio::entry_language(&e),
                        published: feedio::entry_published_epoch(&e),
                        updated: feedio::entry_updated_epoch(&e),
                    },
                );
            }
            Some(ParsedFeed { title, site_url, entries })
        },
        Err(_) => None,
    }
}

pub open spec fn spec_link_is_alternate(l: EntryLink) -> bool {
    match l.rel {
        Some(r) => r@ == ("alternate")@,
        None => false,
    }
}

/// The first link marked `rel=alternate`, if any.
pub open spec fn spec_first_alternate(links: Seq<EntryLink>) -> Option<EntryLink>
    decreases links.len(),
{
    if links.len() == 0 {
        None
    } else if spec_link_is_alternate(links.first()) {
        Some(links.first())
    } else {
        spec_first_alternate(links.drop_first())
    }
}

/// The link an entry is filed under: the first with `rel=alternate`, else
/// the first of any kind.
pub open spec fn spec_pick_link(links: Seq<EntryLink>) -> Option<EntryLink> {
    match spec_first_alternate(links) {
        Some(l) => Some(l),
        None => if links.len() > 0 {
            Some(links.first())
        } else {
            None
        },
    }
}

fn pick_link(links: &Vec<EntryLink>) -> (r: Option<&EntryLink>)
    ensures
        match (r, spec_pick_link(links@)) {
            (Some(a), Some(b)) => *a == b,
            (None, None) => true,
            _ => false,
        },
{
    proof {
        reveal_strlit("alternate");
    }
    let n = links.len();
    let mut k: usize = 0;
    while k < n
        invariant
            k <= n,
            n == links@.len(),
            forall|j: int| 0 <= j < k ==> !spec_link_is_alternate(#[trigger] links@[j]),
        decreases n - k,
    {
        let is_alt = match &links[k].rel {
            Some(rl) => crate::charops::str_eq(rl.as_str(), "alternate"),
            None => false,
        };
        if is_alt {
            proof {
                lemma_first_alt_at(links@, k as int);
            }
            return Some(&links[k]);
        }
        k += 1;
    }
    proof {
        lemma_first_alt_none(links@);
    }
    if n > 0 {
        Some(&links[0])
    } else {
        None
    }
}

proof fn lemma_first_alt_at(links: Seq<EntryLink>, k: int)
    requires
        0 <= k < links.len(),
        forall|j: int| 0 <= j < k ==> !spec_link_is_alternate(#[trigger] links[j]),
        spec_link_is_alternate(links[k]),
    ensures
        spec_first_alternate(links) == Some(links[k]),
    decreases k,
{
    if k == 0 {
    } else {
        assert forall|j: int|
            0 <= j < k - 1 implies !spec_link_is_alternate(
            #[trigger] links.drop_first()[j],
        ) by {
            assert(links.drop_first()[j] == links[j + 1]);
        }
        assert(links.drop_first()[k - 1] == links[k]);
        lemma_first_alt_at(links.drop_first(), k - 1);
    }
}

proof fn lemma_first_alt_none(links: Seq<EntryLink>)
    requires
        forall|j: int| 0 <= j < links.len() ==> !spec_link_is_alternate(#[trigger] links[j]),
    ensures
        spec_first_alternate(links) is None,
    decreases links.len(),
{
    if links.len() > 0 {
        assert forall|j: int|
            0 <= j < links.drop_first().len() implies !spec_link_is_alternate(
            #[trigger] links.drop_first()[j],
        ) by {
            assert(links.drop_first()[j] == links[j + 1]);
        }
        lemma_first_alt_none(links.drop_first());
    }
}

/// The address stored for an entry: the canonical form of its chosen
/// link, or the link as given when it does not parse as an absolute URL.
pub open spec fn spec_entry_url(href: Seq<char>) -> Seq<char> {
    match parsed_url_of(href) {
        Some(p) => spec_serialize_parts(spec_normalize_parts(p)),
        None => href,
    }
}

/// Build an article candidate from a parsed entry: a non-blank title and
/// at least one link are required; the title is entity-decoded, the
/// summary cleaned of markup, the published time defaulted to `now`.
pub fn convert_entry(
    entry: &ParsedEntry,
    feed_id: i64,
    source_domain: &String,
    now: i64,
) -> (r: Option<NewArticle>)
    ensures
        (r is Some) <==> ((match entry.title {
            Some(t) => spec_trim_ws(t@).len() > 0,
            None => false,
        }) && entry.links@.len() > 0),
        r is Some ==> (match entry.title {
            Some(t) => (r->0).title@ == spec_unescape(spec_trim_ws(t@)),
            None => false,
        }),
        r is Some ==> (match spec_pick_link(entry.links@) {
            Some(l) => (r->0).url@ == spec_entry_url(l.href@),
            None => false,
        }),
        r is Some ==> (((r->0).description matches Some(d) && (match entry.summary {
            Some(s) => spec_trim_ws(s@).len() > 0 && d@ == spec_unescape(
                spec_strip_html(spec_trim_ws(s@)),
            ),
            None => false,
        })) || (((r->0).description is None) && (match entry.summary {
            Some(s) => spec_trim_ws(s@).len() == 0,
            None => true,
        }))),
        r is Some ==> (r->0).language == entry.language,
        r is Some ==> (r->0).published_at == (match entry.published {
            Some(p) => p,
            None => (match entry.updated {
                Some(u) => u,
                None => now,
            }),
        }),
        r is Some ==> (r->0).feed_id == Some(feed_id) && (r->0).source_domain@
            == source_domain@,
{
    let trimmed_title: Option<String> = match &entry.title {
        Some(t) => {
            let tt = trim_ws(t.as_str());
            if tt.as_str().unicode_len() > 0 {
                Some(tt)
            } else {
                None
            }
        },
        None => None,
    };
    let title = match trimmed_title {
        Some(t) => t,
        None => {
            return None;
        },
    };
    let link = match pick_link(&entry.links) {
        Some(l) => l,
        None => {
            return None;
        },
    };
    let url = match normalize_article_url(link.href.as_str()) {
        Some(u) => u,
        None => link.href.clone(),
    };
    let description: Option<String> = match &entry.summary {
        Some(s) => {
            let st = trim_ws(s.as_str());
            if st.as_str().unicode_len() > 0 {
                let stripped = strip_html_basic(st.as_str());
                Some(html_unescape_minimal(stripped.as_str()))
            } else {
                None
            }
        },
        None => None,
    };
    let language = match &entry.language {
        Some(l) => Some(l.clone()),
        None => None,
    };
    let published_at = match entry.published {
        Some(p) => p,
        None => match entry.updated {
            Some(u) => u,
            None => now,
        },
    };
    Some(
        NewArticle {
            feed_id: Some(feed_id),
            title: html_unescape_minimal(title.as_str()),
            url,
            description,
            language,
            source_domain: source_domain.clone(),
            published_at,
        },
    )
}

/// Which entries of a batch are accepted, by their positions: an entry
/// with an empty token set is dropped, and an entry that strictly
/// duplicates an earlier accepted one is dropped; no two accepted entries
/// are strict duplicates of one another, so of any two entries whose
/// Jaccard similarity reaches nine tenths, at most one is accepted.
pub fn select_batch(sigs: &Vec<TitleSignature>) -> (r: Vec<usize>)
    requires
        forall|k: int| 0 <= k < sigs@.len() ==> (#[trigger] sigs@[k]).wf(),
    ensures
        forall|p: int| 0 <= p < r@.len() ==> #[trigger] r@[p] < sigs@.len(),
        forall|p: int, q: int| 0 <= p < q < r@.len() ==> #[trigger] r@[p] < #[trigger] r@[q],
        forall|p: int, q: int|
            0 <= p < q < r@.len() ==> !spec_strict_dup(
                sigs@[#[trigger] r@[p] as int].token_set(),
                sigs@[r@[p] as int].normalized@,
                sigs@[#[trigger] r@[q] as int].token_set(),
                sigs@[r@[q] as int].normalized@,
            ),
        forall|p: int|
            0 <= p < r@.len() ==> sigs@[#[trigger] r@[p] as int].token_set()
                != Set::<Seq<char>>::empty(),
        // every entry is accounted for: accepted, empty, or shadowed by an
        // earlier accepted duplicate
        forall|i: int|
            0 <= i < sigs@.len() ==> ((#[trigger] sigs@[i]).token_set()
                == Set::<Seq<char>>::empty()) || (exists|p: int|
                0 <= p < r@.len() && #[trigger] r@[p] == i) || (exists|p: int|
                0 <= p < r@.len() && #[trigger] r@[p] < i && spec_strict_dup(
                    sigs@[i].token_set(),
                    sigs@[i].normalized@,
                    sigs@[r@[p] as int].token_set(),
                    sigs@[r@[p] as int].normalized@,
                )),
{
    let n = sigs.len();
    let mut accepted: Vec<usize> = Vec::new();
    let mut kept: Vec<TitleSignature> = Vec::new();
    let mut i: usize = 0;
    while i < n
        invariant
            i <= n,
            n == sigs@.len(),
            forall|k: int| 0 <= k < n ==> (#[trigger] sigs@[k]).wf(),
            accepted@.len() == kept@.len(),
            forall|p: int| 0 <= p < accepted@.len() ==> #[trigger] accepted@[p] < i,
            forall|p: int| 0 <= p < kept@.len() ==> (#[trigger] kept@[p]).wf(),
            forall|p: int|
                0 <= p < accepted@.len() ==> (#[trigger] kept@[p]).token_set() == sigs@[
                    accepted@[p] as int
                ].token_set() && kept@[p].normalized@ == sigs@[accepted@[p] as int].normalized@,
            forall|p: int, q: int|
                0 <= p < q < accepted@.len() ==> #[trigger] accepted@[p] < #[trigger] accepted@[q],
            forall|p: int, q: int|
                0 <= p < q < accepted@.len() ==> !spec_strict_dup(
                    sigs@[#[trigger] accepted@[p] as int].token_set(),
                    sigs@[accepted@[p] as int].normalized@,
                    sigs@[#[trigger] accepted@[q] as int].token_set(),
                    sigs@[accepted@[q] as int].normalized@,
                ),
            forall|p: int|
                0 <= p < accepted@.len() ==> sigs@[#[trigger] accepted@[p] as int].token_set()
                    != Set::<Seq<char>>::empty(),
            forall|ii: int|
                0 <= ii < i ==> ((#[trigger] sigs@[ii]).token_set()
                    == Set::<Seq<char>>::empty()) || (exists|p: int|
                    0 <= p < accepted@.len() && #[trigger] accepted@[p] == ii) || (exists|p: int|
                    0 <= p < accepted@.len() && #[trigger] accepted@[p] < ii && spec_strict_dup(
                        sigs@[ii].token_set(),
                        sigs@[ii].normalized@,
                        sigs@[accepted@[p] as int].token_set(),
                        sigs@[accepted@[p] as int].normalized@,
                    )),
        decreases n - i,
    {
        let sig = &sigs[i];
        if sig.tokens.len() > 0 {
            proof {
                broadcast use vstd::seq_lib::group_seq_properties;

                let tv = sigs@[i as int].token_views();
                assert(tv.len() > 0);
                assert(tv.contains(tv[0]));
                assert(sigs@[i as int].token_set().contains(tv[0]));
            }
            let dup = crate::dedup::intra_batch_duplicate(sig, &kept);
            if dup {
                proof {
                    let k = choose|k: int|
                        0 <= k < kept@.len() && spec_strict_dup(
                            sigs@[i as int].token_set(),
                            sigs@[i as int].normalized@,
                            (#[trigger] kept@[k]).token_set(),
                            kept@[k].normalized@,
                        );
                    assert(accepted@[k] < i && spec_strict_dup(
                        sigs@[i as int].token_set(),
                        sigs@[i as int].normalized@,
                        sigs@[accepted@[k] as int].token_set(),
                        sigs@[accepted@[k] as int].normalized@,
                    ));
                }
            }
            if !dup {
                let ghost old_acc = accepted@;
                let ghost old_kept = kept@;
                accepted.push(i);
                let copy_tokens = clone_tokens(&sig.tokens);
                kept.push(
                    TitleSignature { normalized: sig.normalized.clone(), tokens: copy_tokens },
                );
                proof {
                    assert(kept@.last().token_views() =~= sigs@[i as int].token_views());
                    assert(kept@.last().token_set() == sigs@[i as int].token_set());
                    assert(kept@.last().normalized@ == sigs@[i as int].normalized@);
                    assert(kept@.last().wf());
                    assert(accepted@ =~= old_acc.push(i as usize));
                    assert(kept@ =~= old_kept.push(kept@.last()));
                    assert forall|p: int|
                        0 <= p < accepted@.len() implies #[trigger] accepted@[p] < i + 1 by {
                        if p < accepted@.len() - 1 {
                            assert(accepted@[p] == old_acc[p]);
                        }
                    }
                    assert forall|p: int|
                        0 <= p < kept@.len() implies (#[trigger] kept@[p]).wf() by {
                        if p < kept@.len() - 1 {
                            assert(kept@[p] == old_kept[p]);
                        }
                    }
                    assert forall|p: int|
                        0 <= p < accepted@.len() implies (#[trigger] kept@[p]).token_set()
                            == sigs@[accepted@[p] as int].token_set() && kept@[p].normalized@
                            == sigs@[accepted@[p] as int].normalized@ by {
                        if p < accepted@.len() - 1 {
                            assert(accepted@[p] == old_acc[p]);
                            assert(kept@[p] == old_kept[p]);
                        }
                    }
                    assert forall|p: int, q: int|
                        0 <= p < q < accepted@.len() implies !spec_strict_dup(
                        sigs@[#[trigger] accepted@[p] as int].token_set(),
                        sigs@[accepted@[p] as int].normalized@,
                        sigs@[#[trigger] accepted@[q] as int].token_set(),
                        sigs@[accepted@[q] as int].normalized@,
                    ) by {
                        if q == accepted@.len() - 1 {
                            assert(accepted@[p] == old_acc[p]);
                            assert(kept@[p] == old_kept[p]);
                            assert(!spec_strict_dup(
                                sigs@[i as int].token_set(),
                                sigs@[i as int].normalized@,
                                old_kept[p].token_set(),
                                old_kept[p].normalized@,
                            ));
                            crate::dedup::lemma_strict_dup_symmetric(
                                sigs@[i as int].token_set(),
                                sigs@[i as int].normalized@,
                                sigs@[old_acc[p] as int].token_set(),
                                sigs@[old_acc[p] as int].normalized@,
                            );
                        } else {
                            assert(accepted@[p] == old_acc[p] && accepted@[q] == old_acc[q]);
                        }
                    }
                    assert(accepted@[accepted@.len() - 1] == i);
                    assert forall|ii: int|
                        0 <= ii < i + 1 implies ((#[trigger] sigs@[ii]).token_set()
                        == Set::<Seq<char>>::empty()) || (exists|p: int|
                        0 <= p < accepted@.len() && #[trigger] accepted@[p] == ii) || (exists|
                        p: int,
                    |
                        0 <= p < accepted@.len() && #[trigger] accepted@[p] < ii
                            && spec_strict_dup(
                            sigs@[ii].token_set(),
                            sigs@[ii].normalized@,
                            sigs@[accepted@[p] as int].token_set(),
                            sigs@[accepted@[p] as int].normalized@,
                        )) by {
                        if ii == i {
                            assert(accepted@[accepted@.len() - 1] == ii);
                        } else if sigs@[ii].token_set() != Set::<Seq<char>>::empty() {
                            if exists|p: int| 0 <= p < old_acc.len() && #[trigger] old_acc[p]
                                == ii {
                                let p = choose|p: int|
                                    0 <= p < old_acc.len() && #[trigger] old_acc[p] == ii;
                                assert(accepted@[p] == ii);
                            } else {
                                let p = choose|p: int|
                                    0 <= p < old_acc.len() && #[trigger] old_acc[p] < ii
                                        && spec_strict_dup(
                                        sigs@[ii].token_set(),
                                        sigs@[ii].normalized@,
                                        sigs@[old_acc[p] as int].token_set(),
                                        sigs@[old_acc[p] as int].normalized@,
                                    );
                                assert(accepted@[p] == old_acc[p]);
                            }
                        }
                    }
                }
            }
        } else {
            proof {
                let tv = sigs@[i as int].token_views();
                assert(tv.to_set() =~= Set::<Seq<char>>::empty());
            }
        }
        i += 1;
    }
    accepted
}

fn clone_tokens(tokens: &Vec<String>) -> (r: Vec<String>)
    ensures
        r@ == tokens@,
{
    let n = tokens.len();
    let mut out: Vec<String> = Vec::new();
    let mut k: usize = 0;
    while k < n
        invariant
            k <= n,
            n == tokens@.len(),
            out@ == tokens@.take(k as int),
        decreases n - k,
    {
        out.push(tokens[k].clone());
        k += 1;
        proof {
            assert(tokens@.take(k as int) =~= tokens@.take(k - 1 as int).push(
                tokens@[k - 1 as int],
            ));
        }
    }
    proof {
        assert(tokens@.take(n as int) =~= tokens@);
        assert(out@ =~= tokens@);
    }
    out
}


/// What the per-entry gate decides before the historical scan.
pub enum EntryGate {
    /// The normalized title yields no tokens: the entry is dropped.
    EmptyTokens,
    /// The entry strictly duplicates an earlier accepted batch entry: it
    /// is dropped with no provenance row.
    IntraBatchDuplicate,
    /// The entry proceeds to the historical scan.
    Proceed,
}

/// The per-entry order the pipeline fixes: an entry is first dropped when
/// its token set is empty, then dropped when it strictly duplicates an
/// earlier accepted entry of the same batch (writing no provenance row),
/// and only then scanned against the recent articles.
pub fn entry_gate(sig: &TitleSignature, seen: &Vec<TitleSignature>) -> (r: EntryGate)
    requires
        sig.wf(),
        forall|k: int| 0 <= k < seen@.len() ==> (#[trigger] seen@[k]).wf(),
    ensures
        (r is EmptyTokens) <==> sig.token_set() == Set::<Seq<char>>::empty(),
        (r is IntraBatchDuplicate) <==> (sig.token_set() != Set::<Seq<char>>::empty() && (exists|
            k: int,
        |
            0 <= k < seen@.len() && spec_strict_dup(
                sig.token_set(),
                sig.normalized@,
                (#[trigger] seen@[k]).token_set(),
                seen@[k].normalized@,
            ))),
        (r is Proceed) <==> (sig.token_set() != Set::<Seq<char>>::empty() && !(exists|k: int|
            0 <= k < seen@.len() && spec_strict_dup(
                sig.token_set(),
                sig.normalized@,
                (#[trigger] seen@[k]).token_set(),
                seen@[k].normalized@,
            ))),
{
    if sig.tokens.len() == 0 {
        proof {
            assert(sig.token_views().to_set() =~= Set::<Seq<char>>::empty());
        }
        return EntryGate::EmptyTokens;
    }
    proof {
        broadcast use vstd::seq_lib::group_seq_properties;

        let tv = sig.token_views();
        assert(tv.len() > 0);
        assert(tv.contains(tv[0]));
        assert(sig.token_set().contains(tv[0]));
    }
    if crate::dedup::intra_batch_duplicate(sig, seen) {
        EntryGate::IntraBatchDuplicate
    } else {
        EntryGate::Proceed
    }
}
} // verus!
