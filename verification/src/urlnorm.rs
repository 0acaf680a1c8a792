//! Canonicalization of article URLs, so that cosmetic differences do not
//! produce duplicate rows.
//!
//! A parsed URL is reduced to plain parts; normalization drops the fragment,
//! drops a default port, removes tracking query parameters, sorts the
//! remaining pairs by key then value, and trims trailing slashes from the
//! path (keeping a bare `/`). Normalization of parts is idempotent, and the
//! result serializes back to an absolute URL.
use vstd::prelude::*;

use vstd::relations::total_ordering;
use vstd::seq_lib::lemma_sorted_unique;
use vstd::relations::sorted_by;

use crate::charops::ascii_lower;
use crate::charops::chars_to_string;
use crate::charops::str_to_chars;
use crate::charops::u32_to_char;

verus! {

/// Lexicographic order on character sequences by code point, the order in
/// which `str` comparison sorts them.
pub open spec fn lex_le(a: Seq<char>, b: Seq<char>) -> bool
    decreases a.len(),
{
    if a.len() == 0 {
        true
    } else if b.len() == 0 {
        false
    } else if (a.first() as u32) < (b.first() as u32) {
        true
    } else if (a.first() as u32) > (b.first() as u32) {
        false
    } else {
        lex_le(a.drop_first(), b.drop_first())
    }
}

pub proof fn lemma_lex_le_refl(a: Seq<char>)
    ensures
        lex_le(a, a),
    decreases a.len(),
{
    if a.len() > 0 {
        lemma_lex_le_refl(a.drop_first());
    }
}

pub proof fn lemma_lex_le_antisym(a: Seq<char>, b: Seq<char>)
    requires
        lex_le(a, b),
        lex_le(b, a),
    ensures
        a == b,
    decreases a.len(),
{
    if a.len() == 0 {
        assert(b.len() == 0);
        assert(a =~= b);
    } else {
        assert(b.len() > 0);
        vstd::utf8::char_u32_cast(a.first(), a.first() as u32);
        vstd::utf8::char_u32_cast(b.first(), b.first() as u32);
        assert(a.first() == b.first());
        lemma_lex_le_antisym(a.drop_first(), b.drop_first());
        assert forall|i: int| 0 <= i < a.len() implies a[i] == b[i] by {
            if i > 0 {
                assert(a.drop_first()[i - 1] == b.drop_first()[i - 1]);
            }
        }
        assert(a =~= b);
    }
}

pub proof fn lemma_lex_le_trans(a: Seq<char>, b: Seq<char>, c: Seq<char>)
    requires
        lex_le(a, b),
        lex_le(b, c),
    ensures
        lex_le(a, c),
    decreases a.len(),
{
    if a.len() == 0 {
    } else {
        assert(b.len() > 0);
        assert(c.len() > 0);
        let ca = a.first() as u32;
        let cb = b.first() as u32;
        let cc = c.first() as u32;
        if ca == cb && cb == cc {
            lemma_lex_le_trans(a.drop_first(), b.drop_first(), c.drop_first());
        }
    }
}

pub proof fn lemma_lex_le_total(a: Seq<char>, b: Seq<char>)
    ensures
        lex_le(a, b) || lex_le(b, a),
    decreases a.len(),
{
    if a.len() > 0 && b.len() > 0 && (a.first() as u32) == (b.first() as u32) {
        lemma_lex_le_total(a.drop_first(), b.drop_first());
    }
}

/// The order on query pairs: by key, then by value.
pub open spec fn pair_le() -> spec_fn((Seq<char>, Seq<char>), (Seq<char>, Seq<char>)) -> bool {
    |p: (Seq<char>, Seq<char>), q: (Seq<char>, Seq<char>)|
        if p.0 == q.0 {
            lex_le(p.1, q.1)
        } else {
            lex_le(p.0, q.0)
        }
}

pub proof fn lemma_pair_le_total_ordering()
    ensures
        total_ordering(pair_le()),
{
    let r = pair_le();
    assert forall|x: (Seq<char>, Seq<char>)| #[trigger] r(x, x) by {
        lemma_lex_le_refl(x.1);
    }
    assert forall|x: (Seq<char>, Seq<char>), y: (Seq<char>, Seq<char>)|
        #[trigger] r(x, y) && #[trigger] r(y, x) implies x == y by {
        if x.0 == y.0 {
            lemma_lex_le_antisym(x.1, y.1);
        } else {
            lemma_lex_le_antisym(x.0, y.0);
        }
    }
    assert forall|x: (Seq<char>, Seq<char>), y: (Seq<char>, Seq<char>), z: (Seq<char>, Seq<char>)|
        #[trigger] r(x, y) && #[trigger] r(y, z) implies r(x, z) by {
        if x.0 == y.0 && y.0 == z.0 {
            lemma_lex_le_trans(x.1, y.1, z.1);
        } else if x.0 == y.0 {
        } else if y.0 == z.0 {
        } else {
            lemma_lex_le_trans(x.0, y.0, z.0);
            if x.0 == z.0 {
                lemma_lex_le_antisym(x.0, y.0);
            }
        }
    }
    assert forall|x: (Seq<char>, Seq<char>), y: (Seq<char>, Seq<char>)|
        #[trigger] r(x, y) || #[trigger] r(y, x) by {
        if x.0 == y.0 {
            lemma_lex_le_total(x.1, y.1);
        } else {
            lemma_lex_le_total(x.0, y.0);
        }
    }
}

/// One decoded query pair.
pub struct QueryPair {
    pub key: String,
    pub value: String,
}

impl QueryPair {
    /// An explicit copy, so that the copy is known to equal the original.
    pub fn duplicate(&self) -> (r: QueryPair)
        ensures
            r == *self,
    {
        QueryPair { key: self.key.clone(), value: self.value.clone() }
    }
}

impl View for QueryPair {
    type V = (Seq<char>, Seq<char>);

    open spec fn view(&self) -> (Seq<char>, Seq<char>) {
        (self.key@, self.value@)
    }
}

/// The plain parts of a parsed absolute URL. Percent-decoding of query
/// pairs, and host and scheme normalization, are the parser's doing.
pub struct UrlParts {
    pub scheme: String,
    pub username: String,
    pub password: Option<String>,
    pub host: Option<String>,
    pub port: Option<u16>,
    pub path: String,
    pub query: Vec<QueryPair>,
    pub fragment: Option<String>,
}

/// The parts of a URL at the specification level.
pub struct UrlPartsView {
    pub scheme: Seq<char>,
    pub username: Seq<char>,
    pub password: Option<Seq<char>>,
    pub host: Option<Seq<char>>,
    pub port: Option<u16>,
    pub path: Seq<char>,
    pub query: Seq<(Seq<char>, Seq<char>)>,
    pub fragment: Option<Seq<char>>,
}

impl View for UrlParts {
    type V = UrlPartsView;

    open spec fn view(&self) -> UrlPartsView {
        UrlPartsView {
            scheme: self.scheme@,
            username: self.username@,
            password: match self.password {
                Some(p) => Some(p@),
                None => None,
            },
            host: match self.host {
                Some(h) => Some(h@),
                None => None,
            },
            port: self.port,
            path: self.path@,
            query: self.query@.map_values(|q: QueryPair| q@),
            fragment: match self.fragment {
                Some(f) => Some(f@),
                None => None,
            },
        }
    }
}

/// The tracking query keys that are dropped: a fixed set of exact names and
/// a fixed set of prefixes, compared ASCII case-insensitively.
pub open spec fn lower_key(k: Seq<char>) -> Seq<char> {
    k.map_values(|c: char| ascii_lower(c))
}

pub open spec fn is_tracking_key(k: Seq<char>) -> bool {
    let low = lower_key(k);
    ||| low == seq!['f', 'b', 'c', 'l', 'i', 'd']
    ||| low == seq!['g', 'c', 'l', 'i', 'd']
    ||| low == seq!['y', 'c', 'l', 'i', 'd']
    ||| low == seq!['c', 'm', 'p']
    ||| low == seq!['r', 'e', 'f']
    ||| low == seq!['r', 'e', 'f', 'e', 'r', 'r', 'e', 'r']
    ||| low == seq!['s', 'o', 'u', 'r', 'c', 'e']
    ||| low.take(4 as int) == seq!['u', 't', 'm', '_'] && low.len() >= 4
    ||| low.take(3 as int) == seq!['s', 'p', 'm'] && low.len() >= 3
    ||| low.take(3 as int) == seq!['_', 'h', 's'] && low.len() >= 3
    ||| low.take(3 as int) == seq!['m', 'c', '_'] && low.len() >= 3
    ||| low.take(3 as int) == seq!['i', 'c', 'n'] && low.len() >= 3
    ||| low.take(3 as int) == seq!['i', 'c', 'p'] && low.len() >= 3
}

pub open spec fn keep_pair_pred() -> spec_fn((Seq<char>, Seq<char>)) -> bool {
    |p: (Seq<char>, Seq<char>)| !is_tracking_key(p.0)
}

/// Trailing slashes are trimmed from a path, except that a path of only
/// slashes becomes the single slash.
pub open spec fn spec_trim_path(p: Seq<char>) -> Seq<char>
    decreases p.len(),
{
    if p.len() == 1 && p.first() == '/' {
        p
    } else if p.len() > 0 && p.last() == '/' {
        spec_trim_path(p.drop_last())
    } else if p.len() == 0 {
        seq!['/']
    } else {
        p
    }
}

/// The normalized form of URL parts: no fragment, no default port, no
/// tracking parameters, query sorted by key then value, path trimmed.
pub open spec fn spec_normalize_parts(p: UrlPartsView) -> UrlPartsView {
    UrlPartsView {
        scheme: p.scheme,
        username: p.username,
        password: p.password,
        host: p.host,
        port: match p.port {
            Some(pt) => if (p.scheme == seq!['h', 't', 't', 'p'] && pt == 80) || (p.scheme
                == seq!['h', 't', 't', 'p', 's'] && pt == 443) {
                None
            } else {
                Some(pt)
            },
            None => None,
        },
        path: if p.host is Some {
            spec_trim_path(p.path)
        } else {
            p.path
        },
        query: p.query.filter(keep_pair_pred()).sort_by(pair_le()),
        fragment: None,
    }
}

proof fn lemma_filter_all_kept<A>(s: Seq<A>, p: spec_fn(A) -> bool)
    requires
        forall|i: int| 0 <= i < s.len() ==> p(s[i]),
    ensures
        s.filter(p) == s,
    decreases s.len(),
{
    if s.len() == 0 {
        assert(s.filter(p) =~= s);
    } else {
        lemma_filter_all_kept(s.drop_last(), p);
        s.drop_last().lemma_filter_push(s.last(), p);
        assert(s.drop_last().push(s.last()) =~= s);
        assert(s.filter(p) =~= s);
    }
}

proof fn lemma_trim_path_idempotent(p: Seq<char>)
    ensures
        spec_trim_path(spec_trim_path(p)) == spec_trim_path(p),
    decreases p.len(),
{
    if p.len() == 1 && p.first() == '/' {
    } else if p.len() > 0 && p.last() == '/' {
        lemma_trim_path_idempotent(p.drop_last());
    } else if p.len() == 0 {
    } else {
    }
}

/// Normalization of URL parts is idempotent: applying it to an already
/// normalized value changes nothing.
pub proof fn lemma_normalize_parts_idempotent(p: UrlPartsView)
    ensures
        spec_normalize_parts(spec_normalize_parts(p)) == spec_normalize_parts(p),
{
    broadcast use vstd::seq_lib::group_seq_properties;

    let n1 = spec_normalize_parts(p);
    let n2 = spec_normalize_parts(n1);
    lemma_trim_path_idempotent(p.path);
    let keep = keep_pair_pred();
    let leq = pair_le();
    lemma_pair_le_total_ordering();
    let filtered = p.query.filter(keep);
    let sorted = filtered.sort_by(leq);
    filtered.lemma_sort_by_ensures(leq);
    p.query.filter_lemma(keep);
    // every surviving pair still survives the second filter
    assert forall|i: int| 0 <= i < sorted.len() implies keep(sorted[i]) by {
        assert(sorted.to_multiset() =~= filtered.to_multiset());
        vstd::seq_lib::to_multiset_contains(sorted, sorted[i]);
        vstd::seq_lib::to_multiset_contains(filtered, sorted[i]);
        assert(filtered.contains(sorted[i]));
    }
    lemma_filter_all_kept(sorted, keep);
    // sorting a sorted sequence gives it back
    sorted.lemma_sort_by_ensures(leq);
    lemma_sorted_unique(sorted.sort_by(leq), sorted, leq);
    assert(n2.query == n1.query);
    assert(n2 =~= n1);
}


fn str_lex_le(a: &String, b: &String) -> (r: bool)
    ensures
        r == lex_le(a@, b@),
{
    let av = str_to_chars(a.as_str());
    let bv = str_to_chars(b.as_str());
    let na = av.len();
    let nb = bv.len();
    let mut i: usize = 0;
    proof {
        assert(a@.skip(0) =~= a@);
        assert(b@.skip(0) =~= b@);
    }
    while i < na && i < nb
        invariant
            i <= na,
            i <= nb,
            na == av@.len(),
            nb == bv@.len(),
            av@ == a@,
            bv@ == b@,
            lex_le(a@, b@) == lex_le(a@.skip(i as int), b@.skip(i as int)),
        decreases na - i,
    {
        let ca = av[i] as u32;
        let cb = bv[i] as u32;
        proof {
            assert(a@.skip(i as int).first() == a@[i as int]);
            assert(b@.skip(i as int).first() == b@[i as int]);
            assert(a@.skip(i as int).drop_first() =~= a@.skip(i + 1 as int));
            assert(b@.skip(i as int).drop_first() =~= b@.skip(i + 1 as int));
        }
        if ca < cb {
            return true;
        }
        if ca > cb {
            return false;
        }
        i += 1;
    }
    proof {
        if i >= na {
            assert(a@.skip(i as int).len() == 0);
        } else {
            assert(b@.skip(i as int).len() == 0);
            assert(a@.skip(i as int).len() > 0);
        }
    }
    i >= na
}

fn pair_le_exec(a: &QueryPair, b: &QueryPair) -> (r: bool)
    ensures
        r == pair_le()(a@, b@),
{
    let keys_equal = a.key.eq(&b.key);
    if keys_equal {
        str_lex_le(&a.value, &b.value)
    } else {
        str_lex_le(&a.key, &b.key)
    }
}

fn is_tracking_param(key: &String) -> (r: bool)
    ensures
        r == is_tracking_key(key@),
{
    let kv = str_to_chars(key.as_str());
    let n = kv.len();
    let mut low: Vec<char> = Vec::new();
    let mut i: usize = 0;
    while i < n
        invariant
            i <= n,
            n == kv@.len(),
            kv@ == key@,
            low@ == kv@.take(i as int).map_values(|c: char| ascii_lower(c)),
        decreases n - i,
    {
        let lc = crate::html::lower_ascii_char(kv[i]);
        low.push(lc);
        proof {
            assert(kv@.take(i + 1 as int).map_values(|c: char| ascii_lower(c)) =~= kv@.take(
                i as int,
            ).map_values(|c: char| ascii_lower(c)).push(ascii_lower(kv@[i as int])));
        }
        i += 1;
    }
    proof {
        assert(kv@.take(n as int) =~= kv@);
        assert(low@ == lower_key(key@));
    }
    let m = low.len();
    proof {
        assert(m == key@.len());
    }
    let exact = (m == 6 && low[0] == 'f' && low[1] == 'b' && low[2] == 'c' && low[3] == 'l'
        && low[4] == 'i' && low[5] == 'd') || (m == 5 && low[0] == 'g' && low[1] == 'c' && low[2]
        == 'l' && low[3] == 'i' && low[4] == 'd') || (m == 5 && low[0] == 'y' && low[1] == 'c'
        && low[2] == 'l' && low[3] == 'i' && low[4] == 'd') || (m == 3 && low[0] == 'c' && low[1]
        == 'm' && low[2] == 'p') || (m == 3 && low[0] == 'r' && low[1] == 'e' && low[2] == 'f') || (
    m == 8 && low[0] == 'r' && low[1] == 'e' && low[2] == 'f' && low[3] == 'e' && low[4] == 'r'
        && low[5] == 'r' && low[6] == 'e' && low[7] == 'r') || (m == 6 && low[0] == 's' && low[1]
        == 'o' && low[2] == 'u' && low[3] == 'r' && low[4] == 'c' && low[5] == 'e');
    let prefix = (m >= 4 && low[0] == 'u' && low[1] == 't' && low[2] == 'm' && low[3] == '_') || (m
        >= 3 && low[0] == 's' && low[1] == 'p' && low[2] == 'm') || (m >= 3 && low[0] == '_'
        && low[1] == 'h' && low[2] == 's') || (m >= 3 && low[0] == 'm' && low[1] == 'c' && low[2]
        == '_') || (m >= 3 && low[0] == 'i' && low[1] == 'c' && low[2] == 'n') || (m >= 3 && low[0]
        == 'i' && low[1] == 'c' && low[2] == 'p');
    proof {
        let lw = lower_key(key@);
        assert(lw == low@);
        if m == 6 {
            assert((lw == seq!['f', 'b', 'c', 'l', 'i', 'd']) == (low@[0] == 'f' && low@[1] == 'b'
                && low@[2] == 'c' && low@[3] == 'l' && low@[4] == 'i' && low@[5] == 'd')) by {
                if low@[0] == 'f' && low@[1] == 'b' && low@[2] == 'c' && low@[3] == 'l' && low@[4]
                    == 'i' && low@[5] == 'd' {
                    assert(lw =~= seq!['f', 'b', 'c', 'l', 'i', 'd']);
                }
            }
            assert((lw == seq!['s', 'o', 'u', 'r', 'c', 'e']) == (low@[0] == 's' && low@[1] == 'o'
                && low@[2] == 'u' && low@[3] == 'r' && low@[4] == 'c' && low@[5] == 'e')) by {
                if low@[0] == 's' && low@[1] == 'o' && low@[2] == 'u' && low@[3] == 'r' && low@[4]
                    == 'c' && low@[5] == 'e' {
                    assert(lw =~= seq!['s', 'o', 'u', 'r', 'c', 'e']);
                }
            }
        }
        if m == 5 {
            assert((lw == seq!['g', 'c', 'l', 'i', 'd']) == (low@[0] == 'g' && low@[1] == 'c'
                && low@[2] == 'l' && low@[3] == 'i' && low@[4] == 'd')) by {
                if low@[0] == 'g' && low@[1] == 'c' && low@[2] == 'l' && low@[3] == 'i' && low@[4]
                    == 'd' {
                    assert(lw =~= seq!['g', 'c', 'l', 'i', 'd']);
                }
            }
            assert((lw == seq!['y', 'c', 'l', 'i', 'd']) == (low@[0] == 'y' && low@[1] == 'c'
                && low@[2] == 'l' && low@[3] == 'i' && low@[4] == 'd')) by {
                if low@[0] == 'y' && low@[1] == 'c' && low@[2] == 'l' && low@[3] == 'i' && low@[4]
                    == 'd' {
                    assert(lw =~= seq!['y', 'c', 'l', 'i', 'd']);
                }
            }
        }
        if m == 3 {
            assert((lw == seq!['c', 'm', 'p']) == (low@[0] == 'c' && low@[1] == 'm' && low@[2]
                == 'p')) by {
                if low@[0] == 'c' && low@[1] == 'm' && low@[2] == 'p' {
                    assert(lw =~= seq!['c', 'm', 'p']);
                }
            }
            assert((lw == seq!['r', 'e', 'f']) == (low@[0] == 'r' && low@[1] == 'e' && low@[2]
                == 'f')) by {
                if low@[0] == 'r' && low@[1] == 'e' && low@[2] == 'f' {
                    assert(lw =~= seq!['r', 'e', 'f']);
                }
            }
        }
        if m == 8 {
            assert((lw == seq!['r', 'e', 'f', 'e', 'r', 'r', 'e', 'r']) == (low@[0] == 'r'
                && low@[1] == 'e' && low@[2] == 'f' && low@[3] == 'e' && low@[4] == 'r' && low@[5]
                == 'r' && low@[6] == 'e' && low@[7] == 'r')) by {
                if low@[0] == 'r' && low@[1] == 'e' && low@[2] == 'f' && low@[3] == 'e' && low@[4]
                    == 'r' && low@[5] == 'r' && low@[6] == 'e' && low@[7] == 'r' {
                    assert(lw =~= seq!['r', 'e', 'f', 'e', 'r', 'r', 'e', 'r']);
                }
            }
        }
        if m >= 4 {
            assert((lw.take(4 as int) == seq!['u', 't', 'm', '_']) == (low@[0] == 'u' && low@[1]
                == 't' && low@[2] == 'm' && low@[3] == '_')) by {
                if low@[0] == 'u' && low@[1] == 't' && low@[2] == 'm' && low@[3] == '_' {
                    assert(lw.take(4 as int) =~= seq!['u', 't', 'm', '_']);
                } else {
                    if lw.take(4 as int) == seq!['u', 't', 'm', '_'] {
                        assert(lw[0] == lw.take(4 as int)[0]);
                        assert(lw[1] == lw.take(4 as int)[1]);
                        assert(lw[2] == lw.take(4 as int)[2]);
                        assert(lw[3] == lw.take(4 as int)[3]);
                    }
                }
            }
        }
        if m >= 3 {
            assert forall|c0: char, c1: char, c2: char|
                true implies ((lw.take(3 as int) == seq![c0, c1, c2]) == (low@[0] == c0 && low@[1]
                == c1 && low@[2] == c2)) by {
                if low@[0] == c0 && low@[1] == c1 && low@[2] == c2 {
                    assert(lw.take(3 as int) =~= seq![c0, c1, c2]);
                } else {
                    if lw.take(3 as int) == seq![c0, c1, c2] {
                        assert(lw[0] == lw.take(3 as int)[0]);
                        assert(lw[1] == lw.take(3 as int)[1]);
                        assert(lw[2] == lw.take(3 as int)[2]);
                    }
                }
            }
        }
    }
    exact || prefix
}

fn filter_tracking(pairs: &Vec<QueryPair>) -> (r: Vec<QueryPair>)
    ensures
        r@.map_values(|q: QueryPair| q@) == pairs@.map_values(|q: QueryPair| q@).filter(
            keep_pair_pred(),
        ),
{
    let ghost keep = keep_pair_pred();
    let ghost pview = pairs@.map_values(|q: QueryPair| q@);
    let n = pairs.len();
    let mut out: Vec<QueryPair> = Vec::new();
    let mut i: usize = 0;
    proof {
        assert(pview.take(0).filter(keep) =~= Seq::<(Seq<char>, Seq<char>)>::empty());
        assert(out@.map_values(|q: QueryPair| q@) =~= Seq::<(Seq<char>, Seq<char>)>::empty());
    }
    while i < n
        invariant
            i <= n,
            n == pairs@.len(),
            pview == pairs@.map_values(|q: QueryPair| q@),
            keep == keep_pair_pred(),
            out@.map_values(|q: QueryPair| q@) == pview.take(i as int).filter(keep),
        decreases n - i,
    {
        proof {
            assert(pview.take(i + 1 as int) =~= pview.take(i as int).push(pview[i as int]));
            pview.take(i as int).lemma_filter_push(pview[i as int], keep);
            assert(pview[i as int] == (pairs@[i as int])@);
        }
        let tracking = is_tracking_param(&pairs[i].key);
        if !tracking {
            let ghost old_out = out@;
            out.push(pairs[i].duplicate());
            proof {
                assert(out@ =~= old_out.push(out@.last()));
                assert(out@.map_values(|q: QueryPair| q@) =~= old_out.map_values(
                    |q: QueryPair| q@,
                ).push((pairs@[i as int])@));
            }
        }
        i += 1;
    }
    proof {
        assert(pview.take(n as int) =~= pview);
    }
    out
}

fn insert_sorted(out: &mut Vec<QueryPair>, x: QueryPair)
    requires
        sorted_by(old(out)@.map_values(|q: QueryPair| q@), pair_le()),
    ensures
        sorted_by(final(out)@.map_values(|q: QueryPair| q@), pair_le()),
        final(out)@.map_values(|q: QueryPair| q@).to_multiset() == old(out)@.map_values(
            |q: QueryPair| q@,
        ).to_multiset().insert(x@),
{
    broadcast use vstd::seq_lib::group_seq_properties;

    let ghost leq = pair_le();
    let ghost m = out@.map_values(|q: QueryPair| q@);
    proof {
        lemma_pair_le_total_ordering();
    }
    let n = out.len();
    let mut j: usize = 0;
    while j < n && pair_le_exec(&out[j], &x)
        invariant
            j <= n,
            n == out@.len(),
            m == out@.map_values(|q: QueryPair| q@),
            forall|k: int| 0 <= k < j ==> leq(#[trigger] m[k], x@),
            leq == pair_le(),
        decreases n - j,
    {
        proof {
            assert(m[j as int] == (out@[j as int])@);
        }
        j += 1;
    }
    proof {
        if j < n {
            assert(m[j as int] == (out@[j as int])@);
            assert(!leq(m[j as int], x@));
        }
    }
    let ghost gj = j as int;
    out.insert(j, x);
    proof {
        let m2 = out@.map_values(|q: QueryPair| q@);
        assert(m2 =~= m.insert(gj, x@));
        vstd::seq_lib::to_multiset_insert(m, gj, x@);
        assert forall|p: int, q: int| 0 <= p < q < m2.len() implies leq(m2[p], m2[q]) by {
            let r = leq;
            assert(vstd::relations::total_ordering(r));
            if q < gj {
                assert(m2[p] == m[p] && m2[q] == m[q]);
            } else if p < gj && q == gj {
                assert(m2[p] == m[p] && m2[q] == x@);
            } else if p < gj && q > gj {
                assert(m2[p] == m[p] && m2[q] == m[q - 1]);
            } else if p == gj {
                assert(m2[p] == x@ && m2[q] == m[q - 1]);
                assert(!r(m[gj], x@));
                assert(r(x@, m[gj]));
                if q - 1 > gj {
                    assert(r(m[gj], m[q - 1]));
                }
            } else {
                assert(m2[p] == m[p - 1] && m2[q] == m[q - 1]);
            }
        }
    }
}

fn sort_query_pairs(pairs: Vec<QueryPair>) -> (r: Vec<QueryPair>)
    ensures
        r@.map_values(|q: QueryPair| q@) == pairs@.map_values(|q: QueryPair| q@).sort_by(
            pair_le(),
        ),
{
    broadcast use vstd::seq_lib::group_seq_properties;

    let ghost leq = pair_le();
    let ghost pview = pairs@.map_values(|q: QueryPair| q@);
    let n = pairs.len();
    let mut out: Vec<QueryPair> = Vec::new();
    let mut i: usize = 0;
    proof {
        lemma_pair_le_total_ordering();
        assert(out@.map_values(|q: QueryPair| q@) =~= Seq::<(Seq<char>, Seq<char>)>::empty());
        assert(pview.take(0) =~= Seq::<(Seq<char>, Seq<char>)>::empty());
        assert(Seq::<(Seq<char>, Seq<char>)>::empty().to_multiset() =~= vstd::multiset::Multiset::<(Seq<char>, Seq<char>)>::empty());
    }
    while i < n
        invariant
            i <= n,
            n == pairs@.len(),
            pview == pairs@.map_values(|q: QueryPair| q@),
            leq == pair_le(),
            sorted_by(out@.map_values(|q: QueryPair| q@), leq),
            out@.map_values(|q: QueryPair| q@).to_multiset() == pview.take(
                i as int,
            ).to_multiset(),
        decreases n - i,
    {
        proof {
            assert(pview.take(i + 1 as int) =~= pview.take(i as int).push(pview[i as int]));
            vstd::seq_lib::to_multiset_build(pview.take(i as int), pview[i as int]);
            assert(pview[i as int] == (pairs@[i as int])@);
        }
        let x = pairs[i].duplicate();
        insert_sorted(&mut out, x);
        i += 1;
    }
    proof {
        assert(pview.take(n as int) =~= pview);
        pview.lemma_sort_by_ensures(leq);
        lemma_sorted_unique(
            out@.map_values(|q: QueryPair| q@),
            pview.sort_by(leq),
            leq,
        );
    }
    out
}

proof fn lemma_trim_path_take(p: Seq<char>, k: int)
    requires
        0 <= k <= p.len(),
        forall|j: int| k <= j < p.len() ==> p[j] == '/',
        k > 0 ==> p[k - 1] != '/',
    ensures
        spec_trim_path(p) == (if k == 0 {
            seq!['/']
        } else {
            p.take(k)
        }),
    decreases p.len(),
{
    if p.len() == 1 && p.first() == '/' {
        assert(k == 0);
    } else if p.len() > 0 && p.last() == '/' {
        lemma_trim_path_take(p.drop_last(), k);
        if k > 0 {
            assert(p.drop_last().take(k) =~= p.take(k));
        }
    } else if p.len() == 0 {
    } else {
        assert(k == p.len());
        assert(p.take(k) =~= p);
    }
}

fn trim_path(path: &String) -> (r: String)
    ensures
        r@ == spec_trim_path(path@),
{
    let v = str_to_chars(path.as_str());
    let n = v.len();
    if n == 1 && v[0] == '/' {
        proof {
            assert(path@.first() == '/');
        }
        return path.clone();
    }
    let mut k: usize = n;
    while k > 0 && v[k - 1] == '/'
        invariant
            k <= n,
            n == v@.len(),
            v@ == path@,
            forall|j: int| k <= j < n ==> v@[j] == '/',
        decreases k,
    {
        k -= 1;
    }
    proof {
        if !(path@.len() == 1 && path@.first() == '/') {
            lemma_trim_path_take(path@, k as int);
        }
    }
    if k == 0 {
        let slash = vec!['/'];
        proof {
            assert(slash@ =~= seq!['/']);
        }
        chars_to_string(&slash)
    } else {
        let mut out: Vec<char> = Vec::new();
        let mut i: usize = 0;
        while i < k
            invariant
                i <= k <= v@.len(),
                out@ == v@.take(i as int),
            decreases k - i,
        {
            out.push(v[i]);
            i += 1;
            proof {
                assert(v@.take(i as int) =~= v@.take(i - 1 as int).push(v@[i - 1 as int]));
            }
        }
        chars_to_string(&out)
    }
}

fn scheme_is(s: &String, lit: &str) -> (r: bool)
    ensures
        r == (s@ == lit@),
{
    crate::charops::str_eq(s.as_str(), lit)
}

/// Normalize parsed URL parts: drop the fragment and default port, remove
/// tracking query parameters, sort the rest, and trim the path.
pub fn normalize_parts(p: UrlParts) -> (r: UrlParts)
    ensures
        r@ == spec_normalize_parts(p@),
{
    let UrlParts { scheme, username, password, host, port, path, query, fragment } = p;
    let is_http = scheme_is(&scheme, "http");
    let is_https = scheme_is(&scheme, "https");
    proof {
        reveal_strlit("http");
        reveal_strlit("https");
        assert(("http")@ =~= seq!['h', 't', 't', 'p']);
        assert(("https")@ =~= seq!['h', 't', 't', 'p', 's']);
    }
    let new_port = match port {
        Some(pt) => if (is_http && pt == 80) || (is_https && pt == 443) {
            None
        } else {
            Some(pt)
        },
        None => None,
    };
    let new_path = if host.is_some() {
        trim_path(&path)
    } else {
        path
    };
    let filtered = filter_tracking(&query);
    let sorted = sort_query_pairs(filtered);
    UrlParts {
        scheme,
        username,
        password,
        host,
        port: new_port,
        path: new_path,
        query: sorted,
        fragment: None,
    }
}

/// Decimal digits of a number, most significant first.
pub open spec fn spec_dec_digits(n: nat) -> Seq<char>
    decreases n,
{
    let d = ((48 + (n % 10)) as u32) as char;
    if n < 10 {
        seq![d]
    } else {
        spec_dec_digits(n / 10).push(d)
    }
}

fn push_dec_digits(out: &mut Vec<char>, n: u16)
    ensures
        final(out)@ == old(out)@ + spec_dec_digits(n as nat),
    decreases n,
{
    let d = n % 10;
    let code: u32 = 48 + (d as u32);
    let c = match u32_to_char(code) {
        Some(c) => {
            proof {
                vstd::utf8::char_u32_cast(c, code);
            }
            c
        },
        None => ' ',
    };
    if n < 10 {
        out.push(c);
        proof {
            assert(out@ =~= old(out)@ + spec_dec_digits(n as nat));
        }
    } else {
        push_dec_digits(out, n / 10);
        out.push(c);
        proof {
            assert(out@ =~= old(out)@ + spec_dec_digits(n as nat));
        }
    }
}

/// What form_urlencoded's byte serializer returns for a component: the
/// www-form-urlencoded percent-encoding of its UTF-8 bytes.
pub uninterp spec fn urlencoded_of(s: Seq<char>) -> Seq<char>;

/// Relies on form_urlencoded::byte_serialize: percent-encodes a component,
/// a function of its bytes alone; an empty input stays empty.
#[verifier::external_body]
fn urlencode_component(s: &String) -> (r: String)
    ensures
        r@ == urlencoded_of(s@),
        s@.len() == 0 ==> r@.len() == 0,
{
    form_urlencoded::byte_serialize(s.as_bytes()).collect()
}

/// The serialized query string: pairs joined by '&', each `key=value`.
pub open spec fn spec_query_string(qs: Seq<(Seq<char>, Seq<char>)>) -> Seq<char>
    decreases qs.len(),
{
    if qs.len() == 0 {
        Seq::<char>::empty()
    } else if qs.len() == 1 {
        urlencoded_of(qs.first().0) + seq!['='] + urlencoded_of(qs.first().1)
    } else {
        spec_query_string(qs.drop_last()) + seq!['&'] + urlencoded_of(qs.last().0) + seq!['=']
            + urlencoded_of(qs.last().1)
    }
}

/// The string form of URL parts: scheme, authority when a host is present,
/// path, and the query when it is non-empty.
pub open spec fn spec_serialize_parts(p: UrlPartsView) -> Seq<char> {
    let userinfo = if p.username.len() > 0 || p.password is Some {
        p.username + (match p.password {
            Some(pw) => seq![':'] + pw,
            None => Seq::<char>::empty(),
        }) + seq!['@']
    } else {
        Seq::<char>::empty()
    };
    let authority = match p.host {
        Some(h) => seq![':', '/', '/'] + userinfo + h + (match p.port {
            Some(pt) => seq![':'] + spec_dec_digits(pt as nat),
            None => Seq::<char>::empty(),
        }),
        None => seq![':'],
    };
    let q = if p.query.len() > 0 {
        seq!['?'] + spec_query_string(p.query)
    } else {
        Seq::<char>::empty()
    };
    let frag = match p.fragment {
        Some(f) => seq!['#'] + f,
        None => Seq::<char>::empty(),
    };
    p.scheme + authority + p.path + q + frag
}

fn push_str_chars(out: &mut Vec<char>, s: &String)
    ensures
        final(out)@ == old(out)@ + s@,
{
    let v = str_to_chars(s.as_str());
    let n = v.len();
    let mut i: usize = 0;
    while i < n
        invariant
            i <= n,
            n == v@.len(),
            v@ == s@,
            out@ == old(out)@ + s@.take(i as int),
        decreases n - i,
    {
        out.push(v[i]);
        i += 1;
        proof {
            assert(old(out)@ + s@.take(i as int) =~= (old(out)@ + s@.take(i - 1 as int)).push(
                s@[i - 1 as int],
            ));
        }
    }
    proof {
        assert(s@.take(n as int) =~= s@);
        assert(out@ =~= old(out)@ + s@);
    }
}

/// Serialize URL parts back to an absolute URL string.
pub fn serialize_parts(p: &UrlParts) -> (r: String)
    ensures
        r@ == spec_serialize_parts(p@),
{
    let mut out: Vec<char> = Vec::new();
    push_str_chars(&mut out, &p.scheme);
    match &p.host {
        Some(h) => {
            out.push(':');
            out.push('/');
            out.push('/');
            if !p.username.as_str().is_empty() || p.password.is_some() {
                push_str_chars(&mut out, &p.username);
                match &p.password {
                    Some(pw) => {
                        out.push(':');
                        push_str_chars(&mut out, pw);
                    },
                    None => {},
                }
                out.push('@');
            }
            push_str_chars(&mut out, h);
            match p.port {
                Some(pt) => {
                    out.push(':');
                    push_dec_digits(&mut out, pt);
                },
                None => {},
            }
        },
        None => {
            out.push(':');
        },
    }
    proof {
        let pv = p@;
        let userinfo = if pv.username.len() > 0 || pv.password is Some {
            pv.username + (match pv.password {
                Some(pw) => seq![':'] + pw,
                None => Seq::<char>::empty(),
            }) + seq!['@']
        } else {
            Seq::<char>::empty()
        };
        let authority = match pv.host {
            Some(h) => seq![':', '/', '/'] + userinfo + h + (match pv.port {
                Some(pt) => seq![':'] + spec_dec_digits(pt as nat),
                None => Seq::<char>::empty(),
            }),
            None => seq![':'],
        };
        assert(out@ =~= pv.scheme + authority);
    }
    push_str_chars(&mut out, &p.path);
    let nq = p.query.len();
    if nq > 0 {
        out.push('?');
        let ghost qview = p.query@.map_values(|q: QueryPair| q@);
        let ghost base = out@;
        let mut i: usize = 0;
        while i < nq
            invariant
                i <= nq,
                nq == p.query@.len(),
                qview == p.query@.map_values(|q: QueryPair| q@),
                i > 0 ==> out@ == base + spec_query_string(qview.take(i as int)),
                i == 0 ==> out@ == base,
            decreases nq - i,
        {
            let ghost pre = out@;
            if i > 0 {
                out.push('&');
            }
            let ek = urlencode_component(&p.query[i].key);
            push_str_chars(&mut out, &ek);
            out.push('=');
            let ev = urlencode_component(&p.query[i].value);
            push_str_chars(&mut out, &ev);
            proof {
                assert(qview[i as int] == (p.query@[i as int])@);
                if i == 0 {
                    assert(qview.take(1).len() == 1);
                    assert(qview.take(1).first() == qview[0]);
                    assert(out@ =~= base + spec_query_string(qview.take(1)));
                } else {
                    assert(qview.take(i + 1 as int).drop_last() =~= qview.take(i as int));
                    assert(qview.take(i + 1 as int).last() == qview[i as int]);
                    assert(qview.take(i + 1 as int).len() >= 2);
                    assert(out@ =~= base + spec_query_string(qview.take(i + 1 as int)));
                }
            }
            i += 1;
        }
        proof {
            assert(qview.take(nq as int) =~= qview);
            assert(out@ =~= base + spec_query_string(qview));
        }
    }
    proof {
        let pv = p@;
        match pv.fragment {
            Some(f) => {
                assert(pv.fragment is Some);
            },
            None => {},
        }
    }
    match &p.fragment {
        Some(f) => {
            out.push('#');
            push_str_chars(&mut out, f);
        },
        None => {},
    }
    proof {
        assert(out@ =~= spec_serialize_parts(p@));
    }
    chars_to_string(&out)
}

/// What url::Url::parse decomposes a string into, when it parses: the
/// scheme, authority, path, decoded query pairs and fragment.
pub uninterp spec fn parsed_url_of(s: Seq<char>) -> Option<UrlPartsView>;

/// Relies on url::Url::parse (the WHATWG URL parser) and its component
/// accessors scheme, username, password, host_str, port, path, query_pairs
/// and fragment: together they decompose an absolute URL into plain parts,
/// a function of the input string alone.
#[verifier::external_body]
fn url_parse_parts(raw: &str) -> (r: Option<UrlParts>)
    ensures
        (r is Some) <==> (parsed_url_of(raw@) is Some),
        r is Some ==> (r->0)@ == parsed_url_of(raw@)->0,
{
    let u = url::Url::parse(raw).ok()?;
    Some(UrlParts {
        scheme: u.scheme().to_string(),
        username: u.username().to_string(),
        password: u.password().map(|p| p.to_string()),
        host: u.host_str().map(|h| h.to_string()),
        port: u.port(),
        path: u.path().to_string(),
        query: u.query_pairs().map(|(k, v)| QueryPair { key: k.into_owned(), value: v.into_owned() }).collect(),
        fragment: u.fragment().map(|f| f.to_string()),
    })
}

/// Normalize an article URL so that cosmetic differences (tracking
/// parameters, a trailing slash, a fragment) do not produce duplicates.
/// None exactly when the input does not parse as an absolute URL.
pub fn normalize_article_url(raw: &str) -> (r: Option<String>)
    ensures
        (r is Some) <==> (parsed_url_of(raw@) is Some),
        r is Some ==> (r->0)@ == spec_serialize_parts(
            spec_normalize_parts(parsed_url_of(raw@)->0),
        ),
{
    let parts = url_parse_parts(raw);
    match parts {
        Some(p) => {
            let normalized = normalize_parts(p);
            Some(serialize_parts(&normalized))
        },
        None => None,
    }
}

/// The source domain a feed URL implies: the host of the parsed URL,
/// ASCII-lowercased. None when the URL does not parse or has no host.
pub fn infer_source_domain(raw: &str) -> (r: Option<String>)
    ensures
        match parsed_url_of(raw@) {
            Some(p) => (match (r, p.host) {
                (Some(h), Some(ph)) => h@ == ph.map_values(|c: char| ascii_lower(c)),
                (None, None) => true,
                _ => false,
            }),
            None => r is None,
        },
{
    let parts = url_parse_parts(raw);
    match parts {
        Some(p) => match p.host {
            Some(h) => {
                let hv = str_to_chars(h.as_str());
                let n = hv.len();
                let mut low: Vec<char> = Vec::new();
                let mut i: usize = 0;
                while i < n
                    invariant
                        i <= n,
                        n == hv@.len(),
                        hv@ == h@,
                        low@ == hv@.take(i as int).map_values(|c: char| ascii_lower(c)),
                    decreases n - i,
                {
                    let lc = crate::html::lower_ascii_char(hv[i]);
                    low.push(lc);
                    proof {
                        assert(hv@.take(i + 1 as int).map_values(|c: char| ascii_lower(c))
                            =~= hv@.take(i as int).map_values(|c: char| ascii_lower(c)).push(
                            ascii_lower(hv@[i as int]),
                        ));
                    }
                    i += 1;
                }
                proof {
                    assert(hv@.take(n as int) =~= hv@);
                }
                Some(chars_to_string(&low))
            },
            None => None,
        },
        None => None,
    }
}
} // verus!
