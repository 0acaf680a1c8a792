//! Title normalization and token signatures for duplicate comparison.
//!
//! A title is normalized by lowercasing every alphanumeric character,
//! replacing every other character with a single space, collapsing runs and
//! trimming the ends. Its signature keeps the normalized form together with
//! the set of tokens of length at least two, over which Jaccard similarity
//! is computed exactly as a pair (intersection size, union size).
use vstd::prelude::*;

use crate::charops::alnum_of;
use crate::charops::ascii_lower;
use crate::charops::char_is_alnum;
use crate::charops::char_is_space;
use crate::charops::char_to_lower;
use crate::charops::chars_to_string;
use crate::charops::is_ascii_char;
use crate::charops::lower_of;
use crate::charops::space_of;
use crate::charops::str_to_chars;

verus! {

/// One normalization step: state is the output so far and whether a space
/// separator is already pending.
pub open spec fn spec_norm_step(acc: (Seq<char>, bool), c: char) -> (Seq<char>, bool) {
    if alnum_of(c) {
        (acc.0 + lower_of(c), false)
    } else if !acc.1 {
        (acc.0.push(' '), true)
    } else {
        acc
    }
}

/// Folding the normalization step over a title, left to right.
pub open spec fn spec_norm_folded(s: Seq<char>) -> (Seq<char>, bool)
    decreases s.len(),
{
    if s.len() == 0 {
        (Seq::<char>::empty(), false)
    } else {
        spec_norm_step(spec_norm_folded(s.drop_last()), s.last())
    }
}

pub open spec fn spec_trim_leading(s: Seq<char>) -> Seq<char>
    decreases s.len(),
{
    if s.len() > 0 && s.first() == ' ' {
        spec_trim_leading(s.drop_first())
    } else {
        s
    }
}

pub open spec fn spec_trim_trailing(s: Seq<char>) -> Seq<char>
    decreases s.len(),
{
    if s.len() > 0 && s.last() == ' ' {
        spec_trim_trailing(s.drop_last())
    } else {
        s
    }
}

pub open spec fn spec_trim_spaces(s: Seq<char>) -> Seq<char> {
    spec_trim_trailing(spec_trim_leading(s))
}

/// The normalized form of a title.
pub open spec fn spec_normalize_title(s: Seq<char>) -> Seq<char> {
    spec_trim_spaces(spec_norm_folded(s).0)
}

/// The words of a string, split on whitespace; `cur` is the word being read.
pub open spec fn spec_words_acc(s: Seq<char>, cur: Seq<char>) -> Seq<Seq<char>>
    decreases s.len(),
{
    if s.len() == 0 {
        if cur.len() > 0 {
            seq![cur]
        } else {
            Seq::<Seq<char>>::empty()
        }
    } else if space_of(s.first()) {
        if cur.len() > 0 {
            seq![cur] + spec_words_acc(s.drop_first(), Seq::<char>::empty())
        } else {
            spec_words_acc(s.drop_first(), Seq::<char>::empty())
        }
    } else {
        spec_words_acc(s.drop_first(), cur.push(s.first()))
    }
}

pub open spec fn spec_words(s: Seq<char>) -> Seq<Seq<char>> {
    spec_words_acc(s, Seq::<char>::empty())
}

/// The tokens kept for comparison: words of length at least two.
pub open spec fn token_pred() -> spec_fn(Seq<char>) -> bool {
    |w: Seq<char>| w.len() >= 2
}

/// The token set of a title: words of its normalized form of length >= 2.
pub open spec fn spec_token_set(title: Seq<char>) -> Set<Seq<char>> {
    spec_words(spec_normalize_title(title)).filter(token_pred()).to_set()
}

/// A normalized title together with its comparison token set.
pub struct TitleSignature {
    pub normalized: String,
    pub tokens: Vec<String>,
}

impl TitleSignature {
    pub open spec fn token_views(&self) -> Seq<Seq<char>> {
        self.tokens@.map_values(|t: String| t@)
    }

    pub open spec fn token_set(&self) -> Set<Seq<char>> {
        self.token_views().to_set()
    }

    pub open spec fn wf(&self) -> bool {
        self.token_views().no_duplicates()
    }
}

fn norm_fold(chars: &Vec<char>) -> (r: Vec<char>)
    ensures
        r@ == spec_norm_folded(chars@).0,
{
    let mut out: Vec<char> = Vec::new();
    let mut pending: bool = false;
    let n = chars.len();
    let mut i: usize = 0;
    while i < n
        invariant
            n == chars@.len(),
            i <= n,
            (out@, pending) == spec_norm_folded(chars@.take(i as int)),
        decreases n - i,
    {
        let c = chars[i];
        if char_is_alnum(c) {
            let mut low = char_to_lower(c);
            out.append(&mut low);
            pending = false;
        } else if !pending {
            out.push(' ');
            pending = true;
        }
        proof {
            let pre = chars@.take(i as int);
            let post = chars@.take(i + 1 as int);
            assert(post.drop_last() =~= pre);
            assert(post.last() == chars@[i as int]);
        }
        i += 1;
    }
    proof {
        assert(chars@.take(n as int) =~= chars@);
    }
    out
}

proof fn lemma_trim_leading_skip(s: Seq<char>, k: int)
    requires
        0 <= k <= s.len(),
        forall|j: int| 0 <= j < k ==> s[j] == ' ',
        k < s.len() ==> s[k] != ' ',
    ensures
        spec_trim_leading(s) == s.skip(k),
    decreases k,
{
    if k == 0 {
        assert(s.skip(0) =~= s);
    } else {
        assert(s.first() == ' ');
        lemma_trim_leading_skip(s.drop_first(), k - 1);
        assert(s.drop_first().skip(k - 1) =~= s.skip(k));
    }
}

proof fn lemma_trim_trailing_take(s: Seq<char>, k: int)
    requires
        0 <= k <= s.len(),
        forall|j: int| k <= j < s.len() ==> s[j] == ' ',
        k > 0 ==> s[k - 1] != ' ',
    ensures
        spec_trim_trailing(s) == s.take(k),
    decreases s.len() - k,
{
    if k == s.len() {
        assert(s.take(k) =~= s);
    } else {
        assert(s.last() == ' ');
        lemma_trim_trailing_take(s.drop_last(), k);
        assert(s.drop_last().take(k) =~= s.take(k));
    }
}

pub(crate) fn trim_spaces(v: &Vec<char>) -> (r: Vec<char>)
    ensures
        r@ == spec_trim_spaces(v@),
{
    let n = v.len();
    let mut start: usize = 0;
    while start < n && v[start] == ' '
        invariant
            n == v@.len(),
            start <= n,
            forall|j: int| 0 <= j < start ==> v@[j] == ' ',
        decreases n - start,
    {
        start += 1;
    }
    proof {
        lemma_trim_leading_skip(v@, start as int);
    }
    let ghost led = v@.skip(start as int);
    let mut end: usize = n;
    while end > start && v[end - 1] == ' '
        invariant
            n == v@.len(),
            start <= end <= n,
            forall|j: int| end <= j < n ==> v@[j] == ' ',
        decreases end,
    {
        end -= 1;
    }
    proof {
        lemma_trim_trailing_take(led, end - start as int);
        assert(led.take(end - start as int) =~= v@.subrange(start as int, end as int));
    }
    let mut out: Vec<char> = Vec::new();
    let mut i: usize = start;
    while i < end
        invariant
            start <= i <= end <= v@.len(),
            out@ == v@.subrange(start as int, i as int),
        decreases end - i,
    {
        out.push(v[i]);
        i += 1;
        proof {
            assert(v@.subrange(start as int, i as int) =~= v@.subrange(
                start as int,
                i - 1 as int,
            ).push(v@[i - 1 as int]));
        }
    }
    out
}

proof fn lemma_map_view_push(s: Seq<String>, w: String)
    ensures
        s.push(w).map_values(|t: String| t@) == s.map_values(|t: String| t@).push(w@),
{
    assert(s.push(w).map_values(|t: String| t@) =~= s.map_values(|t: String| t@).push(w@));
}

fn split_words(v: &Vec<char>) -> (r: Vec<String>)
    ensures
        r@.map_values(|t: String| t@) == spec_words(v@),
{
    let n = v.len();
    let mut out: Vec<String> = Vec::new();
    let mut cur: Vec<char> = Vec::new();
    let mut i: usize = 0;
    proof {
        assert(v@.skip(0) =~= v@);
        assert(out@.map_values(|t: String| t@) =~= Seq::<Seq<char>>::empty());
    }
    while i < n
        invariant
            n == v@.len(),
            i <= n,
            spec_words(v@) == out@.map_values(|t: String| t@) + spec_words_acc(
                v@.skip(i as int),
                cur@,
            ),
        decreases n - i,
    {
        let ghost rest = v@.skip(i as int);
        let ghost old_out = out@;
        let ghost old_cur = cur@;
        let c = v[i];
        proof {
            assert(rest.len() > 0);
            assert(rest.first() == v@[i as int]);
            assert(rest.drop_first() =~= v@.skip(i + 1 as int));
        }
        if char_is_space(c) {
            if cur.len() > 0 {
                let w = chars_to_string(&cur);
                out.push(w);
                cur = Vec::new();
                proof {
                    lemma_map_view_push(old_out, out@.last());
                    assert(out@ =~= old_out.push(out@.last()));
                    assert(spec_words_acc(rest, old_cur) == seq![old_cur] + spec_words_acc(
                        v@.skip(i + 1 as int),
                        Seq::<char>::empty(),
                    ));
                    assert(old_out.map_values(|t: String| t@) + spec_words_acc(rest, old_cur)
                        =~= out@.map_values(|t: String| t@) + spec_words_acc(
                        v@.skip(i + 1 as int),
                        cur@,
                    ));
                }
            } else {
                proof {
                    assert(cur@ =~= Seq::<char>::empty());
                }
            }
        } else {
            cur.push(c);
            proof {
                assert(spec_words_acc(rest, old_cur) == spec_words_acc(
                    v@.skip(i + 1 as int),
                    old_cur.push(rest.first()),
                ));
            }
        }
        i += 1;
    }
    proof {
        assert(v@.skip(n as int) =~= Seq::<char>::empty());
    }
    if cur.len() > 0 {
        let ghost old_out = out@;
        let w = chars_to_string(&cur);
        out.push(w);
        proof {
            lemma_map_view_push(old_out, out@.last());
            assert(out@ =~= old_out.push(out@.last()));
            assert(spec_words_acc(Seq::<char>::empty(), cur@) == seq![cur@]);
            assert(old_out.map_values(|t: String| t@) + seq![cur@] =~= out@.map_values(
                |t: String| t@,
            ));
        }
    } else {
        proof {
            assert(cur@ =~= Seq::<char>::empty());
            assert(spec_words_acc(Seq::<char>::empty(), Seq::<char>::empty())
                =~= Seq::<Seq<char>>::empty());
            assert(out@.map_values(|t: String| t@) + Seq::<Seq<char>>::empty() =~= out@.map_values(
                |t: String| t@,
            ));
        }
    }
    out
}

/// Whether some string in the vector has exactly these characters.
pub fn contains_token(v: &Vec<String>, s: &String) -> (r: bool)
    ensures
        r == v@.map_values(|t: String| t@).contains(s@),
{
    let n = v.len();
    let mut i: usize = 0;
    while i < n
        invariant
            n == v@.len(),
            i <= n,
            forall|j: int| 0 <= j < i ==> (#[trigger] v@[j])@ != s@,
        decreases n - i,
    {
        let hit = v[i].eq(s);
        if hit {
            proof {
                assert(v@.map_values(|t: String| t@)[i as int] == s@);
            }
            return true;
        }
        i += 1;
    }
    proof {
        let m = v@.map_values(|t: String| t@);
        assert forall|j: int| 0 <= j < n implies #[trigger] m[j] != s@ by {
            assert(m[j] == (v@[j])@);
        }
        assert(!m.contains(s@));
    }
    false
}

fn filter_dedup_tokens(words: Vec<String>) -> (r: Vec<String>)
    ensures
        r@.map_values(|t: String| t@).no_duplicates(),
        r@.map_values(|t: String| t@).to_set() == words@.map_values(|t: String| t@).filter(
            token_pred(),
        ).to_set(),
{
    broadcast use vstd::seq_lib::group_seq_properties;
    broadcast use vstd::prelude::Seq::lemma_filter_push;
    broadcast use vstd::prelude::Seq::lemma_push_to_set_commute;
    broadcast use vstd::set::group_set_axioms;

    let ghost pred = token_pred();
    let ghost wviews = words@.map_values(|t: String| t@);
    let n = words.len();
    let mut out: Vec<String> = Vec::new();
    let mut i: usize = 0;
    proof {
        assert(wviews.take(0).filter(pred) =~= Seq::<Seq<char>>::empty());
        assert(out@.map_values(|t: String| t@) =~= Seq::<Seq<char>>::empty());
        assert(Seq::<Seq<char>>::empty().to_set() =~= Set::<Seq<char>>::empty());
    }
    while i < n
        invariant
            n == words@.len(),
            i <= n,
            wviews == words@.map_values(|t: String| t@),
            out@.map_values(|t: String| t@).no_duplicates(),
            out@.map_values(|t: String| t@).to_set() == wviews.take(i as int).filter(
                pred,
            ).to_set(),
            pred == token_pred(),
        decreases n - i,
    {
        proof {
            assert(wviews.take(i + 1 as int) =~= wviews.take(i as int).push(wviews[i as int]));
            assert(wviews[i as int] == (words@[i as int])@);
        }
        let ghost prefix = wviews.take(i as int);
        let ghost x = wviews[i as int];
        proof {
            prefix.lemma_filter_push(x, pred);
        }
        let w = &words[i];
        proof {
            assert(pred(x) == (x.len() >= 2));
        }
        if w.as_str().unicode_len() >= 2 {
            let dup = contains_token(&out, w);
            if !dup {
                let ghost old_map = out@.map_values(|t: String| t@);
                out.push(w.clone());
                proof {
                    lemma_map_view_push(out@.drop_last(), out@.last());
                    assert(out@.drop_last() =~= out@.subrange(0, out@.len() - 1));
                    assert(out@.map_values(|t: String| t@) == old_map.push(x));
                    old_map.lemma_push_to_set_commute(x);
                    prefix.filter(pred).lemma_push_to_set_commute(x);
                    assert(out@.map_values(|t: String| t@).to_set() =~= wviews.take(
                        i + 1 as int,
                    ).filter(pred).to_set());
                }
            } else {
                proof {
                    let m = out@.map_values(|t: String| t@);
                    assert(m.contains(x));
                    assert(m.to_set().contains(x));
                    prefix.filter(pred).lemma_push_to_set_commute(x);
                    assert(m.to_set().insert(x) =~= m.to_set());
                    assert(m.to_set() =~= wviews.take(i + 1 as int).filter(pred).to_set());
                }
            }
        } else {
            proof {
                assert(wviews.take(i + 1 as int).filter(pred) == wviews.take(i as int).filter(
                    pred,
                ));
            }
        }
        i += 1;
    }
    proof {
        assert(wviews.take(n as int) =~= wviews);
    }
    out
}

/// Normalize a title for duplicate comparison: lowercase every alphanumeric
/// character, turn every other character into a single space, collapse runs
/// of separators and trim the ends.
pub fn normalize_title_for_comparison(title: &str) -> (r: String)
    ensures
        r@ == spec_normalize_title(title@),
{
    let chars = str_to_chars(title);
    let folded = norm_fold(&chars);
    let trimmed = trim_spaces(&folded);
    chars_to_string(&trimmed)
}

/// Prepare the normalized title and its token set for Jaccard comparison.
pub fn prepare_title_signature(title: &str) -> (r: TitleSignature)
    ensures
        r.normalized@ == spec_normalize_title(title@),
        r.wf(),
        r.token_set() == spec_token_set(title@),
{
    let chars = str_to_chars(title);
    let folded = norm_fold(&chars);
    let trimmed = trim_spaces(&folded);
    let normalized = chars_to_string(&trimmed);
    let words = split_words(&trimmed);
    let tokens = filter_dedup_tokens(words);
    TitleSignature { normalized, tokens }
}


/// Whether the Jaccard similarity `inter / uni` reaches `num / den`.
/// An empty union (either token set empty) reaches no positive threshold.
pub open spec fn spec_jaccard_at_least(inter: nat, uni: nat, num: nat, den: nat) -> bool {
    uni > 0 && inter * den >= num * uni
}

/// The Jaccard similarity scaled to thousandths, rounded down.
pub open spec fn spec_jaccard_permille(inter: nat, uni: nat) -> nat {
    if uni == 0 {
        0
    } else {
        (1000 * inter) / uni
    }
}

proof fn lemma_unique_not_in_prefix(m: Seq<Seq<char>>, i: int)
    requires
        m.no_duplicates(),
        0 <= i < m.len(),
    ensures
        !m.take(i).to_set().contains(m[i]),
{
    if m.take(i).to_set().contains(m[i]) {
        let j = choose|j: int| 0 <= j < i && m.take(i)[j] == m[i];
        assert(m[j] == m[i]);
    }
}

/// The sizes of the intersection and the union of two token sets, exactly.
pub fn token_counts(a: &Vec<String>, b: &Vec<String>) -> (r: (usize, u128))
    requires
        a@.map_values(|t: String| t@).no_duplicates(),
        b@.map_values(|t: String| t@).no_duplicates(),
    ensures
        ({
            let sa = a@.map_values(|t: String| t@).to_set();
            let sb = b@.map_values(|t: String| t@).to_set();
            r.0 == sa.intersect(sb).len() && r.1 == sa.union(sb).len() && r.0 <= r.1
        }),
        r.1 <= a@.len() + b@.len(),
{
    broadcast use vstd::seq_lib::group_seq_properties;
    broadcast use vstd::prelude::Seq::lemma_push_to_set_commute;
    broadcast use vstd::set::group_set_axioms;
    broadcast use vstd::seq_lib::seq_to_set_is_finite;

    let ghost ma = a@.map_values(|t: String| t@);
    let ghost mb = b@.map_values(|t: String| t@);
    let ghost sa = ma.to_set();
    let ghost sb = mb.to_set();
    let na = a.len();
    let nb = b.len();
    let mut inter: usize = 0;
    let mut i: usize = 0;
    proof {
        assert(ma.take(0).to_set() =~= Set::<Seq<char>>::empty());
        assert(Set::<Seq<char>>::empty().intersect(sb) =~= Set::<Seq<char>>::empty());
    }
    while i < na
        invariant
            na == a@.len(),
            i <= na,
            ma == a@.map_values(|t: String| t@),
            mb == b@.map_values(|t: String| t@),
            sa == ma.to_set(),
            sb == mb.to_set(),
            ma.no_duplicates(),
            inter <= i,
            ma.take(i as int).to_set().intersect(sb).finite(),
            inter == ma.take(i as int).to_set().intersect(sb).len(),
        decreases na - i,
    {
        let ghost x = ma[i as int];
        let ghost pre = ma.take(i as int).to_set();
        let ghost nxt = ma.take(i + 1 as int);
        proof {
            assert(nxt =~= ma.take(i as int).push(x));
            lemma_unique_not_in_prefix(ma, i as int);
            assert(x == (a@[i as int])@);
        }
        let hit = contains_token(b, &a[i]);
        proof {
            ma.take(i as int).lemma_push_to_set_commute(x);
            assert(nxt.to_set() =~= pre.insert(x));
        }
        if hit {
            proof {
                assert(sb.contains(x));
                assert(pre.insert(x).intersect(sb) =~= pre.intersect(sb).insert(x));
                assert(!pre.intersect(sb).contains(x));
                assert(pre.intersect(sb).insert(x).len() == pre.intersect(sb).len() + 1);
            }
            inter += 1;
        } else {
            proof {
                assert(!sb.contains(x));
                assert(pre.insert(x).intersect(sb) =~= pre.intersect(sb));
            }
        }
        i += 1;
    }
    proof {
        assert(ma.take(na as int) =~= ma);
    }
    let mut j: usize = 0;
    proof {
        ma.unique_seq_to_set();
        assert(sa.union(mb.take(0).to_set()) =~= sa);
    }
    // the union count starts at |A| and grows by b's tokens outside it
    let mut uni: u128 = na as u128;
    while j < nb
        invariant
            na == a@.len(),
            nb == b@.len(),
            j <= nb,
            ma == a@.map_values(|t: String| t@),
            mb == b@.map_values(|t: String| t@),
            sa == ma.to_set(),
            sb == mb.to_set(),
            mb.no_duplicates(),
            sa.union(mb.take(j as int).to_set()).finite(),
            uni == sa.union(mb.take(j as int).to_set()).len(),
            uni <= a@.len() + j,
        decreases nb - j,
    {
        let ghost x = mb[j as int];
        let ghost pre = sa.union(mb.take(j as int).to_set());
        let ghost nxt = mb.take(j + 1 as int);
        proof {
            assert(nxt =~= mb.take(j as int).push(x));
            lemma_unique_not_in_prefix(mb, j as int);
            assert(x == (b@[j as int])@);
            assert(sa.union(mb.take(j as int).to_set().insert(x)) =~= pre.insert(x));
        }
        let hit = contains_token(a, &b[j]);
        proof {
            mb.take(j as int).lemma_push_to_set_commute(x);
            assert(sa.union(nxt.to_set()) =~= pre.insert(x));
        }
        if !hit {
            proof {
                assert(!sa.contains(x));
                assert(!pre.contains(x));
                assert(pre.insert(x).len() == pre.len() + 1);
            }
            uni += 1;
        } else {
            proof {
                assert(sa.contains(x));
                assert(pre.insert(x) =~= pre);
            }
        }
        j += 1;
    }
    proof {
        assert(mb.take(nb as int) =~= mb);
        assert(sa.union(sb) =~= sb.union(sa));
        // the intersection is a subset of the union
        vstd::set_lib::lemma_len_subset(sa.intersect(sb), sa.union(sb));
    }
    (inter, uni)
}

/// Whether the Jaccard similarity of two token sets reaches `num / den`.
pub fn jaccard_reaches(a: &Vec<String>, b: &Vec<String>, num: u64, den: u64) -> (r: bool)
    requires
        a@.map_values(|t: String| t@).no_duplicates(),
        b@.map_values(|t: String| t@).no_duplicates(),
        num <= den,
        0 < den <= 1000,
    ensures
        ({
            let sa = a@.map_values(|t: String| t@).to_set();
            let sb = b@.map_values(|t: String| t@).to_set();
            r == spec_jaccard_at_least(sa.intersect(sb).len(), sa.union(sb).len(), num as nat, den as nat)
        }),
{
    let la = a.len();
    let lb = b.len();
    proof {
        assert(la == a@.len() && lb == b@.len());
    }
    let (inter, uni) = token_counts(a, b);
    if uni == 0 {
        false
    } else {
        proof {
            assert((inter as int) * (den as int) < 0x1_0000_0000_0000_0000_0000 && (num as int) * (uni as int) < 0x1_0000_0000_0000_0000_0000_0000_0000) by (nonlinear_arith)
                requires
                    inter <= 0xFFFF_FFFF_FFFF_FFFF,
                    den <= 1000,
                    num <= 1000,
                    uni <= 0x2_0000_0000_0000_0000,
            ;
        }
        (inter as u128) * (den as u128) >= (num as u128) * uni
    }
}

/// The Jaccard similarity of two token sets in thousandths, rounded down.
pub fn jaccard_permille(a: &Vec<String>, b: &Vec<String>) -> (r: u32)
    requires
        a@.map_values(|t: String| t@).no_duplicates(),
        b@.map_values(|t: String| t@).no_duplicates(),
    ensures
        ({
            let sa = a@.map_values(|t: String| t@).to_set();
            let sb = b@.map_values(|t: String| t@).to_set();
            r == spec_jaccard_permille(sa.intersect(sb).len(), sa.union(sb).len())
        }),
        r <= 1000,
{
    let la = a.len();
    let lb = b.len();
    proof {
        assert(la == a@.len() && lb == b@.len());
    }
    let (inter, uni) = token_counts(a, b);
    if uni == 0 {
        0
    } else {
        proof {
            assert((1000 * (inter as int)) < 0x1_0000_0000_0000_0000_0000) by (nonlinear_arith)
                requires
                    inter <= 0xFFFF_FFFF_FFFF_FFFF,
            ;
            assert(1000 * (inter as int) / (uni as int) <= 1000) by (nonlinear_arith)
                requires
                    0 < uni,
                    inter <= uni,
            ;
            assert(1000 * (inter as int) / (uni as int) >= 0) by (nonlinear_arith)
                requires
                    0 < uni,
                    0 <= inter,
            ;
        }
        let scaled: u128 = 1000u128 * (inter as u128);
        (scaled / uni) as u32
    }
}


/// Trim of Unicode whitespace at both ends.
pub open spec fn spec_trim_ws_leading(s: Seq<char>) -> Seq<char>
    decreases s.len(),
{
    if s.len() > 0 && crate::charops::space_of(s.first()) {
        spec_trim_ws_leading(s.drop_first())
    } else {
        s
    }
}

pub open spec fn spec_trim_ws_trailing(s: Seq<char>) -> Seq<char>
    decreases s.len(),
{
    if s.len() > 0 && crate::charops::space_of(s.last()) {
        spec_trim_ws_trailing(s.drop_last())
    } else {
        s
    }
}

pub open spec fn spec_trim_ws(s: Seq<char>) -> Seq<char> {
    spec_trim_ws_trailing(spec_trim_ws_leading(s))
}

proof fn lemma_trim_ws_leading_skip(s: Seq<char>, k: int)
    requires
        0 <= k <= s.len(),
        forall|j: int| 0 <= j < k ==> crate::charops::space_of(s[j]),
        k < s.len() ==> !crate::charops::space_of(s[k]),
    ensures
        spec_trim_ws_leading(s) == s.skip(k),
    decreases k,
{
    if k == 0 {
        assert(s.skip(0) =~= s);
    } else {
        lemma_trim_ws_leading_skip(s.drop_first(), k - 1);
        assert(s.drop_first().skip(k - 1) =~= s.skip(k));
    }
}

proof fn lemma_trim_ws_trailing_take(s: Seq<char>, k: int)
    requires
        0 <= k <= s.len(),
        forall|j: int| k <= j < s.len() ==> crate::charops::space_of(s[j]),
        k > 0 ==> !crate::charops::space_of(s[k - 1]),
    ensures
        spec_trim_ws_trailing(s) == s.take(k),
    decreases s.len() - k,
{
    if k == s.len() {
        assert(s.take(k) =~= s);
    } else {
        lemma_trim_ws_trailing_take(s.drop_last(), k);
        assert(s.drop_last().take(k) =~= s.take(k));
    }
}

/// Trim Unicode whitespace from both ends of a string.
pub fn trim_ws(s: &str) -> (r: String)
    ensures
        r@ == spec_trim_ws(s@),
{
    let v = str_to_chars(s);
    let n = v.len();
    let mut start: usize = 0;
    while start < n && char_is_space(v[start])
        invariant
            n == v@.len(),
            v@ == s@,
            start <= n,
            forall|j: int| 0 <= j < start ==> crate::charops::space_of(v@[j]),
        decreases n - start,
    {
        start += 1;
    }
    proof {
        lemma_trim_ws_leading_skip(v@, start as int);
    }
    let ghost led = v@.skip(start as int);
    let mut end: usize = n;
    while end > start && char_is_space(v[end - 1])
        invariant
            n == v@.len(),
            v@ == s@,
            start <= end <= n,
            forall|j: int| end <= j < n ==> crate::charops::space_of(v@[j]),
        decreases end,
    {
        end -= 1;
    }
    proof {
        lemma_trim_ws_trailing_take(led, end - start as int);
        assert(led.take(end - start as int) =~= v@.subrange(start as int, end as int));
    }
    let mut out: Vec<char> = Vec::new();
    let mut i: usize = start;
    while i < end
        invariant
            start <= i <= end <= v@.len(),
            out@ == v@.subrange(start as int, i as int),
        decreases end - i,
    {
        out.push(v[i]);
        i += 1;
        proof {
            assert(v@.subrange(start as int, i as int) =~= v@.subrange(
                start as int,
                i - 1 as int,
            ).push(v@[i - 1 as int]));
        }
    }
    chars_to_string(&out)
}

/// A title with every ASCII letter lowered.
pub open spec fn lower_ascii_seq(s: Seq<char>) -> Seq<char> {
    s.map_values(|c: char| ascii_lower(c))
}

proof fn lemma_ascii_lower_props(c: char)
    requires
        is_ascii_char(c),
    ensures
        is_ascii_char(ascii_lower(c)),
        ascii_lower(ascii_lower(c)) == ascii_lower(c),
        crate::charops::is_ascii_letter(ascii_lower(c)) == crate::charops::is_ascii_letter(c),
        crate::charops::is_ascii_digit_char(ascii_lower(c)) == crate::charops::is_ascii_digit_char(
            c,
        ),
        alnum_of(ascii_lower(c)) == alnum_of(c),
        space_of(ascii_lower(c)) == space_of(c),
        lower_of(ascii_lower(c)) == lower_of(c),
{
    if 'A' <= c && c <= 'Z' {
        assert(ascii_lower(c) == (((c as u32) + 32) as char));
        assert((((c as u32) + 32) as char) as u32 == (c as u32) + 32);
    }
}

proof fn lemma_norm_folded_lower(s: Seq<char>)
    requires
        forall|i: int| 0 <= i < s.len() ==> is_ascii_char(#[trigger] s[i]),
    ensures
        spec_norm_folded(lower_ascii_seq(s)) == spec_norm_folded(s),
    decreases s.len(),
{
    if s.len() == 0 {
        assert(lower_ascii_seq(s) =~= s);
    } else {
        lemma_norm_folded_lower(s.drop_last());
        assert(lower_ascii_seq(s).drop_last() =~= lower_ascii_seq(s.drop_last()));
        assert(lower_ascii_seq(s).last() == ascii_lower(s.last()));
        lemma_ascii_lower_props(s.last());
        assert(spec_norm_step(spec_norm_folded(s.drop_last()), ascii_lower(s.last()))
            == spec_norm_step(spec_norm_folded(s.drop_last()), s.last()));
    }
}

/// The title signature ignores ASCII letter case: lowering every ASCII
/// letter of an ASCII title changes neither the normalized form nor the
/// token set.
pub proof fn lemma_signature_ascii_case_insensitive(s: Seq<char>)
    requires
        forall|i: int| 0 <= i < s.len() ==> is_ascii_char(#[trigger] s[i]),
    ensures
        spec_normalize_title(lower_ascii_seq(s)) == spec_normalize_title(s),
        spec_token_set(lower_ascii_seq(s)) == spec_token_set(s),
{
    lemma_norm_folded_lower(s);
}
} // verus!
