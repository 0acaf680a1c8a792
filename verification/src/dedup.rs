//! The deduplication decider: strict Jaccard matching inside one batch,
//! historical matching against recent articles, and the bounded
//! LLM tie-break for near-misses.
//!
//! Thresholds are exact rationals over token-set sizes: strict duplication
//! at nine tenths, the LLM band at six tenths, at most three LLM
//! consultations per entry. The LLM's judgments enter as values, so every
//! decision here is a function of its arguments.
use vstd::prelude::*;

use crate::text::spec_jaccard_at_least;
use crate::text::spec_jaccard_permille;
use crate::text::jaccard_permille;
use crate::text::jaccard_reaches;
use crate::text::TitleSignature;

verus! {

/// The most LLM similarity checks allowed for one entry.
pub const MAX_LLM_CHECKS: u32 = 3;

/// A recent article held against new entries.
pub struct HistCandidate {
    pub article_id: i64,
    pub title: String,
    pub url: String,
    pub description: Option<String>,
    pub source_domain: String,
    pub published_at: i64,
    pub tokens: Vec<String>,
}

impl HistCandidate {
    pub open spec fn token_set(&self) -> Set<Seq<char>> {
        self.tokens@.map_values(|t: String| t@).to_set()
    }

    pub open spec fn wf(&self) -> bool {
        self.tokens@.map_values(|t: String| t@).no_duplicates()
    }
}

/// What one LLM similarity consultation produced.
pub enum LlmOutcome {
    Duplicate { reason: Option<String>, confidence: Option<u32> },
    NotDuplicate,
    Failed,
}

/// Why an entry was dropped as a duplicate of a recent article.
pub enum DupReason {
    RecentJaccard,
    Llm { reason: Option<String> },
}

/// The judgment of the historical scan for one entry.
pub enum HistDecision {
    Unique,
    DuplicateOf { index: usize, reason: DupReason, confidence: Option<u32> },
}

/// Two signatures are strict duplicates when their token-set Jaccard
/// similarity reaches nine tenths or their normalized titles are equal.
pub open spec fn spec_strict_dup(
    atoks: Set<Seq<char>>,
    anorm: Seq<char>,
    btoks: Set<Seq<char>>,
    bnorm: Seq<char>,
) -> bool {
    spec_jaccard_at_least(atoks.intersect(btoks).len(), atoks.union(btoks).len(), 9, 10) || anorm
        == bnorm
}

/// Strict duplication does not depend on the order of the two entries.
pub proof fn lemma_strict_dup_symmetric(
    atoks: Set<Seq<char>>,
    anorm: Seq<char>,
    btoks: Set<Seq<char>>,
    bnorm: Seq<char>,
)
    ensures
        spec_strict_dup(atoks, anorm, btoks, bnorm) == spec_strict_dup(
            btoks,
            bnorm,
            atoks,
            anorm,
        ),
{
    assert(atoks.intersect(btoks) =~= btoks.intersect(atoks));
    assert(atoks.union(btoks) =~= btoks.union(atoks));
}

/// Whether one signature strictly duplicates another.
pub fn strict_duplicate(a: &TitleSignature, b: &TitleSignature) -> (r: bool)
    requires
        a.wf(),
        b.wf(),
    ensures
        r == spec_strict_dup(a.token_set(), a.normalized@, b.token_set(), b.normalized@),
{
    let jac = jaccard_reaches(&a.tokens, &b.tokens, 9, 10);
    if jac {
        true
    } else {
        a.normalized.eq(&b.normalized)
    }
}

/// Whether a signature strictly duplicates any already accepted one.
pub fn intra_batch_duplicate(sig: &TitleSignature, seen: &Vec<TitleSignature>) -> (r: bool)
    requires
        sig.wf(),
        forall|k: int| 0 <= k < seen@.len() ==> (#[trigger] seen@[k]).wf(),
    ensures
        r == exists|k: int|
            0 <= k < seen@.len() && spec_strict_dup(
                sig.token_set(),
                sig.normalized@,
                (#[trigger] seen@[k]).token_set(),
                seen@[k].normalized@,
            ),
{
    let n = seen.len();
    let mut i: usize = 0;
    while i < n
        invariant
            i <= n,
            n == seen@.len(),
            sig.wf(),
            forall|k: int| 0 <= k < n ==> (#[trigger] seen@[k]).wf(),
            forall|k: int|
                0 <= k < i ==> !spec_strict_dup(
                    sig.token_set(),
                    sig.normalized@,
                    (#[trigger] seen@[k]).token_set(),
                    seen@[k].normalized@,
                ),
        decreases n - i,
    {
        let hit = strict_duplicate(sig, &seen[i]);
        if hit {
            return true;
        }
        i += 1;
    }
    false
}

/// The historical scan as a function: candidates are visited in order; a
/// strict Jaccard hit drops the entry at once; in the LLM band a judgment is
/// consumed from `outcomes`, at most `MAX_LLM_CHECKS` of them, and a
/// positive judgment drops the entry; everything else moves on.
pub open spec fn spec_hist_decide(
    sig: Set<Seq<char>>,
    cands: Seq<Set<Seq<char>>>,
    enabled: bool,
    provider_ok: bool,
    outcomes: Seq<LlmOutcome>,
    i: int,
    checks: int,
) -> (HistDecision, int)
    decreases cands.len() - i,
{
    if i < 0 || i >= cands.len() {
        (HistDecision::Unique, checks)
    } else {
        let inter = sig.intersect(cands[i]).len();
        let uni = sig.union(cands[i]).len();
        if spec_jaccard_at_least(inter, uni, 9, 10) {
            (
                HistDecision::DuplicateOf {
                    index: i as usize,
                    reason: DupReason::RecentJaccard,
                    confidence: Some(spec_jaccard_permille(inter, uni) as u32),
                },
                checks,
            )
        } else if enabled && spec_jaccard_at_least(inter, uni, 6, 10) {
            if !provider_ok {
                spec_hist_decide(sig, cands, enabled, provider_ok, outcomes, i + 1, checks)
            } else if checks >= MAX_LLM_CHECKS {
                (HistDecision::Unique, checks)
            } else {
                match outcomes[checks] {
                    LlmOutcome::Duplicate { reason, confidence } => (
                        HistDecision::DuplicateOf {
                            index: i as usize,
                            reason: DupReason::Llm { reason },
                            confidence,
                        },
                        checks + 1,
                    ),
                    LlmOutcome::NotDuplicate => spec_hist_decide(
                        sig,
                        cands,
                        enabled,
                        provider_ok,
                        outcomes,
                        i + 1,
                        checks + 1,
                    ),
                    LlmOutcome::Failed => spec_hist_decide(
                        sig,
                        cands,
                        enabled,
                        provider_ok,
                        outcomes,
                        i + 1,
                        checks + 1,
                    ),
                }
            }
        } else {
            spec_hist_decide(sig, cands, enabled, provider_ok, outcomes, i + 1, checks)
        }
    }
}

fn clone_opt_string(s: &Option<String>) -> (r: Option<String>)
    ensures
        match (r, s) {
            (Some(a), Some(b)) => a@ == b@,
            (None, None) => true,
            _ => false,
        },
{
    match s {
        Some(v) => Some(v.clone()),
        None => None,
    }
}

/// Decide the fate of one entry against the recent-article candidates,
/// with the LLM judgments supplied in consultation order.
pub fn hist_decide(
    sig: &TitleSignature,
    cands: &Vec<HistCandidate>,
    enabled: bool,
    provider_ok: bool,
    outcomes: &Vec<LlmOutcome>,
) -> (r: (HistDecision, u32))
    requires
        sig.wf(),
        forall|k: int| 0 <= k < cands@.len() ==> (#[trigger] cands@[k]).wf(),
        outcomes@.len() >= MAX_LLM_CHECKS,
    ensures
        ({
            let (d, used) = spec_hist_decide(
                sig.token_set(),
                cands@.map_values(|c: HistCandidate| c.token_set()),
                enabled,
                provider_ok,
                outcomes@,
                0,
                0,
            );
            ({
                let rd = match (r.0, d) {
                    (HistDecision::Unique, HistDecision::Unique) => true,
                    (
                        HistDecision::DuplicateOf { index: i1, reason: re1, confidence: c1 },
                        HistDecision::DuplicateOf { index: i2, reason: re2, confidence: c2 },
                    ) => i1 == i2 && c1 == c2 && (match (re1, re2) {
                        (DupReason::RecentJaccard, DupReason::RecentJaccard) => true,
                        (DupReason::Llm { reason: a }, DupReason::Llm { reason: b }) => match (
                            a,
                            b,
                        ) {
                            (Some(x), Some(y)) => x@ == y@,
                            (None, None) => true,
                            _ => false,
                        },
                        _ => false,
                    }),
                    _ => false,
                };
                rd && r.1 == used
            })
        }),
{
    let ghost gsig = sig.token_set();
    let ghost gcands = cands@.map_values(|c: HistCandidate| c.token_set());
    let n = cands.len();
    let mut i: usize = 0;
    let mut checks: u32 = 0;
    while i < n
        invariant
            i <= n,
            n == cands@.len(),
            checks <= MAX_LLM_CHECKS,
            gsig == sig.token_set(),
            gcands == cands@.map_values(|c: HistCandidate| c.token_set()),
            sig.wf(),
            forall|k: int| 0 <= k < n ==> (#[trigger] cands@[k]).wf(),
            outcomes@.len() >= MAX_LLM_CHECKS,
            spec_hist_decide(gsig, gcands, enabled, provider_ok, outcomes@, 0, 0)
                == spec_hist_decide(
                gsig,
                gcands,
                enabled,
                provider_ok,
                outcomes@,
                i as int,
                checks as int,
            ),
        decreases n - i,
    {
        proof {
            assert(gcands[i as int] == (cands@[i as int]).token_set());
        }
        let strict = jaccard_reaches(&sig.tokens, &cands[i].tokens, 9, 10);
        if strict {
            let conf = jaccard_permille(&sig.tokens, &cands[i].tokens);
            return (
                HistDecision::DuplicateOf {
                    index: i,
                    reason: DupReason::RecentJaccard,
                    confidence: Some(conf),
                },
                checks,
            );
        }
        let band = enabled && jaccard_reaches(&sig.tokens, &cands[i].tokens, 6, 10);
        if band {
            if !provider_ok {
                // no usable model: this candidate is skipped
            } else if checks >= MAX_LLM_CHECKS {
                return (HistDecision::Unique, checks);
            } else {
                let idx = checks as usize;
                match &outcomes[idx] {
                    LlmOutcome::Duplicate { reason, confidence } => {
                        let reason2 = clone_opt_string(reason);
                        let conf2 = *confidence;
                        return (
                            HistDecision::DuplicateOf {
                                index: i,
                                reason: DupReason::Llm { reason: reason2 },
                                confidence: conf2,
                            },
                            checks + 1,
                        );
                    },
                    LlmOutcome::NotDuplicate => {
                        checks += 1;
                    },
                    LlmOutcome::Failed => {
                        checks += 1;
                    },
                }
            }
        }
        i += 1;
    }
    (HistDecision::Unique, checks)
}


/// Where the historical scan pauses: done unique, done duplicate, or
/// waiting for one LLM consultation about the named candidate.
pub enum ScanStep {
    Unique { checks: u32 },
    Duplicate { index: usize, reason: DupReason, confidence: Option<u32>, checks: u32 },
    NeedJudgment { index: usize, checks: u32 },
}

/// The historical scan up to its next consultation: candidates are
/// visited in order; a strict Jaccard hit ends the scan; an in-band
/// candidate with a usable model and budget left pauses the scan at that
/// candidate; everything else moves on.
pub open spec fn spec_hist_scan(
    sig: Set<Seq<char>>,
    cands: Seq<Set<Seq<char>>>,
    enabled: bool,
    provider_ok: bool,
    i: int,
    checks: int,
) -> ScanStep
    decreases cands.len() - i,
{
    if i < 0 || i >= cands.len() {
        ScanStep::Unique { checks: checks as u32 }
    } else {
        let inter = sig.intersect(cands[i]).len();
        let uni = sig.union(cands[i]).len();
        if spec_jaccard_at_least(inter, uni, 9, 10) {
            ScanStep::Duplicate {
                index: i as usize,
                reason: DupReason::RecentJaccard,
                confidence: Some(spec_jaccard_permille(inter, uni) as u32),
                checks: checks as u32,
            }
        } else if enabled && spec_jaccard_at_least(inter, uni, 6, 10) {
            if !provider_ok {
                spec_hist_scan(sig, cands, enabled, provider_ok, i + 1, checks)
            } else if checks >= MAX_LLM_CHECKS {
                ScanStep::Unique { checks: checks as u32 }
            } else {
                ScanStep::NeedJudgment { index: i as usize, checks: checks as u32 }
            }
        } else {
            spec_hist_scan(sig, cands, enabled, provider_ok, i + 1, checks)
        }
    }
}

/// Run the historical scan from a position until it ends or needs one LLM
/// consultation; the caller applies the judgment and resumes one candidate
/// further with the budget counted up.
pub fn hist_scan(
    sig: &TitleSignature,
    cands: &Vec<HistCandidate>,
    enabled: bool,
    provider_ok: bool,
    start: usize,
    checks: u32,
) -> (r: ScanStep)
    requires
        sig.wf(),
        forall|k: int| 0 <= k < cands@.len() ==> (#[trigger] cands@[k]).wf(),
        checks <= MAX_LLM_CHECKS,
    ensures
        r == spec_hist_scan(
            sig.token_set(),
            cands@.map_values(|c: HistCandidate| c.token_set()),
            enabled,
            provider_ok,
            start as int,
            checks as int,
        ),
{
    let ghost gsig = sig.token_set();
    let ghost gcands = cands@.map_values(|c: HistCandidate| c.token_set());
    let n = cands.len();
    let mut i: usize = start;
    if i > n {
        i = n;
    }
    proof {
        if start > n {
            assert(spec_hist_scan(gsig, gcands, enabled, provider_ok, start as int, checks as int)
                == spec_hist_scan(gsig, gcands, enabled, provider_ok, n as int, checks as int));
        }
    }
    while i < n
        invariant
            i <= n,
            n == cands@.len(),
            checks <= MAX_LLM_CHECKS,
            gsig == sig.token_set(),
            gcands == cands@.map_values(|c: HistCandidate| c.token_set()),
            sig.wf(),
            forall|k: int| 0 <= k < n ==> (#[trigger] cands@[k]).wf(),
            spec_hist_scan(gsig, gcands, enabled, provider_ok, start as int, checks as int)
                == spec_hist_scan(gsig, gcands, enabled, provider_ok, i as int, checks as int),
        decreases n - i,
    {
        proof {
            assert(gcands[i as int] == (cands@[i as int]).token_set());
        }
        let strict = jaccard_reaches(&sig.tokens, &cands[i].tokens, 9, 10);
        if strict {
            let conf = jaccard_permille(&sig.tokens, &cands[i].tokens);
            return ScanStep::Duplicate {
                index: i,
                reason: DupReason::RecentJaccard,
                confidence: Some(conf),
                checks,
            };
        }
        let band = enabled && jaccard_reaches(&sig.tokens, &cands[i].tokens, 6, 10);
        if band {
            if !provider_ok {
                // no usable model: this candidate is skipped
            } else if checks >= MAX_LLM_CHECKS {
                return ScanStep::Unique { checks };
            } else {
                return ScanStep::NeedJudgment { index: i, checks };
            }
        }
        i += 1;
    }
    ScanStep::Unique { checks }
}

/// One whole-scan decision equals chaining the paused scan with the
/// judgment it asked for: a paused scan either ends as the judgment says,
/// or resumes one candidate further with the budget counted up.
pub proof fn lemma_scan_decide(
    sig: Set<Seq<char>>,
    cands: Seq<Set<Seq<char>>>,
    enabled: bool,
    provider_ok: bool,
    outcomes: Seq<LlmOutcome>,
    i: int,
    checks: int,
)
    requires
        0 <= i,
        0 <= checks <= MAX_LLM_CHECKS,
        cands.len() <= usize::MAX,
    ensures
        spec_hist_decide(sig, cands, enabled, provider_ok, outcomes, i, checks) == (match
            spec_hist_scan(sig, cands, enabled, provider_ok, i, checks) {
            ScanStep::Unique { checks: c } => (HistDecision::Unique, c as int),
            ScanStep::Duplicate { index, reason, confidence, checks: c } => (
                HistDecision::DuplicateOf { index, reason, confidence },
                c as int,
            ),
            ScanStep::NeedJudgment { index, checks: c } => (match outcomes[c as int] {
                LlmOutcome::Duplicate { reason, confidence } => (
                    HistDecision::DuplicateOf {
                        index,
                        reason: DupReason::Llm { reason },
                        confidence,
                    },
                    c + 1,
                ),
                LlmOutcome::NotDuplicate => spec_hist_decide(
                    sig,
                    cands,
                    enabled,
                    provider_ok,
                    outcomes,
                    index + 1,
                    c + 1,
                ),
                LlmOutcome::Failed => spec_hist_decide(
                    sig,
                    cands,
                    enabled,
                    provider_ok,
                    outcomes,
                    index + 1,
                    c + 1,
                ),
            }),
        }),
    decreases cands.len() - i,
{
    let scan = spec_hist_scan(sig, cands, enabled, provider_ok, i, checks);
    let decide = spec_hist_decide(sig, cands, enabled, provider_ok, outcomes, i, checks);
    if i >= cands.len() {
        assert(scan == (ScanStep::Unique { checks: checks as u32 }));
        assert(decide == (HistDecision::Unique, checks));
        assert((checks as u32) as int == checks);
    } else {
        let inter = sig.intersect(cands[i]).len();
        let uni = sig.union(cands[i]).len();
        if spec_jaccard_at_least(inter, uni, 9, 10) {
            assert((checks as u32) as int == checks);
        } else if enabled && spec_jaccard_at_least(inter, uni, 6, 10) {
            if !provider_ok {
                lemma_scan_decide(sig, cands, enabled, provider_ok, outcomes, i + 1, checks);
                assert(scan == spec_hist_scan(sig, cands, enabled, provider_ok, i + 1, checks));
                assert(decide == spec_hist_decide(
                    sig,
                    cands,
                    enabled,
                    provider_ok,
                    outcomes,
                    i + 1,
                    checks,
                ));
            } else if checks >= MAX_LLM_CHECKS {
                assert(scan == (ScanStep::Unique { checks: checks as u32 }));
                assert(decide == (HistDecision::Unique, checks));
                assert((checks as u32) as int == checks);
            } else {
                assert(scan == (ScanStep::NeedJudgment {
                    index: i as usize,
                    checks: checks as u32,
                }));
                assert((checks as u32) as int == checks);
                assert((i as usize) as int == i);
                assert((i as usize) + 1 == i + 1);
            }
        } else {
            lemma_scan_decide(sig, cands, enabled, provider_ok, outcomes, i + 1, checks);
            assert(scan == spec_hist_scan(sig, cands, enabled, provider_ok, i + 1, checks));
            assert(decide == spec_hist_decide(
                sig,
                cands,
                enabled,
                provider_ok,
                outcomes,
                i + 1,
                checks,
            ));
        }
    }
}
} // verus!
