//! The translation engine's state: provider selection, per-provider
//! credentials and verification, and the order in which providers may be
//! tried.
//!
//! Every mutation is a plain function of the state and its inputs; the
//! network work of verifying or calling a provider happens elsewhere, and
//! its outcome is applied here as a value. A provider is usable only while
//! its latest verification succeeded, so the order handed to callers never
//! contains an unverified provider.
use vstd::prelude::*;

use crate::text::spec_trim_ws;
use crate::text::trim_ws;

verus! {

#[derive(Clone, Copy, Debug, PartialEq, Eq, Structural)]
pub enum TranslatorProvider {
    Deepseek,
    Baidu,
    Ollama,
}

pub open spec fn spec_provider_name(p: TranslatorProvider) -> Seq<char> {
    match p {
        TranslatorProvider::Deepseek => seq!['d', 'e', 'e', 'p', 's', 'e', 'e', 'k'],
        TranslatorProvider::Baidu => seq!['b', 'a', 'i', 'd', 'u'],
        TranslatorProvider::Ollama => seq!['o', 'l', 'l', 'a', 'm', 'a'],
    }
}

impl TranslatorProvider {
    /// The lowercase name of the provider.
    pub fn as_str(&self) -> (r: &'static str)
        ensures
            r@ == spec_provider_name(*self),
    {
        match self {
            TranslatorProvider::Deepseek => {
                let s = "deepseek";
                proof {
                    reveal_strlit("deepseek");
                    assert(s@ =~= spec_provider_name(TranslatorProvider::Deepseek));
                }
                s
            },
            TranslatorProvider::Baidu => {
                let s = "baidu";
                proof {
                    reveal_strlit("baidu");
                    assert(s@ =~= spec_provider_name(TranslatorProvider::Baidu));
                }
                s
            },
            TranslatorProvider::Ollama => {
                let s = "ollama";
                proof {
                    reveal_strlit("ollama");
                    assert(s@ =~= spec_provider_name(TranslatorProvider::Ollama));
                }
                s
            },
        }
    }
}

/// Which provider a configuration string names: its whitespace-trimmed,
/// ASCII-lowercased form must be a known name.
pub open spec fn spec_parse_provider(s: Seq<char>) -> Option<TranslatorProvider> {
    let low = spec_trim_ws(s).map_values(|c: char| crate::charops::ascii_lower(c));
    if low == spec_provider_name(TranslatorProvider::Deepseek) {
        Some(TranslatorProvider::Deepseek)
    } else if low == spec_provider_name(TranslatorProvider::Baidu) {
        Some(TranslatorProvider::Baidu)
    } else if low == spec_provider_name(TranslatorProvider::Ollama) {
        Some(TranslatorProvider::Ollama)
    } else {
        None
    }
}

/// Parse a provider name; None for anything unknown.
pub fn parse_provider(value: &str) -> (r: Option<TranslatorProvider>)
    ensures
        r == spec_parse_provider(value@),
{
    let trimmed = trim_ws(value);
    let tv = crate::charops::str_to_chars(trimmed.as_str());
    let n = tv.len();
    let mut low: Vec<char> = Vec::new();
    let mut i: usize = 0;
    while i < n
        invariant
            i <= n,
            n == tv@.len(),
            tv@ == spec_trim_ws(value@),
            low@ == tv@.take(i as int).map_values(|c: char| crate::charops::ascii_lower(c)),
        decreases n - i,
    {
        let lc = crate::html::lower_ascii_char(tv[i]);
        low.push(lc);
        proof {
            assert(tv@.take(i + 1 as int).map_values(|c: char| crate::charops::ascii_lower(c))
                =~= tv@.take(i as int).map_values(|c: char| crate::charops::ascii_lower(c)).push(
                crate::charops::ascii_lower(tv@[i as int]),
            ));
        }
        i += 1;
    }
    proof {
        assert(tv@.take(n as int) =~= tv@);
    }
    let lows = crate::charops::chars_to_string(&low);
    proof {
        reveal_strlit("deepseek");
        reveal_strlit("baidu");
        reveal_strlit("ollama");
        assert(("deepseek")@ =~= spec_provider_name(TranslatorProvider::Deepseek));
        assert(("baidu")@ =~= spec_provider_name(TranslatorProvider::Baidu));
        assert(("ollama")@ =~= spec_provider_name(TranslatorProvider::Ollama));
    }
    if crate::charops::str_eq(lows.as_str(), "deepseek") {
        Some(TranslatorProvider::Deepseek)
    } else if crate::charops::str_eq(lows.as_str(), "baidu") {
        Some(TranslatorProvider::Baidu)
    } else if crate::charops::str_eq(lows.as_str(), "ollama") {
        Some(TranslatorProvider::Ollama)
    } else {
        None
    }
}

/// An error of the translation layer.
#[derive(Debug)]
pub enum TranslationError {
    NotConfigured,
    QuotaExceeded,
    Api { code: String, message: String },
    Other { message: String },
}

/// Mask a secret for display: everything but the last four characters is
/// hidden, and short secrets are hidden whole.
pub open spec fn spec_mask_secret(s: Seq<char>) -> Seq<char> {
    if s.len() == 0 {
        s
    } else if s.len() <= 4 {
        seq!['\u{2022}', '\u{2022}', '\u{2022}', '\u{2022}']
    } else {
        seq!['\u{2022}', '\u{2022}', '\u{2022}', '\u{2022}'] + s.skip(s.len() - 4)
    }
}

pub fn mask_secret(value: &str) -> (r: String)
    ensures
        r@ == spec_mask_secret(value@),
{
    let v = crate::charops::str_to_chars(value);
    let n = v.len();
    if n == 0 {
        return String::new();
    }
    let mut out: Vec<char> = Vec::new();
    out.push('\u{2022}');
    out.push('\u{2022}');
    out.push('\u{2022}');
    out.push('\u{2022}');
    if n <= 4 {
        proof {
            assert(out@ =~= spec_mask_secret(value@));
        }
        return crate::charops::chars_to_string(&out);
    }
    let mut i: usize = n - 4;
    proof {
        assert(v@.subrange(n - 4 as int, n - 4 as int) =~= Seq::<char>::empty());
        assert(out@ =~= seq!['\u{2022}', '\u{2022}', '\u{2022}', '\u{2022}'] + v@.subrange(
            n - 4 as int,
            n - 4 as int,
        ));
    }
    while i < n
        invariant
            4 < n,
            n - 4 <= i <= n,
            n == v@.len(),
            v@ == value@,
            out@ == seq!['\u{2022}', '\u{2022}', '\u{2022}', '\u{2022}'] + v@.subrange(
                n - 4 as int,
                i as int,
            ),
        decreases n - i,
    {
        out.push(v[i]);
        i += 1;
        proof {
            let ghost bullets = seq!['\u{2022}', '\u{2022}', '\u{2022}', '\u{2022}'];
            let lhs = bullets + v@.subrange(n - 4 as int, i as int);
            let rhs = (bullets + v@.subrange(n - 4 as int, i - 1 as int)).push(
                v@[i - 1 as int],
            );
            assert(lhs.len() == rhs.len());
            assert forall|k: int| 0 <= k < lhs.len() implies lhs[k] == rhs[k] by {
                if k >= 4 {
                    assert(lhs[k] == v@.subrange(n - 4 as int, i as int)[k - 4]);
                    assert(v@.subrange(n - 4 as int, i as int)[k - 4] == v@[n - 4 + k - 4]);
                    if k < lhs.len() - 1 {
                        assert(v@.subrange(n - 4 as int, i - 1 as int)[k - 4] == v@[n - 4 + k
                            - 4]);
                    }
                }
            }
            assert(lhs =~= rhs);
        }
    }
    proof {
        assert(v@.subrange(n - 4 as int, n as int) =~= v@.skip(n - 4 as int));
        assert(out@ =~= spec_mask_secret(value@));
    }
    crate::charops::chars_to_string(&out)
}

/// An error message kept for display, cut to at most 200 characters.
pub open spec fn spec_truncate_error(s: Seq<char>) -> Seq<char> {
    if s.len() <= 200 {
        s
    } else {
        s.take(200)
    }
}

pub fn truncate_error(message: &str) -> (r: String)
    ensures
        r@ == spec_truncate_error(message@),
{
    let v = crate::charops::str_to_chars(message);
    let n = v.len();
    if n <= 200 {
        let mut out: Vec<char> = Vec::new();
        let mut i: usize = 0;
        while i < n
            invariant
                i <= n,
                n == v@.len(),
                out@ == v@.take(i as int),
            decreases n - i,
        {
            out.push(v[i]);
            i += 1;
            proof {
                assert(v@.take(i as int) =~= v@.take(i - 1 as int).push(v@[i - 1 as int]));
            }
        }
        proof {
            assert(v@.take(n as int) =~= v@);
        }
        crate::charops::chars_to_string(&out)
    } else {
        let mut out: Vec<char> = Vec::new();
        let mut i: usize = 0;
        while i < 200
            invariant
                i <= 200 <= n,
                n == v@.len(),
                out@ == v@.take(i as int),
            decreases 200 - i,
        {
            out.push(v[i]);
            i += 1;
            proof {
                assert(v@.take(i as int) =~= v@.take(i - 1 as int).push(v@[i - 1 as int]));
            }
        }
        crate::charops::chars_to_string(&out)
    }
}


/// The translation result a provider hands back.
#[derive(Debug)]
pub struct TranslationResult {
    pub title: String,
    pub description: Option<String>,
}

/// The status of one provider's latest verification.
pub struct ProviderStatus {
    pub verified: bool,
    pub error: Option<String>,
}

/// The engine's whole mutable state. Credentials are stored trimmed; an
/// absent or empty credential leaves its provider unconfigured.
pub struct EngineState {
    pub provider: TranslatorProvider,
    pub baidu_app_id: Option<String>,
    pub baidu_secret_key: Option<String>,
    pub deepseek_api_key: Option<String>,
    pub ollama_base_url: Option<String>,
    pub ollama_model: Option<String>,
    pub baidu: ProviderStatus,
    pub deepseek: ProviderStatus,
    pub ollama: ProviderStatus,
    pub translation_enabled: bool,
    pub translate_descriptions: bool,
}

/// A batch of credential and flag changes.
pub struct TranslatorCredentialsUpdate {
    pub provider: Option<TranslatorProvider>,
    pub baidu_app_id: Option<String>,
    pub baidu_secret_key: Option<String>,
    pub deepseek_api_key: Option<String>,
    pub ollama_base_url: Option<String>,
    pub ollama_model: Option<String>,
    pub translation_enabled: Option<bool>,
    pub translate_descriptions: Option<bool>,
}

impl Default for TranslatorCredentialsUpdate {
    /// An update that changes nothing.
    fn default() -> (r: Self)
        ensures
            (r.provider is None) && (r.baidu_app_id is None) && (r.baidu_secret_key is None)
                && (r.deepseek_api_key is None) && (r.ollama_base_url is None) && (r.ollama_model
                is None) && (r.translation_enabled is None) && (r.translate_descriptions is None),
    {
        TranslatorCredentialsUpdate {
            provider: None,
            baidu_app_id: None,
            baidu_secret_key: None,
            deepseek_api_key: None,
            ollama_base_url: None,
            ollama_model: None,
            translation_enabled: None,
            translate_descriptions: None,
        }
    }
}

/// Which providers must be re-verified after a change.
pub struct VerifyRequest {
    pub baidu: bool,
    pub deepseek: bool,
    pub ollama: bool,
}

pub open spec fn opt_view(o: Option<String>) -> Option<Seq<char>> {
    match o {
        Some(s) => Some(s@),
        None => None,
    }
}

/// A credential string stored from an update: trimmed, and cleared when
/// nothing is left.
pub open spec fn spec_trim_opt(s: Seq<char>) -> Option<Seq<char>> {
    if spec_trim_ws(s).len() == 0 {
        None
    } else {
        Some(spec_trim_ws(s))
    }
}

pub open spec fn spec_configured(s: EngineState, p: TranslatorProvider) -> bool {
    match p {
        TranslatorProvider::Baidu => (s.baidu_app_id is Some) && (s.baidu_secret_key is Some),
        TranslatorProvider::Deepseek => s.deepseek_api_key is Some,
        TranslatorProvider::Ollama => (s.ollama_base_url is Some) && (s.ollama_model is Some),
    }
}

pub open spec fn spec_verified(s: EngineState, p: TranslatorProvider) -> bool {
    match p {
        TranslatorProvider::Baidu => s.baidu.verified,
        TranslatorProvider::Deepseek => s.deepseek.verified,
        TranslatorProvider::Ollama => s.ollama.verified,
    }
}

/// A provider may be used only when it is configured and its latest
/// verification succeeded.
pub open spec fn spec_available(s: EngineState, p: TranslatorProvider) -> bool {
    spec_configured(s, p) && spec_verified(s, p)
}

/// The fixed priority in which providers are preferred.
pub open spec fn spec_priority() -> Seq<TranslatorProvider> {
    seq![TranslatorProvider::Deepseek, TranslatorProvider::Baidu, TranslatorProvider::Ollama]
}

/// The provider selection after a change: the current provider when it is
/// still available, else the first available by priority, else unchanged.
pub open spec fn spec_consistent_provider(s: EngineState) -> TranslatorProvider {
    if spec_available(s, s.provider) {
        s.provider
    } else if spec_available(s, TranslatorProvider::Deepseek) {
        TranslatorProvider::Deepseek
    } else if spec_available(s, TranslatorProvider::Baidu) {
        TranslatorProvider::Baidu
    } else if spec_available(s, TranslatorProvider::Ollama) {
        TranslatorProvider::Ollama
    } else {
        s.provider
    }
}

impl EngineState {
    /// A fresh engine: nothing configured, nothing verified, translation
    /// off, defaulting to the first provider of the priority list.
    pub fn new() -> (r: EngineState)
        ensures
            r.provider == TranslatorProvider::Deepseek,
            (r.baidu_app_id is None) && (r.baidu_secret_key is None) && (r.deepseek_api_key
                is None) && (r.ollama_base_url is None) && (r.ollama_model is None),
            !r.baidu.verified && !r.deepseek.verified && !r.ollama.verified,
            (r.baidu.error is None) && (r.deepseek.error is None) && (r.ollama.error is None),
            !r.translation_enabled,
            !r.translate_descriptions,
    {
        EngineState {
            provider: TranslatorProvider::Deepseek,
            baidu_app_id: None,
            baidu_secret_key: None,
            deepseek_api_key: None,
            ollama_base_url: None,
            ollama_model: None,
            baidu: ProviderStatus { verified: false, error: None },
            deepseek: ProviderStatus { verified: false, error: None },
            ollama: ProviderStatus { verified: false, error: None },
            translation_enabled: false,
            translate_descriptions: false,
        }
    }

    pub fn is_configured(&self, p: TranslatorProvider) -> (r: bool)
        ensures
            r == spec_configured(*self, p),
    {
        match p {
            TranslatorProvider::Baidu => self.baidu_app_id.is_some()
                && self.baidu_secret_key.is_some(),
            TranslatorProvider::Deepseek => self.deepseek_api_key.is_some(),
            TranslatorProvider::Ollama => self.ollama_base_url.is_some()
                && self.ollama_model.is_some(),
        }
    }

    pub fn is_available(&self, p: TranslatorProvider) -> (r: bool)
        ensures
            r == spec_available(*self, p),
    {
        let verified = match p {
            TranslatorProvider::Baidu => self.baidu.verified,
            TranslatorProvider::Deepseek => self.deepseek.verified,
            TranslatorProvider::Ollama => self.ollama.verified,
        };
        self.is_configured(p) && verified
    }

    /// Forget a provider's verification, as after a credential change.
    pub fn clear_verification(&mut self, p: TranslatorProvider)
        ensures
            !spec_verified(*final(self), p),
            match p {
                TranslatorProvider::Baidu => (final(self).baidu.error is None) && final(self).deepseek == old(self).deepseek && final(self).ollama == old(self).ollama,
                TranslatorProvider::Deepseek => (final(self).deepseek.error is None) && final(self).baidu == old(self).baidu && final(self).ollama == old(self).ollama,
                TranslatorProvider::Ollama => (final(self).ollama.error is None) && final(self).baidu == old(self).baidu && final(self).deepseek == old(self).deepseek,
            },
            final(self).provider == old(self).provider,
            final(self).baidu_app_id == old(self).baidu_app_id,
            final(self).baidu_secret_key == old(self).baidu_secret_key,
            final(self).deepseek_api_key == old(self).deepseek_api_key,
            final(self).ollama_base_url == old(self).ollama_base_url,
            final(self).ollama_model == old(self).ollama_model,
            final(self).translation_enabled == old(self).translation_enabled,
            final(self).translate_descriptions == old(self).translate_descriptions,
    {
        match p {
            TranslatorProvider::Baidu => {
                self.baidu = ProviderStatus { verified: false, error: None };
            },
            TranslatorProvider::Deepseek => {
                self.deepseek = ProviderStatus { verified: false, error: None };
            },
            TranslatorProvider::Ollama => {
                self.ollama = ProviderStatus { verified: false, error: None };
            },
        }
    }

    /// Fall back to an available provider when the selected one is not.
    pub fn ensure_provider_consistency(&mut self)
        ensures
            final(self).provider == spec_consistent_provider(*old(self)),
            *final(self) == (EngineState {
                provider: spec_consistent_provider(*old(self)),
                ..*old(self)
            }),
    {
        if self.is_available(self.provider) {
            return;
        }
        if self.is_available(TranslatorProvider::Deepseek) {
            self.provider = TranslatorProvider::Deepseek;
        } else if self.is_available(TranslatorProvider::Baidu) {
            self.provider = TranslatorProvider::Baidu;
        } else if self.is_available(TranslatorProvider::Ollama) {
            self.provider = TranslatorProvider::Ollama;
        }
    }

    /// Select a provider by hand. Refused when it has no credentials; the
    /// returned flag asks for verification when it is not yet verified.
    pub fn set_provider(&mut self, p: TranslatorProvider) -> (r: Result<bool, TranslationError>)
        ensures
            (r is Ok) <==> spec_configured(*old(self), p),
            r is Ok ==> *final(self) == (EngineState { provider: p, ..*old(self) }) && (r->Ok_0
                == !spec_available(*old(self), p)),
            r is Err ==> *final(self) == *old(self),
    {
        if !self.is_configured(p) {
            return Err(TranslationError::NotConfigured);
        }
        let needs_verify = !self.is_available(p);
        self.provider = p;
        Ok(needs_verify)
    }

    /// Record the outcome of one provider verification call, then re-check
    /// the provider selection. A failure stores a truncated message and
    /// blocks the provider until a later verification succeeds; afterwards
    /// the selected provider is still available, or replaced by the first
    /// available one in priority order.
    pub fn apply_verification(&mut self, p: TranslatorProvider, outcome: Result<(), String>)
        ensures
            spec_verified(*final(self), p) == ((outcome is Ok) && spec_configured(
                *old(self),
                p,
            )),
            final(self).provider == spec_consistent_provider(
                (EngineState { provider: old(self).provider, ..*final(self) }),
            ),
            match p {
                TranslatorProvider::Baidu => final(self).deepseek == old(self).deepseek && final(self).ollama == old(self).ollama,
                TranslatorProvider::Deepseek => final(self).baidu == old(self).baidu && final(self).ollama == old(self).ollama,
                TranslatorProvider::Ollama => final(self).baidu == old(self).baidu && final(self).deepseek == old(self).deepseek,
            },
            (outcome is Err && spec_configured(*old(self), p)) ==> opt_view(
                match p {
                    TranslatorProvider::Baidu => final(self).baidu.error,
                    TranslatorProvider::Deepseek => final(self).deepseek.error,
                    TranslatorProvider::Ollama => final(self).ollama.error,
                },
            ) == Some(spec_truncate_error(outcome->Err_0@)),
            final(self).baidu_app_id == old(self).baidu_app_id,
            final(self).baidu_secret_key == old(self).baidu_secret_key,
            final(self).deepseek_api_key == old(self).deepseek_api_key,
            final(self).ollama_base_url == old(self).ollama_base_url,
            final(self).ollama_model == old(self).ollama_model,
            final(self).translation_enabled == old(self).translation_enabled,
            final(self).translate_descriptions == old(self).translate_descriptions,
    {
        if !self.is_configured(p) {
            self.clear_verification(p);
        } else {
            match outcome {
                Ok(_) => {
                    let st = ProviderStatus { verified: true, error: None };
                    match p {
                        TranslatorProvider::Baidu => self.baidu = st,
                        TranslatorProvider::Deepseek => self.deepseek = st,
                        TranslatorProvider::Ollama => self.ollama = st,
                    }
                },
                Err(m) => {
                    let st = ProviderStatus {
                        verified: false,
                        error: Some(truncate_error(m.as_str())),
                    };
                    match p {
                        TranslatorProvider::Baidu => self.baidu = st,
                        TranslatorProvider::Deepseek => self.deepseek = st,
                        TranslatorProvider::Ollama => self.ollama = st,
                    }
                },
            }
        }
        self.ensure_provider_consistency();
    }
}

/// The providers a translate call may try, in order: the selected provider
/// first when available, then the rest of the priority list restricted to
/// the available ones. Every provider in the order is available, so an
/// unverified provider is never called.
pub open spec fn spec_translate_order(s: EngineState) -> Seq<TranslatorProvider> {
    let head: Seq<TranslatorProvider> = if spec_available(s, s.provider) {
        seq![s.provider]
    } else {
        Seq::<TranslatorProvider>::empty()
    };
    head + spec_priority().filter(
        |p: TranslatorProvider| spec_available(s, p) && p != s.provider,
    )
}

/// Every provider in the translate order is available, hence verified:
/// a failed or pending verification keeps a provider out of the order.
pub proof fn lemma_translate_order_only_verified(s: EngineState)
    ensures
        forall|k: int|
            0 <= k < spec_translate_order(s).len() ==> spec_available(
                s,
                #[trigger] spec_translate_order(s)[k],
            ) && spec_verified(s, spec_translate_order(s)[k]),
{
    let pr = spec_priority();
    let pred = |p: TranslatorProvider| spec_available(s, p) && p != s.provider;
    pr.filter_lemma(pred);
    let ord = spec_translate_order(s);
    assert forall|k: int| 0 <= k < ord.len() implies spec_available(s, ord[k]) by {
        if spec_available(s, s.provider) {
            if k > 0 {
                assert(ord[k] == pr.filter(pred)[k - 1]);
                assert(pred(pr.filter(pred)[k - 1]));
            }
        } else {
            assert(ord[k] == pr.filter(pred)[k]);
            assert(pred(pr.filter(pred)[k]));
        }
    }
}

impl EngineState {
    /// Build the provider order for one translate call.
    pub fn translate_order(&self) -> (r: Vec<TranslatorProvider>)
        ensures
            r@ == spec_translate_order(*self),
    {
        proof {
            spec_priority().filter_lemma(
                |p: TranslatorProvider| spec_available(*self, p) && p != self.provider,
            );
        }
        let mut order: Vec<TranslatorProvider> = Vec::new();
        if self.is_available(self.provider) {
            order.push(self.provider);
        }
        let cands = [
            TranslatorProvider::Deepseek,
            TranslatorProvider::Baidu,
            TranslatorProvider::Ollama,
        ];
        let mut k: usize = 0;
        while k < 3
            invariant
                k <= 3,
                cands@ == spec_priority(),
                order@ == (if spec_available(*self, self.provider) {
                    seq![self.provider]
                } else {
                    Seq::<TranslatorProvider>::empty()
                }) + spec_priority().take(k as int).filter(
                    |p: TranslatorProvider| spec_available(*self, p) && p != self.provider,
                ),
            decreases 3 - k,
        {
            let ghost pred = |p: TranslatorProvider|
                spec_available(*self, p) && p != self.provider;
            proof {
                assert(spec_priority().take(k + 1 as int) =~= spec_priority().take(
                    k as int,
                ).push(spec_priority()[k as int]));
                spec_priority().take(k as int).lemma_filter_push(
                    spec_priority()[k as int],
                    pred,
                );
            }
            let c = cands[k];
            let avail = self.is_available(c);
            let distinct = !matches_provider(c, self.provider);
            if avail && distinct {
                order.push(c);
            }
            k += 1;
        }
        proof {
            assert(spec_priority().take(3) =~= spec_priority());
        }
        order
    }
}

fn matches_provider(a: TranslatorProvider, b: TranslatorProvider) -> (r: bool)
    ensures
        r == (a == b),
{
    a == b
}

/// The outcome of calling one provider.
pub enum ProviderOutcome {
    Translated(TranslationResult),
    Failed(TranslationError),
}

/// What folding the provider call outcomes in order yields: the index of
/// the first success; or "no provider" when every outcome was a silent
/// pass-over; or the index of the last real failure.
pub enum FoldResult {
    Success { index: int },
    NoProvider,
    LastError { index: int },
}

/// Fold provider call outcomes in order, as the translate call does: the
/// first success wins; a provider that reports itself unconfigured is
/// passed over silently; other failures are remembered, and the last one
/// is returned when no provider succeeds. An empty order yields None.
pub open spec fn spec_translate_fold(outcomes: Seq<ProviderOutcome>) -> FoldResult
    decreases outcomes.len(),
{
    if outcomes.len() == 0 {
        FoldResult::NoProvider
    } else {
        match outcomes.first() {
            ProviderOutcome::Translated(_) => FoldResult::Success { index: 0 },
            ProviderOutcome::Failed(e) => match spec_translate_fold(outcomes.drop_first()) {
                FoldResult::Success { index } => FoldResult::Success { index: index + 1 },
                FoldResult::NoProvider => if e is NotConfigured {
                    FoldResult::NoProvider
                } else {
                    FoldResult::LastError { index: 0 }
                },
                FoldResult::LastError { index } => FoldResult::LastError { index: index + 1 },
            },
        }
    }
}

/// The indices a fold result carries are positions in the outcome list.
pub proof fn lemma_fold_index_bounds(s: Seq<ProviderOutcome>)
    ensures
        match spec_translate_fold(s) {
            FoldResult::Success { index } => 0 <= index < s.len() && (s[index]
                matches ProviderOutcome::Translated(_)),
            FoldResult::NoProvider => true,
            FoldResult::LastError { index } => 0 <= index < s.len() && (match s[index] {
                ProviderOutcome::Failed(e) => !(e is NotConfigured),
                ProviderOutcome::Translated(_) => false,
            }),
        },
    decreases s.len(),
{
    if s.len() > 0 {
        lemma_fold_index_bounds(s.drop_first());
        assert(forall|k: int| 0 <= k < s.drop_first().len() ==> s.drop_first()[k] == s[k + 1]);
    }
}

/// Apply provider call outcomes in order and return what the translate
/// call returns: the first successful result, None when no provider was
/// really tried, or the last real error.
pub fn translate_fold(outcomes: Vec<ProviderOutcome>) -> (r: Result<
    Option<TranslationResult>,
    TranslationError,
>)
    ensures
        match spec_translate_fold(outcomes@) {
            FoldResult::Success { index } => (r is Ok) && ((r->Ok_0) is Some) && (match outcomes@[index] {
                ProviderOutcome::Translated(t) => (r->Ok_0)->0 == t,
                ProviderOutcome::Failed(_) => false,
            }),
            FoldResult::NoProvider => (r is Ok) && ((r->Ok_0) is None),
            FoldResult::LastError { index } => (r is Err) && (match outcomes@[index] {
                ProviderOutcome::Failed(e) => r->Err_0 == e,
                ProviderOutcome::Translated(_) => false,
            }),
        },
    decreases outcomes@.len(),
{
    proof {
        lemma_fold_index_bounds(outcomes@);
    }
    let mut rest = outcomes;
    let ghost all = rest@;
    if rest.len() == 0 {
        return Ok(None);
    }
    let o = rest.remove(0);
    proof {
        assert(all.first() == o);
        assert(all.drop_first() =~= rest@);
    }
    match o {
        ProviderOutcome::Translated(t) => {
            proof {
                assert(o->Translated_0 == t);
            }
            Ok(Some(t))
        },
        ProviderOutcome::Failed(e) => {
            let sub = translate_fold(rest);
            proof {
                assert(o->Failed_0 == e);
                lemma_fold_index_bounds(all.drop_first());
                assert(forall|k: int|
                    0 <= k < all.drop_first().len() ==> all.drop_first()[k] == all[k + 1]);
            }
            match sub {
                Ok(Some(t)) => Ok(Some(t)),
                Ok(None) => {
                    let silent = match &e {
                        TranslationError::NotConfigured => true,
                        _ => false,
                    };
                    if silent {
                        Ok(None)
                    } else {
                        Err(e)
                    }
                },
                Err(e2) => Err(e2),
            }
        },
    }
}


/// What the engine shows the admin layer: configuration and verification
/// status, masked credentials, and the last errors.
pub struct TranslatorSnapshot {
    pub provider: TranslatorProvider,
    pub baidu_configured: bool,
    pub deepseek_configured: bool,
    pub ollama_configured: bool,
    pub baidu_app_id_masked: Option<String>,
    pub baidu_secret_key_masked: Option<String>,
    pub deepseek_api_key_masked: Option<String>,
    pub baidu_error: Option<String>,
    pub deepseek_error: Option<String>,
    pub ollama_error: Option<String>,
    pub ollama_base_url: Option<String>,
    pub ollama_model: Option<String>,
    pub translation_enabled: bool,
    pub translate_descriptions: bool,
}

fn clone_opt(s: &Option<String>) -> (r: Option<String>)
    ensures
        opt_view(r) == opt_view(*s),
{
    match s {
        Some(v) => Some(v.clone()),
        None => None,
    }
}

fn mask_opt(s: &Option<String>) -> (r: Option<String>)
    ensures
        match (r, *s) {
            (Some(m), Some(v)) => m@ == spec_mask_secret(v@),
            (None, None) => true,
            _ => false,
        },
{
    match s {
        Some(v) => Some(mask_secret(v.as_str())),
        None => None,
    }
}

/// The stored value for one updated credential: unchanged when the update
/// carries None, else the trimmed new value, cleared when empty.
pub open spec fn spec_cred_after(
    upd: Option<String>,
    old_v: Option<Seq<char>>,
) -> Option<Seq<char>> {
    match upd {
        Some(s) => spec_trim_opt(s@),
        None => old_v,
    }
}

fn apply_cred(upd: &Option<String>, slot: &mut Option<String>) -> (changed: bool)
    ensures
        opt_view(*final(slot)) == spec_cred_after(*upd, opt_view(*old(slot))),
        changed == (opt_view(*final(slot)) != opt_view(*old(slot))),
{
    match upd {
        Some(s) => {
            let t = trim_ws(s.as_str());
            let newv: Option<String> = if t.as_str().unicode_len() == 0 {
                None
            } else {
                Some(t)
            };
            let changed = match (&newv, &slot) {
                (Some(a), Some(b)) => !a.eq(b),
                (None, None) => false,
                _ => true,
            };
            *slot = newv;
            changed
        },
        None => false,
    }
}

impl EngineState {
    /// Apply a batch of credential and flag changes. Changed credentials
    /// clear their provider's verification; an explicitly requested
    /// provider must be available afterwards or the update is refused with
    /// the state otherwise applied; without a request, an unavailable
    /// selection falls back by priority. The returned flags name the
    /// providers whose credentials changed and so need re-verification.
    pub fn update_credentials(&mut self, upd: TranslatorCredentialsUpdate) -> (r: Result<
        VerifyRequest,
        TranslationError,
    >)
        ensures
            opt_view(final(self).baidu_app_id) == spec_cred_after(
                upd.baidu_app_id,
                opt_view(old(self).baidu_app_id),
            ),
            opt_view(final(self).baidu_secret_key) == spec_cred_after(
                upd.baidu_secret_key,
                opt_view(old(self).baidu_secret_key),
            ),
            opt_view(final(self).deepseek_api_key) == spec_cred_after(
                upd.deepseek_api_key,
                opt_view(old(self).deepseek_api_key),
            ),
            opt_view(final(self).ollama_base_url) == spec_cred_after(
                upd.ollama_base_url,
                opt_view(old(self).ollama_base_url),
            ),
            opt_view(final(self).ollama_model) == spec_cred_after(
                upd.ollama_model,
                opt_view(old(self).ollama_model),
            ),
            final(self).translation_enabled == (match upd.translation_enabled {
                Some(f) => f,
                None => old(self).translation_enabled,
            }),
            final(self).translate_descriptions == (match upd.translate_descriptions {
                Some(f) => f,
                None => old(self).translate_descriptions,
            }),
            r is Ok ==> r->Ok_0.baidu == (!final(self).baidu.verified && (
            opt_view(final(self).baidu_app_id) != opt_view(old(self).baidu_app_id) || opt_view(
                final(self).baidu_secret_key,
            ) != opt_view(old(self).baidu_secret_key))),
            r is Ok ==> r->Ok_0.deepseek == (!final(self).deepseek.verified && opt_view(
                final(self).deepseek_api_key,
            ) != opt_view(old(self).deepseek_api_key)),
            r is Ok ==> r->Ok_0.ollama == (!final(self).ollama.verified && (
            opt_view(final(self).ollama_base_url) != opt_view(old(self).ollama_base_url)
                || opt_view(final(self).ollama_model) != opt_view(old(self).ollama_model))),
            // a changed credential forgets the old assessment
            (opt_view(final(self).deepseek_api_key) != opt_view(old(self).deepseek_api_key))
                ==> !final(self).deepseek.verified,
            (opt_view(final(self).baidu_app_id) != opt_view(old(self).baidu_app_id) || opt_view(
                final(self).baidu_secret_key,
            ) != opt_view(old(self).baidu_secret_key)) ==> !final(self).baidu.verified,
            (opt_view(final(self).ollama_base_url) != opt_view(old(self).ollama_base_url)
                || opt_view(final(self).ollama_model) != opt_view(old(self).ollama_model))
                ==> !final(self).ollama.verified,
            (match upd.provider {
                Some(p) => ((r is Ok) <==> spec_available(*final(self), p)) && (r is Ok
                    ==> final(self).provider == p),
                None => r is Ok,
            }),
            (upd.provider is None && !spec_available(
                (EngineState { provider: old(self).provider, ..*final(self) }),
                old(self).provider,
            )) ==> final(self).provider == spec_consistent_provider(
                (EngineState { provider: old(self).provider, ..*final(self) }),
            ),
            (upd.provider is None && spec_available(
                (EngineState { provider: old(self).provider, ..*final(self) }),
                old(self).provider,
            )) ==> final(self).provider == old(self).provider,
    {
        let baidu_changed_a = apply_cred(&upd.baidu_app_id, &mut self.baidu_app_id);
        let baidu_changed_b = apply_cred(&upd.baidu_secret_key, &mut self.baidu_secret_key);
        let baidu_changed = baidu_changed_a || baidu_changed_b;
        let deepseek_changed = apply_cred(&upd.deepseek_api_key, &mut self.deepseek_api_key);
        let ollama_changed_a = apply_cred(&upd.ollama_base_url, &mut self.ollama_base_url);
        let ollama_changed_b = apply_cred(&upd.ollama_model, &mut self.ollama_model);
        let ollama_changed = ollama_changed_a || ollama_changed_b;
        if baidu_changed {
            self.clear_verification(TranslatorProvider::Baidu);
        }
        if deepseek_changed {
            self.clear_verification(TranslatorProvider::Deepseek);
        }
        if ollama_changed {
            self.clear_verification(TranslatorProvider::Ollama);
        }
        match upd.translation_enabled {
            Some(f) => {
                self.translation_enabled = f;
            },
            None => {},
        }
        match upd.translate_descriptions {
            Some(f) => {
                self.translate_descriptions = f;
            },
            None => {},
        }
        match upd.provider {
            Some(p) => {
                if !self.is_available(p) {
                    return Err(TranslationError::NotConfigured);
                }
                self.provider = p;
            },
            None => {
                self.ensure_provider_consistency();
            },
        }
        Ok(
            VerifyRequest {
                baidu: baidu_changed && !self.baidu.verified,
                deepseek: deepseek_changed && !self.deepseek.verified,
                ollama: ollama_changed && !self.ollama.verified,
            },
        )
    }

    /// A read-only snapshot for the admin layer: availability per provider,
    /// masked credentials, last errors and the global flags.
    pub fn snapshot(&self) -> (r: TranslatorSnapshot)
        ensures
            r.provider == self.provider,
            r.baidu_configured == spec_available(*self, TranslatorProvider::Baidu),
            r.deepseek_configured == spec_available(*self, TranslatorProvider::Deepseek),
            r.ollama_configured == spec_available(*self, TranslatorProvider::Ollama),
            (match (r.deepseek_api_key_masked, self.deepseek_api_key) {
                (Some(m), Some(v)) => m@ == spec_mask_secret(v@),
                (None, None) => true,
                _ => false,
            }),
            opt_view(r.baidu_error) == opt_view(self.baidu.error),
            opt_view(r.deepseek_error) == opt_view(self.deepseek.error),
            opt_view(r.ollama_error) == opt_view(self.ollama.error),
            opt_view(r.ollama_base_url) == opt_view(self.ollama_base_url),
            opt_view(r.ollama_model) == opt_view(self.ollama_model),
            r.translation_enabled == self.translation_enabled,
            r.translate_descriptions == self.translate_descriptions,
    {
        TranslatorSnapshot {
            provider: self.provider,
            baidu_configured: self.is_available(TranslatorProvider::Baidu),
            deepseek_configured: self.is_available(TranslatorProvider::Deepseek),
            ollama_configured: self.is_available(TranslatorProvider::Ollama),
            baidu_app_id_masked: mask_opt(&self.baidu_app_id),
            baidu_secret_key_masked: mask_opt(&self.baidu_secret_key),
            deepseek_api_key_masked: mask_opt(&self.deepseek_api_key),
            baidu_error: clone_opt(&self.baidu.error),
            deepseek_error: clone_opt(&self.deepseek.error),
            ollama_error: clone_opt(&self.ollama.error),
            ollama_base_url: clone_opt(&self.ollama_base_url),
            ollama_model: clone_opt(&self.ollama_model),
            translation_enabled: self.translation_enabled,
            translate_descriptions: self.translate_descriptions,
        }
    }
}
} // verus!
