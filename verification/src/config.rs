//! Configuration values and the address the frontend is told to call.
//!
//! Loading these from a file is I/O and lives outside; here are the
//! shapes, their defaults, and the computation of the public API base
//! address from the deployment settings.
use vstd::prelude::*;

use crate::charops::chars_to_string;
use crate::charops::str_to_chars;
use crate::text::spec_trim_ws;
use crate::text::trim_ws;

verus! {

pub struct ServerConfig {
    pub bind: String,
}

pub struct DbConfig {
    pub url: String,
    pub max_connections: u32,
}

impl Default for DbConfig {
    fn default() -> (r: Self)
        ensures
            r.url@.len() == 0,
            r.max_connections == 5,
    {
        DbConfig { url: String::new(), max_connections: 5 }
    }
}

pub struct LoggingConfig {
    pub file: String,
    pub level: Option<String>,
}

pub struct HttpClientConfig {
    pub http_proxy: Option<String>,
    pub https_proxy: Option<String>,
}

impl Default for HttpClientConfig {
    fn default() -> (r: Self)
        ensures
            r.http_proxy is None,
            r.https_proxy is None,
    {
        HttpClientConfig { http_proxy: None, https_proxy: None }
    }
}

pub struct DeepseekConfig {
    pub api_key: Option<String>,
    pub base_url: String,
    pub model: String,
    pub timeout_secs: u64,
}

pub struct OllamaConfig {
    pub base_url: String,
    pub model: String,
    pub timeout_secs: u64,
}

pub struct AdminConfig {
    pub username: String,
    pub password: String,
    pub session_ttl_secs: u64,
}

pub struct DeploymentBackendConfig {
    pub bind_addr: Option<String>,
}

pub struct SslConfig {
    pub cert_path: String,
    pub key_path: String,
}

pub struct DeploymentConfig {
    pub domain: Option<String>,
    pub public_api_base_url: Option<String>,
    pub backend: DeploymentBackendConfig,
    pub ssl: Option<SslConfig>,
}

pub struct AppConfig {
    pub server: ServerConfig,
    pub db: DbConfig,
    pub fetcher: crate::fetchround::FetcherConfig,
    pub logging: LoggingConfig,
    pub http_client: HttpClientConfig,
    pub deployment: DeploymentConfig,
    pub admin: AdminConfig,
}

pub struct FrontendPublicConfig {
    pub api_base_url: String,
}

impl DeploymentConfig {
    /// SSL counts as on when both certificate paths are non-blank.
    pub fn ssl_enabled(&self) -> (r: bool)
        ensures
            r == (match self.ssl {
                Some(s) => spec_trim_ws(s.cert_path@).len() > 0 && spec_trim_ws(
                    s.key_path@,
                ).len() > 0,
                None => false,
            }),
    {
        match &self.ssl {
            Some(s) => {
                let c = trim_ws(s.cert_path.as_str());
                let k = trim_ws(s.key_path.as_str());
                c.as_str().unicode_len() > 0 && k.as_str().unicode_len() > 0
            },
            None => false,
        }
    }
}

/// Whether `s` begins with the characters of `pre`.
pub open spec fn spec_starts_with(s: Seq<char>, pre: Seq<char>) -> bool {
    s.len() >= pre.len() && s.take(pre.len() as int) == pre
}

pub fn starts_with_lit(s: &str, pre: &str) -> (r: bool)
    ensures
        r == spec_starts_with(s@, pre@),
{
    let n = s.unicode_len();
    let m = pre.unicode_len();
    if n < m {
        proof {
            assert(!spec_starts_with(s@, pre@));
        }
        return false;
    }
    let mut i: usize = 0;
    while i < m
        invariant
            i <= m <= n,
            n == s@.len(),
            m == pre@.len(),
            forall|j: int| 0 <= j < i ==> s@[j] == pre@[j],
        decreases m - i,
    {
        if s.get_char(i) != pre.get_char(i) {
            proof {
                if spec_starts_with(s@, pre@) {
                    assert(s@.take(m as int)[i as int] == pre@[i as int]);
                }
            }
            return false;
        }
        i += 1;
    }
    proof {
        assert(s@.take(m as int) =~= pre@);
    }
    true
}

pub open spec fn spec_has_scheme_prefix(s: Seq<char>) -> bool {
    spec_starts_with(s, "http://"@) || spec_starts_with(s, "https://"@)
}

/// The string form of a host: left alone when it already names a scheme,
/// else prefixed with `http://`.
pub open spec fn spec_format_host_base(host: Seq<char>) -> Seq<char> {
    let t = spec_trim_ws(host);
    if spec_has_scheme_prefix(t) {
        t
    } else {
        "http://"@ + t
    }
}

pub fn format_host_base(host: &str) -> (r: String)
    ensures
        r@ == spec_format_host_base(host@),
{
    let t = trim_ws(host);
    if starts_with_lit(t.as_str(), "http://") || starts_with_lit(t.as_str(), "https://") {
        t
    } else {
        let mut out = str_to_chars("http://");
        let mut tail = str_to_chars(t.as_str());
        out.append(&mut tail);
        proof {
            assert(out@ =~= ("http://")@ + spec_trim_ws(host@));
        }
        chars_to_string(&out)
    }
}

/// Trailing slashes removed, as the base address is normalized.
pub open spec fn spec_trim_slashes(s: Seq<char>) -> Seq<char>
    decreases s.len(),
{
    if s.len() > 0 && s.last() == '/' {
        spec_trim_slashes(s.drop_last())
    } else {
        s
    }
}

proof fn lemma_trim_slashes_take(s: Seq<char>, k: int)
    requires
        0 <= k <= s.len(),
        forall|j: int| k <= j < s.len() ==> s[j] == '/',
        k > 0 ==> s[k - 1] != '/',
    ensures
        spec_trim_slashes(s) == s.take(k),
    decreases s.len() - k,
{
    if k == s.len() {
        assert(s.take(k) =~= s);
    } else {
        lemma_trim_slashes_take(s.drop_last(), k);
        assert(s.drop_last().take(k) =~= s.take(k));
    }
}

pub fn trim_trailing_slashes(s: &str) -> (r: String)
    ensures
        r@ == spec_trim_slashes(s@),
{
    let v = str_to_chars(s);
    let n = v.len();
    let mut end: usize = n;
    while end > 0 && v[end - 1] == '/'
        invariant
            end <= n,
            n == v@.len(),
            v@ == s@,
            forall|j: int| end <= j < n ==> v@[j] == '/',
        decreases end,
    {
        end -= 1;
    }
    proof {
        lemma_trim_slashes_take(v@, end as int);
    }
    let mut out: Vec<char> = Vec::new();
    let mut i: usize = 0;
    while i < end
        invariant
            i <= end <= v@.len(),
            out@ == v@.take(i as int),
        decreases end - i,
    {
        out.push(v[i]);
        i += 1;
        proof {
            assert(v@.take(i as int) =~= v@.take(i - 1 as int).push(v@[i - 1 as int]));
        }
    }
    chars_to_string(&out)
}

pub open spec fn spec_ends_with(s: Seq<char>, suf: Seq<char>) -> bool {
    s.len() >= suf.len() && s.skip(s.len() - suf.len()) == suf
}

fn ends_with_lit(s: &str, suf: &str) -> (r: bool)
    ensures
        r == spec_ends_with(s@, suf@),
{
    let n = s.unicode_len();
    let m = suf.unicode_len();
    if n < m {
        return false;
    }
    let mut i: usize = 0;
    while i < m
        invariant
            i <= m <= n,
            n == s@.len(),
            m == suf@.len(),
            forall|j: int| 0 <= j < i ==> s@[n - m + j] == suf@[j],
        decreases m - i,
    {
        if s.get_char(n - m + i) != suf.get_char(i) {
            proof {
                if spec_ends_with(s@, suf@) {
                    assert(s@.skip(n - m as int)[i as int] == suf@[i as int]);
                }
            }
            return false;
        }
        i += 1;
    }
    proof {
        assert(s@.skip(n - m as int) =~= suf@);
    }
    true
}

/// The public base address always carries the `/api` suffix exactly once.
pub open spec fn spec_ensure_api_suffix(base: Seq<char>) -> Seq<char> {
    let t = spec_trim_slashes(base);
    if spec_ends_with(t, "/api"@) {
        t
    } else {
        t + "/api"@
    }
}

pub fn ensure_api_suffix(base: &str) -> (r: String)
    ensures
        r@ == spec_ensure_api_suffix(base@),
{
    let t = trim_trailing_slashes(base);
    if ends_with_lit(t.as_str(), "/api") {
        t
    } else {
        let mut out = str_to_chars(t.as_str());
        let mut suf = str_to_chars("/api");
        out.append(&mut suf);
        proof {
            assert(out@ =~= spec_trim_slashes(base@) + ("/api")@);
        }
        chars_to_string(&out)
    }
}

impl AppConfig {
    /// The API base address handed to the frontend: the first usable
    /// candidate among the explicit public address, the deployment domain
    /// (given a scheme when it has none), and the backend or server bind
    /// address, falling back to the local default; trailing slashes are
    /// dropped and the `/api` suffix is enforced.
    pub fn frontend_public_config(&self) -> (r: FrontendPublicConfig)
        ensures
            r.api_base_url@ == spec_ensure_api_suffix(spec_frontend_base(self)),
    {
        let base = self.first_base_candidate();
        FrontendPublicConfig { api_base_url: ensure_api_suffix(base.as_str()) }
    }

    fn first_base_candidate(&self) -> (r: String)
        ensures
            r@ == spec_frontend_base(self),
    {
        let e: String = match &self.deployment.public_api_base_url {
            Some(v) => trim_ws(v.as_str()),
            None => String::new(),
        };
        if e.as_str().unicode_len() > 0 {
            let c1 = trim_trailing_slashes(e.as_str());
            if c1.as_str().unicode_len() > 0 {
                return c1;
            }
        }
        let dom: String = match &self.deployment.domain {
            Some(d) => trim_ws(d.as_str()),
            None => String::new(),
        };
        if dom.as_str().unicode_len() > 0 {
            let with_scheme: String = if starts_with_lit(dom.as_str(), "http://")
                || starts_with_lit(dom.as_str(), "https://") {
                dom
            } else {
                let scheme = if self.deployment.ssl_enabled() {
                    "https://"
                } else {
                    "http://"
                };
                let mut out = str_to_chars(scheme);
                let mut tail = str_to_chars(dom.as_str());
                out.append(&mut tail);
                chars_to_string(&out)
            };
            let c2 = trim_trailing_slashes(with_scheme.as_str());
            if c2.as_str().unicode_len() > 0 {
                return c2;
            }
        }
        let bind_cand: Option<String> = match &self.deployment.backend.bind_addr {
            Some(b) => {
                let t = trim_ws(b.as_str());
                if t.as_str().unicode_len() > 0 {
                    Some(format_host_base(b.as_str()))
                } else if trim_ws(self.server.bind.as_str()).as_str().unicode_len() > 0 {
                    Some(format_host_base(self.server.bind.as_str()))
                } else {
                    None
                }
            },
            None => {
                if trim_ws(self.server.bind.as_str()).as_str().unicode_len() > 0 {
                    Some(format_host_base(self.server.bind.as_str()))
                } else {
                    None
                }
            },
        };
        match bind_cand {
            Some(b) => {
                let c3 = trim_trailing_slashes(b.as_str());
                if c3.as_str().unicode_len() > 0 {
                    c3
                } else {
                    String::from_str("http://127.0.0.1:8081")
                }
            },
            None => String::from_str("http://127.0.0.1:8081"),
        }
    }
}

/// The base address the deployment settings select, before the `/api`
/// suffix: the first of the explicit public address, the domain with a
/// scheme, and the bind address that is non-blank once trailing slashes
/// are dropped; the local default otherwise.
pub open spec fn spec_frontend_base(c: &AppConfig) -> Seq<char> {
    let e = match c.deployment.public_api_base_url {
        Some(v) => spec_trim_ws(v@),
        None => Seq::<char>::empty(),
    };
    if e.len() > 0 && spec_trim_slashes(e).len() > 0 {
        spec_trim_slashes(e)
    } else {
        let dom = match c.deployment.domain {
            Some(d) => spec_trim_ws(d@),
            None => Seq::<char>::empty(),
        };
        let with_scheme = if spec_has_scheme_prefix(dom) {
            dom
        } else {
            (if (match c.deployment.ssl {
                Some(s) => spec_trim_ws(s.cert_path@).len() > 0 && spec_trim_ws(
                    s.key_path@,
                ).len() > 0,
                None => false,
            }) {
                ("https://")@
            } else {
                ("http://")@
            }) + dom
        };
        if dom.len() > 0 && spec_trim_slashes(with_scheme).len() > 0 {
            spec_trim_slashes(with_scheme)
        } else {
            let bind = match c.deployment.backend.bind_addr {
                Some(b) => if spec_trim_ws(b@).len() > 0 {
                    Some(spec_format_host_base(b@))
                } else if spec_trim_ws(c.server.bind@).len() > 0 {
                    Some(spec_format_host_base(c.server.bind@))
                } else {
                    None
                },
                None => if spec_trim_ws(c.server.bind@).len() > 0 {
                    Some(spec_format_host_base(c.server.bind@))
                } else {
                    None
                },
            };
            match bind {
                Some(b) => if spec_trim_slashes(b).len() > 0 {
                    spec_trim_slashes(b)
                } else {
                    ("http://127.0.0.1:8081")@
                },
                None => ("http://127.0.0.1:8081")@,
            }
        }
    }
}

} // verus!
