//! Download and engine configuration.
use vstd::prelude::*;

use crate::strmap::StrMap;
use crate::text::{chars_eq, chars_of, string_of, trim, trim_chars};

verus! {

/// The characters of each string of a sequence.
pub open spec fn strs_view(v: Seq<String>) -> Seq<Seq<char>> {
    v.map_values(|s: String| s@)
}

/// Engine-wide settings.
#[derive(Debug, Clone)]
pub struct EngineSettings {
    pub global_speed_limit_bps: Option<u64>,
    pub max_parallel_downloads: usize,
    pub connect_timeout_secs: u64,
    pub request_timeout_secs: u64,
    pub default_user_agent: String,
}

/// The user agent that the engine sends when a download names none.
pub open spec fn default_user_agent_text() -> Seq<char> {
    "Loki-DM/0.1 (+https://github.com/navi/loki-dm)"@
}

impl Default for EngineSettings {
    fn default() -> (s: Self)
        ensures
            s.global_speed_limit_bps is None,
            s.max_parallel_downloads == 128,
            s.connect_timeout_secs == 10,
            s.request_timeout_secs == 30,
            s.default_user_agent@ == default_user_agent_text(),
    {
        EngineSettings {
            global_speed_limit_bps: None,
            max_parallel_downloads: 128,
            connect_timeout_secs: 10,
            request_timeout_secs: 30,
            default_user_agent: "Loki-DM/0.1 (+https://github.com/navi/loki-dm)".to_owned(),
        }
    }
}

/// Kind of proxy server.
#[derive(Debug, Clone, Copy, PartialEq, Eq, Structural)]
pub enum ProxyKind {
    Http,
    Https,
    Socks5,
}

/// A proxy server to route a download through.
#[derive(Debug)]
pub struct ProxyConfig {
    pub kind: ProxyKind,
    pub host: String,
    pub port: u16,
    pub username: Option<String>,
    pub password: Option<String>,
}

/// Authentication scheme of a download.
#[derive(Debug)]
pub enum AuthConfig {
    Basic { username: String, password: String },
    Bearer { token: String },
    Ntlm,
    Kerberos,
}

/// Everything the engine needs to fetch one file.
#[derive(Debug)]
pub struct DownloadConfig {
    pub url: String,
    pub mirror_urls: Vec<String>,
    pub output_path: String,
    pub initial_connections: u16,
    pub min_connections: u16,
    pub max_connections: u16,
    pub min_segment_size: u64,
    pub max_retries: u8,
    pub speed_limit_bps: Option<u64>,
    pub hour_quota_mb: Option<u64>,
    pub overwrite: bool,
    pub headers: StrMap,
    pub proxy: Option<ProxyConfig>,
    pub auth: Option<AuthConfig>,
    pub user_agent: Option<String>,
    pub category: Option<String>,
    pub av_hook_command: Option<String>,
}

/// A copy of an optional string.
pub fn clone_opt_string(o: &Option<String>) -> (r: Option<String>)
    ensures
        r == *o,
{
    match o {
        Some(s) => Some(s.clone()),
        None => None,
    }
}

/// A copy of a list of strings.
pub fn clone_strings(v: &Vec<String>) -> (r: Vec<String>)
    ensures
        r@ == v@,
{
    let mut out: Vec<String> = Vec::new();
    let mut i: usize = 0;
    while i < v.len()
        invariant
            i <= v@.len(),
            out@ == v@.take(i as int),
        decreases v.len() - i,
    {
        out.push(v[i].clone());
        assert(out@ =~= v@.take(i as int + 1));
        i = i + 1;
    }
    assert(v@.take(v@.len() as int) =~= v@);
    out
}

impl Clone for ProxyConfig {
    fn clone(&self) -> (r: Self)
        ensures
            r == *self,
    {
        ProxyConfig {
            kind: self.kind,
            host: self.host.clone(),
            port: self.port,
            username: clone_opt_string(&self.username),
            password: clone_opt_string(&self.password),
        }
    }
}

impl Clone for AuthConfig {
    fn clone(&self) -> (r: Self)
        ensures
            r == *self,
    {
        match self {
            AuthConfig::Basic { username, password } => AuthConfig::Basic {
                username: username.clone(),
                password: password.clone(),
            },
            AuthConfig::Bearer { token } => AuthConfig::Bearer { token: token.clone() },
            AuthConfig::Ntlm => AuthConfig::Ntlm,
            AuthConfig::Kerberos => AuthConfig::Kerberos,
        }
    }
}

/// Two configurations that hold the same values: every field equal, the
/// mirror list element by element and the headers as a map.
pub open spec fn same_config(a: DownloadConfig, b: DownloadConfig) -> bool {
    &&& a.url == b.url
    &&& a.mirror_urls@ == b.mirror_urls@
    &&& a.output_path == b.output_path
    &&& a.initial_connections == b.initial_connections
    &&& a.min_connections == b.min_connections
    &&& a.max_connections == b.max_connections
    &&& a.min_segment_size == b.min_segment_size
    &&& a.max_retries == b.max_retries
    &&& a.speed_limit_bps == b.speed_limit_bps
    &&& a.hour_quota_mb == b.hour_quota_mb
    &&& a.overwrite == b.overwrite
    &&& a.headers@ == b.headers@
    &&& a.proxy == b.proxy
    &&& a.auth == b.auth
    &&& a.user_agent == b.user_agent
    &&& a.category == b.category
    &&& a.av_hook_command == b.av_hook_command
}

impl Clone for DownloadConfig {
    fn clone(&self) -> (r: Self)
        ensures
            same_config(r, *self),
    {
        DownloadConfig {
            url: self.url.clone(),
            mirror_urls: clone_strings(&self.mirror_urls),
            output_path: self.output_path.clone(),
            initial_connections: self.initial_connections,
            min_connections: self.min_connections,
            max_connections: self.max_connections,
            min_segment_size: self.min_segment_size,
            max_retries: self.max_retries,
            speed_limit_bps: self.speed_limit_bps,
            hour_quota_mb: self.hour_quota_mb,
            overwrite: self.overwrite,
            headers: self.headers.clone(),
            proxy: match &self.proxy {
                Some(p) => Some(p.clone()),
                None => None,
            },
            auth: match &self.auth {
                Some(a) => Some(a.clone()),
                None => None,
            },
            user_agent: clone_opt_string(&self.user_agent),
            category: clone_opt_string(&self.category),
            av_hook_command: clone_opt_string(&self.av_hook_command),
        }
    }
}

/// The values `DownloadConfig::default` gives.
pub open spec fn is_default_config(c: DownloadConfig) -> bool {
    &&& c.url@ == Seq::<char>::empty()
    &&& c.mirror_urls@.len() == 0
    &&& c.output_path@ == "download.bin"@
    &&& c.initial_connections == 8
    &&& c.min_connections == 2
    &&& c.max_connections == 16
    &&& c.min_segment_size == 524288
    &&& c.max_retries == 6
    &&& c.speed_limit_bps is None
    &&& c.hour_quota_mb is None
    &&& !c.overwrite
    &&& c.headers@ == Map::<Seq<char>, Seq<char>>::empty()
    &&& c.proxy is None
    &&& c.auth is None
    &&& c.user_agent is None
    &&& c.category is None
    &&& c.av_hook_command is None
}

/// Smallest segment size that `normalized` allows (128 KiB).
pub const MIN_SEGMENT_FLOOR: u64 = 131072;

/// Mirrors after normalization: each trimmed, dropping the empty ones and
/// those equal to the primary URL, in their given order.
pub open spec fn clean_mirrors(ms: Seq<Seq<char>>, url: Seq<char>) -> Seq<Seq<char>>
    decreases ms.len(),
{
    if ms.len() == 0 {
        Seq::empty()
    } else {
        let rest = clean_mirrors(ms.drop_last(), url);
        let t = trim(ms.last());
        if t.len() > 0 && t != url {
            rest.push(t)
        } else {
            rest
        }
    }
}

/// Clamps the connection bounds and filters mirror URLs as `normalized` does.
fn clean_mirror_list(mirrors: &Vec<String>, url: &String) -> (out: Vec<String>)
    ensures
        strs_view(out@) == clean_mirrors(strs_view(mirrors@), url@),
{
    let u = chars_of(url.as_str());
    let mut out: Vec<String> = Vec::new();
    let mut i: usize = 0;
    let ghost ms = strs_view(mirrors@);
    while i < mirrors.len()
        invariant
            i <= mirrors@.len(),
            ms == strs_view(mirrors@),
            u@ == url@,
            strs_view(out@) == clean_mirrors(ms.take(i as int), url@),
        decreases mirrors.len() - i,
    {
        assert(ms.take(i as int + 1).drop_last() =~= ms.take(i as int));
        assert(ms.take(i as int + 1).last() == mirrors@[i as int]@);
        let c = chars_of(mirrors[i].as_str());
        let t = trim_chars(c.as_slice());
        if t.len() > 0 && !chars_eq(t.as_slice(), u.as_slice()) {
            let s = string_of(t.as_slice());
            out.push(s);
            assert(strs_view(out@) =~= clean_mirrors(ms.take(i as int), url@).push(t@));
        }
        i = i + 1;
    }
    assert(ms.take(mirrors@.len() as int) =~= ms);
    out
}

/// `r` is `c` normalized: the connection bounds and segment size brought
/// into range, the mirrors cleaned, every other field kept.
pub open spec fn normalization(c: DownloadConfig, r: DownloadConfig) -> bool {
    &&& r.min_connections == if c.min_connections < 1 {
        1
        } else {
        c.min_connections
        }
    &&& r.max_connections == if c.max_connections < r.min_connections {
        r.min_connections
        } else {
        c.max_connections
        }
    &&& r.initial_connections == if c.initial_connections < r.min_connections {
        r.min_connections
        } else if c.initial_connections > r.max_connections {
        r.max_connections
        } else {
        c.initial_connections
        }
    &&& r.min_segment_size == if c.min_segment_size < MIN_SEGMENT_FLOOR {
        MIN_SEGMENT_FLOOR
        } else {
        c.min_segment_size
        }
    &&& strs_view(r.mirror_urls@) == clean_mirrors(strs_view(c.mirror_urls@), c.url@)
    &&& r.url == c.url
    &&& r.output_path == c.output_path
    &&& r.max_retries == c.max_retries
    &&& r.speed_limit_bps == c.speed_limit_bps
    &&& r.hour_quota_mb == c.hour_quota_mb
    &&& r.overwrite == c.overwrite
    &&& r.headers == c.headers
    &&& r.proxy == c.proxy
    &&& r.auth == c.auth
    &&& r.user_agent == c.user_agent
    &&& r.category == c.category
    &&& r.av_hook_command == c.av_hook_command
}

/// Cleaning an already cleaned mirror list changes nothing.
proof fn lemma_clean_mirrors_settles(ms: Seq<Seq<char>>, url: Seq<char>)
    ensures
        clean_mirrors(clean_mirrors(ms, url), url) == clean_mirrors(ms, url),
    decreases ms.len(),
{
    if ms.len() > 0 {
        let rest = clean_mirrors(ms.drop_last(), url);
        lemma_clean_mirrors_settles(ms.drop_last(), url);
        let t = crate::text::trim(ms.last());
        if t.len() > 0 && t != url {
            crate::text::lemma_trim_idem(ms.last());
            assert(rest.push(t).drop_last() =~= rest);
        }
    }
}

/// Normalizing a normalized configuration changes nothing: its bounds are
/// already in range, so `1 <= min <= initial <= max`, and its mirrors are
/// already clean.
pub proof fn lemma_normalized_settles(c: DownloadConfig, r1: DownloadConfig, r2: DownloadConfig)
    requires
        normalization(c, r1),
        normalization(r1, r2),
    ensures
        1 <= r1.min_connections <= r1.initial_connections <= r1.max_connections,
        r1.min_segment_size >= MIN_SEGMENT_FLOOR,
        strs_view(r2.mirror_urls@) == strs_view(r1.mirror_urls@),
        ({
            let same = DownloadConfig { mirror_urls: r1.mirror_urls, ..r2 };
            same == r1
        }),
{
    lemma_clean_mirrors_settles(strs_view(c.mirror_urls@), c.url@);
}

impl DownloadConfig {
    /// Brings the connection bounds and segment size into range and cleans
    /// the mirror list: `min_connections >= 1`,
    /// `min_connections <= initial_connections <= max_connections`,
    /// `min_segment_size >= 128 KiB`, and mirrors trimmed, non-empty and
    /// different from `url`. Every other field is kept.
    pub fn normalized(self) -> (r: Self)
        ensures
            normalization(self, r),
    {
        let mut c = self;
        if c.min_connections < 1 {
            c.min_connections = 1;
        }
        if c.max_connections < c.min_connections {
            c.max_connections = c.min_connections;
        }
        if c.initial_connections < c.min_connections {
            c.initial_connections = c.min_connections;
        } else if c.initial_connections > c.max_connections {
            c.initial_connections = c.max_connections;
        }
        if c.min_segment_size < MIN_SEGMENT_FLOOR {
            c.min_segment_size = MIN_SEGMENT_FLOOR;
        }
        c.mirror_urls = clean_mirror_list(&c.mirror_urls, &c.url);
        c
    }
}

impl Default for DownloadConfig {
    fn default() -> (c: Self)
        ensures
            is_default_config(c),
    {
        DownloadConfig {
            url: String::new(),
            mirror_urls: Vec::new(),
            output_path: "download.bin".to_owned(),
            initial_connections: 8,
            min_connections: 2,
            max_connections: 16,
            min_segment_size: 524288,
            max_retries: 6,
            speed_limit_bps: None,
            hour_quota_mb: None,
            overwrite: false,
            headers: StrMap::new(),
            proxy: None,
            auth: None,
            user_agent: None,
            category: None,
            av_hook_command: None,
        }
    }
}

} // verus!
