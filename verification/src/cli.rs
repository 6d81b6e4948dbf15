//! The decisions of the command-line front end: turning options into a
//! download configuration, queueing lists of URLs, answering browser
//! requests, and the text of its reports.
use vstd::prelude::*;

use crate::config::{strs_view, AuthConfig, DownloadConfig, ProxyConfig, ProxyKind};
use crate::cookies::{
    cookie_header_text, cookie_pair, invalid_cookie_text, merge_cookie_sources, render_cookie_header,
    with_inline_cookies,
};
use crate::error::LokiDmError;
use crate::paths::{join_path, path_joined};
use crate::queue::{
    category_name, classify_url, classify_with, default_category_rules, enqueued, first_duplicate,
    has_duplicate, is_default_rules, is_pending_order, priority_named, url_lines, urls_from_text,
    priority_name, CategoryRule, QueueAddOutcome, QueuePriority, QueueState,
};
use crate::scheduler::{valid_spec, valid_time, ScheduleSpec, MAX_DURATION_NANOS, NANOS_PER_SEC};
use crate::native::{
    NativeHostInstallReport, NativeHostManifestSpec, NativeHostValidationReport, NativeRequest,
    NativeRequestAction, NativeResponse, CHROME_EXTENSION_ID_PLACEHOLDER,
    DEFAULT_FIREFOX_EXTENSION_ID, DEFAULT_NATIVE_HOST_NAME,
};
use crate::settings::{category_dir_for, AppSettings};
use crate::updater::{asset_choice, platform_terms, select_asset_for_platform, ReleaseAsset, UpdateInfo};
use crate::strmap::{
    as_map, has_key, lemma_as_map_at, lemma_sorted_entries, seq_order, sorted_entries, StrMap,
};
use crate::text::{
    chars_of, eq_ignore_case, eq_ignore_case_chars, lower_chars, lower_seq, split_once,
    split_once_chars, string_of, strip_start_char, strip_start_char_chars, trim, trim_chars, decimal,
    decimal_string, trim_str,
};
use crate::urls::{default_filename, default_filename_of};

verus! {

/// The options of a download as the command line gives them.
#[derive(Debug, Clone)]
pub struct DownloadOptions {
    pub output: Option<String>,
    pub connections: u16,
    pub max_connections: u16,
    pub min_connections: u16,
    pub speed_limit_bps: Option<u64>,
    pub overwrite: bool,
    pub hour_quota_mb: Option<u64>,
    pub user_agent: Option<String>,
    pub header: Vec<String>,
    pub cookie: Vec<String>,
    pub cookie_file: Option<String>,
    pub mirror: Vec<String>,
    pub av_hook: Option<String>,
    pub category: Option<String>,
    pub proxy_kind: Option<String>,
    pub proxy_host: Option<String>,
    pub proxy_port: Option<u16>,
    pub proxy_username: Option<String>,
    pub proxy_password: Option<String>,
    pub basic_user: Option<String>,
    pub basic_password: Option<String>,
    pub bearer_token: Option<String>,
    pub use_ntlm: bool,
    pub use_kerberos: bool,
}

/// The headers `key: value` lines give, later lines winning; `None` when a
/// line has no `:`.
pub open spec fn header_map(raws: Seq<Seq<char>>) -> Option<Map<Seq<char>, Seq<char>>>
    decreases raws.len(),
{
    if raws.len() == 0 {
        Some(Map::empty())
    } else {
        match header_map(raws.drop_last()) {
            Some(m) => match split_once(raws.last(), ':') {
                Some((k, v)) => Some(m.insert(trim(k), trim(v))),
                None => None,
            },
            None => None,
        }
    }
}

/// `k` is the first header line without a `:`.
pub open spec fn first_bad_header(raws: Seq<Seq<char>>, k: int) -> bool {
    &&& 0 <= k < raws.len()
    &&& split_once(raws[k], ':') is None
    &&& forall|j: int| 0 <= j < k ==> split_once(#[trigger] raws[j], ':') is Some
}

proof fn lemma_header_map_fails_after(raws: Seq<Seq<char>>, k: int)
    requires
        0 <= k <= raws.len(),
        header_map(raws.take(k)) is None,
    ensures
        header_map(raws) is None,
    decreases raws.len() - k,
{
    if k < raws.len() {
        assert(raws.take(k + 1).drop_last() =~= raws.take(k));
        lemma_header_map_fails_after(raws, k + 1);
    } else {
        assert(raws.take(k) =~= raws);
    }
}

/// Reads `key: value` header lines; the first line without `:` is an error
/// naming it.
pub fn parse_header_lines(raws: &Vec<String>) -> (r: Result<StrMap, LokiDmError>)
    ensures
        match r {
            Ok(m) => header_map(strs_view(raws@)) == Some(m@),
            Err(e) => header_map(strs_view(raws@)) is None && exists|k: int|
                first_bad_header(strs_view(raws@), k) && (e matches LokiDmError::Message(msg) && msg@
                    == "invalid header format: "@ + strs_view(raws@)[k]),
        },
{
    let ghost rs = strs_view(raws@);
    let mut m = StrMap::new();
    let mut i: usize = 0;
    assert(rs.take(0) =~= Seq::<Seq<char>>::empty());
    while i < raws.len()
        invariant
            i <= raws@.len(),
            rs == strs_view(raws@),
            header_map(rs.take(i as int)) == Some(m@),
            forall|j: int| 0 <= j < i ==> split_once(#[trigger] rs[j], ':') is Some,
        decreases raws.len() - i,
    {
        assert(rs.take(i as int + 1).drop_last() =~= rs.take(i as int));
        assert(rs.take(i as int + 1).last() == raws@[i as int]@);
        let cs = chars_of(raws[i].as_str());
        match split_once_chars(cs.as_slice(), ':') {
            Some((k, v)) => {
                let key = string_of(trim_chars(k.as_slice()).as_slice());
                let value = string_of(trim_chars(v.as_slice()).as_slice());
                m.insert(key, value);
            },
            None => {
                let mut msg = "invalid header format: ".to_owned();
                msg.append(raws[i].as_str());
                proof {
                    lemma_header_map_fails_after(rs, i as int + 1);
                }
                assert(first_bad_header(rs, i as int));
                return Err(LokiDmError::Message(msg));
            },
        }
        i = i + 1;
    }
    assert(rs.take(rs.len() as int) =~= rs);
    Ok(m)
}

/// Some header is named `cookie`, ignoring ASCII case.
pub open spec fn has_cookie_header(es: Seq<(Seq<char>, Seq<char>)>) -> bool {
    exists|i: int| 0 <= i < es.len() && eq_ignore_case(#[trigger] es[i].0, "cookie"@)
}

/// Whether the headers already carry cookies.
pub fn cookie_header_present(headers: &StrMap) -> (b: bool)
    ensures
        b == has_cookie_header(headers.entries_spec()),
{
    let ghost es = headers.entries_spec();
    let n = headers.len();
    let cookie = chars_of("cookie");
    let mut i: usize = 0;
    while i < n
        invariant
            n == es.len(),
            es == headers.entries_spec(),
            i <= n,
            cookie@ == "cookie"@,
            forall|j: int| 0 <= j < i ==> !eq_ignore_case(#[trigger] es[j].0, "cookie"@),
        decreases n - i,
    {
        let (k, _) = headers.entry(i);
        let kc = chars_of(k.as_str());
        if eq_ignore_case_chars(kc.as_slice(), cookie.as_slice()) {
            assert(eq_ignore_case(es[i as int].0, "cookie"@));
            return true;
        }
        i = i + 1;
    }
    false
}

/// The proxy kind a name denotes (`http`, `https`, `socks5` or `socks`),
/// ignoring ASCII case.
pub open spec fn proxy_kind_named(lower_name: Seq<char>) -> Option<ProxyKind> {
    if lower_name == "http"@ {
        Some(ProxyKind::Http)
    } else if lower_name == "https"@ {
        Some(ProxyKind::Https)
    } else if lower_name == "socks5"@ || lower_name == "socks"@ {
        Some(ProxyKind::Socks5)
    } else {
        None
    }
}

/// The proxy the options name, or the message refusing them: kind, host and
/// port must all be given and the kind must be known; without all three, the
/// proxy of the settings when it is enabled.
pub open spec fn options_proxy(options: DownloadOptions, settings: AppSettings) -> Result<Option<ProxyConfig>, Seq<char>> {
    match (options.proxy_kind, options.proxy_host, options.proxy_port) {
        (Some(kind), Some(host), Some(port)) => match proxy_kind_named(lower_seq(kind@)) {
            Some(k) => Ok(
                Some(
                    ProxyConfig {
                        kind: k,
                        host,
                        port,
                        username: options.proxy_username,
                        password: options.proxy_password,
                    },
                ),
            ),
            None => Err("unsupported proxy kind: "@ + lower_seq(kind@)),
        },
        _ => Ok(
            if settings.proxy.enabled {
                settings.proxy.proxy
            } else {
                None
            },
        ),
    }
}

/// The proxy of a download (see `options_proxy`).
pub fn proxy_from_options(options: &DownloadOptions, settings: &AppSettings) -> (r: Result<Option<ProxyConfig>, LokiDmError>)
    ensures
        match options_proxy(*options, *settings) {
            Ok(p) => r == Ok::<Option<ProxyConfig>, LokiDmError>(p),
            Err(m) => r matches Err(LokiDmError::Message(x)) && x@ == m,
        },
{
    match (&options.proxy_kind, &options.proxy_host, options.proxy_port) {
        (Some(kind), Some(host), Some(port)) => {
            let l = lower_chars(chars_of(kind.as_str()).as_slice());
            let ls = l.as_slice();
            let k = if crate::text::chars_eq(ls, chars_of("http").as_slice()) {
                ProxyKind::Http
            } else if crate::text::chars_eq(ls, chars_of("https").as_slice()) {
                ProxyKind::Https
            } else if crate::text::chars_eq(ls, chars_of("socks5").as_slice())
                || crate::text::chars_eq(ls, chars_of("socks").as_slice()) {
                ProxyKind::Socks5
            } else {
                let mut m = "unsupported proxy kind: ".to_owned();
                let name = string_of(ls);
                m.append(name.as_str());
                return Err(LokiDmError::Message(m));
            };
            Ok(
                Some(
                    ProxyConfig {
                        kind: k,
                        host: host.clone(),
                        port,
                        username: crate::config::clone_opt_string(&options.proxy_username),
                        password: crate::config::clone_opt_string(&options.proxy_password),
                    },
                ),
            )
        },
        _ => {
            if settings.proxy.enabled {
                Ok(
                    match &settings.proxy.proxy {
                        Some(p) => Some(p.clone()),
                        None => None,
                    },
                )
            } else {
                Ok(None)
            }
        },
    }
}

/// The authentication the options ask for: NTLM, then Kerberos, then basic
/// with both user and password, then a bearer token.
pub open spec fn auth_of(options: DownloadOptions) -> Option<AuthConfig> {
    if options.use_ntlm {
        Some(AuthConfig::Ntlm)
    } else if options.use_kerberos {
        Some(AuthConfig::Kerberos)
    } else if options.basic_user is Some && options.basic_password is Some {
        Some(
            AuthConfig::Basic {
                username: options.basic_user->0,
                password: options.basic_password->0,
            },
        )
    } else {
        match options.bearer_token {
            Some(t) => Some(AuthConfig::Bearer { token: t }),
            None => None,
        }
    }
}

/// The authentication the options ask for (see `auth_of`).
pub fn auth_from_options(options: &DownloadOptions) -> (a: Option<AuthConfig>)
    ensures
        a == auth_of(*options),
{
    if options.use_ntlm {
        Some(AuthConfig::Ntlm)
    } else if options.use_kerberos {
        Some(AuthConfig::Kerberos)
    } else {
        match (&options.basic_user, &options.basic_password) {
            (Some(u), Some(p)) => Some(AuthConfig::Basic { username: u.clone(), password: p.clone() }),
            _ => match &options.bearer_token {
                Some(t) => Some(AuthConfig::Bearer { token: t.clone() }),
                None => None,
            },
        }
    }
}

/// The category a download is filed under: the one the options name
/// (trimmed, when not blank), else the one the default rules give its URL.
pub open spec fn inferred_category(url: Seq<char>, category: Option<String>, name: Seq<char>) -> bool {
    match category {
        Some(c) => if trim(c@).len() > 0 {
            name == trim(c@)
        } else {
            exists|rules: Seq<CategoryRule>| is_default_rules(rules) && name == category_name(classify_with(url, rules))
        },
        None => exists|rules: Seq<CategoryRule>| is_default_rules(rules) && name == category_name(classify_with(url, rules)),
    }
}

/// The category name for a download (see `inferred_category`).
pub fn infer_category(url: &str, category: &Option<String>) -> (name: String)
    ensures
        inferred_category(url@, *category, name@),
{
    if let Some(c) = category {
        let t = crate::text::trim_str(c.as_str());
        if !t.as_str().is_empty() {
            return t;
        }
    }
    let rules = default_category_rules();
    let cat = classify_url(url, rules.as_slice());
    cat.as_str().to_owned()
}


/// Text of the error for the first header line without `:`.
pub open spec fn header_error_text(raws: Seq<Seq<char>>) -> Seq<char> {
    "invalid header format: "@ + raws[choose|k: int| first_bad_header(raws, k)]
}

/// `k` is the first inline cookie that is not `name=value`.
pub open spec fn first_bad_cookie(raws: Seq<Seq<char>>, k: int) -> bool {
    &&& 0 <= k < raws.len()
    &&& cookie_pair(raws[k]) is None
    &&& forall|j: int| 0 <= j < k ==> cookie_pair(#[trigger] raws[j]) is Some
}

/// Text of the error for the first inline cookie that is not `name=value`.
pub open spec fn cookie_error_text(raws: Seq<Seq<char>>) -> Seq<char> {
    invalid_cookie_text(raws[choose|k: int| first_bad_cookie(raws, k)])
}

/// Some header of the map is named `cookie`, ignoring ASCII case.
pub open spec fn names_cookie(h: Map<Seq<char>, Seq<char>>) -> bool {
    exists|k: Seq<char>| h.contains_key(k) && eq_ignore_case(k, "cookie"@)
}

/// The headers a download is configured with, or the message refusing the
/// options: the `--header` lines, and unless one of them already carries
/// cookies, a `Cookie` header made of the cookie file's cookies overridden
/// by the inline ones (none when there are no cookies at all).
/// `cookie_file` is what reading the cookie file gave, when one is named.
pub open spec fn configured_headers(
    options: DownloadOptions,
    cookie_file: Option<Result<StrMap, String>>,
) -> Result<Map<Seq<char>, Seq<char>>, Seq<char>> {
    let raws = strs_view(options.header@);
    match header_map(raws) {
        None => Err(header_error_text(raws)),
        Some(h) => if names_cookie(h) {
            Ok(h)
        } else {
            match cookie_file {
                Some(Err(msg)) => Err(msg@),
                _ => {
                    let base = match cookie_file {
                        Some(Ok(m)) => m@,
                        _ => Map::empty(),
                    };
                    let inline = strs_view(options.cookie@);
                    match with_inline_cookies(base, inline) {
                        None => Err(cookie_error_text(inline)),
                        Some(c) => if c == Map::<Seq<char>, Seq<char>>::empty() {
                            Ok(h)
                        } else {
                            Ok(h.insert("Cookie"@, cookie_header_text(sorted_entries(c))))
                        },
                    }
                },
            }
        },
    }
}

/// `c` is the configuration for `url` that the options and settings give,
/// with the given headers and proxy.
pub open spec fn configured(
    url: Seq<char>,
    options: DownloadOptions,
    settings: AppSettings,
    headers: Map<Seq<char>, Seq<char>>,
    proxy: Option<ProxyConfig>,
    c: DownloadConfig,
) -> bool {
    &&& c.url@ == url
    &&& c.mirror_urls@ == options.mirror@
    &&& c.category matches Some(cat) && inferred_category(url, options.category, cat@) && c.output_path@
        == match options.output {
        Some(o) => o@,
        None => path_joined(category_dir_for(settings, Some(cat@)), default_filename_of(url)),
    }
    &&& c.initial_connections == options.connections
    &&& c.min_connections == options.min_connections
    &&& c.max_connections == options.max_connections
    &&& c.min_segment_size == settings.connection.min_segment_size
    &&& c.max_retries == settings.advanced.retry_count
    &&& c.speed_limit_bps == match options.speed_limit_bps {
        Some(v) => Some(v),
        None => settings.connection.default_download_speed_limit_bps,
    }
    &&& c.hour_quota_mb == match options.hour_quota_mb {
        Some(v) => Some(v),
        None => settings.connection.default_hour_quota_mb,
    }
    &&& c.overwrite == options.overwrite
    &&& c.headers@ == headers
    &&& c.proxy == proxy
    &&& c.auth == auth_of(options)
    &&& c.user_agent == options.user_agent
    &&& c.av_hook_command == match options.av_hook {
        Some(v) => Some(v),
        None => settings.advanced.av_hook_command,
    }
}

/// The download configuration for `url` that the options and settings give.
/// `cookie_file` is what reading the cookie file of the options gave (its
/// cookies, or the message of the failure), when the options name one; it is
/// consulted only when no header carries cookies. The first error wins:
/// a bad header line, then the cookie file, then a bad inline cookie, then an
/// unknown proxy kind.
pub fn build_download_config(
    url: &str,
    options: &DownloadOptions,
    settings: &AppSettings,
    cookie_file: Option<Result<StrMap, String>>,
) -> (r: Result<DownloadConfig, LokiDmError>)
    ensures
        match configured_headers(*options, cookie_file) {
            Err(m) => r matches Err(LokiDmError::Message(x)) && x@ == m,
            Ok(h) => match options_proxy(*options, *settings) {
                Err(m) => r matches Err(LokiDmError::Message(x)) && x@ == m,
                Ok(p) => r matches Ok(c) && configured(url@, *options, *settings, h, p, c),
            },
        },
{
    let ghost raws = strs_view(options.header@);
    let mut headers = match parse_header_lines(&options.header) {
        Ok(h) => h,
        Err(e) => {
            proof {
                let k = choose|k: int| first_bad_header(raws, k);
                let k2 = choose|k: int| first_bad_header(raws, k) && (e matches LokiDmError::Message(msg)
                    && msg@ == "invalid header format: "@ + raws[k]);
                if k < k2 {
                    assert(split_once(raws[k], ':') is Some);
                } else if k2 < k {
                    assert(split_once(raws[k2], ':') is Some);
                }
            }
            return Err(e);
        },
    };
    let ghost h0 = headers@;
    let _ = headers.len();
    let present = cookie_header_present(&headers);
    proof {
        let es = headers.entries_spec();
        if present {
            let i = choose|i: int| 0 <= i < es.len() && eq_ignore_case(#[trigger] es[i].0, "cookie"@);
            lemma_as_map_at(es, i);
            assert(h0.contains_key(es[i].0));
        } else {
            if names_cookie(h0) {
                let k = choose|k: Seq<char>| h0.contains_key(k) && eq_ignore_case(k, "cookie"@);
                assert(crate::strmap::has_key(es, k));
                let i = choose|i: int| 0 <= i < es.len() && #[trigger] es[i].0 == k;
                assert(eq_ignore_case(es[i].0, "cookie"@));
            }
        }
        assert(present == names_cookie(h0));
    }
    if !present {
        let file = match cookie_file {
            Some(Err(msg)) => {
                return Err(LokiDmError::Message(msg));
            },
            Some(Ok(m)) => Some(m),
            None => None,
        };
        let ghost inline = strs_view(options.cookie@);
        let cookies = match merge_cookie_sources(options.cookie.as_slice(), file) {
            Ok(c) => c,
            Err(e) => {
                proof {
                    let k = choose|k: int| first_bad_cookie(inline, k);
                    let k2 = choose|k: int|
                        0 <= k < inline.len() && cookie_pair(inline[k]) is None && (forall|j: int|
                            0 <= j < k ==> cookie_pair(#[trigger] inline[j]) is Some) && (e matches LokiDmError::Message(
                            msg,
                        ) && msg@ == invalid_cookie_text(inline[k]));
                    assert(first_bad_cookie(inline, k2));
                    if k < k2 {
                        assert(cookie_pair(inline[k]) is Some);
                    } else if k2 < k {
                        assert(cookie_pair(inline[k2]) is Some);
                    }
                }
                return Err(e);
            },
        };
        let _ = cookies.len();
        proof {
            lemma_sorted_entries(cookies.entries_spec());
        }
        match render_cookie_header(&cookies) {
            Some(text) => {
                headers.insert("Cookie".to_owned(), text);
            },
            None => {},
        }
    }
    let category = infer_category(url, &options.category);
    let output = match &options.output {
        Some(o) => o.clone(),
        None => {
            let dir = settings.category_output_dir(Some(category.as_str()));
            let name = default_filename(url);
            join_path(dir.as_str(), name.as_str())
        },
    };
    let proxy = match proxy_from_options(options, settings) {
        Ok(p) => p,
        Err(e) => {
            return Err(e);
        },
    };
    let auth = auth_from_options(options);
    let speed_limit_bps = match options.speed_limit_bps {
        Some(v) => Some(v),
        None => settings.connection.default_download_speed_limit_bps,
    };
    let hour_quota_mb = match options.hour_quota_mb {
        Some(v) => Some(v),
        None => settings.connection.default_hour_quota_mb,
    };
    let av_hook_command = match &options.av_hook {
        Some(v) => Some(v.clone()),
        None => crate::config::clone_opt_string(&settings.advanced.av_hook_command),
    };
    Ok(
        DownloadConfig {
            url: url.to_owned(),
            mirror_urls: crate::config::clone_strings(&options.mirror),
            output_path: output,
            initial_connections: options.connections,
            min_connections: options.min_connections,
            max_connections: options.max_connections,
            min_segment_size: settings.connection.min_segment_size,
            max_retries: settings.advanced.retry_count,
            speed_limit_bps,
            hour_quota_mb,
            overwrite: options.overwrite,
            headers,
            proxy,
            auth,
            user_agent: crate::config::clone_opt_string(&options.user_agent),
            category: Some(category),
            av_hook_command,
        },
    )
}


/// The message refusing a priority name that is not known.
pub open spec fn priority_error_text(raw: Seq<char>) -> Seq<char> {
    "invalid priority `"@ + raw + "` (expected one of: low, normal, high, critical)"@
}

/// Reads a priority name given on the command line.
pub fn parse_queue_priority(raw: &str) -> (r: Result<QueuePriority, LokiDmError>)
    ensures
        match priority_named(raw@) {
            Some(p) => r == Ok::<QueuePriority, LokiDmError>(p),
            None => r matches Err(LokiDmError::Message(m)) && m@ == priority_error_text(raw@),
        },
{
    match QueuePriority::parse(raw) {
        Some(p) => Ok(p),
        None => {
            let mut m = "invalid priority `".to_owned();
            m.append(raw);
            m.append("` (expected one of: low, normal, high, critical)");
            Err(LokiDmError::Message(m))
        },
    }
}

/// `after` and `r` are what adding `config` to `before` gives, refusing an
/// unfinished duplicate of its URL when `prevent` is set.
pub open spec fn dedup_added(
    before: QueueState,
    after: QueueState,
    config: DownloadConfig,
    priority: QueuePriority,
    prevent: bool,
    r: QueueAddOutcome,
) -> bool {
    if prevent && has_duplicate(before.items@, config.url@) {
        &&& after == before
        &&& exists|i: int|
            first_duplicate(before.items@, config.url@, i) && r == (QueueAddOutcome::Duplicate {
                existing_id: before.items@[i].id,
            })
    } else {
        &&& r == (QueueAddOutcome::Added { id: before.next_id })
        &&& enqueued(before, after, config, priority, before.next_id)
    }
}

/// Adds one download from the command line to the queue: its configuration
/// is built as `build_download_config` does, then the priority is read;
/// duplicates are refused when the settings ask for it and the command does
/// not allow them.
pub fn queue_add_command(
    queue: &mut QueueState,
    url: &str,
    options: &DownloadOptions,
    settings: &AppSettings,
    cookie_file: Option<Result<StrMap, String>>,
    priority: &str,
    allow_duplicates: bool,
) -> (r: Result<QueueAddOutcome, LokiDmError>)
    ensures
        match configured_headers(*options, cookie_file) {
            Err(m) => *final(queue) == *old(queue) && (r matches Err(LokiDmError::Message(x)) && x@ == m),
            Ok(h) => match options_proxy(*options, *settings) {
                Err(m) => *final(queue) == *old(queue) && (r matches Err(LokiDmError::Message(x))
                    && x@ == m),
                Ok(p) => match priority_named(priority@) {
                    None => *final(queue) == *old(queue) && (r matches Err(LokiDmError::Message(x))
                        && x@ == priority_error_text(priority@)),
                    Some(pr) => r matches Ok(o) && exists|c: DownloadConfig|
                        configured(url@, *options, *settings, h, p, c) && dedup_added(
                            *old(queue),
                            *final(queue),
                            c,
                            pr,
                            settings.advanced.prevent_duplicate_queue_entries && !allow_duplicates,
                            o,
                        ),
                },
            },
        },
{
    let cfg = match build_download_config(url, options, settings, cookie_file) {
        Ok(c) => c,
        Err(e) => {
            return Err(e);
        },
    };
    let pr = match parse_queue_priority(priority) {
        Ok(p) => p,
        Err(e) => {
            return Err(e);
        },
    };
    let prevent = settings.advanced.prevent_duplicate_queue_entries && !allow_duplicates;
    let ghost c = cfg;
    let o = queue.add_download_dedup(cfg, pr, prevent);
    assert(dedup_added(*old(queue), *queue, c, pr, prevent, o));
    Ok(o)
}

/// `c` is the configuration a URL read from a text file is queued with: no
/// headers, mirrors, authentication or user agent; the connection limits,
/// retries, speed limit, quota, proxy and scan hook of the settings; the
/// given initial connections; saved under its file name in `output_dir`, or
/// else in the directory of the category the rules give it.
pub open spec fn text_item_config(
    url: Seq<char>,
    output_dir: Option<String>,
    connections: u16,
    settings: AppSettings,
    rules: Seq<CategoryRule>,
    c: DownloadConfig,
) -> bool {
    let cat = category_name(classify_with(url, rules));
    &&& c.url@ == url
    &&& c.mirror_urls@.len() == 0
    &&& c.output_path@ == path_joined(
        match output_dir {
            Some(d) => d@,
            None => category_dir_for(settings, Some(cat)),
        },
        default_filename_of(url),
    )
    &&& c.initial_connections == connections
    &&& c.min_connections == settings.connection.min_connections
    &&& c.max_connections == settings.connection.max_connections
    &&& c.min_segment_size == settings.connection.min_segment_size
    &&& c.max_retries == settings.advanced.retry_count
    &&& c.speed_limit_bps == settings.connection.default_download_speed_limit_bps
    &&& c.hour_quota_mb == settings.connection.default_hour_quota_mb
    &&& !c.overwrite
    &&& c.headers@ == Map::<Seq<char>, Seq<char>>::empty()
    &&& c.proxy == (if settings.proxy.enabled {
        settings.proxy.proxy
    } else {
        None
    })
    &&& c.auth is None
    &&& c.user_agent is None
    &&& c.category matches Some(n) && n@ == cat
    &&& c.av_hook_command == settings.advanced.av_hook_command
}

/// The configuration a URL read from a text file is queued with (see
/// `text_item_config`).
pub fn text_item(
    url: &str,
    output_dir: &Option<String>,
    connections: u16,
    settings: &AppSettings,
    rules: &[CategoryRule],
) -> (c: DownloadConfig)
    ensures
        text_item_config(url@, *output_dir, connections, *settings, rules@, c),
{
    let category = classify_url(url, rules);
    let name = category.as_str().to_owned();
    let root = match output_dir {
        Some(d) => d.clone(),
        None => settings.category_output_dir(Some(name.as_str())),
    };
    let file = default_filename(url);
    let output_path = join_path(root.as_str(), file.as_str());
    let headers = StrMap::new();
    let proxy = if settings.proxy.enabled {
        match &settings.proxy.proxy {
            Some(p) => Some(p.clone()),
            None => None,
        }
    } else {
        None
    };
    DownloadConfig {
        url: url.to_owned(),
        mirror_urls: Vec::new(),
        output_path,
        initial_connections: connections,
        min_connections: settings.connection.min_connections,
        max_connections: settings.connection.max_connections,
        min_segment_size: settings.connection.min_segment_size,
        max_retries: settings.advanced.retry_count,
        speed_limit_bps: settings.connection.default_download_speed_limit_bps,
        hour_quota_mb: settings.connection.default_hour_quota_mb,
        overwrite: false,
        headers,
        proxy,
        auth: None,
        user_agent: None,
        category: Some(name),
        av_hook_command: crate::config::clone_opt_string(&settings.advanced.av_hook_command),
    }
}

/// Queuing `url` from a text file took the queue from `before` to `after`
/// with outcome `outcome`.
pub open spec fn text_step(
    before: QueueState,
    after: QueueState,
    url: Seq<char>,
    output_dir: Option<String>,
    connections: u16,
    settings: AppSettings,
    priority: QueuePriority,
    prevent: bool,
    outcome: QueueAddOutcome,
) -> bool {
    exists|c: DownloadConfig|
        #[trigger] text_item_config(url, output_dir, connections, settings, before.rules@, c)
            && dedup_added(before, after, c, priority, prevent, outcome)
}

/// `states` runs from the queue before to the queue after adding each URL
/// of `urls` in turn, as a text file's URLs are queued, with outcomes
/// `outcomes`.
pub open spec fn text_adds(
    states: Seq<QueueState>,
    urls: Seq<Seq<char>>,
    output_dir: Option<String>,
    connections: u16,
    settings: AppSettings,
    priority: QueuePriority,
    prevent: bool,
    outcomes: Seq<QueueAddOutcome>,
) -> bool {
    &&& states.len() == urls.len() + 1
    &&& outcomes.len() == urls.len()
    &&& forall|k: int|
        0 <= k < urls.len() ==> text_step(
            #[trigger] states[k],
            states[k + 1],
            urls[k],
            output_dir,
            connections,
            settings,
            priority,
            prevent,
            outcomes[k],
        )
}

/// Queues each URL of a text (one per line, see `urls_from_text`), in order,
/// and returns what became of each.
pub fn queue_text_urls(
    queue: &mut QueueState,
    text: &str,
    output_dir: &Option<String>,
    connections: u16,
    settings: &AppSettings,
    priority: QueuePriority,
    prevent_duplicates: bool,
) -> (outcomes: Vec<QueueAddOutcome>)
    ensures
        exists|states: Seq<QueueState>|
            #![trigger states.len()]
            states[0] == *old(queue) && states.last() == *final(queue) && text_adds(
                states,
                url_lines(text@),
                *output_dir,
                connections,
                *settings,
                priority,
                prevent_duplicates,
                outcomes@,
            ),
{
    let urls = urls_from_text(text);
    let ghost lines = url_lines(text@);
    let mut outcomes: Vec<QueueAddOutcome> = Vec::new();
    let ghost mut states: Seq<QueueState> = seq![*queue];
    let mut i: usize = 0;
    while i < urls.len()
        invariant
            i <= urls@.len(),
            strs_view(urls@) == lines,
            lines.len() == urls@.len(),
            states.len() == i + 1,
            states[0] == *old(queue),
            states[i as int] == *queue,
            text_adds(states, lines.take(i as int), *output_dir, connections, *settings, priority, prevent_duplicates, outcomes@),
        decreases urls.len() - i,
    {
        let cfg = text_item(urls[i].as_str(), output_dir, connections, settings, queue.rules.as_slice());
        let ghost c = cfg;
        let ghost before = *queue;
        let o = queue.add_download_dedup(cfg, priority, prevent_duplicates);
        proof {
            assert(dedup_added(before, *queue, c, priority, prevent_duplicates, o));
            let old_states = states;
            states = states.push(*queue);
            assert(lines[i as int] == urls@[i as int]@);
            assert forall|k: int| 0 <= k < i + 1 implies text_step(
                #[trigger] states[k],
                states[k + 1],
                lines.take(i as int + 1)[k],
                *output_dir,
                connections,
                *settings,
                priority,
                prevent_duplicates,
                outcomes@.push(o)[k],
            ) by {
                if k < i {
                    assert(states[k] == old_states[k] && states[k + 1] == old_states[k + 1]);
                    assert(lines.take(i as int + 1)[k] == lines.take(i as int)[k]);
                    assert(outcomes@.push(o)[k] == outcomes@[k]);
                } else {
                    assert(states[k] == before && states[k + 1] == *queue);
                    assert(text_item_config(lines.take(i as int + 1)[k], *output_dir, connections, *settings, states[k].rules@, c));
                }
            }
            assert(text_adds(states, lines.take(i as int + 1), *output_dir, connections, *settings, priority, prevent_duplicates, outcomes@.push(o)));
        }
        outcomes.push(o);
        i = i + 1;
    }
    assert(lines.take(lines.len() as int) =~= lines);
    outcomes
}

/// The ids of the downloads that were added, in order.
pub open spec fn added_ids(outcomes: Seq<QueueAddOutcome>) -> Seq<u64>
    decreases outcomes.len(),
{
    if outcomes.len() == 0 {
        Seq::empty()
    } else {
        match outcomes.last() {
            QueueAddOutcome::Added { id } => added_ids(outcomes.drop_last()).push(id),
            QueueAddOutcome::Duplicate { .. } => added_ids(outcomes.drop_last()),
        }
    }
}

/// How many adds were refused as duplicates.
pub open spec fn duplicate_count(outcomes: Seq<QueueAddOutcome>) -> nat
    decreases outcomes.len(),
{
    if outcomes.len() == 0 {
        0
    } else {
        duplicate_count(outcomes.drop_last()) + match outcomes.last() {
            QueueAddOutcome::Added { .. } => 0nat,
            QueueAddOutcome::Duplicate { .. } => 1nat,
        }
    }
}

/// The ids that were added and the number of duplicates skipped.
pub fn summarize_adds(outcomes: &Vec<QueueAddOutcome>) -> (r: (Vec<u64>, usize))
    ensures
        r.0@ == added_ids(outcomes@),
        r.1 == duplicate_count(outcomes@),
{
    let mut ids: Vec<u64> = Vec::new();
    let mut dups: usize = 0;
    let mut i: usize = 0;
    while i < outcomes.len()
        invariant
            i <= outcomes@.len(),
            ids@ == added_ids(outcomes@.take(i as int)),
            dups == duplicate_count(outcomes@.take(i as int)),
            dups <= i,
        decreases outcomes.len() - i,
    {
        assert(outcomes@.take(i as int + 1).drop_last() =~= outcomes@.take(i as int));
        match outcomes[i] {
            QueueAddOutcome::Added { id } => ids.push(id),
            QueueAddOutcome::Duplicate { .. } => dups = dups + 1,
        }
        i = i + 1;
    }
    assert(outcomes@.take(outcomes@.len() as int) =~= outcomes@);
    (ids, dups)
}

/// The queue items a `run` command works through: the one named, or else
/// the pending items in the order they should start.
pub fn run_candidates(queue: &QueueState, id: Option<u64>) -> (ids: Vec<u64>)
    ensures
        match id {
            Some(x) => ids@ == seq![x],
            None => exists|order: Seq<usize>|
                is_pending_order(queue.items@, order) && ids@.len() == order.len() && forall|k: int|
                    0 <= k < order.len() ==> #[trigger] ids@[k] == queue.items@[order[k] as int].id,
        },
{
    match id {
        Some(x) => {
            let v = vec![x];
            assert(v@ =~= seq![x]);
            v
        },
        None => {
            let order = queue.pending_order();
            let mut ids: Vec<u64> = Vec::new();
            let mut k: usize = 0;
            while k < order.len()
                invariant
                    k <= order@.len(),
                    is_pending_order(queue.items@, order@),
                    ids@.len() == k,
                    forall|q: int| 0 <= q < k ==> #[trigger] ids@[q] == queue.items@[order@[q] as int].id,
                decreases order.len() - k,
            {
                assert(order@[k as int] < queue.items@.len());
                ids.push(queue.items[order[k]].id);
                k = k + 1;
            }
            ids
        },
    }
}


/// A copy of the configuration of the first queue item with id `id`.
pub fn queued_config(queue: &QueueState, id: u64) -> (c: Option<DownloadConfig>)
    ensures
        c is None <==> forall|j: int| 0 <= j < queue.items@.len() ==> (#[trigger] queue.items@[j]).id != id,
        c matches Some(cfg) ==> exists|i: int|
            crate::queue::first_with_id(queue.items@, id, i) && crate::config::same_config(cfg, queue.items@[i].config),
{
    let mut i: usize = 0;
    while i < queue.items.len()
        invariant
            i <= queue.items@.len(),
            forall|j: int| 0 <= j < i ==> (#[trigger] queue.items@[j]).id != id,
        decreases queue.items.len() - i,
    {
        if queue.items[i].id == id {
            let c = queue.items[i].config.clone();
            assert(crate::queue::first_with_id(queue.items@, id, i as int));
            return Some(c);
        }
        i = i + 1;
    }
    None
}

/// An extension as the spider compares it: trimmed, without leading dots,
/// in lower case.
pub open spec fn spider_ext(raw: Seq<char>) -> Seq<char> {
    lower_seq(strip_start_char(trim(raw), '.'))
}

/// `exts` are the extensions `raw` names, normalized (see `spider_ext`),
/// blanks dropped, without repeats, in code-point order.
pub open spec fn normalized_exts(raw: Seq<String>, exts: Seq<String>) -> bool {
    &&& forall|i: int, j: int|
        0 <= i < j < exts.len() ==> seq_order(#[trigger] exts[i]@, #[trigger] exts[j]@) < 0
    &&& forall|x: Seq<char>|
        (exists|i: int| 0 <= i < exts.len() && #[trigger] exts[i]@ == x) <==> (x.len() > 0
            && exists|j: int| 0 <= j < raw.len() && spider_ext(#[trigger] raw[j]@) == x)
}

/// The extensions a spider keeps links with, from those given on the
/// command line: each normalized (see `spider_ext`), blanks dropped, without
/// repeats, in code-point order.
pub fn spider_extensions(raw: &Vec<String>) -> (exts: Vec<String>)
    ensures
        normalized_exts(raw@, exts@),
{
    let mut set = StrMap::new();
    let mut i: usize = 0;
    while i < raw.len()
        invariant
            i <= raw@.len(),
            forall|x: Seq<char>|
                #[trigger] set@.contains_key(x) <==> (x.len() > 0 && exists|j: int|
                    0 <= j < i && spider_ext(#[trigger] raw@[j]@) == x),
        decreases raw.len() - i,
    {
        let t = trim_chars(chars_of(raw[i].as_str()).as_slice());
        let e = lower_chars(strip_start_char_chars(t.as_slice(), '.').as_slice());
        assert(e@ == spider_ext(raw@[i as int]@));
        let ghost before = set@;
        if e.len() > 0 {
            set.insert(string_of(e.as_slice()), String::new());
        }
        assert forall|x: Seq<char>|
            #[trigger] set@.contains_key(x) <==> (x.len() > 0 && exists|j: int|
                0 <= j < i + 1 && spider_ext(#[trigger] raw@[j]@) == x) by {
            if x.len() > 0 && spider_ext(raw@[i as int]@) != x {
                if exists|j: int| 0 <= j < i + 1 && spider_ext(#[trigger] raw@[j]@) == x {
                    let j = choose|j: int| 0 <= j < i + 1 && spider_ext(#[trigger] raw@[j]@) == x;
                    assert(j < i);
                }
            }
        }
        i = i + 1;
    }
    let n = set.len();
    let ghost es = set.entries_spec();
    let mut out: Vec<String> = Vec::new();
    let mut k: usize = 0;
    while k < n
        invariant
            k <= n,
            n == es.len(),
            es == set.entries_spec(),
            crate::strmap::keys_sorted(es),
            out@.len() == k,
            forall|q: int| 0 <= q < k ==> (#[trigger] out@[q])@ == es[q].0,
        decreases n - k,
    {
        let (key, _) = set.entry(k);
        out.push(key.clone());
        k = k + 1;
    }
    assert forall|x: Seq<char>|
        (exists|i: int| 0 <= i < out@.len() && #[trigger] out@[i]@ == x) <==> #[trigger] set@.contains_key(x) by {
        if exists|i: int| 0 <= i < out@.len() && #[trigger] out@[i]@ == x {
            let i = choose|i: int| 0 <= i < out@.len() && #[trigger] out@[i]@ == x;
            assert(es[i].0 == x);
            assert(has_key(es, x));
        }
        if set@.contains_key(x) {
            assert(has_key(es, x));
            let i = choose|i: int| 0 <= i < es.len() && #[trigger] es[i].0 == x;
            assert(out@[i]@ == x);
        }
    }
    assert forall|i: int, j: int|
        0 <= i < j < out@.len() implies seq_order(#[trigger] out@[i]@, #[trigger] out@[j]@) < 0 by {
        assert(out@[i]@ == es[i].0 && out@[j]@ == es[j].0);
    }
    assert forall|x: Seq<char>|
        (exists|i: int| 0 <= i < out@.len() && #[trigger] out@[i]@ == x) <==> (x.len() > 0
            && exists|j: int| 0 <= j < raw@.len() && spider_ext(#[trigger] raw@[j]@) == x) by {
        assert(set@.contains_key(x) <==> (x.len() > 0 && exists|j: int|
            0 <= j < raw@.len() && spider_ext(#[trigger] raw@[j]@) == x));
    }
    out
}

/// `o` are the options of a download the program starts by itself (a
/// spider's or a scheduled one): those of the settings, with the given
/// output, initial connections and overwrite flag, and nothing else.
pub open spec fn settings_options(
    o: DownloadOptions,
    settings: AppSettings,
    output: Option<String>,
    connections: u16,
    overwrite: bool,
) -> bool {
    &&& o.output == output
    &&& o.connections == connections
    &&& o.max_connections == settings.connection.max_connections
    &&& o.min_connections == settings.connection.min_connections
    &&& o.speed_limit_bps == settings.connection.default_download_speed_limit_bps
    &&& o.overwrite == overwrite
    &&& o.hour_quota_mb == settings.connection.default_hour_quota_mb
    &&& o.user_agent is None
    &&& o.header@.len() == 0
    &&& o.cookie@.len() == 0
    &&& o.cookie_file is None
    &&& o.mirror@.len() == 0
    &&& o.av_hook == settings.advanced.av_hook_command
    &&& o.category is None
    &&& o.proxy_kind is None
    &&& o.proxy_host is None
    &&& o.proxy_port is None
    &&& o.proxy_username is None
    &&& o.proxy_password is None
    &&& o.basic_user is None
    &&& o.basic_password is None
    &&& o.bearer_token is None
    &&& !o.use_ntlm
    &&& !o.use_kerberos
}

/// The options of a download the program starts by itself (see
/// `settings_options`).
pub fn settings_download_options(
    settings: &AppSettings,
    output: Option<String>,
    connections: u16,
    overwrite: bool,
) -> (o: DownloadOptions)
    ensures
        settings_options(o, *settings, output, connections, overwrite),
{
    DownloadOptions {
        output,
        connections,
        max_connections: settings.connection.max_connections,
        min_connections: settings.connection.min_connections,
        speed_limit_bps: settings.connection.default_download_speed_limit_bps,
        overwrite,
        hour_quota_mb: settings.connection.default_hour_quota_mb,
        user_agent: None,
        header: Vec::new(),
        cookie: Vec::new(),
        cookie_file: None,
        mirror: Vec::new(),
        av_hook: crate::config::clone_opt_string(&settings.advanced.av_hook_command),
        category: None,
        proxy_kind: None,
        proxy_host: None,
        proxy_port: None,
        proxy_username: None,
        proxy_password: None,
        basic_user: None,
        basic_password: None,
        bearer_token: None,
        use_ntlm: false,
        use_kerberos: false,
    }
}

/// The options a spider downloads a link it found with: those of the
/// settings, saved under the link's file name in `output_dir` when one is
/// given, never overwriting.
pub fn spider_download_options(
    settings: &AppSettings,
    connections: u16,
    output_dir: &Option<String>,
    url: &str,
) -> (o: DownloadOptions)
    ensures
        settings_options(o, *settings, o.output, connections, false),
        match output_dir {
            Some(d) => o.output matches Some(p) && p@ == path_joined(d@, default_filename_of(url@)),
            None => o.output is None,
        },
{
    let output = match output_dir {
        Some(d) => {
            let name = default_filename(url);
            Some(join_path(d.as_str(), name.as_str()))
        },
        None => None,
    };
    settings_download_options(settings, output, connections, false)
}

/// The schedule of a job run once, `delay_secs` seconds after `now`.
pub fn once_schedule(now: i128, delay_secs: u64) -> (s: ScheduleSpec)
    requires
        valid_time(now + delay_secs * NANOS_PER_SEC),
    ensures
        s.start_at_nanos == now + delay_secs * NANOS_PER_SEC,
        s.interval_nanos is None,
        valid_spec(s),
{
    let start = now + (delay_secs as i128) * (NANOS_PER_SEC as i128);
    ScheduleSpec { start_at_nanos: start, interval_nanos: None }
}

/// The schedule of a job first run `start_in_secs` seconds after `now` and
/// then every `every_secs` seconds (at least every second).
pub fn recurring_schedule(now: i128, start_in_secs: u64, every_secs: u64) -> (s: ScheduleSpec)
    requires
        valid_time(now + start_in_secs * NANOS_PER_SEC),
    ensures
        s.start_at_nanos == now + start_in_secs * NANOS_PER_SEC,
        s.interval_nanos == Some(((if every_secs < 1 { 1 } else { every_secs }) * NANOS_PER_SEC) as u128),
        valid_spec(s),
{
    let start = now + (start_in_secs as i128) * (NANOS_PER_SEC as i128);
    let every: u64 = if every_secs < 1 { 1 } else { every_secs };
    assert(every * NANOS_PER_SEC <= MAX_DURATION_NANOS) by (nonlinear_arith)
        requires
            every <= u64::MAX,
            NANOS_PER_SEC == 1000000000,
            MAX_DURATION_NANOS == 18446744073709551615999999999u128,
    ;
    ScheduleSpec { start_at_nanos: start, interval_nanos: Some((every as u128) * NANOS_PER_SEC) }
}

/// Whether an update check failed because the endpoint has no releases:
/// the server answered 404, either as a status error or as an HTTP error
/// that carried that status (`http_status`, as the HTTP client reported it).
pub fn is_release_endpoint_missing(err: &LokiDmError, http_status: Option<u16>) -> (b: bool)
    ensures
        b == (*err == LokiDmError::HttpStatus(404) || (err is Http && http_status == Some(404u16))),
{
    match err {
        LokiDmError::Http(_) => match http_status {
            Some(code) => code == 404,
            None => false,
        },
        LokiDmError::HttpStatus(code) => *code == 404,
        _ => false,
    }
}

/// The first asset named `name`, or the message that none is.
pub fn find_asset_named(assets: &Vec<ReleaseAsset>, name: &str) -> (r: Result<ReleaseAsset, LokiDmError>)
    ensures
        match r {
            Ok(a) => exists|i: int|
                0 <= i < assets@.len() && a == assets@[i] && assets@[i].name@ == name@ && forall|j: int|
                    0 <= j < i ==> (#[trigger] assets@[j]).name@ != name@,
            Err(e) => (forall|j: int| 0 <= j < assets@.len() ==> (#[trigger] assets@[j]).name@ != name@)
                && (e matches LokiDmError::Message(m) && m@ == "asset not found: "@ + name@),
        },
{
    let n = chars_of(name);
    let mut i: usize = 0;
    while i < assets.len()
        invariant
            i <= assets@.len(),
            n@ == name@,
            forall|j: int| 0 <= j < i ==> (#[trigger] assets@[j]).name@ != name@,
        decreases assets.len() - i,
    {
        let an = chars_of(assets[i].name.as_str());
        if crate::text::chars_eq(an.as_slice(), n.as_slice()) {
            return Ok(assets[i].clone());
        }
        i = i + 1;
    }
    let mut m = "asset not found: ".to_owned();
    m.append(name);
    Err(LokiDmError::Message(m))
}

/// The asset an update installs: the one named, else the one for the
/// platform (`os`, `arch`), or the message saying there is none.
pub fn choose_update_asset(info: &UpdateInfo, asset_name: &Option<String>, os: &str, arch: &str) -> (r: Result<ReleaseAsset, LokiDmError>)
    ensures
        match asset_name {
            Some(name) => match r {
                Ok(a) => exists|i: int|
                    0 <= i < info.assets@.len() && a == info.assets@[i] && info.assets@[i].name@ == name@
                        && forall|j: int| 0 <= j < i ==> (#[trigger] info.assets@[j]).name@ != name@,
                Err(e) => (forall|j: int|
                    0 <= j < info.assets@.len() ==> (#[trigger] info.assets@[j]).name@ != name@) && (e matches LokiDmError::Message(m)
                    && m@ == "asset not found: "@ + name@),
            },
            None => match asset_choice(info.assets@, platform_terms(os@, arch@)) {
                Some(i) => r == Ok::<ReleaseAsset, LokiDmError>(info.assets@[i]),
                None => r matches Err(LokiDmError::Message(m)) && m@
                    == "no release asset available for current platform"@,
            },
        },
{
    match asset_name {
        Some(name) => find_asset_named(&info.assets, name.as_str()),
        None => match select_asset_for_platform(info, os, arch) {
            Some(a) => Ok(a),
            None => Err(LokiDmError::Message("no release asset available for current platform".to_owned())),
        },
    }
}

/// Where an update is downloaded to: the directory given, else
/// `updates/<latest version>` under the application's configuration
/// directory `config_dir`.
pub fn update_output_dir(output_dir: &Option<String>, config_dir: &str, latest_version: &str) -> (dir: String)
    ensures
        dir@ == match output_dir {
            Some(d) => d@,
            None => path_joined(path_joined(config_dir@, "updates"@), latest_version@),
        },
{
    match output_dir {
        Some(d) => d.clone(),
        None => {
            let u = join_path(config_dir, "updates");
            join_path(u.as_str(), latest_version)
        },
    }
}


/// `x` is one of the URLs a browser request names: one of its list, or its
/// single URL once trimmed, when that is not blank.
pub open spec fn native_url_in(request: NativeRequest, x: Seq<char>) -> bool {
    ||| exists|j: int| 0 <= j < request.urls@.len() && #[trigger] request.urls@[j]@ == x
    ||| request.url matches Some(u) && trim(u@).len() > 0 && x == trim(u@)
}

/// The URLs a browser request names, without repeats, in code-point order.
pub open spec fn native_url_list(request: NativeRequest) -> Seq<Seq<char>> {
    sorted_entries(
        Map::new(|x: Seq<char>| native_url_in(request, x), |x: Seq<char>| Seq::<char>::empty()),
    ).map_values(|e: (Seq<char>, Seq<char>)| e.0)
}

/// The URLs a browser request names (see `native_url_list`).
pub fn native_urls(request: &NativeRequest) -> (urls: Vec<String>)
    ensures
        strs_view(urls@) == native_url_list(*request),
{
    let mut set = StrMap::new();
    let mut i: usize = 0;
    while i < request.urls.len()
        invariant
            i <= request.urls@.len(),
            forall|x: Seq<char>|
                #[trigger] set@.contains_key(x) <==> exists|j: int|
                    0 <= j < i && #[trigger] request.urls@[j]@ == x,
            forall|x: Seq<char>| #[trigger] set@.contains_key(x) ==> set@[x] == Seq::<char>::empty(),
        decreases request.urls.len() - i,
    {
        set.insert(request.urls[i].clone(), String::new());
        assert forall|x: Seq<char>|
            #[trigger] set@.contains_key(x) <==> exists|j: int|
                0 <= j < i + 1 && #[trigger] request.urls@[j]@ == x by {
            if x != request.urls@[i as int]@ {
                if exists|j: int| 0 <= j < i + 1 && #[trigger] request.urls@[j]@ == x {
                    let j = choose|j: int| 0 <= j < i + 1 && #[trigger] request.urls@[j]@ == x;
                    assert(j < i);
                }
            }
        }
        i = i + 1;
    }
    match &request.url {
        Some(u) => {
            let t = trim_str(u.as_str());
            if !t.as_str().is_empty() {
                set.insert(t, String::new());
            }
        },
        None => {},
    }
    let ghost m = Map::new(|x: Seq<char>| native_url_in(*request, x), |x: Seq<char>| Seq::<char>::empty());
    assert forall|x: Seq<char>| #[trigger] set@.contains_key(x) <==> m.contains_key(x) by {}
    assert(set@ =~= m);
    let n = set.len();
    let ghost es = set.entries_spec();
    proof {
        lemma_sorted_entries(es);
    }
    let mut out: Vec<String> = Vec::new();
    let mut k: usize = 0;
    while k < n
        invariant
            k <= n,
            n == es.len(),
            es == set.entries_spec(),
            out@.len() == k,
            forall|q: int| 0 <= q < k ==> (#[trigger] out@[q])@ == es[q].0,
        decreases n - k,
    {
        let (key, _) = set.entry(k);
        out.push(key.clone());
        k = k + 1;
    }
    assert(strs_view(out@) =~= es.map_values(|e: (Seq<char>, Seq<char>)| e.0));
    out
}

/// What answering a browser request takes: a reply without any download,
/// the downloads to run now, or the downloads to queue with a priority.
pub enum NativePlan {
    Reply(NativeResponse),
    Download(Vec<DownloadConfig>),
    Enqueue(Vec<DownloadConfig>, QueuePriority),
}

/// The initial connections a browser request asks for: its own or the
/// settings', at least one.
pub open spec fn native_initial(request: NativeRequest, settings: AppSettings) -> u16 {
    let c = match request.connections {
        Some(c) => c,
        None => settings.connection.initial_connections,
    };
    if c < 1 {
        1
    } else {
        c
    }
}

/// The priority a browser request asks for; normal when it names none it
/// knows.
pub open spec fn native_priority(request: NativeRequest) -> QueuePriority {
    match request.priority {
        Some(p) => match priority_named(p@) {
            Some(q) => q,
            None => QueuePriority::Normal,
        },
        None => QueuePriority::Normal,
    }
}

/// `c` is the configuration a browser request gives `url`: the category
/// the default rules give it, saved at the request's output, else under
/// its file name in the request's (else the host's, else the category's)
/// directory; the connection limits widened to hold the initial count, the
/// request's speed limit, else the settings'.
pub open spec fn native_item_config(
    url: Seq<char>,
    request: NativeRequest,
    settings: AppSettings,
    host_output_dir: Option<String>,
    c: DownloadConfig,
) -> bool {
    let initial = native_initial(request, settings);
    let min0 = if settings.connection.min_connections < initial {
        settings.connection.min_connections
    } else {
        initial
    };
    let root = match request.output_dir {
        Some(d) => Some(d),
        None => host_output_dir,
    };
    &&& c.url@ == url
    &&& c.mirror_urls@.len() == 0
    &&& c.category matches Some(n) && (exists|rules: Seq<CategoryRule>|
        is_default_rules(rules) && n@ == category_name(classify_with(url, rules))) && c.output_path@
        == match request.output {
        Some(o) => o@,
        None => path_joined(
            match root {
                Some(d) => d@,
                None => category_dir_for(settings, Some(n@)),
            },
            default_filename_of(url),
        ),
    }
    &&& c.initial_connections == initial
    &&& c.min_connections == (if min0 < 1 { 1 } else { min0 })
    &&& c.max_connections == (if settings.connection.max_connections < initial {
        initial
    } else {
        settings.connection.max_connections
    })
    &&& c.min_segment_size == settings.connection.min_segment_size
    &&& c.max_retries == settings.advanced.retry_count
    &&& c.speed_limit_bps == match request.speed_limit_bps {
        Some(v) => Some(v),
        None => settings.connection.default_download_speed_limit_bps,
    }
    &&& c.hour_quota_mb == settings.connection.default_hour_quota_mb
    &&& !c.overwrite
    &&& c.headers@ == Map::<Seq<char>, Seq<char>>::empty()
    &&& c.proxy == (if settings.proxy.enabled {
        settings.proxy.proxy
    } else {
        None
    })
    &&& c.auth is None
    &&& c.user_agent is None
    &&& c.av_hook_command == settings.advanced.av_hook_command
}

/// `configs` are the configurations a browser request gives its URLs, in
/// order.
pub open spec fn native_configs(
    urls: Seq<Seq<char>>,
    request: NativeRequest,
    settings: AppSettings,
    host_output_dir: Option<String>,
    configs: Seq<DownloadConfig>,
) -> bool {
    &&& configs.len() == urls.len()
    &&& forall|k: int|
        0 <= k < urls.len() ==> native_item_config(
            urls[k],
            request,
            settings,
            host_output_dir,
            #[trigger] configs[k],
        )
}

/// `r` is a reply without downloads.
pub open spec fn plain_reply(r: NativeResponse, ok: bool, message: Seq<char>) -> bool {
    &&& r.ok == ok
    &&& r.message@ == message
    &&& r.output_path is None
    &&& r.queue_ids@.len() == 0
}

/// The configuration a browser request gives one URL (see
/// `native_item_config`).
fn native_item(
    url: &str,
    request: &NativeRequest,
    settings: &AppSettings,
    host_output_dir: &Option<String>,
    initial: u16,
    min_connections: u16,
    max_connections: u16,
) -> (c: DownloadConfig)
    requires
        initial == native_initial(*request, *settings),
        min_connections == ({
            let min0 = if settings.connection.min_connections < initial {
                settings.connection.min_connections
            } else {
                initial
            };
            if min0 < 1 { 1 } else { min0 }
        }),
        max_connections == (if settings.connection.max_connections < initial {
            initial
        } else {
            settings.connection.max_connections
        }),
    ensures
        native_item_config(url@, *request, *settings, *host_output_dir, c),
{
    let rules = default_category_rules();
    let category = classify_url(url, rules.as_slice());
    let name = category.as_str().to_owned();
    let output_path = match &request.output {
        Some(o) => o.clone(),
        None => {
            let root = match &request.output_dir {
                Some(d) => d.clone(),
                None => match host_output_dir {
                    Some(d) => d.clone(),
                    None => settings.category_output_dir(Some(name.as_str())),
                },
            };
            let file = default_filename(url);
            join_path(root.as_str(), file.as_str())
        },
    };
    let proxy = if settings.proxy.enabled {
        match &settings.proxy.proxy {
            Some(p) => Some(p.clone()),
            None => None,
        }
    } else {
        None
    };
    let speed_limit_bps = match request.speed_limit_bps {
        Some(v) => Some(v),
        None => settings.connection.default_download_speed_limit_bps,
    };
    DownloadConfig {
        url: url.to_owned(),
        mirror_urls: Vec::new(),
        output_path,
        initial_connections: initial,
        min_connections,
        max_connections,
        min_segment_size: settings.connection.min_segment_size,
        max_retries: settings.advanced.retry_count,
        speed_limit_bps,
        hour_quota_mb: settings.connection.default_hour_quota_mb,
        overwrite: false,
        headers: StrMap::new(),
        proxy,
        auth: None,
        user_agent: None,
        category: Some(name),
        av_hook_command: crate::config::clone_opt_string(&settings.advanced.av_hook_command),
    }
}

/// What answering a browser request takes. A ping is answered `pong`; a
/// request without URLs, or with an output path and several URLs, is
/// refused; otherwise its URLs (see `native_url_list`) are downloaded now
/// when the host starts downloads at once or the request asks for it, else
/// queued with the request's priority. `host_output_dir` is the output
/// directory the host was started with.
pub fn plan_native_request(
    request: &NativeRequest,
    settings: &AppSettings,
    host_output_dir: &Option<String>,
    start_immediately: bool,
) -> (plan: NativePlan)
    ensures
        ({
            let urls = native_url_list(*request);
            if request.action == NativeRequestAction::Ping {
                plan matches NativePlan::Reply(r) && plain_reply(r, true, "pong"@)
            } else if urls.len() == 0 {
                plan matches NativePlan::Reply(r) && plain_reply(
                    r,
                    false,
                    "native request must include at least one URL"@,
                )
            } else if request.output is Some && urls.len() > 1 {
                plan matches NativePlan::Reply(r) && plain_reply(
                    r,
                    false,
                    "native request cannot combine `output` with multiple URLs"@,
                )
            } else if start_immediately || request.action == NativeRequestAction::Download {
                plan matches NativePlan::Download(configs) && native_configs(
                    urls,
                    *request,
                    *settings,
                    *host_output_dir,
                    configs@,
                )
            } else {
                plan matches NativePlan::Enqueue(configs, p) && p == native_priority(*request)
                    && native_configs(urls, *request, *settings, *host_output_dir, configs@)
            }
        }),
{
    if matches!(request.action, NativeRequestAction::Ping) {
        return NativePlan::Reply(
            NativeResponse { ok: true, message: "pong".to_owned(), output_path: None, queue_ids: Vec::new() },
        );
    }
    let urls = native_urls(request);
    let ghost list = native_url_list(*request);
    if urls.len() == 0 {
        return NativePlan::Reply(
            NativeResponse {
                ok: false,
                message: "native request must include at least one URL".to_owned(),
                output_path: None,
                queue_ids: Vec::new(),
            },
        );
    }
    if request.output.is_some() && urls.len() > 1 {
        return NativePlan::Reply(
            NativeResponse {
                ok: false,
                message: "native request cannot combine `output` with multiple URLs".to_owned(),
                output_path: None,
                queue_ids: Vec::new(),
            },
        );
    }
    let requested = match request.connections {
        Some(c) => c,
        None => settings.connection.initial_connections,
    };
    let initial: u16 = if requested < 1 { 1 } else { requested };
    let min0 = if settings.connection.min_connections < initial {
        settings.connection.min_connections
    } else {
        initial
    };
    let min_connections: u16 = if min0 < 1 { 1 } else { min0 };
    let max_connections: u16 = if settings.connection.max_connections < initial {
        initial
    } else {
        settings.connection.max_connections
    };
    let mut configs: Vec<DownloadConfig> = Vec::new();
    let mut k: usize = 0;
    while k < urls.len()
        invariant
            k <= urls@.len(),
            strs_view(urls@) == list,
            list == native_url_list(*request),
            initial == native_initial(*request, *settings),
            min_connections == ({
                let min0 = if settings.connection.min_connections < initial {
                    settings.connection.min_connections
                } else {
                    initial
                };
                if min0 < 1 { 1 } else { min0 }
            }),
            max_connections == (if settings.connection.max_connections < initial {
                initial
            } else {
                settings.connection.max_connections
            }),
            native_configs(list.take(k as int), *request, *settings, *host_output_dir, configs@),
        decreases urls.len() - k,
    {
        let c = native_item(urls[k].as_str(), request, settings, host_output_dir, initial, min_connections, max_connections);
        proof {
            assert(list[k as int] == urls@[k as int]@);
        }
        configs.push(c);
        proof {
            assert forall|q: int| 0 <= q < k + 1 implies native_item_config(
                list.take(k as int + 1)[q],
                *request,
                *settings,
                *host_output_dir,
                #[trigger] configs@[q],
            ) by {
                if q < k {
                    assert(list.take(k as int + 1)[q] == list.take(k as int)[q]);
                }
            }
        }
        k = k + 1;
    }
    assert(list.take(list.len() as int) =~= list);
    if start_immediately || matches!(request.action, NativeRequestAction::Download) {
        NativePlan::Download(configs)
    } else {
        let priority = match &request.priority {
            Some(p) => match QueuePriority::parse(p.as_str()) {
                Some(q) => q,
                None => QueuePriority::Normal,
            },
            None => QueuePriority::Normal,
        };
        NativePlan::Enqueue(configs, priority)
    }
}

/// `states` runs from the queue before to the queue after adding each
/// configuration in turn, with outcomes `outcomes`.
pub open spec fn adds_chain(
    states: Seq<QueueState>,
    configs: Seq<DownloadConfig>,
    priority: QueuePriority,
    prevent: bool,
    outcomes: Seq<QueueAddOutcome>,
) -> bool {
    &&& states.len() == configs.len() + 1
    &&& outcomes.len() == configs.len()
    &&& forall|k: int|
        0 <= k < configs.len() ==> dedup_added(
            #[trigger] states[k],
            states[k + 1],
            configs[k],
            priority,
            prevent,
            outcomes[k],
        )
}

/// Adds each configuration in turn to the queue, refusing unfinished
/// duplicates when `prevent` is set, and returns what became of each.
#[verifier::rlimit(40)]
pub fn enqueue_all(
    queue: &mut QueueState,
    configs: Vec<DownloadConfig>,
    priority: QueuePriority,
    prevent: bool,
) -> (outcomes: Vec<QueueAddOutcome>)
    ensures
        exists|states: Seq<QueueState>|
            #![trigger states.len()]
            states[0] == *old(queue) && states.last() == *final(queue) && adds_chain(
                states,
                configs@,
                priority,
                prevent,
                outcomes@,
            ),
{
    let ghost all = configs@;
    let n = configs.len();
    let mut rest = configs;
    let mut outcomes: Vec<QueueAddOutcome> = Vec::new();
    let ghost mut states: Seq<QueueState> = seq![*queue];
    let mut i: usize = 0;
    while rest.len() > 0
        invariant
            i <= all.len(),
            all.len() == n,
            rest@ == all.skip(i as int),
            states.len() == i + 1,
            states[0] == *old(queue),
            states[i as int] == *queue,
            adds_chain(states, all.take(i as int), priority, prevent, outcomes@),
        decreases rest.len(),
    {
        let ghost before_rest = rest@;
        let c = rest.remove(0);
        assert(rest@ =~= all.skip(i as int + 1));
        assert(c == all[i as int]);
        let ghost before = *queue;
        let o = queue.add_download_dedup(c, priority, prevent);
        proof {
            let old_states = states;
            states = states.push(*queue);
            assert forall|k: int| 0 <= k < i + 1 implies dedup_added(
                #[trigger] states[k],
                states[k + 1],
                all.take(i as int + 1)[k],
                priority,
                prevent,
                outcomes@.push(o)[k],
            ) by {
                if k < i {
                    assert(states[k] == old_states[k] && states[k + 1] == old_states[k + 1]);
                    assert(all.take(i as int + 1)[k] == all.take(i as int)[k]);
                    assert(outcomes@.push(o)[k] == outcomes@[k]);
                } else {
                    assert(states[k] == before && states[k + 1] == *queue);
                }
            }
        }
        outcomes.push(o);
        i = i + 1;
    }
    assert(all.take(all.len() as int) =~= all);
    outcomes
}

/// The id each add reports: the new item's, or the one it duplicates.
pub open spec fn outcome_id(o: QueueAddOutcome) -> u64 {
    match o {
        QueueAddOutcome::Added { id } => id,
        QueueAddOutcome::Duplicate { existing_id } => existing_id,
    }
}

/// The message answering a request that was queued.
pub open spec fn queued_message(added: nat, path: Seq<char>, duplicates: nat, priority: QueuePriority) -> Seq<char> {
    "queued "@ + decimal(added) + " download(s) in "@ + path + " (duplicates: "@ + decimal(duplicates)
        + ", priority="@ + priority_name(priority) + ")"@
}

/// The answer to a browser request whose URLs were queued in the queue
/// file at `written_path`: the id each add reports, the number added and
/// refused as duplicates, the priority, and the first output path.
pub fn queued_response(
    outcomes: &Vec<QueueAddOutcome>,
    written_path: &str,
    priority: QueuePriority,
    first_output: Option<String>,
) -> (r: NativeResponse)
    ensures
        r.ok,
        r.message@ == queued_message(
            added_ids(outcomes@).len(),
            written_path@,
            duplicate_count(outcomes@),
            priority,
        ),
        r.output_path == first_output,
        r.queue_ids@ == outcomes@.map_values(|o: QueueAddOutcome| outcome_id(o)),
{
    let (added, dups) = summarize_adds(outcomes);
    let mut ids: Vec<u64> = Vec::new();
    let mut i: usize = 0;
    while i < outcomes.len()
        invariant
            i <= outcomes@.len(),
            ids@ == outcomes@.take(i as int).map_values(|o: QueueAddOutcome| outcome_id(o)),
        decreases outcomes.len() - i,
    {
        let id = match outcomes[i] {
            QueueAddOutcome::Added { id } => id,
            QueueAddOutcome::Duplicate { existing_id } => existing_id,
        };
        ids.push(id);
        assert(outcomes@.take(i as int + 1).map_values(|o: QueueAddOutcome| outcome_id(o)) =~= outcomes@.take(
            i as int,
        ).map_values(|o: QueueAddOutcome| outcome_id(o)).push(id));
        i = i + 1;
    }
    assert(outcomes@.take(outcomes@.len() as int) =~= outcomes@);
    proof {
        lemma_added_ids_len(outcomes@);
    }
    let mut m = "queued ".to_owned();
    m.append(decimal_string(added.len() as u64).as_str());
    m.append(" download(s) in ");
    m.append(written_path);
    m.append(" (duplicates: ");
    m.append(decimal_string(dups as u64).as_str());
    m.append(", priority=");
    m.append(priority.as_str());
    m.append(")");
    NativeResponse { ok: true, message: m, output_path: first_output, queue_ids: ids }
}

proof fn lemma_added_ids_len(outcomes: Seq<QueueAddOutcome>)
    ensures
        added_ids(outcomes).len() <= outcomes.len(),
        duplicate_count(outcomes) <= outcomes.len(),
    decreases outcomes.len(),
{
    if outcomes.len() > 0 {
        lemma_added_ids_len(outcomes.drop_last());
    }
}

/// The answer to a browser request whose downloads all completed, naming
/// the first one's output path.
pub fn completed_response(first_output: Option<String>) -> (r: NativeResponse)
    ensures
        r.ok,
        r.message@ == "download complete"@,
        r.output_path == first_output,
        r.queue_ids@.len() == 0,
{
    NativeResponse { ok: true, message: "download complete".to_owned(), output_path: first_output, queue_ids: Vec::new() }
}


/// The trimmed text, or `default` when it is blank.
pub open spec fn trimmed_or(raw: Seq<char>, default: Seq<char>) -> Seq<char> {
    if trim(raw).len() == 0 {
        default
    } else {
        trim(raw)
    }
}

/// The trimmed text, or `default` when it is blank.
fn trimmed_or_default(raw: &str, default: &str) -> (s: String)
    ensures
        s@ == trimmed_or(raw@, default@),
{
    let t = trim_str(raw);
    if t.as_str().is_empty() {
        default.to_owned()
    } else {
        t
    }
}

/// The manifest description the manifest command works with: the program
/// at `binary_path`, the host name and Firefox extension id given (the
/// defaults when blank), the Chrome extension id given (the placeholder
/// when none is).
pub fn manifest_command_spec(
    binary_path: String,
    host_name: &str,
    chrome_extension_id: &Option<String>,
    firefox_extension_id: &str,
) -> (spec: NativeHostManifestSpec)
    ensures
        spec.binary_path == binary_path,
        spec.host_name@ == trimmed_or(host_name@, DEFAULT_NATIVE_HOST_NAME@),
        spec.chrome_extension_id@ == match chrome_extension_id {
            Some(c) => c@,
            None => CHROME_EXTENSION_ID_PLACEHOLDER@,
        },
        spec.firefox_extension_id@ == trimmed_or(firefox_extension_id@, DEFAULT_FIREFOX_EXTENSION_ID@),
{
    let mut spec = NativeHostManifestSpec::with_binary_path(binary_path);
    spec.host_name = trimmed_or_default(host_name, DEFAULT_NATIVE_HOST_NAME);
    spec.chrome_extension_id = match chrome_extension_id {
        Some(c) => c.clone(),
        None => CHROME_EXTENSION_ID_PLACEHOLDER.to_owned(),
    };
    spec.firefox_extension_id = trimmed_or_default(firefox_extension_id, DEFAULT_FIREFOX_EXTENSION_ID);
    spec
}

/// Whether the manifest command writes manifest files: when installing, or
/// when neither verifying nor uninstalling.
pub fn should_generate_manifests(install: bool, verify: bool, uninstall: bool) -> (b: bool)
    ensures
        b == (install || (!verify && !uninstall)),
{
    install || (!verify && !uninstall)
}

/// The directory the manifest command writes manifests to: the one given,
/// else `extensions/native-host`.
pub fn manifest_output_dir(output_dir: &Option<String>) -> (dir: String)
    ensures
        dir@ == match output_dir {
            Some(d) => d@,
            None => "extensions/native-host"@,
        },
{
    match output_dir {
        Some(d) => d.clone(),
        None => "extensions/native-host".to_owned(),
    }
}

/// Whether to warn that the Chrome extension id is still the placeholder:
/// when not installing and the id is exactly the placeholder.
pub fn placeholder_warning_due(install: bool, spec: &NativeHostManifestSpec) -> (b: bool)
    ensures
        b == (!install && spec.chrome_extension_id@ == CHROME_EXTENSION_ID_PLACEHOLDER@),
{
    !install && crate::text::chars_eq(
        chars_of(spec.chrome_extension_id.as_str()).as_slice(),
        chars_of(CHROME_EXTENSION_ID_PLACEHOLDER).as_slice(),
    )
}

/// Each item after `prefix`.
pub open spec fn prefixed(prefix: Seq<char>, items: Seq<Seq<char>>) -> Seq<Seq<char>> {
    items.map_values(|x: Seq<char>| prefix + x)
}

/// Appends a line `prefix` + item for each item.
fn push_prefixed(out: &mut Vec<String>, prefix: &str, items: &Vec<String>)
    ensures
        strs_view(final(out)@) == strs_view(old(out)@) + prefixed(prefix@, strs_view(items@)),
{
    let ghost start = strs_view(out@);
    let mut i: usize = 0;
    while i < items.len()
        invariant
            i <= items@.len(),
            strs_view(out@) == start + prefixed(prefix@, strs_view(items@.take(i as int))),
        decreases items.len() - i,
    {
        let mut line = prefix.to_owned();
        line.append(items[i].as_str());
        let ghost prev = out@;
        out.push(line);
        assert(strs_view(out@) =~= strs_view(prev).push(prefix@ + items@[i as int]@));
        assert(strs_view(items@.take(i as int + 1)) =~= strs_view(items@.take(i as int)).push(items@[i as int]@));
        assert(prefixed(prefix@, strs_view(items@.take(i as int + 1))) =~= prefixed(prefix@, strs_view(items@.take(i as int))).push(prefix@ + items@[i as int]@));
        assert(strs_view(out@) =~= start + prefixed(prefix@, strs_view(items@.take(i as int + 1))));
        i = i + 1;
    }
    assert(items@.take(items@.len() as int) =~= items@);
}

/// The lines reporting what an install or uninstall did: each manifest and
/// registry key written and removed, `no changes` when there is none, then
/// each warning; every line starts with the action.
pub open spec fn install_report_text(action: Seq<char>, r: NativeHostInstallReport) -> Seq<Seq<char>> {
    let none = r.manifest_files_written@.len() == 0 && r.registry_entries_written@.len() == 0
        && r.manifest_files_removed@.len() == 0 && r.registry_entries_removed@.len() == 0;
    prefixed(action + ": wrote manifest "@, strs_view(r.manifest_files_written@)) + prefixed(
        action + ": wrote registry key "@,
        strs_view(r.registry_entries_written@),
    ) + prefixed(action + ": removed manifest "@, strs_view(r.manifest_files_removed@)) + prefixed(
        action + ": removed registry key "@,
        strs_view(r.registry_entries_removed@),
    ) + (if none {
        seq![action + ": no changes"@]
    } else {
        Seq::empty()
    }) + prefixed(action + ": warning: "@, strs_view(r.warnings@))
}

/// The lines reporting an install or uninstall (see `install_report_text`).
pub fn install_report_lines(action: &str, report: &NativeHostInstallReport) -> (lines: Vec<String>)
    ensures
        strs_view(lines@) == install_report_text(action@, *report),
{
    let mut out: Vec<String> = Vec::new();
    let mut p = action.to_owned();
    p.append(": wrote manifest ");
    push_prefixed(&mut out, p.as_str(), &report.manifest_files_written);
    let mut p = action.to_owned();
    p.append(": wrote registry key ");
    push_prefixed(&mut out, p.as_str(), &report.registry_entries_written);
    let mut p = action.to_owned();
    p.append(": removed manifest ");
    push_prefixed(&mut out, p.as_str(), &report.manifest_files_removed);
    let mut p = action.to_owned();
    p.append(": removed registry key ");
    push_prefixed(&mut out, p.as_str(), &report.registry_entries_removed);
    let ghost before = strs_view(out@);
    if report.manifest_files_written.len() == 0 && report.registry_entries_written.len() == 0
        && report.manifest_files_removed.len() == 0 && report.registry_entries_removed.len() == 0 {
        let mut line = action.to_owned();
        line.append(": no changes");
        out.push(line);
        assert(strs_view(out@) =~= before + seq![action@ + ": no changes"@]);
    } else {
        assert(strs_view(out@) =~= before + Seq::<Seq<char>>::empty());
    }
    let mut p = action.to_owned();
    p.append(": warning: ");
    push_prefixed(&mut out, p.as_str(), &report.warnings);
    assert(strs_view(out@) =~= install_report_text(action@, *report));
    out
}

/// The lines reporting a verification: each manifest present and missing,
/// each registry key present and missing, then whether the installation
/// looks complete.
pub open spec fn validation_report_text(r: NativeHostValidationReport) -> Seq<Seq<char>> {
    prefixed("verify: manifest present "@, strs_view(r.manifest_files_present@)) + prefixed(
        "verify: manifest missing "@,
        strs_view(r.manifest_files_missing@),
    ) + prefixed("verify: registry key present "@, strs_view(r.registry_entries_present@)) + prefixed(
        "verify: registry key missing "@,
        strs_view(r.registry_entries_missing@),
    ) + seq![
        if r.manifest_files_missing@.len() == 0 && r.registry_entries_missing@.len() == 0 {
            "verify: native host installation looks complete"@
        } else {
            "verify: installation incomplete"@
        },
    ]
}

/// The lines reporting a verification (see `validation_report_text`).
pub fn validation_report_lines(report: &NativeHostValidationReport) -> (lines: Vec<String>)
    ensures
        strs_view(lines@) == validation_report_text(*report),
{
    let mut out: Vec<String> = Vec::new();
    push_prefixed(&mut out, "verify: manifest present ", &report.manifest_files_present);
    push_prefixed(&mut out, "verify: manifest missing ", &report.manifest_files_missing);
    push_prefixed(&mut out, "verify: registry key present ", &report.registry_entries_present);
    push_prefixed(&mut out, "verify: registry key missing ", &report.registry_entries_missing);
    let ghost before = strs_view(out@);
    let last = if report.manifest_files_missing.len() == 0 && report.registry_entries_missing.len() == 0 {
        "verify: native host installation looks complete".to_owned()
    } else {
        "verify: installation incomplete".to_owned()
    };
    out.push(last);
    assert(strs_view(out@) =~= validation_report_text(*report));
    out
}

} // verus!
