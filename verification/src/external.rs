//! Downloads handed to the `curl` program: when that is needed, the
//! arguments it is started with, the metadata kept while it runs, and what
//! to do at each look at it.
use vstd::prelude::*;

use crate::config::{AuthConfig, DownloadConfig, ProxyKind};
use crate::engine::{proxy_scheme, ControlState};
use crate::metadata::{
    sat_sub, spans_fit, DownloadMetadata, SegmentMetadata, SegmentState,
};
use crate::strmap::StrMap;
use crate::text::{chars_of, decimal, decimal_string, lower_chars, lower_seq};
use crate::urls::{scheme_of, url_scheme};

verus! {

/// How long an external transfer took.
#[derive(Debug, Clone, Copy, PartialEq, Eq, Structural)]
pub struct ExternalDownloadResult {
    pub duration_ms: u128,
}

/// FTP URLs and NTLM or Kerberos authentication are left to `curl`.
pub open spec fn wants_external(url: Seq<char>, auth: Option<AuthConfig>) -> bool {
    ||| (url_scheme(url) matches Some(s) && (lower_seq(s) == "ftp"@ || lower_seq(s) == "ftps"@))
    ||| (auth matches Some(AuthConfig::Ntlm))
    ||| (auth matches Some(AuthConfig::Kerberos))
}

/// Whether a download must go through the external `curl` program: its URL
/// is `ftp` or `ftps` (in any case), or it authenticates with NTLM or
/// Kerberos.
pub fn needs_external_downloader(config: &DownloadConfig) -> (b: bool)
    ensures
        b == wants_external(config.url@, config.auth),
{
    let ftp = match scheme_of(config.url.as_str()) {
        Some(s) => {
            let l = lower_chars(chars_of(s.as_str()).as_slice());
            crate::text::chars_eq(l.as_slice(), chars_of("ftp").as_slice())
                || crate::text::chars_eq(l.as_slice(), chars_of("ftps").as_slice())
        },
        None => false,
    };
    ftp || match &config.auth {
        Some(AuthConfig::Ntlm) | Some(AuthConfig::Kerberos) => true,
        _ => false,
    }
}

/// `--header key: value` for each header, in key order.
pub open spec fn header_args(entries: Seq<(Seq<char>, Seq<char>)>) -> Seq<Seq<char>>
    decreases entries.len(),
{
    if entries.len() == 0 {
        Seq::empty()
    } else {
        header_args(entries.drop_last()).push("--header"@).push(
            entries.last().0 + ": "@ + entries.last().1,
        )
    }
}

/// The fixed leading arguments: follow redirects, fail on HTTP errors,
/// stay quiet, write to `part`.
pub open spec fn base_args(part: Seq<char>) -> Seq<Seq<char>> {
    seq!["--location"@, "--fail"@, "--silent"@, "--show-error"@, "--output"@, part]
}

/// `--continue-at n` when resuming at a positive offset.
pub open spec fn resume_args(resume_from: u64) -> Seq<Seq<char>> {
    if resume_from > 0 {
        seq!["--continue-at"@, decimal(resume_from as nat)]
    } else {
        Seq::empty()
    }
}

/// `--limit-rate n` when the speed is limited.
pub open spec fn limit_args(limit: Option<u64>) -> Seq<Seq<char>> {
    match limit {
        Some(l) => seq!["--limit-rate"@, decimal(l as nat)],
        None => Seq::empty(),
    }
}

/// `--user-agent agent` when one is set.
pub open spec fn agent_args(agent: Option<String>) -> Seq<Seq<char>> {
    match agent {
        Some(a) => seq!["--user-agent"@, a@],
        None => Seq::empty(),
    }
}

/// The bearer token as an `Authorization` header.
pub open spec fn bearer_args(auth: Option<AuthConfig>) -> Seq<Seq<char>> {
    match auth {
        Some(AuthConfig::Bearer { token }) => seq!["--header"@, "Authorization: Bearer "@ + token@],
        _ => Seq::empty(),
    }
}

/// `--proxy uri`, and `--proxy-user user:password` when both are set.
pub open spec fn proxy_args(proxy: Option<crate::config::ProxyConfig>) -> Seq<Seq<char>> {
    match proxy {
        Some(p) => seq!["--proxy"@, crate::engine::proxy_uri_text(p)] + match (p.username, p.password) {
            (Some(u), Some(w)) => seq!["--proxy-user"@, u@ + ":"@ + w@],
            _ => Seq::empty(),
        },
        None => Seq::empty(),
    }
}

/// The authentication switches: basic with the credentials, NTLM or
/// Kerberos with empty ones.
pub open spec fn auth_args(auth: Option<AuthConfig>) -> Seq<Seq<char>> {
    match auth {
        Some(AuthConfig::Basic { username, password }) => seq![
            "--basic"@,
            "--user"@,
            username@ + ":"@ + password@,
        ],
        Some(AuthConfig::Ntlm) => seq!["--ntlm"@, "--user"@, ":"@],
        Some(AuthConfig::Kerberos) => seq!["--negotiate"@, "--user"@, ":"@],
        _ => Seq::empty(),
    }
}

/// The arguments `curl` is started with for `config`, writing to `part`
/// and resuming at byte `resume_from`.
pub open spec fn curl_args(config: DownloadConfig, part: Seq<char>, resume_from: u64) -> Seq<Seq<char>> {
    base_args(part) + resume_args(resume_from) + limit_args(config.speed_limit_bps) + agent_args(
        config.user_agent,
    ) + header_args(config.headers.entries_spec()) + bearer_args(config.auth) + proxy_args(
        config.proxy,
    ) + auth_args(config.auth) + seq![config.url@]
}

/// Appends a copy of `s`.
fn push_str(args: &mut Vec<String>, s: &str)
    ensures
        crate::config::strs_view(final(args)@) == crate::config::strs_view(old(args)@).push(s@),
{
    args.push(s.to_owned());
    assert(crate::config::strs_view(args@) =~= crate::config::strs_view(old(args)@).push(s@));
}

/// Moves the strings of `more` to the end of `args`.
fn append_strings(args: &mut Vec<String>, more: Vec<String>)
    ensures
        crate::config::strs_view(final(args)@) == crate::config::strs_view(old(args)@)
            + crate::config::strs_view(more@),
{
    let mut more = more;
    let ghost m = more@;
    args.append(&mut more);
    assert(crate::config::strs_view(args@) =~= crate::config::strs_view(old(args)@)
        + crate::config::strs_view(m));
}

/// `a` followed by `sep` and `b`.
fn joined(a: &str, sep: &str, b: &str) -> (s: String)
    ensures
        s@ == a@ + sep@ + b@,
{
    let mut s = a.to_owned();
    s.append(sep);
    s.append(b);
    s
}

/// The `--header key: value` arguments for the headers.
fn header_arguments(headers: &StrMap) -> (args: Vec<String>)
    ensures
        crate::config::strs_view(args@) == header_args(headers.entries_spec()),
{
    let mut args: Vec<String> = Vec::new();
    let ghost es = headers.entries_spec();
    let n = headers.len();
    let mut i: usize = 0;
    assert(es.take(0) =~= Seq::<(Seq<char>, Seq<char>)>::empty());
    while i < n
        invariant
            n == es.len(),
            es == headers.entries_spec(),
            i <= n,
            crate::config::strs_view(args@) == header_args(es.take(i as int)),
        decreases n - i,
    {
        let (k, v) = headers.entry(i);
        assert(es.take(i as int + 1).drop_last() =~= es.take(i as int));
        assert(es.take(i as int + 1).last() == es[i as int]);
        push_str(&mut args, "--header");
        let line = joined(k.as_str(), ": ", v.as_str());
        push_str(&mut args, line.as_str());
        i = i + 1;
    }
    assert(es.take(n as int) =~= es);
    args
}

fn resume_arguments(resume_from: u64) -> (args: Vec<String>)
    ensures
        crate::config::strs_view(args@) == resume_args(resume_from),
{
    let mut args: Vec<String> = Vec::new();
    if resume_from > 0 {
        push_str(&mut args, "--continue-at");
        let r = decimal_string(resume_from);
        push_str(&mut args, r.as_str());
    }
    assert(crate::config::strs_view(args@) =~= resume_args(resume_from));
    args
}

fn limit_arguments(limit: Option<u64>) -> (args: Vec<String>)
    ensures
        crate::config::strs_view(args@) == limit_args(limit),
{
    let mut args: Vec<String> = Vec::new();
    if let Some(l) = limit {
        push_str(&mut args, "--limit-rate");
        let t = decimal_string(l);
        push_str(&mut args, t.as_str());
    }
    assert(crate::config::strs_view(args@) =~= limit_args(limit));
    args
}

fn agent_arguments(agent: &Option<String>) -> (args: Vec<String>)
    ensures
        crate::config::strs_view(args@) == agent_args(*agent),
{
    let mut args: Vec<String> = Vec::new();
    if let Some(a) = agent {
        push_str(&mut args, "--user-agent");
        push_str(&mut args, a.as_str());
    }
    assert(crate::config::strs_view(args@) =~= agent_args(*agent));
    args
}

fn bearer_arguments(auth: &Option<AuthConfig>) -> (args: Vec<String>)
    ensures
        crate::config::strs_view(args@) == bearer_args(*auth),
{
    let mut args: Vec<String> = Vec::new();
    if let Some(AuthConfig::Bearer { token }) = auth {
        push_str(&mut args, "--header");
        let t = joined("Authorization: Bearer", " ", token.as_str());
        push_str(&mut args, t.as_str());
        proof {
            reveal_strlit("Authorization: Bearer");
            reveal_strlit(" ");
            reveal_strlit("Authorization: Bearer ");
            assert("Authorization: Bearer"@ + " "@ =~= "Authorization: Bearer "@);
        }
    }
    assert(crate::config::strs_view(args@) =~= bearer_args(*auth));
    args
}

fn proxy_arguments(proxy: &Option<crate::config::ProxyConfig>) -> (args: Vec<String>)
    ensures
        crate::config::strs_view(args@) == proxy_args(*proxy),
{
    let mut args: Vec<String> = Vec::new();
    if let Some(p) = proxy {
        push_str(&mut args, "--proxy");
        let uri = crate::engine::proxy_uri(p);
        push_str(&mut args, uri.as_str());
        match (&p.username, &p.password) {
            (Some(user), Some(pass)) => {
                push_str(&mut args, "--proxy-user");
                let up = joined(user.as_str(), ":", pass.as_str());
                push_str(&mut args, up.as_str());
            },
            _ => {},
        }
    }
    assert(crate::config::strs_view(args@) =~= proxy_args(*proxy));
    args
}

fn auth_arguments(auth: &Option<AuthConfig>) -> (args: Vec<String>)
    ensures
        crate::config::strs_view(args@) == auth_args(*auth),
{
    let mut args: Vec<String> = Vec::new();
    match auth {
        Some(AuthConfig::Basic { username, password }) => {
            push_str(&mut args, "--basic");
            push_str(&mut args, "--user");
            let up = joined(username.as_str(), ":", password.as_str());
            push_str(&mut args, up.as_str());
        },
        Some(AuthConfig::Ntlm) => {
            push_str(&mut args, "--ntlm");
            push_str(&mut args, "--user");
            push_str(&mut args, ":");
        },
        Some(AuthConfig::Kerberos) => {
            push_str(&mut args, "--negotiate");
            push_str(&mut args, "--user");
            push_str(&mut args, ":");
        },
        _ => {},
    }
    assert(crate::config::strs_view(args@) =~= auth_args(*auth));
    args
}

/// The arguments `curl` is started with: follow redirects, fail on HTTP
/// errors, stay quiet, write to `part_path`, resume at `resume_from` when
/// it is positive, then the rate limit, user agent, headers, bearer token,
/// proxy and authentication the configuration asks for, and the URL last.
pub fn curl_arguments(config: &DownloadConfig, part_path: &str, resume_from: u64) -> (args: Vec<String>)
    ensures
        crate::config::strs_view(args@) == curl_args(*config, part_path@, resume_from),
{
    let mut args: Vec<String> = Vec::new();
    push_str(&mut args, "--location");
    push_str(&mut args, "--fail");
    push_str(&mut args, "--silent");
    push_str(&mut args, "--show-error");
    push_str(&mut args, "--output");
    push_str(&mut args, part_path);
    assert(crate::config::strs_view(args@) =~= base_args(part_path@));
    append_strings(&mut args, resume_arguments(resume_from));
    append_strings(&mut args, limit_arguments(config.speed_limit_bps));
    append_strings(&mut args, agent_arguments(&config.user_agent));
    append_strings(&mut args, header_arguments(&config.headers));
    append_strings(&mut args, bearer_arguments(&config.auth));
    append_strings(&mut args, proxy_arguments(&config.proxy));
    append_strings(&mut args, auth_arguments(&config.auth));
    push_str(&mut args, config.url.as_str());
    args
}

/// The metadata an external transfer keeps: the loaded metadata when
/// resuming, else fresh metadata with one segment over the whole file (none
/// when the size is unknown) that has `current_size` bytes; in both cases
/// the counter is the size of the partial file and a known size is
/// recorded. The size is the one probed, else the one loaded, else 0.
pub fn external_metadata(
    loaded: Option<DownloadMetadata>,
    probed_size: Option<u64>,
    url: String,
    output_path: String,
    part_path: String,
    current_size: u64,
) -> (r: (DownloadMetadata, u64))
    ensures
        ({
            let (meta, total) = r;
            &&& total == match probed_size {
                Some(t) => if t == 0 && loaded is Some {
                    loaded->0.total_size
                } else {
                    t
                },
                None => match loaded {
                    Some(m) => m.total_size,
                    None => 0,
                },
            }
            &&& meta.bytes_downloaded == current_size
            &&& match loaded {
                Some(m) => meta == DownloadMetadata {
                    bytes_downloaded: current_size,
                    total_size: if total > 0 {
                        total
                    } else {
                        m.total_size
                    },
                    ..m
                },
                None => {
                    &&& meta.version == 1
                    &&& meta.url == url
                    &&& meta.output_path == output_path
                    &&& meta.part_path == part_path
                    &&& meta.total_size == total
                    &&& meta.etag is None
                    &&& meta.last_modified is None
                    &&& meta.segments@ == if total > 0 {
                        seq![
                            SegmentMetadata {
                                id: 0,
                                start: 0,
                                end: (total - 1) as u64,
                                downloaded: current_size,
                                state: SegmentState::InProgress,
                            },
                        ]
                    } else {
                        Seq::<SegmentMetadata>::empty()
                    }
                },
            }
        }),
{
    let mut total: u64 = match probed_size {
        Some(t) => t,
        None => 0,
    };
    if total == 0 {
        if let Some(m) = &loaded {
            total = m.total_size;
        }
    }
    let mut meta = match loaded {
        Some(m) => m,
        None => {
            let mut segments: Vec<SegmentMetadata> = Vec::new();
            if total > 0 {
                segments.push(
                    SegmentMetadata {
                        id: 0,
                        start: 0,
                        end: total - 1,
                        downloaded: current_size,
                        state: SegmentState::InProgress,
                    },
                );
            }
            DownloadMetadata::for_new(url, output_path, part_path, total, None, None, segments)
        },
    };
    meta.bytes_downloaded = current_size;
    if total > 0 {
        meta.total_size = total;
    }
    (meta, total)
}

/// Records how far an external transfer has come: a known size, the
/// bytes on disk, and the first segment's counter (capped at its length),
/// done once full.
pub fn track_external_progress(meta: &mut DownloadMetadata, downloaded: u64, total: u64)
    requires
        spans_fit(old(meta).segments@),
    ensures
        final(meta).total_size == if total > 0 {
            total
        } else {
            old(meta).total_size
        },
        final(meta).bytes_downloaded == downloaded,
        final(meta).segments@ == if old(meta).segments@.len() > 0 {
            let s = old(meta).segments@[0];
            let d: u64 = if downloaded > s.span() {
                s.span() as u64
            } else {
                downloaded
            };
            old(meta).segments@.update(
                0,
                SegmentMetadata {
                    downloaded: d,
                    state: if d >= s.span() {
                        SegmentState::Done
                    } else {
                        SegmentState::InProgress
                    },
                    ..s
                },
            )
        } else {
            old(meta).segments@
        },
        final(meta).url == old(meta).url,
{
    if total > 0 {
        meta.total_size = total;
    }
    meta.bytes_downloaded = downloaded;
    if meta.segments.len() > 0 {
        let seg = meta.segments[0];
        assert(seg.span_fits());
        let l = seg.len();
        let d = if downloaded < l {
            downloaded
        } else {
            l
        };
        let state = if d >= l {
            SegmentState::Done
        } else {
            SegmentState::InProgress
        };
        meta.segments.set(0, SegmentMetadata { downloaded: d, state, ..seg });
    }
}

/// How the `curl` process stands at one look.
#[derive(Debug, Clone, Copy, PartialEq, Eq, Structural)]
pub enum CurlExit {
    Running,
    Succeeded,
    /// It exited unsuccessfully, with this code, or by a signal.
    Failed(Option<i32>),
}

/// What to do after one look at an external transfer.
#[derive(Debug, Clone, PartialEq, Eq)]
pub enum CurlAction {
    /// Look again later.
    Wait,
    /// Stop the process and report the download cancelled.
    Cancel,
    /// Stop the process and start it again once resumed.
    Restart,
    /// The file is complete: move it into place.
    Finish,
    /// Report the download failed with this message.
    Fail(String),
}

/// The message for a `curl` process that exited unsuccessfully.
pub open spec fn curl_failure_text(code: Option<i32>) -> Seq<char> {
    "external curl exited with status "@ + match code {
        Some(c) => crate::text::decimal_int(c as int),
        None => "signal"@,
    }
}

/// One look at an external transfer: a cancel stops it, a pause restarts
/// it later; otherwise a running process is left alone, a successful one
/// finishes the download and a failed one fails it.
pub fn curl_step(control: ControlState, exit: CurlExit) -> (action: CurlAction)
    ensures
        control == ControlState::Cancelled ==> action == CurlAction::Cancel,
        control == ControlState::Paused ==> action == CurlAction::Restart,
        control == ControlState::Running ==> match exit {
            CurlExit::Running => action == CurlAction::Wait,
            CurlExit::Succeeded => action == CurlAction::Finish,
            CurlExit::Failed(code) => action matches CurlAction::Fail(m) && m@ == curl_failure_text(code),
        },
{
    match control {
        ControlState::Cancelled => CurlAction::Cancel,
        ControlState::Paused => CurlAction::Restart,
        ControlState::Running => match exit {
            CurlExit::Running => CurlAction::Wait,
            CurlExit::Succeeded => CurlAction::Finish,
            CurlExit::Failed(code) => {
                let mut m = "external curl exited with status ".to_owned();
                match code {
                    Some(c) => {
                        let t = crate::text::decimal_i32(c);
                        m.append(t.as_str());
                    },
                    None => m.append("signal"),
                }
                CurlAction::Fail(m)
            },
        },
    }
}

} // verus!
