//! Browser integration through native messaging: the messages a browser
//! extension sends and receives, how they are framed, and where the host
//! manifests that register this program with the browsers live.
use vstd::prelude::*;

use crate::error::LokiDmError;
use crate::paths::{
    join_path, or_current, path_exists, path_is_dir, path_is_file, path_joined, user_config_dir,
    user_home_dir,
};
use crate::text::{chars_of, decimal, decimal_string, lower, lower_chars, string_of};

verus! {

/// Name under which the native messaging host registers.
pub const DEFAULT_NATIVE_HOST_NAME: &'static str = "com.loki.dm";

/// The Firefox extension's id.
pub const DEFAULT_FIREFOX_EXTENSION_ID: &'static str = "loki-dm@example.org";

/// Stands in for the Chrome extension id until the real one is set.
pub const CHROME_EXTENSION_ID_PLACEHOLDER: &'static str = "REPLACE_WITH_EXTENSION_ID";

/// Largest message accepted from a browser (8 MiB).
pub const MAX_NATIVE_MESSAGE_SIZE: usize = 8388608;

/// The operating system the program runs on, as far as manifest locations
/// depend on it.
#[derive(Debug, Clone, Copy, PartialEq, Eq, Structural)]
pub enum HostOs {
    Linux,
    MacOs,
    Windows,
    Other,
}

/// A browser family with its own manifest format.
#[derive(Debug, Clone, Copy, PartialEq, Eq, Structural)]
pub enum NativeBrowser {
    Chromium,
    Firefox,
}

/// What a browser asks for.
#[derive(Debug, Clone, Copy, PartialEq, Eq, Structural)]
pub enum NativeRequestAction {
    Queue,
    Download,
    Ping,
}

impl Default for NativeRequestAction {
    fn default() -> (a: Self)
        ensures
            a == NativeRequestAction::Queue,
    {
        NativeRequestAction::Queue
    }
}

/// A message from the browser extension.
#[derive(Debug, Clone)]
pub struct NativeRequest {
    pub url: Option<String>,
    pub urls: Vec<String>,
    pub action: NativeRequestAction,
    pub output: Option<String>,
    pub output_dir: Option<String>,
    pub connections: Option<u16>,
    pub speed_limit_bps: Option<u64>,
    pub priority: Option<String>,
}

impl Default for NativeRequest {
    fn default() -> (r: Self)
        ensures
            r.url is None,
            r.urls@.len() == 0,
            r.action == NativeRequestAction::Queue,
            r.output is None,
            r.output_dir is None,
            r.connections is None,
            r.speed_limit_bps is None,
            r.priority is None,
    {
        NativeRequest {
            url: None,
            urls: Vec::new(),
            action: NativeRequestAction::Queue,
            output: None,
            output_dir: None,
            connections: None,
            speed_limit_bps: None,
            priority: None,
        }
    }
}

/// The answer sent back to the browser extension.
#[derive(Debug, Clone)]
pub struct NativeResponse {
    pub ok: bool,
    pub message: String,
    pub output_path: Option<String>,
    pub queue_ids: Vec<u64>,
}

impl Default for NativeResponse {
    fn default() -> (r: Self)
        ensures
            !r.ok,
            r.message@.len() == 0,
            r.output_path is None,
            r.queue_ids@.len() == 0,
    {
        NativeResponse { ok: false, message: String::new(), output_path: None, queue_ids: Vec::new() }
    }
}

/// What the host manifests say: the host's name, the program's path and
/// the extensions allowed to talk to it.
#[derive(Debug, Clone)]
pub struct NativeHostManifestSpec {
    pub host_name: String,
    pub binary_path: String,
    pub chrome_extension_id: String,
    pub firefox_extension_id: String,
}

impl NativeHostManifestSpec {
    /// The default host name and extension ids, with this program path.
    pub fn with_binary_path(binary_path: String) -> (s: Self)
        ensures
            s.host_name@ == DEFAULT_NATIVE_HOST_NAME@,
            s.binary_path == binary_path,
            s.chrome_extension_id@ == CHROME_EXTENSION_ID_PLACEHOLDER@,
            s.firefox_extension_id@ == DEFAULT_FIREFOX_EXTENSION_ID@,
    {
        NativeHostManifestSpec {
            host_name: DEFAULT_NATIVE_HOST_NAME.to_owned(),
            binary_path,
            chrome_extension_id: CHROME_EXTENSION_ID_PLACEHOLDER.to_owned(),
            firefox_extension_id: DEFAULT_FIREFOX_EXTENSION_ID.to_owned(),
        }
    }
}

/// What installing or removing the manifests did.
#[derive(Debug, Clone)]
pub struct NativeHostInstallReport {
    pub manifest_files_written: Vec<String>,
    pub registry_entries_written: Vec<String>,
    pub manifest_files_removed: Vec<String>,
    pub registry_entries_removed: Vec<String>,
    pub warnings: Vec<String>,
}

impl Default for NativeHostInstallReport {
    fn default() -> (r: Self)
        ensures
            r.manifest_files_written@.len() == 0,
            r.registry_entries_written@.len() == 0,
            r.manifest_files_removed@.len() == 0,
            r.registry_entries_removed@.len() == 0,
            r.warnings@.len() == 0,
    {
        NativeHostInstallReport {
            manifest_files_written: Vec::new(),
            registry_entries_written: Vec::new(),
            manifest_files_removed: Vec::new(),
            registry_entries_removed: Vec::new(),
            warnings: Vec::new(),
        }
    }
}

/// Which manifests and registry entries are in place.
#[derive(Debug, Clone)]
pub struct NativeHostValidationReport {
    pub manifest_files_present: Vec<String>,
    pub manifest_files_missing: Vec<String>,
    pub registry_entries_present: Vec<String>,
    pub registry_entries_missing: Vec<String>,
}

impl Default for NativeHostValidationReport {
    fn default() -> (r: Self)
        ensures
            r.manifest_files_present@.len() == 0,
            r.manifest_files_missing@.len() == 0,
            r.registry_entries_present@.len() == 0,
            r.registry_entries_missing@.len() == 0,
    {
        NativeHostValidationReport {
            manifest_files_present: Vec::new(),
            manifest_files_missing: Vec::new(),
            registry_entries_present: Vec::new(),
            registry_entries_missing: Vec::new(),
        }
    }
}

/// Everything worth knowing when the browser integration does not work.
#[derive(Debug, Clone)]
pub struct NativeHostDiagnostics {
    pub host_name: String,
    pub binary_path: String,
    pub binary_path_valid: bool,
    pub chrome_extension_id: String,
    pub chrome_extension_id_placeholder: bool,
    pub firefox_extension_id: String,
    pub firefox_extension_id_empty: bool,
    pub manifest_output_dir: Option<String>,
    pub manifest_output_dir_exists: Option<bool>,
    pub validation: NativeHostValidationReport,
    pub notes: Vec<String>,
}

/// The value of four bytes read as a little-endian `u32`.
pub open spec fn le_value(b: [u8; 4]) -> nat {
    (b[0] as nat) + 256 * (b[1] as nat) + 65536 * (b[2] as nat) + 16777216 * (b[3] as nat)
}

/// The message for a frame longer than the limit.
pub open spec fn too_large_text(n: nat) -> Seq<char> {
    "native message too large: "@ + decimal(n) + " bytes"@
}

/// The payload length a frame header announces (four bytes, little
/// endian); longer than `MAX_NATIVE_MESSAGE_SIZE` is an error.
pub fn frame_payload_len(header: [u8; 4]) -> (r: Result<usize, LokiDmError>)
    ensures
        le_value(header) <= MAX_NATIVE_MESSAGE_SIZE ==> r == Ok::<usize, LokiDmError>(
            le_value(header) as usize,
        ),
        le_value(header) > MAX_NATIVE_MESSAGE_SIZE ==> (r matches Err(LokiDmError::Message(m)) && m@
            == too_large_text(le_value(header))),
{
    let n: u64 = (header[0] as u64) + 256 * (header[1] as u64) + 65536 * (header[2] as u64)
        + 16777216 * (header[3] as u64);
    if n > 8388608 {
        let mut m = "native message too large: ".to_owned();
        let d = decimal_string(n);
        m.append(d.as_str());
        m.append(" bytes");
        return Err(LokiDmError::Message(m));
    }
    Ok(n as usize)
}

/// The frame header for a payload of `len` bytes: the length as a
/// little-endian `u32` (the length is taken modulo 2^32, as `as u32` does).
pub fn frame_header(len: usize) -> (header: [u8; 4])
    ensures
        le_value(header) == (len as nat) % 4294967296,
{
    let l: u64 = (len as u64) % 4294967296;
    let b0: u8 = (l % 256) as u8;
    let b1: u8 = ((l / 256) % 256) as u8;
    let b2: u8 = ((l / 65536) % 256) as u8;
    let b3: u8 = ((l / 16777216) % 256) as u8;
    let header = [b0, b1, b2, b3];
    assert(l == (l % 256) + 256 * ((l / 256) % 256) + 65536 * ((l / 65536) % 256) + 16777216 * ((l
        / 16777216) % 256)) by (nonlinear_arith)
        requires
            l < 4294967296,
    ;
    header
}

/// Decoding a header made for a payload length gives that length back.
pub proof fn lemma_frame_round_trip(len: usize, header: [u8; 4])
    requires
        len <= MAX_NATIVE_MESSAGE_SIZE,
        le_value(header) == (len as nat) % 4294967296,
    ensures
        le_value(header) == len,
{
}

/// The label a browser family is keyed by.
pub open spec fn browser_label(b: NativeBrowser) -> Seq<char> {
    match b {
        NativeBrowser::Chromium => "chromium"@,
        NativeBrowser::Firefox => "firefox"@,
    }
}

/// A Windows path compared loosely: `/` as `\` and ASCII lower case.
pub open spec fn loose_windows_path(p: Seq<char>) -> Seq<char> {
    p.map_values(|c: char| lower(if c == '/' { '\\' } else { c }))
}

/// A Windows path with `/` turned into `\` and ASCII letters lower-cased,
/// for comparing registry values.
pub fn normalized_windows_path(path: &str) -> (n: String)
    ensures
        n@ == loose_windows_path(path@),
{
    let cs = chars_of(path);
    let mut out: Vec<char> = Vec::new();
    let mut i: usize = 0;
    while i < cs.len()
        invariant
            i <= cs@.len(),
            cs@ == path@,
            out@ == loose_windows_path(cs@.take(i as int)),
        decreases cs.len() - i,
    {
        let c = if cs[i] == '/' {
            '\\'
        } else {
            cs[i]
        };
        let l = crate::text::lower_char(c);
        out.push(l);
        assert(out@ =~= loose_windows_path(cs@.take(i as int + 1)));
        i = i + 1;
    }
    assert(cs@.take(cs@.len() as int) =~= cs@);
    string_of(out.as_slice())
}

/// The file name of a host's manifest: `host.json`.
pub open spec fn manifest_file_name(host: Seq<char>) -> Seq<char> {
    host + ".json"@
}

/// `base` joined with each of `parts` in turn.
pub open spec fn joined_path(base: Seq<char>, parts: Seq<Seq<char>>) -> Seq<char>
    decreases parts.len(),
{
    if parts.len() == 0 {
        base
    } else {
        path_joined(joined_path(base, parts.drop_last()), parts.last())
    }
}

/// Where a browser family looks for the host's manifest under `home`:
/// Google Chrome's and Mozilla's per-user directories on Linux and macOS;
/// nowhere on other systems.
pub open spec fn primary_manifest(b: NativeBrowser, host: Seq<char>, home: Seq<char>, os: HostOs) -> Option<Seq<char>> {
    let f = manifest_file_name(host);
    match os {
        HostOs::Linux => Some(
            match b {
                NativeBrowser::Chromium => joined_path(
                    home,
                    seq![".config"@, "google-chrome"@, "NativeMessagingHosts"@, f],
                ),
                NativeBrowser::Firefox => joined_path(
                    home,
                    seq![".mozilla"@, "native-messaging-hosts"@, f],
                ),
            },
        ),
        HostOs::MacOs => Some(
            match b {
                NativeBrowser::Chromium => joined_path(
                    home,
                    seq!["Library"@, "Application Support"@, "Google"@, "Chrome"@, "NativeMessagingHosts"@, f],
                ),
                NativeBrowser::Firefox => joined_path(
                    home,
                    seq!["Library"@, "Application Support"@, "Mozilla"@, "NativeMessagingHosts"@, f],
                ),
            },
        ),
        _ => None,
    }
}

/// The other Chromium-based browsers' manifest locations under `home`
/// (Chromium, Brave, Edge) on Linux and macOS; none for Firefox or on other
/// systems.
pub open spec fn extra_manifests(b: NativeBrowser, host: Seq<char>, home: Seq<char>, os: HostOs) -> Seq<Seq<char>> {
    let f = manifest_file_name(host);
    if b == NativeBrowser::Chromium && os == HostOs::Linux {
        seq![
            joined_path(home, seq![".config"@, "chromium"@, "NativeMessagingHosts"@, f]),
            joined_path(home, seq![".config"@, "BraveSoftware"@, "Brave-Browser"@, "NativeMessagingHosts"@, f]),
            joined_path(home, seq![".config"@, "microsoft-edge"@, "NativeMessagingHosts"@, f]),
        ]
    } else if b == NativeBrowser::Chromium && os == HostOs::MacOs {
        seq![
            joined_path(home, seq!["Library"@, "Application Support"@, "Chromium"@, "NativeMessagingHosts"@, f]),
            joined_path(
                home,
                seq!["Library"@, "Application Support"@, "BraveSoftware"@, "Brave-Browser"@, "NativeMessagingHosts"@, f],
            ),
            joined_path(home, seq!["Library"@, "Application Support"@, "Microsoft Edge"@, "NativeMessagingHosts"@, f]),
        ]
    } else {
        Seq::empty()
    }
}

/// `base` joined with `a`.
fn under(base: String, part: &str) -> (p: String)
    ensures
        p@ == path_joined(base@, part@),
{
    join_path(base.as_str(), part)
}

/// `host.json`.
fn manifest_file(host: &str) -> (f: String)
    ensures
        f@ == manifest_file_name(host@),
{
    let mut f = host.to_owned();
    f.append(".json");
    f
}

impl NativeBrowser {
    /// Where this browser family looks for the host's manifest under
    /// `home` (see `primary_manifest`).
    pub fn manifest_path_under(self, host_name: &str, home: &str, os: HostOs) -> (p: Option<String>)
        ensures
            match p {
                Some(q) => primary_manifest(self, host_name@, home@, os) == Some(q@),
                None => primary_manifest(self, host_name@, home@, os) is None,
            },
    {
        let f = manifest_file(host_name);
        let h = home.to_owned();
        match os {
            HostOs::Linux => match self {
                NativeBrowser::Chromium => {
                    let p = under(under(under(under(h, ".config"), "google-chrome"), "NativeMessagingHosts"), f.as_str());
                    assert(p@ == joined_path(home@, seq![".config"@, "google-chrome"@, "NativeMessagingHosts"@, f@])) by {
                        reveal_with_fuel(joined_path, 5);
                    }
                    Some(p)
                },
                NativeBrowser::Firefox => {
                    let p = under(under(under(h, ".mozilla"), "native-messaging-hosts"), f.as_str());
                    assert(p@ == joined_path(home@, seq![".mozilla"@, "native-messaging-hosts"@, f@])) by {
                        reveal_with_fuel(joined_path, 4);
                    }
                    Some(p)
                },
            },
            HostOs::MacOs => match self {
                NativeBrowser::Chromium => {
                    let p = under(under(under(under(under(h, "Library"), "Application Support"), "Google"), "Chrome"), "NativeMessagingHosts");
                    let p = under(p, f.as_str());
                    assert(p@ == joined_path(home@, seq!["Library"@, "Application Support"@, "Google"@, "Chrome"@, "NativeMessagingHosts"@, f@])) by {
                        reveal_with_fuel(joined_path, 7);
                    }
                    Some(p)
                },
                NativeBrowser::Firefox => {
                    let p = under(under(under(under(h, "Library"), "Application Support"), "Mozilla"), "NativeMessagingHosts");
                    let p = under(p, f.as_str());
                    assert(p@ == joined_path(home@, seq!["Library"@, "Application Support"@, "Mozilla"@, "NativeMessagingHosts"@, f@])) by {
                        reveal_with_fuel(joined_path, 6);
                    }
                    Some(p)
                },
            },
            _ => None,
        }
    }

    /// The other Chromium-based browsers' manifest locations under `home`
    /// (see `extra_manifests`).
    pub fn extra_paths_under(self, host_name: &str, home: &str, os: HostOs) -> (ps: Vec<String>)
        ensures
            crate::config::strs_view(ps@) == extra_manifests(self, host_name@, home@, os),
    {
        let f = manifest_file(host_name);
        let mut ps: Vec<String> = Vec::new();
        if self == NativeBrowser::Chromium && os == HostOs::Linux {
            let a = under(under(under(under(home.to_owned(), ".config"), "chromium"), "NativeMessagingHosts"), f.as_str());
            let b = under(under(under(under(under(home.to_owned(), ".config"), "BraveSoftware"), "Brave-Browser"), "NativeMessagingHosts"), f.as_str());
            let c = under(under(under(under(home.to_owned(), ".config"), "microsoft-edge"), "NativeMessagingHosts"), f.as_str());
            proof {
                reveal_with_fuel(joined_path, 6);
            }
            ps.push(a);
            ps.push(b);
            ps.push(c);
            assert(crate::config::strs_view(ps@) =~= extra_manifests(self, host_name@, home@, os));
        } else if self == NativeBrowser::Chromium && os == HostOs::MacOs {
            let a0 = under(under(under(under(home.to_owned(), "Library"), "Application Support"), "Chromium"), "NativeMessagingHosts");
            let a = under(a0, f.as_str());
            let b0 = under(under(under(under(home.to_owned(), "Library"), "Application Support"), "BraveSoftware"), "Brave-Browser");
            let b = under(under(b0, "NativeMessagingHosts"), f.as_str());
            let c0 = under(under(under(under(home.to_owned(), "Library"), "Application Support"), "Microsoft Edge"), "NativeMessagingHosts");
            let c = under(c0, f.as_str());
            proof {
                reveal_with_fuel(joined_path, 7);
            }
            ps.push(a);
            ps.push(b);
            ps.push(c);
            assert(crate::config::strs_view(ps@) =~= extra_manifests(self, host_name@, home@, os));
        } else {
            assert(crate::config::strs_view(ps@) =~= extra_manifests(self, host_name@, home@, os));
        }
        ps
    }

    /// Where this browser family looks for the host's manifest, under the
    /// user's home directory; `None` when that is unknown or the system has
    /// no such place.
    pub fn install_manifest_path(self, host_name: &str, os: HostOs) -> (p: Option<String>)
        ensures
            p matches Some(q) ==> exists|home: Seq<char>| primary_manifest(self, host_name@, home, os) == Some(q@),
            os != HostOs::Linux && os != HostOs::MacOs ==> p is None,
    {
        match user_home_dir() {
            Some(home) => self.manifest_path_under(host_name, home.as_str(), os),
            None => None,
        }
    }

    /// The other Chromium-based browsers' manifest locations under the
    /// user's home directory; none when that is unknown.
    pub fn extra_install_paths(self, host_name: &str, os: HostOs) -> (ps: Vec<String>)
        ensures
            ps@.len() == 0 || exists|home: Seq<char>|
                crate::config::strs_view(ps@) == extra_manifests(self, host_name@, home, os),
    {
        match user_home_dir() {
            Some(home) => self.extra_paths_under(host_name, home.as_str(), os),
            None => Vec::new(),
        }
    }
}

/// A manifest file to write for one browser family.
#[derive(Debug, Clone)]
pub struct ManifestTarget {
    pub browser: NativeBrowser,
    pub path: String,
}

/// The targets as (browser, path text) pairs.
pub open spec fn targets_view(ts: Seq<ManifestTarget>) -> Seq<(NativeBrowser, Seq<char>)> {
    ts.map_values(|t: ManifestTarget| (t.browser, t.path@))
}

/// The primary and extra manifest locations of one browser family.
pub open spec fn browser_targets(b: NativeBrowser, host: Seq<char>, home: Seq<char>, os: HostOs) -> Seq<(NativeBrowser, Seq<char>)> {
    (match primary_manifest(b, host, home, os) {
        Some(p) => seq![(b, p)],
        None => Seq::empty(),
    }) + tagged(b, extra_manifests(b, host, home, os))
}

/// Each path paired with browser `b`.
pub open spec fn tagged(b: NativeBrowser, ps: Seq<Seq<char>>) -> Seq<(NativeBrowser, Seq<char>)> {
    ps.map_values(|p: Seq<char>| (b, p))
}

/// Every manifest location, before duplicates are dropped: on Windows the
/// two manifests in the application's `native-host` directory (registered
/// through the registry); elsewhere the browsers' own locations under the
/// home directory, Chromium's first.
pub open spec fn raw_targets(host: Seq<char>, home: Option<String>, config_dir: Option<String>, os: HostOs) -> Seq<(NativeBrowser, Seq<char>)> {
    if os == HostOs::Windows {
        let base = path_joined(path_joined(or_current(config_dir), "loki-dm"@), "native-host"@);
        seq![
            (NativeBrowser::Chromium, path_joined(base, host + ".chrome.json"@)),
            (NativeBrowser::Firefox, path_joined(base, host + ".firefox.json"@)),
        ]
    } else {
        match home {
            Some(h) => browser_targets(NativeBrowser::Chromium, host, h@, os) + browser_targets(
                NativeBrowser::Firefox,
                host,
                h@,
                os,
            ),
            None => Seq::empty(),
        }
    }
}

/// The targets without repeats, first occurrences kept in order.
pub open spec fn dedup_targets(ts: Seq<(NativeBrowser, Seq<char>)>) -> Seq<(NativeBrowser, Seq<char>)>
    decreases ts.len(),
{
    if ts.len() == 0 {
        ts
    } else {
        let prev = dedup_targets(ts.drop_last());
        if prev.contains(ts.last()) {
            prev
        } else {
            prev.push(ts.last())
        }
    }
}

/// The manifest locations for `host`, without repeats.
pub open spec fn manifest_targets(host: Seq<char>, home: Option<String>, config_dir: Option<String>, os: HostOs) -> Seq<(NativeBrowser, Seq<char>)> {
    dedup_targets(raw_targets(host, home, config_dir, os))
}

/// Appends `(b, p)` for each path.
fn push_targets(out: &mut Vec<ManifestTarget>, b: NativeBrowser, paths: Vec<String>)
    ensures
        targets_view(final(out)@) == targets_view(old(out)@) + tagged(b, crate::config::strs_view(paths@)),
{
    let ghost start = targets_view(out@);
    let ghost ps = crate::config::strs_view(paths@);
    let mut paths = paths;
    let mut i: usize = 0;
    let n = paths.len();
    assert(start + tagged(b, ps.take(0)) =~= start);
    while paths.len() > 0
        invariant
            n == ps.len(),
            i + paths@.len() == n,
            crate::config::strs_view(paths@) == ps.skip(i as int),
            targets_view(out@) == start + tagged(b, ps.take(i as int)),
        decreases paths.len(),
    {
        let ghost before = paths@;
        let p = paths.remove(0);
        assert(ps[i as int] == p@) by {
            assert(crate::config::strs_view(before)[0] == ps.skip(i as int)[0]);
        }
        let ghost pv = p@;
        let ghost out_before = targets_view(out@);
        out.push(ManifestTarget { browser: b, path: p });
        assert(targets_view(out@) =~= out_before.push((b, pv)));
        assert(tagged(b, ps.take(i as int + 1)) =~= tagged(b, ps.take(i as int)).push((b, pv)));
        assert(paths@ =~= before.skip(1));
        assert forall|k: int| 0 <= k < paths@.len() implies crate::config::strs_view(paths@)[k] == ps.skip(i as int + 1)[k] by {
            assert(crate::config::strs_view(before)[k + 1] == ps.skip(i as int)[k + 1]);
        }
        assert(crate::config::strs_view(paths@) =~= ps.skip(i as int + 1));
        i = i + 1;
    }
    assert(ps.take(n as int) =~= ps);
}

/// Whether `out` already has a target for `b` at `path`.
fn has_target(out: &Vec<ManifestTarget>, b: NativeBrowser, path: &String) -> (r: bool)
    ensures
        r == targets_view(out@).contains((b, path@)),
{
    let mut i: usize = 0;
    while i < out.len()
        invariant
            i <= out@.len(),
            forall|j: int| 0 <= j < i ==> targets_view(out@)[j] != (b, path@),
        decreases out.len() - i,
    {
        if out[i].browser == b && out[i].path == *path {
            assert(targets_view(out@)[i as int] == (b, path@));
            return true;
        }
        i = i + 1;
    }
    false
}

/// Drops repeated targets, keeping first occurrences in order.
pub fn dedupe_manifest_targets(targets: Vec<ManifestTarget>) -> (out: Vec<ManifestTarget>)
    ensures
        targets_view(out@) == dedup_targets(targets_view(targets@)),
{
    let ghost all = targets_view(targets@);
    let mut targets = targets;
    let mut out: Vec<ManifestTarget> = Vec::new();
    let mut i: usize = 0;
    let n = targets.len();
    assert(all.take(0) =~= Seq::<(NativeBrowser, Seq<char>)>::empty());
    while targets.len() > 0
        invariant
            n == all.len(),
            i + targets@.len() == n,
            targets_view(targets@) == all.skip(i as int),
            targets_view(out@) == dedup_targets(all.take(i as int)),
        decreases targets.len(),
    {
        let ghost before = targets@;
        let t = targets.remove(0);
        assert(all[i as int] == (t.browser, t.path@)) by {
            assert(targets_view(before)[0] == all.skip(i as int)[0]);
        }
        assert(all.take(i as int + 1).drop_last() =~= all.take(i as int));
        if !has_target(&out, t.browser, &t.path) {
            let ghost before = targets_view(out@);
            out.push(t);
            assert(targets_view(out@) =~= before.push(all[i as int]));
        }
        assert(targets@ =~= before.skip(1));
        assert forall|k: int| 0 <= k < targets@.len() implies targets_view(targets@)[k] == all.skip(i as int + 1)[k] by {
            assert(targets_view(before)[k + 1] == all.skip(i as int)[k + 1]);
        }
        assert(targets_view(targets@) =~= all.skip(i as int + 1));
        i = i + 1;
    }
    assert(all.take(n as int) =~= all);
    out
}

/// `host` followed by `suffix`.
fn suffixed(host: &str, suffix: &str) -> (s: String)
    ensures
        s@ == host@ + suffix@,
{
    let mut s = host.to_owned();
    s.append(suffix);
    s
}

/// The manifest locations for `host` given the home and configuration
/// directories (see `manifest_targets`).
pub fn manifest_targets_for(host_name: &str, home: Option<String>, config_dir: Option<String>, os: HostOs) -> (targets: Vec<ManifestTarget>)
    ensures
        targets_view(targets@) == manifest_targets(host_name@, home, config_dir, os),
{
    let mut raw: Vec<ManifestTarget> = Vec::new();
    if os == HostOs::Windows {
        let root = crate::paths::dir_or_current(config_dir);
        let base = under(under(root, "loki-dm"), "native-host");
        let c = join_path(base.as_str(), suffixed(host_name, ".chrome.json").as_str());
        let f = join_path(base.as_str(), suffixed(host_name, ".firefox.json").as_str());
        raw.push(ManifestTarget { browser: NativeBrowser::Chromium, path: c });
        raw.push(ManifestTarget { browser: NativeBrowser::Firefox, path: f });
        assert(targets_view(raw@) =~= raw_targets(host_name@, home, config_dir, os));
    } else {
        match &home {
            Some(h) => {
                let ghost s0 = targets_view(raw@);
                if let Some(p) = NativeBrowser::Chromium.manifest_path_under(host_name, h.as_str(), os) {
                    raw.push(ManifestTarget { browser: NativeBrowser::Chromium, path: p });
                }
                assert(targets_view(raw@) =~= s0 + match primary_manifest(NativeBrowser::Chromium, host_name@, h@, os) {
                    Some(p) => seq![(NativeBrowser::Chromium, p)],
                    None => Seq::empty(),
                });
                push_targets(&mut raw, NativeBrowser::Chromium, NativeBrowser::Chromium.extra_paths_under(host_name, h.as_str(), os));
                let ghost s1 = targets_view(raw@);
                assert(s1 =~= browser_targets(NativeBrowser::Chromium, host_name@, h@, os));
                if let Some(p) = NativeBrowser::Firefox.manifest_path_under(host_name, h.as_str(), os) {
                    raw.push(ManifestTarget { browser: NativeBrowser::Firefox, path: p });
                }
                assert(targets_view(raw@) =~= s1 + match primary_manifest(NativeBrowser::Firefox, host_name@, h@, os) {
                    Some(p) => seq![(NativeBrowser::Firefox, p)],
                    None => Seq::empty(),
                });
                push_targets(&mut raw, NativeBrowser::Firefox, NativeBrowser::Firefox.extra_paths_under(host_name, h.as_str(), os));
                assert(targets_view(raw@) =~= raw_targets(host_name@, home, config_dir, os));
            },
            None => {
                assert(targets_view(raw@) =~= raw_targets(host_name@, home, config_dir, os));
            },
        }
    }
    dedupe_manifest_targets(raw)
}

/// The manifest locations for the host, for the user's directories as
/// they are now.
pub fn collect_manifest_targets(spec: &NativeHostManifestSpec, os: HostOs) -> (targets: Vec<ManifestTarget>)
    ensures
        exists|home: Option<String>, config_dir: Option<String>|
            targets_view(targets@) == manifest_targets(spec.host_name@, home, config_dir, os),
{
    if os == HostOs::Windows {
        let cfg = user_config_dir();
        manifest_targets_for(spec.host_name.as_str(), None, cfg, os)
    } else {
        let home = user_home_dir();
        manifest_targets_for(spec.host_name.as_str(), home, None, os)
    }
}

/// The paths of the targets whose flag is `want`, in order.
pub open spec fn paths_flagged(ts: Seq<(NativeBrowser, Seq<char>)>, flags: Seq<bool>, want: bool) -> Seq<Seq<char>>
    decreases ts.len(),
{
    if ts.len() == 0 || flags.len() == 0 {
        Seq::empty()
    } else {
        let rest = paths_flagged(ts.drop_last(), flags.drop_last(), want);
        if flags.last() == want {
            rest.push(ts.last().1)
        } else {
            rest
        }
    }
}

/// `rep` lists the targets found (flag set) as present and the others as
/// missing, in order.
pub open spec fn reports_targets(rep: NativeHostValidationReport, ts: Seq<(NativeBrowser, Seq<char>)>, flags: Seq<bool>) -> bool {
    &&& flags.len() == ts.len()
    &&& crate::config::strs_view(rep.manifest_files_present@) == paths_flagged(ts, flags, true)
    &&& crate::config::strs_view(rep.manifest_files_missing@) == paths_flagged(ts, flags, false)
}

/// `rep` sorts the host's manifest locations, for some home and
/// configuration directories, into present and missing by some outcome of
/// looking on disk.
pub open spec fn validation_consistent(rep: NativeHostValidationReport, host: Seq<char>, os: HostOs) -> bool {
    exists|home: Option<String>, config_dir: Option<String>, flags: Seq<bool>|
        #[trigger] reports_targets(rep, manifest_targets(host, home, config_dir, os), flags)
}

/// Sorts the targets into present and missing by whether a file was found
/// at each (`present[i]` for `targets[i]`).
pub fn validation_report(targets: &Vec<ManifestTarget>, present: &Vec<bool>) -> (r: NativeHostValidationReport)
    requires
        present@.len() == targets@.len(),
    ensures
        crate::config::strs_view(r.manifest_files_present@) == paths_flagged(targets_view(targets@), present@, true),
        crate::config::strs_view(r.manifest_files_missing@) == paths_flagged(targets_view(targets@), present@, false),
        r.registry_entries_present@.len() == 0,
        r.registry_entries_missing@.len() == 0,
{
    let mut r = NativeHostValidationReport::default();
    let ghost ts = targets_view(targets@);
    let mut i: usize = 0;
    assert(ts.take(0) =~= Seq::<(NativeBrowser, Seq<char>)>::empty());
    while i < targets.len()
        invariant
            i <= targets@.len(),
            present@.len() == targets@.len(),
            ts == targets_view(targets@),
            crate::config::strs_view(r.manifest_files_present@) == paths_flagged(ts.take(i as int), present@.take(i as int), true),
            crate::config::strs_view(r.manifest_files_missing@) == paths_flagged(ts.take(i as int), present@.take(i as int), false),
            r.registry_entries_present@.len() == 0,
            r.registry_entries_missing@.len() == 0,
        decreases targets.len() - i,
    {
        assert(ts.take(i as int + 1).drop_last() =~= ts.take(i as int));
        assert(present@.take(i as int + 1).drop_last() =~= present@.take(i as int));
        let ghost p0 = crate::config::strs_view(r.manifest_files_present@);
        let ghost m0 = crate::config::strs_view(r.manifest_files_missing@);
        let path = targets[i].path.clone();
        if present[i] {
            r.manifest_files_present.push(path);
            assert(crate::config::strs_view(r.manifest_files_present@) =~= p0.push(ts[i as int].1));
        } else {
            r.manifest_files_missing.push(path);
            assert(crate::config::strs_view(r.manifest_files_missing@) =~= m0.push(ts[i as int].1));
        }
        i = i + 1;
    }
    assert(ts.take(ts.len() as int) =~= ts);
    assert(present@.take(present@.len() as int) =~= present@);
    r
}

/// Whether something is on disk at each target's path now.
fn presence_flags(targets: &Vec<ManifestTarget>) -> (present: Vec<bool>)
    ensures
        present@.len() == targets@.len(),
{
    let mut present: Vec<bool> = Vec::new();
    let mut i: usize = 0;
    while i < targets.len()
        invariant
            i <= targets@.len(),
            present@.len() == i,
        decreases targets.len() - i,
    {
        present.push(path_exists(targets[i].path.as_str()));
        i = i + 1;
    }
    present
}

/// Checks which manifest files are in place for the host: each location
/// (see `collect_manifest_targets`) is listed as present or missing,
/// depending on what is on disk now. Registry entries are not looked at
/// here.
pub fn validate_installation(spec: &NativeHostManifestSpec, os: HostOs) -> (r: Result<NativeHostValidationReport, LokiDmError>)
    ensures
        r matches Ok(rep) && validation_consistent(rep, spec.host_name@, os),
{
    let targets = collect_manifest_targets(spec, os);
    let present = presence_flags(&targets);
    let rep = validation_report(&targets, &present);
    let ghost (h, c) = choose|h: Option<String>, c: Option<String>|
        targets_view(targets@) == manifest_targets(spec.host_name@, h, c, os);
    assert(reports_targets(rep, manifest_targets(spec.host_name@, h, c, os), present@));
    assert(validation_consistent(rep, spec.host_name@, os));
    Ok(rep)
}

/// An id that is blank or still the placeholder.
pub open spec fn is_placeholder_id(id: Seq<char>) -> bool {
    crate::text::trim(id).len() == 0 || id == CHROME_EXTENSION_ID_PLACEHOLDER@
}

/// Whether the Chrome extension id still needs to be set.
pub fn chrome_id_is_placeholder(id: &str) -> (b: bool)
    ensures
        b == is_placeholder_id(id@),
{
    let t = crate::text::trim_str(id);
    t.as_str().is_empty() || crate::text::chars_eq(
        chars_of(id).as_slice(),
        chars_of(CHROME_EXTENSION_ID_PLACEHOLDER).as_slice(),
    )
}

/// The origin a Chromium manifest allows: `chrome-extension://id/`.
pub fn chrome_allowed_origin(spec: &NativeHostManifestSpec) -> (o: String)
    ensures
        o@ == "chrome-extension://"@ + spec.chrome_extension_id@ + "/"@,
{
    let mut o = "chrome-extension://".to_owned();
    o.append(spec.chrome_extension_id.as_str());
    o.append("/");
    o
}

/// What a host manifest says: the host's name, a description, the program
/// the browser starts, how it talks to it (`stdio`), and who may use it
/// (Chromium: extension origins; Firefox: extension ids).
#[derive(Debug, Clone)]
pub struct HostManifest {
    pub browser: NativeBrowser,
    pub name: String,
    pub description: String,
    pub path: String,
    pub kind: String,
    pub allowed: Vec<String>,
}

/// The manifest for one browser family: the host's name and program, the
/// fixed description and `stdio`, and the Chromium origin
/// (`chrome-extension://id/`) or the Firefox extension id.
pub fn host_manifest(spec: &NativeHostManifestSpec, browser: NativeBrowser) -> (m: HostManifest)
    ensures
        m.browser == browser,
        m.name == spec.host_name,
        m.description@ == "Loki DM native messaging host"@,
        m.path == spec.binary_path,
        m.kind@ == "stdio"@,
        crate::config::strs_view(m.allowed@) == match browser {
            NativeBrowser::Chromium => seq!["chrome-extension://"@ + spec.chrome_extension_id@ + "/"@],
            NativeBrowser::Firefox => seq![spec.firefox_extension_id@],
        },
{
    let mut allowed: Vec<String> = Vec::new();
    match browser {
        NativeBrowser::Chromium => allowed.push(chrome_allowed_origin(spec)),
        NativeBrowser::Firefox => allowed.push(spec.firefox_extension_id.clone()),
    }
    assert(crate::config::strs_view(allowed@) =~= match browser {
        NativeBrowser::Chromium => seq!["chrome-extension://"@ + spec.chrome_extension_id@ + "/"@],
        NativeBrowser::Firefox => seq![spec.firefox_extension_id@],
    });
    HostManifest {
        browser,
        name: spec.host_name.clone(),
        description: "Loki DM native messaging host".to_owned(),
        path: spec.binary_path.clone(),
        kind: "stdio".to_owned(),
        allowed,
    }
}

/// Gathers what is known about the browser integration: the host's
/// settings, whether the program and the output directory are on disk now,
/// whether the extension ids are set, which manifests are in place, and two
/// notes on what is checked.
pub fn collect_native_host_diagnostics(spec: &NativeHostManifestSpec, manifest_output_dir: Option<&str>, os: HostOs) -> (r: Result<NativeHostDiagnostics, LokiDmError>)
    ensures
        r matches Ok(d) && {
            &&& d.host_name == spec.host_name
            &&& d.binary_path == spec.binary_path
            &&& d.chrome_extension_id == spec.chrome_extension_id
            &&& d.chrome_extension_id_placeholder == is_placeholder_id(spec.chrome_extension_id@)
            &&& d.firefox_extension_id == spec.firefox_extension_id
            &&& d.firefox_extension_id_empty == (crate::text::trim(spec.firefox_extension_id@).len() == 0)
            &&& match manifest_output_dir {
                Some(dir) => d.manifest_output_dir matches Some(o) && o@ == dir@ && d.manifest_output_dir_exists is Some,
                None => d.manifest_output_dir is None && d.manifest_output_dir_exists is None,
            }
            &&& validation_consistent(d.validation, spec.host_name@, os)
            &&& crate::config::strs_view(d.notes@) == seq![
                "validation checks browser install locations/registry, not output_dir"@,
                "queue-first browser handoff is active"@,
            ]
        },
{
    let validation = match validate_installation(spec, os) {
        Ok(v) => v,
        Err(e) => {
            return Err(e);
        },
    };
    let ff = crate::text::trim_str(spec.firefox_extension_id.as_str());
    let mut notes: Vec<String> = Vec::new();
    notes.push("validation checks browser install locations/registry, not output_dir".to_owned());
    notes.push("queue-first browser handoff is active".to_owned());
    assert(crate::config::strs_view(notes@) =~= seq![
        "validation checks browser install locations/registry, not output_dir"@,
        "queue-first browser handoff is active"@,
    ]);
    let (dir, exists) = match manifest_output_dir {
        Some(d) => (Some(d.to_owned()), Some(path_is_dir(d))),
        None => (None, None),
    };
    Ok(NativeHostDiagnostics {
        host_name: spec.host_name.clone(),
        binary_path: spec.binary_path.clone(),
        binary_path_valid: path_is_file(spec.binary_path.as_str()),
        chrome_extension_id: spec.chrome_extension_id.clone(),
        chrome_extension_id_placeholder: chrome_id_is_placeholder(spec.chrome_extension_id.as_str()),
        firefox_extension_id: spec.firefox_extension_id.clone(),
        firefox_extension_id_empty: ff.as_str().is_empty(),
        manifest_output_dir: dir,
        manifest_output_dir_exists: exists,
        validation,
        notes,
    })
}

/// A registry key to create on Windows, and the manifest path it names.
#[derive(Debug, Clone)]
pub struct RegistryTarget {
    pub key_path: String,
    pub expected_value: String,
}

/// The registry keys under which the Chromium-based browsers look for hosts.
pub open spec fn chromium_registry_prefixes() -> Seq<Seq<char>> {
    seq![
        "Software\\Google\\Chrome\\NativeMessagingHosts"@,
        "Software\\Chromium\\NativeMessagingHosts"@,
        "Software\\Microsoft\\Edge\\NativeMessagingHosts"@,
        "Software\\BraveSoftware\\Brave-Browser\\NativeMessagingHosts"@,
    ]
}

/// The registry key under which Firefox looks for hosts.
pub open spec fn firefox_registry_prefix() -> Seq<char> {
    "Software\\Mozilla\\NativeMessagingHosts"@
}

/// The path of the first target for browser `b`.
pub open spec fn first_path_for(ts: Seq<(NativeBrowser, Seq<char>)>, b: NativeBrowser) -> Option<Seq<char>>
    decreases ts.len(),
{
    if ts.len() == 0 {
        None
    } else if ts[0].0 == b {
        Some(ts[0].1)
    } else {
        first_path_for(ts.drop_first(), b)
    }
}

/// The registry entries as (key, value) text pairs.
pub open spec fn registry_view(rs: Seq<RegistryTarget>) -> Seq<(Seq<char>, Seq<char>)> {
    rs.map_values(|r: RegistryTarget| (r.key_path@, r.expected_value@))
}

/// The registry entries that register the host on Windows: under each
/// Chromium-based browser's key, the first Chromium manifest; under
/// Firefox's key, the first Firefox manifest; none for a family without a
/// manifest.
pub open spec fn registry_entries(host: Seq<char>, ts: Seq<(NativeBrowser, Seq<char>)>) -> Seq<(Seq<char>, Seq<char>)> {
    (match first_path_for(ts, NativeBrowser::Chromium) {
        Some(p) => chromium_registry_prefixes().map_values(|k: Seq<char>| (k + "\\"@ + host, p)),
        None => Seq::empty(),
    }) + (match first_path_for(ts, NativeBrowser::Firefox) {
        Some(p) => seq![(firefox_registry_prefix() + "\\"@ + host, p)],
        None => Seq::empty(),
    })
}

/// The path of the first target for `b`.
fn first_target_path(targets: &Vec<ManifestTarget>, b: NativeBrowser) -> (p: Option<String>)
    ensures
        match p {
            Some(q) => first_path_for(targets_view(targets@), b) == Some(q@),
            None => first_path_for(targets_view(targets@), b) is None,
        },
{
    let ghost ts = targets_view(targets@);
    let mut i: usize = 0;
    assert(ts.skip(0) =~= ts);
    while i < targets.len()
        invariant
            i <= targets@.len(),
            ts == targets_view(targets@),
            first_path_for(ts, b) == first_path_for(ts.skip(i as int), b),
        decreases targets.len() - i,
    {
        assert(ts.skip(i as int)[0] == ts[i as int]);
        assert(ts.skip(i as int).drop_first() =~= ts.skip(i as int + 1));
        if targets[i].browser == b {
            return Some(targets[i].path.clone());
        }
        i = i + 1;
    }
    None
}

/// `prefix\host`.
fn registry_key(prefix: &str, host: &str) -> (k: String)
    ensures
        k@ == prefix@ + "\\"@ + host@,
{
    let mut k = prefix.to_owned();
    k.append("\\");
    k.append(host);
    k
}

/// The registry entries that register the host with the browsers on
/// Windows (see `registry_entries`).
pub fn collect_registry_targets(host_name: &str, targets: &Vec<ManifestTarget>) -> (rs: Vec<RegistryTarget>)
    ensures
        registry_view(rs@) == registry_entries(host_name@, targets_view(targets@)),
{
    let mut rs: Vec<RegistryTarget> = Vec::new();
    if let Some(chrome) = first_target_path(targets, NativeBrowser::Chromium) {
        rs.push(RegistryTarget { key_path: registry_key("Software\\Google\\Chrome\\NativeMessagingHosts", host_name), expected_value: chrome.clone() });
        rs.push(RegistryTarget { key_path: registry_key("Software\\Chromium\\NativeMessagingHosts", host_name), expected_value: chrome.clone() });
        rs.push(RegistryTarget { key_path: registry_key("Software\\Microsoft\\Edge\\NativeMessagingHosts", host_name), expected_value: chrome.clone() });
        rs.push(RegistryTarget { key_path: registry_key("Software\\BraveSoftware\\Brave-Browser\\NativeMessagingHosts", host_name), expected_value: chrome });
    }
    let ghost mid = registry_view(rs@);
    assert(mid =~= match first_path_for(targets_view(targets@), NativeBrowser::Chromium) {
        Some(p) => chromium_registry_prefixes().map_values(|k: Seq<char>| (k + "\\"@ + host_name@, p)),
        None => Seq::empty(),
    });
    if let Some(firefox) = first_target_path(targets, NativeBrowser::Firefox) {
        rs.push(RegistryTarget { key_path: registry_key("Software\\Mozilla\\NativeMessagingHosts", host_name), expected_value: firefox });
    }
    assert(registry_view(rs@) =~= registry_entries(host_name@, targets_view(targets@)));
    rs
}

} // verus!
