//! Application settings: their defaults, the per-category download
//! directories, and where the settings file lives.
use vstd::prelude::*;

use crate::config::ProxyConfig;
use crate::native::{
    CHROME_EXTENSION_ID_PLACEHOLDER, DEFAULT_FIREFOX_EXTENSION_ID, DEFAULT_NATIVE_HOST_NAME,
};
use crate::paths::{app_config_dir, default_download_dir, join_path, or_current, path_joined};
use crate::strmap::StrMap;
use crate::text::{chars_of, eq_ignore_case, eq_ignore_case_chars, trim, trim_str};

verus! {

/// Colour scheme of the user interface.
#[derive(Debug, Clone, Copy, PartialEq, Eq, Structural)]
pub enum ThemeMode {
    Auto,
    Light,
    Dark,
}

/// Look of the toolbar.
#[derive(Debug, Clone, Copy, PartialEq, Eq, Structural)]
pub enum ToolbarSkin {
    Classic,
    Windows10Flat,
    NeonGlow,
}

impl Default for ToolbarSkin {
    fn default() -> (s: Self)
        ensures
            s == ToolbarSkin::Classic,
    {
        ToolbarSkin::Classic
    }
}

/// Connection defaults for new downloads.
#[derive(Debug, Clone, Copy, PartialEq, Eq, Structural)]
pub struct ConnectionSettings {
    pub initial_connections: u16,
    pub min_connections: u16,
    pub max_connections: u16,
    pub min_segment_size: u64,
    pub global_speed_limit_bps: Option<u64>,
    pub default_download_speed_limit_bps: Option<u64>,
    pub default_hour_quota_mb: Option<u64>,
}

/// The default connection settings: 8 connections to start, between 2
/// and 16, segments of at least 512 KiB, no limits.
pub open spec fn default_connection() -> ConnectionSettings {
    ConnectionSettings {
        initial_connections: 8,
        min_connections: 2,
        max_connections: 16,
        min_segment_size: 524288,
        global_speed_limit_bps: None,
        default_download_speed_limit_bps: None,
        default_hour_quota_mb: None,
    }
}

impl Default for ConnectionSettings {
    fn default() -> (s: Self)
        ensures
            s == default_connection(),
    {
        ConnectionSettings {
            initial_connections: 8,
            min_connections: 2,
            max_connections: 16,
            min_segment_size: 512 * 1024,
            global_speed_limit_bps: None,
            default_download_speed_limit_bps: None,
            default_hour_quota_mb: None,
        }
    }
}

/// The proxy to use, when enabled.
#[derive(Debug, Clone)]
pub struct ProxySettings {
    pub enabled: bool,
    pub proxy: Option<ProxyConfig>,
}

impl Default for ProxySettings {
    fn default() -> (s: Self)
        ensures
            !s.enabled,
            s.proxy is None,
    {
        ProxySettings { enabled: false, proxy: None }
    }
}

/// Scheduler and queue behaviour.
#[derive(Debug, Clone, Copy, PartialEq, Eq, Structural)]
pub struct SchedulerSettings {
    pub enabled: bool,
    pub run_missed_jobs_on_startup: bool,
    pub default_interval_minutes: u64,
    pub wake_from_sleep: bool,
    pub queue_concurrent_downloads: usize,
}

/// The default scheduler settings: off, catching up on missed jobs, hourly,
/// three queued downloads at a time.
pub open spec fn default_scheduler() -> SchedulerSettings {
    SchedulerSettings {
        enabled: false,
        run_missed_jobs_on_startup: true,
        default_interval_minutes: 60,
        wake_from_sleep: false,
        queue_concurrent_downloads: 3,
    }
}

impl Default for SchedulerSettings {
    fn default() -> (s: Self)
        ensures
            s == default_scheduler(),
    {
        SchedulerSettings {
            enabled: false,
            run_missed_jobs_on_startup: true,
            default_interval_minutes: 60,
            wake_from_sleep: false,
            queue_concurrent_downloads: 3,
        }
    }
}

/// Browser integration.
#[derive(Debug, Clone)]
pub struct BrowserSettings {
    pub integration_enabled: bool,
    pub native_host_name: String,
    pub intercept_all_downloads: bool,
    pub native_host_binary_path: Option<String>,
    pub chrome_extension_id: String,
    pub firefox_extension_id: String,
    pub manifest_output_dir: String,
}

/// `native-host` inside the application's configuration directory, for
/// some configuration directory.
pub open spec fn is_manifest_output_dir(dir: Seq<char>) -> bool {
    exists|base: Option<String>|
        dir == path_joined(path_joined(or_current(base), "loki-dm"@), "native-host"@)
}

/// Where generated host manifests are written by default: `native-host` in
/// the application's configuration directory.
pub fn default_native_host_manifest_output_dir() -> (dir: String)
    ensures
        is_manifest_output_dir(dir@),
{
    let base = app_config_dir();
    join_path(base.as_str(), "native-host")
}

impl Default for BrowserSettings {
    fn default() -> (s: Self)
        ensures
            s.integration_enabled,
            s.native_host_name@ == DEFAULT_NATIVE_HOST_NAME@,
            !s.intercept_all_downloads,
            s.native_host_binary_path is None,
            s.chrome_extension_id@ == CHROME_EXTENSION_ID_PLACEHOLDER@,
            s.firefox_extension_id@ == DEFAULT_FIREFOX_EXTENSION_ID@,
            is_manifest_output_dir(s.manifest_output_dir@),
    {
        BrowserSettings {
            integration_enabled: true,
            native_host_name: DEFAULT_NATIVE_HOST_NAME.to_owned(),
            intercept_all_downloads: false,
            native_host_binary_path: None,
            chrome_extension_id: CHROME_EXTENSION_ID_PLACEHOLDER.to_owned(),
            firefox_extension_id: DEFAULT_FIREFOX_EXTENSION_ID.to_owned(),
            manifest_output_dir: default_native_host_manifest_output_dir(),
        }
    }
}

/// Look and language.
#[derive(Debug, Clone)]
pub struct AppearanceSettings {
    pub theme: ThemeMode,
    pub toolbar_skin: ToolbarSkin,
    pub language: String,
    pub compact_rows: bool,
}

impl Default for AppearanceSettings {
    fn default() -> (s: Self)
        ensures
            s.theme == ThemeMode::Dark,
            s.toolbar_skin == ToolbarSkin::Classic,
            s.language@ == "en-US"@,
            !s.compact_rows,
    {
        AppearanceSettings {
            theme: ThemeMode::Dark,
            toolbar_skin: ToolbarSkin::Classic,
            language: "en-US".to_owned(),
            compact_rows: false,
        }
    }
}

/// Everything else.
#[derive(Debug, Clone)]
pub struct AdvancedSettings {
    pub retry_count: u8,
    pub check_for_updates: bool,
    pub update_endpoint: String,
    pub av_hook_command: Option<String>,
    pub queue_complete_command: Option<String>,
    pub crash_reporting_enabled: bool,
    pub sound_on_completion: bool,
    pub prevent_duplicate_queue_entries: bool,
}

impl Default for AdvancedSettings {
    fn default() -> (s: Self)
        ensures
            s.retry_count == 6,
            s.check_for_updates,
            s.update_endpoint@ == "https://api.github.com/repos/navi/loki-dm/releases/latest"@,
            s.av_hook_command is None,
            s.queue_complete_command is None,
            !s.crash_reporting_enabled,
            s.sound_on_completion,
            s.prevent_duplicate_queue_entries,
    {
        AdvancedSettings {
            retry_count: 6,
            check_for_updates: true,
            update_endpoint: "https://api.github.com/repos/navi/loki-dm/releases/latest".to_owned(),
            av_hook_command: None,
            queue_complete_command: None,
            crash_reporting_enabled: false,
            sound_on_completion: true,
            prevent_duplicate_queue_entries: true,
        }
    }
}

/// The category names, in display order.
pub open spec fn category_name_list() -> Seq<Seq<char>> {
    seq!["Music"@, "Video"@, "Programs"@, "Documents"@, "Compressed"@, "Other"@]
}

/// The download categories' names.
pub fn category_names() -> (names: [&'static str; 6])
    ensures
        names@.map_values(|n: &str| n@) == category_name_list(),
{
    let names = ["Music", "Video", "Programs", "Documents", "Compressed", "Other"];
    assert(names@.map_values(|n: &str| n@) =~= category_name_list());
    names
}

/// Each of `names` mapped to its directory under `root`: `root/<name>`.
pub open spec fn dirs_under(root: Seq<char>, names: Seq<Seq<char>>) -> Map<Seq<char>, Seq<char>>
    decreases names.len(),
{
    if names.len() == 0 {
        Map::empty()
    } else {
        dirs_under(root, names.drop_last()).insert(names.last(), path_joined(root, names.last()))
    }
}

/// Each category's directory under `root`: `root/<category>`.
pub open spec fn category_dirs_map(root: Seq<char>) -> Map<Seq<char>, Seq<char>> {
    dirs_under(root, category_name_list())
}

/// Each name of the list has its directory.
proof fn lemma_dirs_under_prefix(root: Seq<char>, names: Seq<Seq<char>>, i: int)
    requires
        0 <= i < names.len(),
    ensures
        dirs_under(root, names).contains_key(names[i]),
    decreases names.len(),
{
    if i < names.len() - 1 {
        lemma_dirs_under_prefix(root, names.drop_last(), i);
    }
}

/// Every directory in `dirs_under` is its name under the root.
proof fn lemma_dirs_under_values(root: Seq<char>, names: Seq<Seq<char>>)
    ensures
        forall|k: Seq<char>|
            #[trigger] dirs_under(root, names).contains_key(k) ==> dirs_under(root, names)[k]
                == path_joined(root, k),
    decreases names.len(),
{
    if names.len() > 0 {
        let prev = dirs_under(root, names.drop_last());
        lemma_dirs_under_values(root, names.drop_last());
        assert forall|k: Seq<char>| #[trigger] dirs_under(root, names).contains_key(k) implies dirs_under(root, names)[k]
            == path_joined(root, k) by {
            if k != names.last() {
                assert(prev.contains_key(k));
            }
        }
    }
}

/// A directory per category under `download_root`.
pub fn default_category_dirs_for(download_root: &str) -> (dirs: StrMap)
    ensures
        dirs@ == category_dirs_map(download_root@),
{
    let names = category_names();
    let ghost ns = names@.map_values(|n: &str| n@);
    let mut dirs = StrMap::new();
    let mut i: usize = 0;
    while i < 6
        invariant
            i <= 6,
            ns == category_name_list(),
            ns == names@.map_values(|n: &str| n@),
            dirs@ == dirs_under(download_root@, ns.take(i as int)),
        decreases 6 - i,
    {
        let name = names[i];
        assert(ns[i as int] == name@);
        dirs.insert(name.to_owned(), join_path(download_root, name));
        assert(ns.take(i as int + 1).drop_last() =~= ns.take(i as int));
        i = i + 1;
    }
    assert(ns.take(6) =~= ns);
    assert(dirs@ =~= category_dirs_map(download_root@));
    dirs
}

/// All settings.
#[derive(Debug, Clone)]
pub struct AppSettings {
    pub download_dir: String,
    pub category_dirs: StrMap,
    pub connection: ConnectionSettings,
    pub proxy: ProxySettings,
    pub scheduler: SchedulerSettings,
    pub browser: BrowserSettings,
    pub appearance: AppearanceSettings,
    pub advanced: AdvancedSettings,
}

impl Default for AppSettings {
    fn default() -> (s: Self)
        ensures
            exists|base: Option<String>| s.download_dir@ == or_current(base),
            s.category_dirs@ == category_dirs_map(s.download_dir@),
            s.connection == default_connection(),
            !s.proxy.enabled,
            s.proxy.proxy is None,
            s.scheduler == default_scheduler(),
            s.browser.integration_enabled,
            s.browser.native_host_name@ == DEFAULT_NATIVE_HOST_NAME@,
            s.browser.chrome_extension_id@ == CHROME_EXTENSION_ID_PLACEHOLDER@,
            s.browser.firefox_extension_id@ == DEFAULT_FIREFOX_EXTENSION_ID@,
            s.appearance.theme == ThemeMode::Dark,
            s.appearance.language@ == "en-US"@,
            s.advanced.retry_count == 6,
            s.advanced.prevent_duplicate_queue_entries,
    {
        let download_dir = default_download_dir();
        let category_dirs = default_category_dirs_for(download_dir.as_str());
        AppSettings {
            download_dir,
            category_dirs,
            connection: ConnectionSettings::default(),
            proxy: ProxySettings::default(),
            scheduler: SchedulerSettings::default(),
            browser: BrowserSettings::default(),
            appearance: AppearanceSettings::default(),
            advanced: AdvancedSettings::default(),
        }
    }
}

/// The first entry, in name order, whose name matches `name` ignoring
/// ASCII case.
pub open spec fn first_named(es: Seq<(Seq<char>, Seq<char>)>, name: Seq<char>) -> Option<Seq<char>>
    decreases es.len(),
{
    if es.len() == 0 {
        None
    } else if eq_ignore_case(es[0].0, name) {
        Some(es[0].1)
    } else {
        first_named(es.drop_first(), name)
    }
}

/// The directory a category's downloads go to: the one configured for the
/// first category whose name matches (trimmed, ignoring ASCII case), else
/// the download directory; no category, or a blank one, also means the
/// download directory.
pub open spec fn category_dir_for(s: AppSettings, category: Option<Seq<char>>) -> Seq<char> {
    match category {
        Some(c) => if trim(c).len() == 0 {
            s.download_dir@
        } else {
            match first_named(s.category_dirs.entries_spec(), trim(c)) {
                Some(p) => p,
                None => s.download_dir@,
            }
        },
        None => s.download_dir@,
    }
}

impl AppSettings {
    /// Gives every category without a directory its default one under the
    /// download directory; configured directories are kept.
    pub fn normalize_category_dirs(&mut self)
        ensures
            final(self).category_dirs@ == category_dirs_map(old(self).download_dir@).union_prefer_right(
                old(self).category_dirs@,
            ),
            final(self).download_dir == old(self).download_dir,
            *final(self) == (AppSettings { category_dirs: final(self).category_dirs, ..*old(self) }),
    {
        let defaults = default_category_dirs_for(self.download_dir.as_str());
        let names = category_names();
        let ghost ns = names@.map_values(|n: &str| n@);
        let ghost start = self.category_dirs@;
        let ghost root = self.download_dir@;
        let mut i: usize = 0;
        proof {
            lemma_dirs_under_values(root, ns);
        }
        assert(dirs_under(root, ns.take(0)).union_prefer_right(start) =~= start);
        while i < 6
            invariant
                i <= 6,
                ns == category_name_list(),
                ns == names@.map_values(|n: &str| n@),
                defaults@ == dirs_under(root, ns),
                root == self.download_dir@,
                self.download_dir == old(self).download_dir,
                *self == (AppSettings { category_dirs: self.category_dirs, ..*old(self) }),
                start == old(self).category_dirs@,
                forall|k: Seq<char>|
                    #[trigger] dirs_under(root, ns).contains_key(k) ==> dirs_under(root, ns)[k]
                        == path_joined(root, k),
                self.category_dirs@ == dirs_under(root, ns.take(i as int)).union_prefer_right(start),
            decreases 6 - i,
        {
            let name = names[i];
            assert(ns[i as int] == name@);
            assert(ns.take(i as int + 1).drop_last() =~= ns.take(i as int));
            proof {
                lemma_dirs_under_values(root, ns.take(i as int));
                lemma_dirs_under_values(root, ns.take(i as int + 1));
                lemma_dirs_under_values(root, ns.take(i as int + 1).drop_last());
            }
            let ghost before = self.category_dirs@;
            let ghost di = dirs_under(root, ns.take(i as int));
            let ghost dn = dirs_under(root, ns.take(i as int + 1));
            assert(dn == di.insert(name@, path_joined(root, name@)));
            if !self.category_dirs.contains_key(name) {
                match defaults.get(name) {
                    Some(p) => {
                        assert(p@ == path_joined(root, name@)) by {
                            lemma_dirs_under_values(root, ns);
                        }
                        self.category_dirs.insert(name.to_owned(), p.clone());
                        assert(self.category_dirs@ =~= dn.union_prefer_right(start));
                    },
                    None => {
                        assert(false) by {
                            lemma_dirs_under_prefix(root, ns, i as int);
                        }
                    },
                }
            } else {
                assert(self.category_dirs@ =~= dn.union_prefer_right(start));
            }
            i = i + 1;
        }
        assert(ns.take(6) =~= ns);
    }

    /// Normalizing twice changes nothing more: once every category has a
    /// directory, filling in the defaults again keeps the directories as
    /// they are.
    pub proof fn lemma_normalize_category_dirs_settles(root: Seq<char>, dirs: Map<Seq<char>, Seq<char>>)
        ensures
            category_dirs_map(root).union_prefer_right(category_dirs_map(root).union_prefer_right(dirs))
                == category_dirs_map(root).union_prefer_right(dirs),
    {
        assert(category_dirs_map(root).union_prefer_right(category_dirs_map(root).union_prefer_right(dirs))
            =~= category_dirs_map(root).union_prefer_right(dirs));
    }

    /// The directory a category's downloads go to (see `category_dir_for`).
    pub fn category_output_dir(&self, category: Option<&str>) -> (dir: String)
        ensures
            dir@ == category_dir_for(
                *self,
                match category {
                    Some(c) => Some(c@),
                    None => None,
                },
            ),
    {
        let c = match category {
            Some(c) => trim_str(c),
            None => {
                return self.download_dir.clone();
            },
        };
        if c.as_str().is_empty() {
            return self.download_dir.clone();
        }
        let cc = chars_of(c.as_str());
        let ghost es = self.category_dirs.entries_spec();
        let n = self.category_dirs.len();
        let mut i: usize = 0;
        assert(es.skip(0) =~= es);
        while i < n
            invariant
                n == es.len(),
                es == self.category_dirs.entries_spec(),
                i <= n,
                cc@ == c@,
                c@.len() > 0,
                category matches Some(c0) && c@ == trim(c0@),
                first_named(es, c@) == first_named(es.skip(i as int), c@),
            decreases n - i,
        {
            let (k, v) = self.category_dirs.entry(i);
            assert(es.skip(i as int)[0] == es[i as int]);
            assert(es.skip(i as int).drop_first() =~= es.skip(i as int + 1));
            let kc = chars_of(k.as_str());
            if eq_ignore_case_chars(kc.as_slice(), cc.as_slice()) {
                assert(first_named(es.skip(i as int), c@) == Some(es[i as int].1));
                return v.clone();
            }
            i = i + 1;
        }
        self.download_dir.clone()
    }
}

/// The settings file in the application's configuration directory.
pub fn default_settings_path() -> (path: String)
    ensures
        exists|base: Option<String>|
            path@ == path_joined(path_joined(or_current(base), "loki-dm"@), "settings.toml"@),
{
    let dir = app_config_dir();
    join_path(dir.as_str(), "settings.toml")
}

} // verus!
