//! The download queue: items with their category, priority and status, the
//! rules that sort URLs into categories, and the merge of a queue that
//! another process wrote.
use vstd::prelude::*;

use crate::config::{
    clone_opt_string, is_default_config, same_config, strs_view, DownloadConfig,
};
use crate::metadata::now_unix_ms;
use crate::paths::{app_config_dir, default_download_dir, join_path, or_current, path_joined};
use crate::strmap::StrMap;
use crate::text::{
    chars_eq, chars_of, contains_chars, contains_seq, eq_ignore_case, eq_ignore_case_chars,
    lower_chars, lower_seq, string_of, strip_end_char, strip_end_char_chars, trim, trim_chars,
    trim_str,
};
use crate::urls::{
    default_filename, default_filename_of, extension_from_url, host_of, parse_url, url_extension,
    url_host, url_parsed,
};

verus! {

/// The category a download is filed under.
#[derive(Debug, Clone, Copy, PartialEq, Eq, Structural)]
pub enum DownloadCategory {
    Music,
    Video,
    Programs,
    Documents,
    Compressed,
    Other,
}

/// Display name of a category.
pub open spec fn category_name(c: DownloadCategory) -> Seq<char> {
    match c {
        DownloadCategory::Music => "Music"@,
        DownloadCategory::Video => "Video"@,
        DownloadCategory::Programs => "Programs"@,
        DownloadCategory::Documents => "Documents"@,
        DownloadCategory::Compressed => "Compressed"@,
        DownloadCategory::Other => "Other"@,
    }
}

/// The category a lower-cased name denotes; unknown names are `Other`.
pub open spec fn category_of_lower(name: Seq<char>) -> DownloadCategory {
    if name == "music"@ {
        DownloadCategory::Music
    } else if name == "video"@ {
        DownloadCategory::Video
    } else if name == "programs"@ {
        DownloadCategory::Programs
    } else if name == "documents"@ {
        DownloadCategory::Documents
    } else if name == "compressed"@ {
        DownloadCategory::Compressed
    } else {
        DownloadCategory::Other
    }
}

/// The category a name denotes, ignoring ASCII case.
pub open spec fn category_named(name: Seq<char>) -> DownloadCategory {
    category_of_lower(lower_seq(name))
}

impl DownloadCategory {
    /// The category's display name.
    pub fn as_str(&self) -> (s: &'static str)
        ensures
            s@ == category_name(*self),
    {
        match self {
            DownloadCategory::Music => "Music",
            DownloadCategory::Video => "Video",
            DownloadCategory::Programs => "Programs",
            DownloadCategory::Documents => "Documents",
            DownloadCategory::Compressed => "Compressed",
            DownloadCategory::Other => "Other",
        }
    }
}

/// Parses a category name, ignoring ASCII case; unknown names give `Other`.
pub fn parse_category(raw: &str) -> (c: DownloadCategory)
    ensures
        c == category_named(raw@),
{
    let l = lower_chars(chars_of(raw).as_slice());
    if chars_eq(l.as_slice(), chars_of("music").as_slice()) {
        DownloadCategory::Music
    } else if chars_eq(l.as_slice(), chars_of("video").as_slice()) {
        DownloadCategory::Video
    } else if chars_eq(l.as_slice(), chars_of("programs").as_slice()) {
        DownloadCategory::Programs
    } else if chars_eq(l.as_slice(), chars_of("documents").as_slice()) {
        DownloadCategory::Documents
    } else if chars_eq(l.as_slice(), chars_of("compressed").as_slice()) {
        DownloadCategory::Compressed
    } else {
        DownloadCategory::Other
    }
}

/// Where a queue item stands.
#[derive(Debug, Clone, Copy, PartialEq, Eq, Structural)]
pub enum QueueItemStatus {
    Queued,
    Scheduled,
    Running,
    Completed,
    Failed,
    Cancelled,
}

/// Running, completed, failed and cancelled items keep their local status
/// when a queue from disk is merged in.
pub open spec fn keeps_local_state(s: QueueItemStatus) -> bool {
    s is Running || s is Completed || s is Failed || s is Cancelled
}

/// Completed, failed and cancelled items are finished.
pub open spec fn is_terminal(s: QueueItemStatus) -> bool {
    s is Completed || s is Failed || s is Cancelled
}

/// Queued and scheduled items wait to be started.
pub open spec fn is_pending(s: QueueItemStatus) -> bool {
    s is Queued || s is Scheduled
}

/// Whether a merge keeps the local status and error of an item in `status`.
pub fn should_preserve_local_state(status: &QueueItemStatus) -> (r: bool)
    ensures
        r == keeps_local_state(*status),
{
    match status {
        QueueItemStatus::Running | QueueItemStatus::Completed | QueueItemStatus::Failed
        | QueueItemStatus::Cancelled => true,
        _ => false,
    }
}

/// Whether `status` is final.
pub fn is_terminal_status(status: &QueueItemStatus) -> (r: bool)
    ensures
        r == is_terminal(*status),
{
    match status {
        QueueItemStatus::Completed | QueueItemStatus::Failed | QueueItemStatus::Cancelled => true,
        _ => false,
    }
}

/// How urgently an item should start.
#[derive(Debug, Clone, Copy, PartialEq, Eq, Structural, PartialOrd, Ord)]
pub enum QueuePriority {
    Low,
    Normal,
    High,
    Critical,
}

impl Default for QueuePriority {
    fn default() -> (p: Self)
        ensures
            p == QueuePriority::Normal,
    {
        QueuePriority::Normal
    }
}

/// Rank of a priority: higher starts first.
pub open spec fn priority_rank(p: QueuePriority) -> u8 {
    match p {
        QueuePriority::Low => 0,
        QueuePriority::Normal => 1,
        QueuePriority::High => 2,
        QueuePriority::Critical => 3,
    }
}

/// Display name of a priority.
pub open spec fn priority_name(p: QueuePriority) -> Seq<char> {
    match p {
        QueuePriority::Low => "Low"@,
        QueuePriority::Normal => "Normal"@,
        QueuePriority::High => "High"@,
        QueuePriority::Critical => "Critical"@,
    }
}

/// The priority a lower-cased word denotes.
pub open spec fn priority_of_lower(w: Seq<char>) -> Option<QueuePriority> {
    if w == "low"@ {
        Some(QueuePriority::Low)
    } else if w == "normal"@ || w == "default"@ {
        Some(QueuePriority::Normal)
    } else if w == "high"@ {
        Some(QueuePriority::High)
    } else if w == "critical"@ || w == "urgent"@ {
        Some(QueuePriority::Critical)
    } else {
        None
    }
}

/// The priority a text names, ignoring surrounding blanks and ASCII case.
pub open spec fn priority_named(raw: Seq<char>) -> Option<QueuePriority> {
    priority_of_lower(lower_seq(trim(raw)))
}

impl QueuePriority {
    /// The priority's display name.
    pub fn as_str(self) -> (s: &'static str)
        ensures
            s@ == priority_name(self),
    {
        match self {
            QueuePriority::Low => "Low",
            QueuePriority::Normal => "Normal",
            QueuePriority::High => "High",
            QueuePriority::Critical => "Critical",
        }
    }

    /// The rank: `Low` 0, `Normal` 1, `High` 2, `Critical` 3.
    pub fn rank(self) -> (r: u8)
        ensures
            r == priority_rank(self),
    {
        match self {
            QueuePriority::Low => 0,
            QueuePriority::Normal => 1,
            QueuePriority::High => 2,
            QueuePriority::Critical => 3,
        }
    }

    /// Reads `low`, `normal` or `default`, `high`, `critical` or `urgent`,
    /// ignoring surrounding blanks and ASCII case.
    pub fn parse(raw: &str) -> (p: Option<QueuePriority>)
        ensures
            p == priority_named(raw@),
    {
        let w = lower_chars(trim_chars(chars_of(raw).as_slice()).as_slice());
        let ws = w.as_slice();
        if chars_eq(ws, chars_of("low").as_slice()) {
            Some(QueuePriority::Low)
        } else if chars_eq(ws, chars_of("normal").as_slice()) || chars_eq(
            ws,
            chars_of("default").as_slice(),
        ) {
            Some(QueuePriority::Normal)
        } else if chars_eq(ws, chars_of("high").as_slice()) {
            Some(QueuePriority::High)
        } else if chars_eq(ws, chars_of("critical").as_slice()) || chars_eq(
            ws,
            chars_of("urgent").as_slice(),
        ) {
            Some(QueuePriority::Critical)
        } else {
            None
        }
    }
}

/// Priority names read back: each display name parses to its priority,
/// surrounding blanks do not matter, and texts that agree up to ASCII case
/// (once trimmed) parse alike.
pub proof fn lemma_priority_names(p: QueuePriority, a: Seq<char>, b: Seq<char>)
    ensures
        priority_named(priority_name(p)) == Some(p),
        priority_named(crate::text::trim(a)) == priority_named(a),
        eq_ignore_case(crate::text::trim(a), crate::text::trim(b)) ==> priority_named(a) == priority_named(b),
{
    crate::text::lemma_trim_idem(a);
    reveal_strlit("Low");
    reveal_strlit("Normal");
    reveal_strlit("High");
    reveal_strlit("Critical");
    reveal_strlit("low");
    reveal_strlit("normal");
    reveal_strlit("high");
    reveal_strlit("critical");
    reveal_strlit("default");
    reveal_strlit("urgent");
    let n = priority_name(p);
    assert(crate::text::trim_start(n) == n);
    assert(crate::text::trim_end(n) == n);
    assert(crate::text::trim(n) == n);
    match p {
        QueuePriority::Low => {
            assert(lower_seq(n) =~= "low"@);
            assert(priority_of_lower("low"@) == Some(p));
        },
        QueuePriority::Normal => {
            assert(lower_seq(n) =~= "normal"@);
            assert(priority_of_lower("normal"@) == Some(p));
        },
        QueuePriority::High => {
            assert(lower_seq(n) =~= "high"@);
            assert(priority_of_lower("high"@) == Some(p));
        },
        QueuePriority::Critical => {
            assert(lower_seq(n) =~= "critical"@);
            assert(priority_of_lower("critical"@) == Some(p));
        },
    }
}

/// A rule that files URLs under a category, by host or by extension.
#[derive(Debug, Clone, PartialEq, Eq)]
pub struct CategoryRule {
    pub name: String,
    pub category: DownloadCategory,
    pub extensions: Vec<String>,
    pub host_contains: Option<String>,
}

/// `rule` matches `url`: the URL's host contains the rule's host pattern,
/// or the URL's extension equals one of the rule's extensions, ignoring
/// ASCII case.
pub open spec fn rule_applies(url: Seq<char>, rule: CategoryRule) -> bool {
    ||| (rule.host_contains matches Some(h) && url_host(url) matches Some(host) && contains_seq(
        host,
        h@,
    ))
    ||| (url_extension(url) matches Some(e) && exists|i: int|
        0 <= i < rule.extensions@.len() && eq_ignore_case(#[trigger] rule.extensions@[i]@, e))
}

/// The category of the first rule that matches `url`, or `Other`.
pub open spec fn classify_with(url: Seq<char>, rules: Seq<CategoryRule>) -> DownloadCategory
    decreases rules.len(),
{
    if rules.len() == 0 {
        DownloadCategory::Other
    } else if rule_applies(url, rules[0]) {
        rules[0].category
    } else {
        classify_with(url, rules.drop_first())
    }
}

/// Whether some extension of `exts` equals `e`, ignoring ASCII case.
fn any_extension_matches(exts: &Vec<String>, e: &[char]) -> (r: bool)
    ensures
        r == exists|i: int| 0 <= i < exts@.len() && eq_ignore_case(#[trigger] exts@[i]@, e@),
{
    let mut i: usize = 0;
    while i < exts.len()
        invariant
            i <= exts@.len(),
            forall|j: int| 0 <= j < i ==> !eq_ignore_case(#[trigger] exts@[j]@, e@),
        decreases exts.len() - i,
    {
        let c = chars_of(exts[i].as_str());
        if eq_ignore_case_chars(c.as_slice(), e) {
            return true;
        }
        i = i + 1;
    }
    false
}

/// Whether `rule` files `url` under its category.
fn rule_matches(url: &str, rule: &CategoryRule) -> (r: bool)
    ensures
        r == rule_applies(url@, *rule),
{
    if let Some(pattern) = &rule.host_contains {
        if let Some(host) = host_of(url) {
            let hc = chars_of(host.as_str());
            let pc = chars_of(pattern.as_str());
            if contains_chars(hc.as_slice(), pc.as_slice()) {
                return true;
            }
        }
    }
    match extension_from_url(url) {
        Some(e) => any_extension_matches(&rule.extensions, e.as_slice()),
        None => false,
    }
}

/// The category of the first rule that matches `url`, or `Other`.
pub fn classify_url(url: &str, rules: &[CategoryRule]) -> (c: DownloadCategory)
    ensures
        c == classify_with(url@, rules@),
{
    let mut i: usize = 0;
    assert(rules@.skip(0) =~= rules@);
    while i < rules.len()
        invariant
            i <= rules@.len(),
            classify_with(url@, rules@) == classify_with(url@, rules@.skip(i as int)),
        decreases rules.len() - i,
    {
        let ghost rest = rules@.skip(i as int);
        assert(rest[0] == rules@[i as int]);
        assert(rest.drop_first() =~= rules@.skip(i as int + 1));
        if rule_matches(url, &rules[i]) {
            return rules[i].category;
        }
        i = i + 1;
    }
    DownloadCategory::Other
}

/// One download in the queue.
#[derive(Debug)]
pub struct QueueItem {
    pub id: u64,
    pub config: DownloadConfig,
    pub category: DownloadCategory,
    pub priority: QueuePriority,
    pub status: QueueItemStatus,
    pub added_at_unix_ms: u128,
    pub last_error: Option<String>,
}

/// Two queue items that hold the same values.
pub open spec fn same_item(a: QueueItem, b: QueueItem) -> bool {
    &&& a.id == b.id
    &&& same_config(a.config, b.config)
    &&& a.category == b.category
    &&& a.priority == b.priority
    &&& a.status == b.status
    &&& a.added_at_unix_ms == b.added_at_unix_ms
    &&& a.last_error == b.last_error
}

impl Clone for QueueItem {
    fn clone(&self) -> (r: Self)
        ensures
            same_item(r, *self),
    {
        QueueItem {
            id: self.id,
            config: self.config.clone(),
            category: self.category,
            priority: self.priority,
            status: self.status,
            added_at_unix_ms: self.added_at_unix_ms,
            last_error: clone_opt_string(&self.last_error),
        }
    }
}

/// The whole queue: the next id to hand out, the items in insertion order,
/// and the category rules.
#[derive(Debug)]
pub struct QueueState {
    pub next_id: u64,
    pub items: Vec<QueueItem>,
    pub rules: Vec<CategoryRule>,
}

/// What a merge of an on-disk queue did.
#[derive(Debug, Clone, Copy, PartialEq, Eq, Structural)]
pub struct QueueMergeReport {
    pub new_items_added: usize,
    pub existing_items_merged: usize,
    pub rules_replaced: bool,
}

impl Default for QueueMergeReport {
    fn default() -> (r: Self)
        ensures
            r.new_items_added == 0,
            r.existing_items_merged == 0,
            !r.rules_replaced,
    {
        QueueMergeReport { new_items_added: 0, existing_items_merged: 0, rules_replaced: false }
    }
}

/// Whether an add went through, and under which id.
#[derive(Debug, Clone, Copy, PartialEq, Eq, Structural)]
pub enum QueueAddOutcome {
    Added { id: u64 },
    Duplicate { existing_id: u64 },
}

/// The rules the queue starts with: one per category, by extension.
pub open spec fn default_rules_table() -> Seq<(Seq<char>, DownloadCategory, Seq<Seq<char>>)> {
    seq![
        ("music-ext"@, DownloadCategory::Music, seq!["mp3"@, "flac"@, "wav"@, "aac"@, "ogg"@, "m4a"@]),
        ("video-ext"@, DownloadCategory::Video, seq!["mp4"@, "mkv"@, "mov"@, "webm"@, "avi"@, "m3u8"@, "ts"@]),
        ("program-ext"@, DownloadCategory::Programs, seq!["exe"@, "msi"@, "pkg"@, "dmg"@, "appimage"@, "deb"@, "rpm"@]),
        ("docs-ext"@, DownloadCategory::Documents, seq!["pdf"@, "doc"@, "docx"@, "xls"@, "xlsx"@, "ppt"@, "txt"@, "md"@]),
        ("archive-ext"@, DownloadCategory::Compressed, seq!["zip"@, "rar"@, "7z"@, "tar"@, "gz"@, "xz"@, "bz2"@]),
    ]
}

/// `rule` is the extension rule described by `t`.
pub open spec fn rule_is(rule: CategoryRule, t: (Seq<char>, DownloadCategory, Seq<Seq<char>>)) -> bool {
    &&& rule.name@ == t.0
    &&& rule.category == t.1
    &&& strs_view(rule.extensions@) == t.2
    &&& rule.host_contains is None
}

/// `rules` are the default rules, in order.
pub open spec fn is_default_rules(rules: Seq<CategoryRule>) -> bool {
    &&& rules.len() == default_rules_table().len()
    &&& forall|i: int| 0 <= i < rules.len() ==> rule_is(#[trigger] rules[i], default_rules_table()[i])
}

/// The default rules, as a list.
pub fn default_category_rules() -> (rules: Vec<CategoryRule>)
    ensures
        is_default_rules(rules@),
{
    let mut rules: Vec<CategoryRule> = Vec::new();
    let mut e0: Vec<String> = Vec::new();
    e0.push("mp3".to_owned());
    e0.push("flac".to_owned());
    e0.push("wav".to_owned());
    e0.push("aac".to_owned());
    e0.push("ogg".to_owned());
    e0.push("m4a".to_owned());
    assert(strs_view(e0@) =~= default_rules_table()[0].2);
    rules.push(
        CategoryRule {
            name: "music-ext".to_owned(),
            category: DownloadCategory::Music,
            extensions: e0,
            host_contains: None,
        },
    );
    let mut e1: Vec<String> = Vec::new();
    e1.push("mp4".to_owned());
    e1.push("mkv".to_owned());
    e1.push("mov".to_owned());
    e1.push("webm".to_owned());
    e1.push("avi".to_owned());
    e1.push("m3u8".to_owned());
    e1.push("ts".to_owned());
    assert(strs_view(e1@) =~= default_rules_table()[1].2);
    rules.push(
        CategoryRule {
            name: "video-ext".to_owned(),
            category: DownloadCategory::Video,
            extensions: e1,
            host_contains: None,
        },
    );
    let mut e2: Vec<String> = Vec::new();
    e2.push("exe".to_owned());
    e2.push("msi".to_owned());
    e2.push("pkg".to_owned());
    e2.push("dmg".to_owned());
    e2.push("appimage".to_owned());
    e2.push("deb".to_owned());
    e2.push("rpm".to_owned());
    assert(strs_view(e2@) =~= default_rules_table()[2].2);
    rules.push(
        CategoryRule {
            name: "program-ext".to_owned(),
            category: DownloadCategory::Programs,
            extensions: e2,
            host_contains: None,
        },
    );
    let mut e3: Vec<String> = Vec::new();
    e3.push("pdf".to_owned());
    e3.push("doc".to_owned());
    e3.push("docx".to_owned());
    e3.push("xls".to_owned());
    e3.push("xlsx".to_owned());
    e3.push("ppt".to_owned());
    e3.push("txt".to_owned());
    e3.push("md".to_owned());
    assert(strs_view(e3@) =~= default_rules_table()[3].2);
    rules.push(
        CategoryRule {
            name: "docs-ext".to_owned(),
            category: DownloadCategory::Documents,
            extensions: e3,
            host_contains: None,
        },
    );
    let mut e4: Vec<String> = Vec::new();
    e4.push("zip".to_owned());
    e4.push("rar".to_owned());
    e4.push("7z".to_owned());
    e4.push("tar".to_owned());
    e4.push("gz".to_owned());
    e4.push("xz".to_owned());
    e4.push("bz2".to_owned());
    assert(strs_view(e4@) =~= default_rules_table()[4].2);
    rules.push(
        CategoryRule {
            name: "archive-ext".to_owned(),
            category: DownloadCategory::Compressed,
            extensions: e4,
            host_contains: None,
        },
    );
    assert(is_default_rules(rules@));
    rules
}

impl Default for QueueState {
    fn default() -> (q: Self)
        ensures
            q.next_id == 1,
            q.items@.len() == 0,
            is_default_rules(q.rules@),
    {
        QueueState { next_id: 1, items: Vec::new(), rules: default_category_rules() }
    }
}

/// `n + 1`, saturating at `u64::MAX`.
pub open spec fn sat_inc(n: u64) -> u64 {
    if n == u64::MAX {
        n
    } else {
        (n + 1) as u64
    }
}

/// The category an added download is filed under: the one its
/// configuration names, else the one the rules give its URL.
pub open spec fn category_for(config: DownloadConfig, rules: Seq<CategoryRule>) -> DownloadCategory {
    match config.category {
        Some(c) => category_named(c@),
        None => classify_with(config.url@, rules),
    }
}

/// The output path an added download gets: its own, or, when that is
/// empty, the file name its URL suggests inside the default download
/// directory.
pub open spec fn output_path_for(path: Seq<char>, config: DownloadConfig) -> bool {
    if config.output_path@.len() == 0 {
        exists|base: Option<String>|
            path == path_joined(or_current(base), default_filename_of(config.url@))
    } else {
        path == config.output_path@
    }
}

/// `item` is what adding `config` with `priority` under `id` puts in a queue
/// with `rules`: queued, without error, filed under its category, with the
/// category's name and the output path filled in and every other setting kept.
pub open spec fn queued_from(
    item: QueueItem,
    config: DownloadConfig,
    priority: QueuePriority,
    rules: Seq<CategoryRule>,
    id: u64,
) -> bool {
    let cat = category_for(config, rules);
    &&& item.id == id
    &&& item.category == cat
    &&& item.priority == priority
    &&& item.status == QueueItemStatus::Queued
    &&& item.last_error is None
    &&& output_path_for(item.config.output_path@, config)
    &&& item.config.category matches Some(c) && c@ == category_name(cat)
    &&& item.config == (DownloadConfig {
        output_path: item.config.output_path,
        category: item.config.category,
        ..config
    })
}

/// `after` is `before` with `config` added under the next id.
pub open spec fn enqueued(
    before: QueueState,
    after: QueueState,
    config: DownloadConfig,
    priority: QueuePriority,
    id: u64,
) -> bool {
    &&& id == before.next_id
    &&& after.next_id == sat_inc(before.next_id)
    &&& after.rules == before.rules
    &&& after.items@ == before.items@.push(after.items@.last())
    &&& queued_from(after.items@.last(), config, priority, before.rules@, id)
}

/// The text two URLs are compared by when looking for duplicates: the URL
/// without its fragment and trailing slashes, lower-cased, when it parses;
/// else the trimmed text, lower-cased.
pub open spec fn compare_key(raw: Seq<char>) -> Seq<char> {
    let t = trim(raw);
    match url_parsed(t) {
        Some(p) => lower_seq(strip_end_char(p.4, '/')),
        None => lower_seq(t),
    }
}

/// `items[i]` is unfinished and has the same URL as `url` once both are
/// normalized.
pub open spec fn duplicate_at(items: Seq<QueueItem>, url: Seq<char>, i: int) -> bool {
    &&& 0 <= i < items.len()
    &&& !is_terminal(items[i].status)
    &&& eq_ignore_case(compare_key(items[i].config.url@), compare_key(url))
}

/// Once a download is queued, its URL counts as a duplicate: adding it
/// again with duplicates prevented is refused.
pub proof fn lemma_queued_url_is_duplicate(
    before: QueueState,
    after: QueueState,
    config: DownloadConfig,
    priority: QueuePriority,
    id: u64,
)
    requires
        enqueued(before, after, config, priority, id),
    ensures
        has_duplicate(after.items@, config.url@),
{
    let i = after.items@.len() - 1;
    assert(after.items@[i] == after.items@.last());
    assert(duplicate_at(after.items@, config.url@, i));
}

/// `i` is the first index of a duplicate of `url`.
pub open spec fn first_duplicate(items: Seq<QueueItem>, url: Seq<char>, i: int) -> bool {
    &&& duplicate_at(items, url, i)
    &&& forall|j: int| 0 <= j < i ==> !duplicate_at(items, url, j)
}

/// Some item is an unfinished duplicate of `url`.
pub open spec fn has_duplicate(items: Seq<QueueItem>, url: Seq<char>) -> bool {
    exists|i: int| duplicate_at(items, url, i)
}

/// Surrounding blanks do not matter to the duplicate check: a URL and its
/// trimmed text find the same duplicates, the first one included.
pub proof fn lemma_duplicate_ignores_blanks(items: Seq<QueueItem>, url: Seq<char>, i: int)
    ensures
        compare_key(trim(url)) == compare_key(url),
        duplicate_at(items, trim(url), i) == duplicate_at(items, url, i),
        has_duplicate(items, trim(url)) == has_duplicate(items, url),
        first_duplicate(items, trim(url), i) == first_duplicate(items, url, i),
{
    crate::text::lemma_trim_idem(url);
    assert(compare_key(trim(url)) == compare_key(url));
    assert forall|j: int| #[trigger] duplicate_at(items, trim(url), j) == duplicate_at(items, url, j) by {}
    if has_duplicate(items, url) {
        let j = choose|j: int| duplicate_at(items, url, j);
        assert(duplicate_at(items, trim(url), j));
    }
    if has_duplicate(items, trim(url)) {
        let j = choose|j: int| duplicate_at(items, trim(url), j);
        assert(duplicate_at(items, url, j));
    }
    if first_duplicate(items, url, i) {
        assert forall|j: int| 0 <= j < i implies !duplicate_at(items, trim(url), j) by {
            assert(!duplicate_at(items, url, j));
        }
    }
    if first_duplicate(items, trim(url), i) {
        assert forall|j: int| 0 <= j < i implies !duplicate_at(items, url, j) by {
            assert(!duplicate_at(items, trim(url), j));
        }
    }
}

/// The comparison key of a URL text.
fn normalize_url_for_compare(raw: &str) -> (key: Vec<char>)
    ensures
        key@ == compare_key(raw@),
{
    let trimmed = trim_str(raw);
    match parse_url(trimmed.as_str()) {
        Ok(p) => {
            let c = chars_of(p.without_fragment.as_str());
            lower_chars(strip_end_char_chars(c.as_slice(), '/').as_slice())
        },
        Err(_) => lower_chars(chars_of(trimmed.as_str()).as_slice()),
    }
}

/// The pieces of `s` between newlines (`split('\n')`): every newline ends
/// a line, and the text after the last one is the last line.
pub open spec fn split_lines(s: Seq<char>) -> Seq<Seq<char>>
    decreases s.len(),
{
    if s.len() == 0 {
        seq![Seq::<char>::empty()]
    } else {
        let ls = split_lines(s.drop_last());
        if s.last() == '\n' {
            ls.push(Seq::<char>::empty())
        } else {
            ls.update(ls.len() - 1, ls.last().push(s.last()))
        }
    }
}

/// A trimmed line that names a URL: not empty and not a `#` comment.
pub open spec fn is_url_line(t: Seq<char>) -> bool {
    t.len() > 0 && t[0] != '#'
}

/// The trimmed lines that name URLs, in order.
pub open spec fn url_lines_of(lines: Seq<Seq<char>>) -> Seq<Seq<char>>
    decreases lines.len(),
{
    if lines.len() == 0 {
        Seq::empty()
    } else {
        let rest = url_lines_of(lines.drop_last());
        if is_url_line(trim(lines.last())) {
            rest.push(trim(lines.last()))
        } else {
            rest
        }
    }
}

/// The URLs a text lists, one per line; blank lines and `#` comments are
/// skipped and each line is trimmed.
pub open spec fn url_lines(text: Seq<char>) -> Seq<Seq<char>> {
    url_lines_of(split_lines(text))
}

proof fn lemma_split_lines_is_split_on(s: Seq<char>)
    ensures
        split_lines(s) == crate::text::split_on(s, '\n'),
    decreases s.len(),
{
    if s.len() > 0 {
        lemma_split_lines_is_split_on(s.drop_last());
    }
}

/// The URLs a line contributes: its trimmed text, when that is not blank
/// and not a `#` comment.
pub open spec fn line_urls(l: Seq<char>) -> Seq<Seq<char>> {
    if trim(l).len() > 0 && trim(l)[0] != '#' {
        seq![trim(l)]
    } else {
        Seq::empty()
    }
}

/// Every line counts, the last one too: a text that is one line gives that
/// line's URL, adding a line after a newline adds that line's URL, and a
/// trailing newline changes nothing.
pub proof fn lemma_url_lines_by_line(t: Seq<char>, l: Seq<char>)
    requires
        forall|i: int| 0 <= i < l.len() ==> l[i] != '\n',
    ensures
        url_lines(l) == line_urls(l),
        url_lines(t + seq!['\n'] + l) == url_lines(t) + line_urls(l),
        url_lines(t + seq!['\n']) == url_lines(t),
{
    lemma_split_lines_is_split_on(l);
    crate::text::lemma_split_on_single(l, '\n');
    assert(seq![l].drop_last() =~= Seq::<Seq<char>>::empty());
    assert(split_lines(l) == seq![l]);
    assert(url_lines_of(seq![l].drop_last()) == Seq::<Seq<char>>::empty());
    assert(seq![l].last() == l);
    assert(url_lines(l) =~= line_urls(l));
    lemma_split_lines_is_split_on(t + seq!['\n'] + l);
    lemma_split_lines_is_split_on(t);
    crate::text::lemma_split_on_append(t, l, '\n');
    assert(split_lines(t).push(l).drop_last() =~= split_lines(t));
    assert(url_lines(t + seq!['\n'] + l) =~= url_lines(t) + line_urls(l));
    let e = Seq::<char>::empty();
    lemma_split_lines_is_split_on(t + seq!['\n'] + e);
    crate::text::lemma_split_on_append(t, e, '\n');
    assert(t + seq!['\n'] + e =~= t + seq!['\n']);
    assert(split_lines(t).push(e).drop_last() =~= split_lines(t));
    assert(trim(e) =~= e);
    assert(url_lines(t + seq!['\n']) =~= url_lines(t));
}

proof fn lemma_split_lines_nonempty(s: Seq<char>)
    ensures
        split_lines(s).len() >= 1,
    decreases s.len(),
{
    if s.len() > 0 {
        lemma_split_lines_nonempty(s.drop_last());
    }
}

/// The URLs listed in `text`, one per line: each line trimmed, blank lines
/// and lines starting with `#` skipped.
pub fn urls_from_text(text: &str) -> (urls: Vec<String>)
    ensures
        strs_view(urls@) == url_lines(text@),
{
    let cs = chars_of(text);
    let mut out: Vec<String> = Vec::new();
    let mut current: Vec<char> = Vec::new();
    let ghost mut done: Seq<Seq<char>> = Seq::empty();
    let mut i: usize = 0;
    assert(cs@.take(0) =~= Seq::<char>::empty());
    assert(split_lines(Seq::<char>::empty()) == done.push(current@));
    while i < cs.len()
        invariant
            i <= cs@.len(),
            cs@ == text@,
            split_lines(cs@.take(i as int)) == done.push(current@),
            strs_view(out@) == url_lines_of(done),
        decreases cs.len() - i,
    {
        let c = cs[i];
        let ghost pre = cs@.take(i as int);
        assert(cs@.take(i as int + 1).drop_last() =~= pre);
        assert(cs@.take(i as int + 1).last() == c);
        if c == '\n' {
            let t = trim_chars(current.as_slice());
            assert(done.push(current@).drop_last() =~= done);
            if t.len() > 0 && t[0] != '#' {
                out.push(string_of(t.as_slice()));
                assert(strs_view(out@) =~= url_lines_of(done.push(current@)));
            } else {
                assert(url_lines_of(done.push(current@)) == url_lines_of(done));
            }
            proof {
                done = done.push(current@);
            }
            current = Vec::new();
            assert(split_lines(cs@.take(i as int + 1)) =~= done.push(current@));
        } else {
            let ghost before = current@;
            current.push(c);
            assert(done.push(before).update(done.len() as int, before.push(c)) =~= done.push(
                current@,
            ));
        }
        i = i + 1;
    }
    assert(cs@.take(cs@.len() as int) =~= cs@);
    let t = trim_chars(current.as_slice());
    assert(done.push(current@).drop_last() =~= done);
    if t.len() > 0 && t[0] != '#' {
        out.push(string_of(t.as_slice()));
        assert(strs_view(out@) =~= url_lines_of(done.push(current@)));
    }
    out
}

/// `c` is the configuration `add_url` builds for `url`: the URL, its file
/// name inside `dir` (or the default download directory), `ic` initial
/// connections, at least 8 at most, one at least, and defaults otherwise.
pub open spec fn url_config(c: DownloadConfig, url: Seq<char>, dir: Option<Seq<char>>, ic: u16) -> bool {
    &&& c.url@ == url
    &&& match dir {
        Some(d) => c.output_path@ == path_joined(d, default_filename_of(url)),
        None => exists|base: Option<String>|
            c.output_path@ == path_joined(or_current(base), default_filename_of(url)),
    }
    &&& c.initial_connections == ic
    &&& c.max_connections == if ic > 8 {
        ic
    } else {
        8
    }
    &&& c.min_connections == 1
    &&& c.mirror_urls@.len() == 0
    &&& c.min_segment_size == 524288
    &&& c.max_retries == 6
    &&& c.speed_limit_bps is None
    &&& c.hour_quota_mb is None
    &&& !c.overwrite
    &&& c.headers@ == Map::<Seq<char>, Seq<char>>::empty()
    &&& c.proxy is None
    &&& c.auth is None
    &&& c.user_agent is None
    &&& c.category is None
    &&& c.av_hook_command is None
}

/// The text of an optional directory.
pub open spec fn dir_view(dir: Option<&str>) -> Option<Seq<char>> {
    match dir {
        Some(d) => Some(d@),
        None => None,
    }
}

/// `item` is what `add_url` puts in a queue with `rules` for `url` under `id`.
pub open spec fn url_item(
    item: QueueItem,
    url: Seq<char>,
    dir: Option<Seq<char>>,
    ic: u16,
    rules: Seq<CategoryRule>,
    id: u64,
) -> bool {
    exists|c: DownloadConfig|
        url_config(c, url, dir, ic) && queued_from(item, c, QueuePriority::Normal, rules, id)
}

/// `n + k`, saturating at `u64::MAX`.
pub open spec fn sat_add(n: u64, k: nat) -> u64 {
    if n + k > u64::MAX {
        u64::MAX
    } else {
        (n + k) as u64
    }
}

/// `i` is the first index of an item with `id`.
pub open spec fn first_with_id(items: Seq<QueueItem>, id: u64, i: int) -> bool {
    &&& 0 <= i < items.len()
    &&& items[i].id == id
    &&& forall|j: int| 0 <= j < i ==> items[j].id != id
}

/// Some item has `id`.
pub open spec fn has_id(items: Seq<QueueItem>, id: u64) -> bool {
    exists|i: int| 0 <= i < items.len() && #[trigger] items[i].id == id
}

/// The items without those that have `id`, in order.
pub open spec fn without_id(items: Seq<QueueItem>, id: u64) -> Seq<QueueItem>
    decreases items.len(),
{
    if items.len() == 0 {
        items
    } else {
        let rest = without_id(items.drop_last(), id);
        if items.last().id == id {
            rest
        } else {
            rest.push(items.last())
        }
    }
}

/// Items none of which has `id` are left alone by removing `id`.
proof fn lemma_without_absent_id(items: Seq<QueueItem>, id: u64)
    requires
        !has_id(items, id),
    ensures
        without_id(items, id) == items,
    decreases items.len(),
{
    if items.len() > 0 {
        let rest = items.drop_last();
        assert(!has_id(rest, id)) by {
            if has_id(rest, id) {
                let i = choose|i: int| 0 <= i < rest.len() && #[trigger] rest[i].id == id;
                assert(items[i].id == id);
            }
        }
        lemma_without_absent_id(rest, id);
        assert(items[items.len() - 1].id != id);
        assert(rest.push(items.last()) =~= items);
    }
}

/// Removing a download right after adding it gives back the queue's items:
/// when no item had the new id, taking that id out of the grown queue
/// leaves exactly the items that were there before.
pub proof fn lemma_remove_undoes_add(
    before: QueueState,
    after: QueueState,
    config: DownloadConfig,
    priority: QueuePriority,
    id: u64,
)
    requires
        enqueued(before, after, config, priority, id),
        !has_id(before.items@, id),
    ensures
        without_id(after.items@, id) == before.items@,
{
    lemma_without_absent_id(before.items@, id);
    assert(after.items@.drop_last() =~= before.items@);
}

/// The queue file in the application's configuration directory.
pub fn default_queue_path() -> (path: String)
    ensures
        exists|base: Option<String>|
            path@ == path_joined(path_joined(or_current(base), "loki-dm"@), "queue.json"@),
{
    let dir = app_config_dir();
    join_path(dir.as_str(), "queue.json")
}

impl QueueState {
    /// The first unfinished item whose URL matches `url` once both are
    /// normalized.
    pub fn find_duplicate_non_terminal_url(&self, url: &str) -> (found: Option<&QueueItem>)
        ensures
            found is None <==> !has_duplicate(self.items@, url@),
            found matches Some(item) ==> exists|i: int|
                first_duplicate(self.items@, url@, i) && *item == self.items@[i],
    {
        let key = normalize_url_for_compare(url);
        let mut i: usize = 0;
        while i < self.items.len()
            invariant
                i <= self.items@.len(),
                key@ == compare_key(url@),
                forall|j: int| 0 <= j < i ==> !duplicate_at(self.items@, url@, j),
            decreases self.items.len() - i,
        {
            let item = &self.items[i];
            if !is_terminal_status(&item.status) {
                let other = normalize_url_for_compare(item.config.url.as_str());
                if eq_ignore_case_chars(other.as_slice(), key.as_slice()) {
                    assert(first_duplicate(self.items@, url@, i as int));
                    return Some(item);
                }
            }
            i = i + 1;
        }
        None
    }

    /// Adds a download unless `prevent_duplicates` is set and an unfinished
    /// item already has its URL; then the first such item's id is reported
    /// and the queue is left as it was.
    pub fn add_download_dedup(
        &mut self,
        config: DownloadConfig,
        priority: QueuePriority,
        prevent_duplicates: bool,
    ) -> (r: QueueAddOutcome)
        ensures
            prevent_duplicates && has_duplicate(old(self).items@, config.url@) ==> {
                &&& *final(self) == *old(self)
                &&& exists|i: int|
                    first_duplicate(old(self).items@, config.url@, i) && r
                        == (QueueAddOutcome::Duplicate { existing_id: old(self).items@[i].id })
            },
            !(prevent_duplicates && has_duplicate(old(self).items@, config.url@)) ==> {
                &&& r == (QueueAddOutcome::Added { id: old(self).next_id })
                &&& enqueued(*old(self), *final(self), config, priority, old(self).next_id)
            },
    {
        if prevent_duplicates {
            if let Some(existing) = self.find_duplicate_non_terminal_url(config.url.as_str()) {
                return QueueAddOutcome::Duplicate { existing_id: existing.id };
            }
        }
        let id = self.add_download_with_priority(config, priority);
        QueueAddOutcome::Added { id }
    }

    /// Adds `url` with normal priority, saved under its file name in
    /// `output_dir` or the default download directory.
    pub fn add_url(&mut self, url: &str, output_dir: Option<&str>, initial_connections: u16) -> (id: u64)
        ensures
            id == old(self).next_id,
            final(self).next_id == sat_inc(old(self).next_id),
            final(self).rules == old(self).rules,
            final(self).items@ == old(self).items@.push(final(self).items@.last()),
            url_item(
                final(self).items@.last(),
                url@,
                dir_view(output_dir),
                initial_connections,
                old(self).rules@,
                id,
            ),
    {
        let name = default_filename(url);
        let output_path = match output_dir {
            Some(d) => join_path(d, name.as_str()),
            None => {
                let dd = default_download_dir();
                join_path(dd.as_str(), name.as_str())
            },
        };
        let base = DownloadConfig::default();
        let config = DownloadConfig {
            url: url.to_owned(),
            output_path,
            initial_connections,
            max_connections: if initial_connections > 8 {
                initial_connections
            } else {
                8
            },
            min_connections: 1,
            ..base
        };
        let ghost c = config;
        assert(url_config(c, url@, dir_view(output_dir), initial_connections));
        self.add_download(config)
    }

    /// Adds every URL that `text` lists (see `urls_from_text`) as `add_url`
    /// does, and returns their ids in order.
    pub fn add_from_text(&mut self, text: &str, output_dir: Option<&str>, initial_connections: u16) -> (ids: Vec<u64>)
        ensures
            ids@.len() == url_lines(text@).len(),
            final(self).rules == old(self).rules,
            final(self).next_id == sat_add(old(self).next_id, ids@.len()),
            final(self).items@.len() == old(self).items@.len() + ids@.len(),
            final(self).items@.take(old(self).items@.len() as int) == old(self).items@,
            forall|k: int|
                0 <= k < ids@.len() ==> #[trigger] ids@[k] == sat_add(old(self).next_id, k as nat)
                    && url_item(
                    final(self).items@[old(self).items@.len() + k],
                    url_lines(text@)[k],
                    dir_view(output_dir),
                    initial_connections,
                    old(self).rules@,
                    ids@[k],
                ),
    {
        let urls = urls_from_text(text);
        let ghost lines = url_lines(text@);
        let ghost start = *self;
        let mut ids: Vec<u64> = Vec::new();
        let mut i: usize = 0;
        while i < urls.len()
            invariant
                i <= urls@.len(),
                strs_view(urls@) == lines,
                ids@.len() == i,
                self.rules == start.rules,
                self.next_id == sat_add(start.next_id, i as nat),
                self.items@.len() == start.items@.len() + i,
                self.items@.take(start.items@.len() as int) == start.items@,
                forall|k: int|
                    0 <= k < i ==> #[trigger] ids@[k] == sat_add(start.next_id, k as nat)
                        && url_item(
                        self.items@[start.items@.len() + k],
                        lines[k],
                        dir_view(output_dir),
                        initial_connections,
                        start.rules@,
                        ids@[k],
                    ),
            decreases urls.len() - i,
        {
            let ghost before = *self;
            assert(strs_view(urls@)[i as int] == urls@[i as int]@);
            let id = self.add_url(urls[i].as_str(), output_dir, initial_connections);
            ids.push(id);
            assert(self.items@.take(start.items@.len() as int) =~= start.items@) by {
                assert(self.items@.take(start.items@.len() as int) =~= before.items@.take(
                    start.items@.len() as int,
                ));
            }
            assert forall|k: int| 0 <= k < i + 1 implies #[trigger] ids@[k] == sat_add(
                start.next_id,
                k as nat,
            ) && url_item(
                self.items@[start.items@.len() + k],
                lines[k],
                dir_view(output_dir),
                initial_connections,
                start.rules@,
                ids@[k],
            ) by {
                if k < i {
                    assert(self.items@[start.items@.len() + k] == before.items@[start.items@.len()
                        + k]);
                }
            }
            i = i + 1;
        }
        ids
    }

    /// Removes every item with `id`; tells whether there was one.
    pub fn remove(&mut self, id: u64) -> (removed: bool)
        ensures
            removed == has_id(old(self).items@, id),
            final(self).items@ == without_id(old(self).items@, id),
            final(self).next_id == old(self).next_id,
            final(self).rules == old(self).rules,
    {
        let mut items: Vec<QueueItem> = Vec::new();
        std::mem::swap(&mut items, &mut self.items);
        let ghost all = items@;
        let mut kept: Vec<QueueItem> = Vec::new();
        let mut found = false;
        let mut i: usize = 0;
        assert(all.len() == items.len());
        while items.len() > 0
            invariant
                all.len() <= usize::MAX,
                i + items@.len() == all.len(),
                items@ == all.skip(i as int),
                kept@ == without_id(all.take(i as int), id),
                found == has_id(all.take(i as int), id),
            decreases items.len(),
        {
            let item = items.remove(0);
            assert(all.take(i as int + 1).drop_last() =~= all.take(i as int));
            assert(all.take(i as int + 1).last() == item);
            if item.id == id {
                found = true;
                assert(has_id(all.take(i as int + 1), id)) by {
                    assert(all.take(i as int + 1)[i as int].id == id);
                }
            } else {
                kept.push(item);
                assert(has_id(all.take(i as int + 1), id) == has_id(all.take(i as int), id)) by {
                    if has_id(all.take(i as int + 1), id) {
                        let j = choose|j: int|
                            0 <= j < i + 1 && #[trigger] all.take(i as int + 1)[j].id == id;
                        assert(all.take(i as int)[j].id == id);
                    }
                    if has_id(all.take(i as int), id) {
                        let j = choose|j: int|
                            0 <= j < i && #[trigger] all.take(i as int)[j].id == id;
                        assert(all.take(i as int + 1)[j].id == id);
                    }
                }
            }
            assert(items@ =~= all.skip(i as int + 1));
            i = i + 1;
        }
        assert(all.take(i as int) =~= all);
        self.items = kept;
        found
    }

    /// Sets the status and message of the first item with `id`, if any.
    pub fn set_status(&mut self, id: u64, status: QueueItemStatus, message: Option<String>)
        ensures
            !has_id(old(self).items@, id) ==> *final(self) == *old(self),
            forall|i: int|
                first_with_id(old(self).items@, id, i) ==> final(self).items@ == old(
                    self,
                ).items@.update(
                    i,
                    QueueItem { status, last_error: message, ..old(self).items@[i] },
                ),
            final(self).next_id == old(self).next_id,
            final(self).rules == old(self).rules,
    {
        let mut i: usize = 0;
        while i < self.items.len()
            invariant
                i <= self.items@.len(),
                *self == *old(self),
                forall|j: int| 0 <= j < i ==> self.items@[j].id != id,
            decreases self.items.len() - i,
        {
            if self.items[i].id == id {
                assert(first_with_id(old(self).items@, id, i as int));
                self.items[i].status = status;
                self.items[i].last_error = message;
                return;
            }
            i = i + 1;
        }
    }

    /// Sets the priority of the first item with `id`; tells whether there
    /// was one.
    pub fn set_priority(&mut self, id: u64, priority: QueuePriority) -> (found: bool)
        ensures
            found == has_id(old(self).items@, id),
            !found ==> *final(self) == *old(self),
            forall|i: int|
                first_with_id(old(self).items@, id, i) ==> final(self).items@ == old(
                    self,
                ).items@.update(i, QueueItem { priority, ..old(self).items@[i] }),
            final(self).next_id == old(self).next_id,
            final(self).rules == old(self).rules,
    {
        let mut i: usize = 0;
        while i < self.items.len()
            invariant
                i <= self.items@.len(),
                *self == *old(self),
                forall|j: int| 0 <= j < i ==> self.items@[j].id != id,
            decreases self.items.len() - i,
        {
            if self.items[i].id == id {
                assert(first_with_id(old(self).items@, id, i as int));
                self.items[i].priority = priority;
                return true;
            }
            i = i + 1;
        }
        false
    }

    /// The indices of the pending (queued or scheduled) items in the order
    /// they should start: higher priority first, then the earlier added,
    /// then the lower id; items that tie keep their queue order.
    pub fn pending_order(&self) -> (order: Vec<usize>)
        ensures
            is_pending_order(self.items@, order@),
    {
        let items = &self.items;
        let mut order: Vec<usize> = Vec::new();
        let mut i: usize = 0;
        while i < items.len()
            invariant
                i <= items@.len(),
                forall|k: int|
                    0 <= k < order@.len() ==> #[trigger] order@[k] < i && is_pending(
                        items@[order@[k] as int].status,
                    ),
                forall|j: int|
                    0 <= j < i && is_pending(#[trigger] items@[j].status) ==> exists|k: int|
                        0 <= k < order@.len() && order@[k] == j,
                forall|a: int, b: int|
                    0 <= a < b < order@.len() ==> #[trigger] order@[a] != #[trigger] order@[b],
                in_start_order(items@, order@),
            decreases items.len() - i,
        {
            let st = items[i].status;
            if matches!(st, QueueItemStatus::Queued | QueueItemStatus::Scheduled) {
                let item = &items[i];
                let mut pos: usize = order.len();
                while pos > 0 && item_starts_before(item, &items[order[pos - 1]])
                    invariant
                        pos <= order@.len(),
                        i < items@.len(),
                        *item == items@[i as int],
                        forall|k: int| 0 <= k < order@.len() ==> #[trigger] order@[k] < i,
                        forall|q: int|
                            pos <= q < order@.len() ==> starts_before(
                                items@[i as int],
                                #[trigger] items@[order@[q] as int],
                            ),
                    decreases pos,
                {
                    pos = pos - 1;
                }
                proof {
                    lemma_insert_in_start_order(items@, order@, i, pos as int);
                    order@.insert_ensures(pos as int, i);
                }
                let ghost before = order@;
                order.insert(pos, i);
                assert forall|j: int|
                    0 <= j < i + 1 && is_pending(#[trigger] items@[j].status) implies exists|k: int|
                    0 <= k < order@.len() && order@[k] == j by {
                    if j == i {
                        assert(order@[pos as int] == i);
                    } else {
                        let k = choose|k: int| 0 <= k < before.len() && before[k] == j;
                        if k < pos {
                            assert(order@[k] == j);
                        } else {
                            assert(order@[k + 1] == j);
                        }
                    }
                }
                assert forall|a: int, b: int|
                    0 <= a < b < order@.len() implies #[trigger] order@[a] != #[trigger] order@[b] by {
                    if a < pos && b < pos {
                    } else if a < pos && b == pos {
                    } else if a < pos {
                        assert(order@[b] == before[b - 1]);
                    } else if a == pos {
                        assert(order@[b] == before[b - 1]);
                    } else {
                        assert(order@[a] == before[a - 1] && order@[b] == before[b - 1]);
                    }
                }
            }
            i = i + 1;
        }
        order
    }

    /// Copies of the pending items, in the order of `pending_order`.
    pub fn pending_items(&self) -> (pending: Vec<QueueItem>)
        ensures
            exists|order: Seq<usize>|
                is_pending_order(self.items@, order) && pending@.len() == order.len() && forall|
                    k: int,
                | 0 <= k < order.len() ==> same_item(
                    #[trigger] pending@[k],
                    self.items@[order[k] as int],
                ),
            forall|a: int, b: int|
                0 <= a < b < pending@.len() ==> !more_urgent(
                    #[trigger] pending@[b].priority,
                    #[trigger] pending@[a].priority,
                ),
    {
        let order = self.pending_order();
        let mut out: Vec<QueueItem> = Vec::new();
        let mut k: usize = 0;
        while k < order.len()
            invariant
                k <= order@.len(),
                is_pending_order(self.items@, order@),
                out@.len() == k,
                forall|q: int|
                    0 <= q < k ==> same_item(#[trigger] out@[q], self.items@[order@[q] as int]),
            decreases order.len() - k,
        {
            let idx = order[k];
            out.push(self.items[idx].clone());
            k = k + 1;
        }
        proof {
            lemma_urgent_items_start_first(self.items@, order@);
            assert forall|a: int, b: int| 0 <= a < b < out@.len() implies !more_urgent(
                #[trigger] out@[b].priority,
                #[trigger] out@[a].priority,
            ) by {
                assert(same_item(out@[a], self.items@[order@[a] as int]));
                assert(same_item(out@[b], self.items@[order@[b] as int]));
            }
        }
        out
    }

    /// Adds a download with normal priority and returns its id.
    pub fn add_download(&mut self, config: DownloadConfig) -> (id: u64)
        ensures
            enqueued(*old(self), *final(self), config, QueuePriority::Normal, id),
    {
        self.add_download_with_priority(config, QueuePriority::Normal)
    }

    /// Adds a download and returns its id. The category is the one the
    /// configuration names, else the one the rules give its URL; an empty
    /// output path becomes the URL's file name in the download directory.
    pub fn add_download_with_priority(&mut self, config: DownloadConfig, priority: QueuePriority) -> (id: u64)
        ensures
            enqueued(*old(self), *final(self), config, priority, id),
    {
        let mut config = config;
        let category = match &config.category {
            Some(c) => parse_category(c.as_str()),
            None => classify_url(config.url.as_str(), self.rules.as_slice()),
        };
        if config.output_path.as_str().is_empty() {
            let dir = default_download_dir();
            let name = default_filename(config.url.as_str());
            config.output_path = join_path(dir.as_str(), name.as_str());
        }
        config.category = Some(category.as_str().to_owned());
        let id = self.next_id;
        self.next_id = self.next_id.saturating_add(1);
        let added = now_unix_ms();
        self.items.push(
            QueueItem {
                id,
                config,
                category,
                priority,
                status: QueueItemStatus::Queued,
                added_at_unix_ms: added,
                last_error: None,
            },
        );
        id
    }
}

/// `i` is the last index of an item with `id`.
pub open spec fn last_with_id_at(items: Seq<QueueItem>, id: u64, i: int) -> bool {
    &&& 0 <= i < items.len()
    &&& items[i].id == id
    &&& forall|j: int| i < j < items.len() ==> items[j].id != id
}

/// The index of the last item with `id`, if any.
pub open spec fn last_with_id(items: Seq<QueueItem>, id: u64) -> Option<int> {
    if exists|i: int| last_with_id_at(items, id, i) {
        Some(choose|i: int| last_with_id_at(items, id, i))
    } else {
        None
    }
}

/// A disk item merged over the local one with its id: the disk's copy,
/// except that a local item that is running or finished keeps its status
/// and error.
pub open spec fn merged_item(local: QueueItem, disk: QueueItem) -> QueueItem {
    if keeps_local_state(local.status) {
        QueueItem { status: local.status, last_error: local.last_error, ..disk }
    } else {
        disk
    }
}

/// One disk item merged into the local items: it replaces (see
/// `merged_item`) the last local item with its id, or is appended.
pub open spec fn merge_step(items: Seq<QueueItem>, d: QueueItem) -> Seq<QueueItem> {
    match last_with_id(items, d.id) {
        Some(i) => items.update(i, merged_item(items[i], d)),
        None => items.push(d),
    }
}

/// The local items once every disk item has been merged in, in order.
pub open spec fn merge_items(items: Seq<QueueItem>, disk: Seq<QueueItem>) -> Seq<QueueItem>
    decreases disk.len(),
{
    if disk.len() == 0 {
        items
    } else {
        merge_step(merge_items(items, disk.drop_last()), disk.last())
    }
}

/// How many disk items found no local item with their id and were appended.
pub open spec fn merge_new_count(items: Seq<QueueItem>, disk: Seq<QueueItem>) -> nat
    decreases disk.len(),
{
    if disk.len() == 0 {
        0
    } else {
        merge_new_count(items, disk.drop_last()) + if last_with_id(
            merge_items(items, disk.drop_last()),
            disk.last().id,
        ) is None {
            1nat
        } else {
            0nat
        }
    }
}

proof fn lemma_last_with_id(items: Seq<QueueItem>, id: u64)
    ensures
        last_with_id(items, id) matches Some(i) ==> last_with_id_at(items, id, i),
        last_with_id(items, id) is None ==> forall|j: int|
            0 <= j < items.len() ==> #[trigger] items[j].id != id,
{
    if last_with_id(items, id) is None {
        assert forall|j: int| 0 <= j < items.len() implies #[trigger] items[j].id != id by {
            if items[j].id == id {
                lemma_last_occurrence(items, id, j);
            }
        }
    }
}

proof fn lemma_last_occurrence(items: Seq<QueueItem>, id: u64, j: int)
    requires
        0 <= j < items.len(),
        items[j].id == id,
    ensures
        exists|m: int| last_with_id_at(items, id, m),
    decreases items.len() - j,
{
    if exists|q: int| j < q < items.len() && #[trigger] items[q].id == id {
        let q = choose|q: int| j < q < items.len() && #[trigger] items[q].id == id;
        lemma_last_occurrence(items, id, q);
    } else {
        assert(last_with_id_at(items, id, j));
    }
}

/// Merging keeps every local item in place: the result starts with the
/// local items' ids in their order and grows by the number of appended disk
/// items, and a local item that is running or finished keeps its status and
/// error.
pub proof fn lemma_merge_keeps_local(items: Seq<QueueItem>, disk: Seq<QueueItem>)
    ensures
        merge_items(items, disk).len() == items.len() + merge_new_count(items, disk),
        forall|i: int| 0 <= i < items.len() ==> #[trigger] merge_items(items, disk)[i].id == items[i].id,
        forall|i: int|
            0 <= i < items.len() && keeps_local_state(items[i].status) ==> {
                &&& (#[trigger] merge_items(items, disk)[i]).status == items[i].status
                &&& merge_items(items, disk)[i].last_error == items[i].last_error
            },
    decreases disk.len(),
{
    if disk.len() > 0 {
        let prev = merge_items(items, disk.drop_last());
        let d = disk.last();
        lemma_merge_keeps_local(items, disk.drop_last());
        lemma_last_with_id(prev, d.id);
        assert(merge_items(items, disk) == merge_step(prev, d));
        assert forall|i: int| 0 <= i < items.len() implies #[trigger] merge_items(items, disk)[i].id
            == items[i].id by {
            assert(prev[i].id == items[i].id);
        }
        assert forall|i: int| 0 <= i < items.len() && keeps_local_state(items[i].status) implies {
            &&& (#[trigger] merge_items(items, disk)[i]).status == items[i].status
            &&& merge_items(items, disk)[i].last_error == items[i].last_error
        } by {
            assert(prev[i].status == items[i].status);
            assert(prev[i].id == items[i].id);
        }
    }
}

/// Merging changes an item only at the index of the last item with the
/// merged id, and that index keeps its id.
proof fn lemma_merge_step_ids(items: Seq<QueueItem>, d: QueueItem)
    ensures
        merge_step(items, d).len() >= items.len(),
        forall|i: int| 0 <= i < items.len() ==> #[trigger] merge_step(items, d)[i].id == items[i].id,
        has_id(merge_step(items, d), d.id),
{
    lemma_last_with_id(items, d.id);
    match last_with_id(items, d.id) {
        Some(idx) => {
            assert(merge_step(items, d)[idx].id == d.id);
        },
        None => {
            assert(merge_step(items, d)[items.len() as int].id == d.id);
        },
    }
}

/// After a merge, every disk item's id is in the queue.
pub proof fn lemma_merge_contains_disk_ids(items: Seq<QueueItem>, disk: Seq<QueueItem>)
    ensures
        forall|k: int| 0 <= k < disk.len() ==> has_id(merge_items(items, disk), #[trigger] disk[k].id),
    decreases disk.len(),
{
    if disk.len() > 0 {
        let prev = merge_items(items, disk.drop_last());
        let d = disk.last();
        lemma_merge_contains_disk_ids(items, disk.drop_last());
        lemma_merge_step_ids(prev, d);
        assert forall|k: int| 0 <= k < disk.len() implies has_id(
            merge_items(items, disk),
            #[trigger] disk[k].id,
        ) by {
            if k < disk.len() - 1 {
                assert(disk.drop_last()[k] == disk[k]);
                assert(has_id(prev, disk[k].id));
                let p = choose|p: int| 0 <= p < prev.len() && #[trigger] prev[p].id == disk[k].id;
                assert(merge_items(items, disk)[p].id == disk[k].id);
            }
        }
    }
}

/// No two items share an id.
pub open spec fn ids_distinct(items: Seq<QueueItem>) -> bool {
    forall|a: int, b: int| 0 <= a < b < items.len() ==> #[trigger] items[a].id != #[trigger] items[b].id
}

/// The disk items whose id no local item carries, in disk order.
pub open spec fn new_disk_items(items: Seq<QueueItem>, disk: Seq<QueueItem>) -> Seq<QueueItem>
    decreases disk.len(),
{
    if disk.len() == 0 {
        Seq::empty()
    } else {
        let rest = new_disk_items(items, disk.drop_last());
        if has_id(items, disk.last().id) {
            rest
        } else {
            rest.push(disk.last())
        }
    }
}

proof fn lemma_new_disk_items_from(items: Seq<QueueItem>, disk: Seq<QueueItem>)
    ensures
        forall|m: int|
            0 <= m < new_disk_items(items, disk).len() ==> !has_id(items, #[trigger] new_disk_items(items, disk)[m].id)
                && exists|k: int| 0 <= k < disk.len() && new_disk_items(items, disk)[m] == #[trigger] disk[k],
    decreases disk.len(),
{
    if disk.len() > 0 {
        let ds = disk.drop_last();
        lemma_new_disk_items_from(items, ds);
        let nd = new_disk_items(items, ds);
        assert forall|m: int| 0 <= m < new_disk_items(items, disk).len() implies !has_id(
            items,
            #[trigger] new_disk_items(items, disk)[m].id,
        ) && exists|k: int| 0 <= k < disk.len() && new_disk_items(items, disk)[m] == #[trigger] disk[k] by {
            if m < nd.len() {
                assert(new_disk_items(items, disk)[m] == nd[m]);
                assert(!has_id(items, nd[m].id));
                let k = choose|k: int| 0 <= k < ds.len() && nd[m] == #[trigger] ds[k];
                assert(disk[k] == ds[k]);
            } else {
                assert(new_disk_items(items, disk)[m] == disk[disk.len() - 1]);
            }
        }
    }
}

/// Merging appends exactly the disk items whose id is new to the local
/// queue, in disk order, after the local items; their number is what the
/// report counts as added (disk ids distinct, as a saved queue has them).
pub proof fn lemma_merge_appends_new_items(items: Seq<QueueItem>, disk: Seq<QueueItem>)
    requires
        ids_distinct(disk),
    ensures
        merge_items(items, disk).len() == items.len() + new_disk_items(items, disk).len(),
        merge_items(items, disk).skip(items.len() as int) == new_disk_items(items, disk),
        merge_new_count(items, disk) == new_disk_items(items, disk).len(),
    decreases disk.len(),
{
    if disk.len() > 0 {
        let ds = disk.drop_last();
        let d = disk.last();
        let n = items.len() as int;
        assert(ids_distinct(ds));
        lemma_merge_appends_new_items(items, ds);
        lemma_merge_keeps_local(items, ds);
        lemma_new_disk_items_from(items, ds);
        let prev = merge_items(items, ds);
        let nd = new_disk_items(items, ds);
        lemma_last_with_id(prev, d.id);
        assert(merge_items(items, disk) == merge_step(prev, d));
        assert forall|j: int| n <= j < prev.len() implies #[trigger] prev[j].id != d.id by {
            assert(prev[j] == prev.skip(n)[j - n]);
            assert(!has_id(items, nd[j - n].id));
            let k = choose|k: int| 0 <= k < ds.len() && nd[j - n] == #[trigger] ds[k];
            assert(ds[k] == disk[k]);
            assert(disk[k].id != disk[disk.len() - 1].id);
        }
        if has_id(items, d.id) {
            let i0 = choose|i: int| 0 <= i < items.len() && #[trigger] items[i].id == d.id;
            assert(prev[i0].id == d.id);
            if !(exists|m: int| last_with_id_at(prev, d.id, m)) {
                lemma_last_occurrence(prev, d.id, i0);
            }
            let m = last_with_id(prev, d.id)->0;
            assert(m < n);
            assert(merge_items(items, disk).skip(n) =~= prev.skip(n));
        } else {
            assert(last_with_id(prev, d.id) is None) by {
                if last_with_id(prev, d.id) is Some {
                    let m = last_with_id(prev, d.id)->0;
                    if m < n {
                        assert(prev[m].id == items[m].id);
                    }
                }
            }
            assert(merge_items(items, disk).skip(n) =~= prev.skip(n).push(d));
        }
    }
}

/// The per-item merge rule: with ids distinct on both sides, a local item
/// that a disk item shares its id with becomes that disk item, except that
/// a running or finished local item keeps its status and error (see
/// `merged_item`).
pub proof fn lemma_merge_item_rule(items: Seq<QueueItem>, disk: Seq<QueueItem>, i: int, k: int)
    requires
        ids_distinct(items),
        ids_distinct(disk),
        0 <= i < items.len(),
        0 <= k < disk.len(),
        disk[k].id == items[i].id,
    ensures
        merge_items(items, disk)[i] == merged_item(items[i], disk[k]),
    decreases disk.len(),
{
    let ds = disk.drop_last();
    let d = disk.last();
    let n = items.len() as int;
    assert(ids_distinct(ds));
    lemma_merge_appends_new_items(items, ds);
    lemma_merge_keeps_local(items, ds);
    lemma_new_disk_items_from(items, ds);
    let prev = merge_items(items, ds);
    let nd = new_disk_items(items, ds);
    lemma_last_with_id(prev, d.id);
    assert(merge_items(items, disk) == merge_step(prev, d));
    if k == disk.len() - 1 {
        assert forall|q: int| 0 <= q < ds.len() implies #[trigger] ds[q].id != items[i].id by {
            assert(ds[q] == disk[q]);
        }
        lemma_merge_leaves_others(items, ds, i);
        assert(prev[i].id == d.id);
        if !(exists|m: int| last_with_id_at(prev, d.id, m)) {
            lemma_last_occurrence(prev, d.id, i);
        }
        let m = last_with_id(prev, d.id)->0;
        assert(m < n) by {
            if m >= n {
                assert(prev[m] == prev.skip(n)[m - n]);
                assert(!has_id(items, nd[m - n].id));
                let q = choose|q: int| 0 <= q < ds.len() && nd[m - n] == #[trigger] ds[q];
                assert(ds[q] == disk[q]);
            }
        }
        assert(prev[m].id == items[m].id);
        assert(m == i);
    } else {
        assert(ds[k] == disk[k]);
        lemma_merge_item_rule(items, ds, i, k);
        assert(d.id != disk[k].id);
        assert(prev[i].id == items[i].id);
    }
}

/// A local item whose id no disk item carries is left as it was.
pub proof fn lemma_merge_leaves_others(items: Seq<QueueItem>, disk: Seq<QueueItem>, i: int)
    requires
        0 <= i < items.len(),
        forall|k: int| 0 <= k < disk.len() ==> #[trigger] disk[k].id != items[i].id,
    ensures
        merge_items(items, disk)[i] == items[i],
    decreases disk.len(),
{
    if disk.len() > 0 {
        let prev = merge_items(items, disk.drop_last());
        let d = disk.last();
        assert forall|k: int| 0 <= k < disk.drop_last().len() implies #[trigger] disk.drop_last()[k].id
            != items[i].id by {
            assert(disk.drop_last()[k] == disk[k]);
        }
        lemma_merge_leaves_others(items, disk.drop_last(), i);
        lemma_merge_keeps_local(items, disk.drop_last());
        lemma_last_with_id(prev, d.id);
        assert(disk[disk.len() - 1].id != items[i].id);
    }
}

/// `a` starts before `b`: higher priority first, then the earlier added,
/// then the lower id.
pub open spec fn starts_before(a: QueueItem, b: QueueItem) -> bool {
    let ra = priority_rank(a.priority);
    let rb = priority_rank(b.priority);
    ||| ra > rb
    ||| ra == rb && a.added_at_unix_ms < b.added_at_unix_ms
    ||| ra == rb && a.added_at_unix_ms == b.added_at_unix_ms && a.id < b.id
}

/// The items at the indices `order` are in start order, and items that tie
/// keep their queue order.
pub open spec fn in_start_order(items: Seq<QueueItem>, order: Seq<usize>) -> bool {
    &&& forall|a: int, b: int|
        0 <= a < b < order.len() ==> !starts_before(
            #[trigger] items[order[b] as int],
            #[trigger] items[order[a] as int],
        )
    &&& forall|a: int, b: int|
        0 <= a < b < order.len() && !starts_before(
            #[trigger] items[order[a] as int],
            #[trigger] items[order[b] as int],
        ) ==> order[a] < order[b]
}

/// `order` lists each pending item of `items` once, by index, in start
/// order, ties in queue order: the order `sort_by` (a stable sort) gives.
pub open spec fn is_pending_order(items: Seq<QueueItem>, order: Seq<usize>) -> bool {
    &&& forall|k: int|
        0 <= k < order.len() ==> #[trigger] order[k] < items.len() && is_pending(
            items[order[k] as int].status,
        )
    &&& forall|i: int|
        0 <= i < items.len() && is_pending(#[trigger] items[i].status) ==> exists|k: int|
            0 <= k < order.len() && order[k] == i
    &&& forall|a: int, b: int| 0 <= a < b < order.len() ==> #[trigger] order[a] != #[trigger] order[b]
    &&& in_start_order(items, order)
}

/// `p` is a more urgent priority than `q` in the order
/// `Low < Normal < High < Critical`.
pub open spec fn more_urgent(p: QueuePriority, q: QueuePriority) -> bool {
    match (p, q) {
        (QueuePriority::Critical, QueuePriority::High) => true,
        (QueuePriority::Critical, QueuePriority::Normal) => true,
        (QueuePriority::Critical, QueuePriority::Low) => true,
        (QueuePriority::High, QueuePriority::Normal) => true,
        (QueuePriority::High, QueuePriority::Low) => true,
        (QueuePriority::Normal, QueuePriority::Low) => true,
        _ => false,
    }
}

/// Ranks grow with urgency, and in a pending order a more urgent item is
/// never placed after a less urgent one: higher priorities start first.
pub proof fn lemma_urgent_items_start_first(items: Seq<QueueItem>, order: Seq<usize>)
    requires
        is_pending_order(items, order),
    ensures
        priority_rank(QueuePriority::Low) < priority_rank(QueuePriority::Normal),
        priority_rank(QueuePriority::Normal) < priority_rank(QueuePriority::High),
        priority_rank(QueuePriority::High) < priority_rank(QueuePriority::Critical),
        forall|p: QueuePriority, q: QueuePriority| more_urgent(p, q) ==> priority_rank(p) > priority_rank(q),
        forall|a: int, b: int|
            0 <= a < b < order.len() ==> !more_urgent(
                #[trigger] items[order[b] as int].priority,
                #[trigger] items[order[a] as int].priority,
            ),
{
    assert forall|a: int, b: int| 0 <= a < b < order.len() implies !more_urgent(
        #[trigger] items[order[b] as int].priority,
        #[trigger] items[order[a] as int].priority,
    ) by {
        assert(!starts_before(items[order[b] as int], items[order[a] as int]));
    }
}

/// The indices of the pending items.
pub open spec fn pending_indices(items: Seq<QueueItem>) -> Set<usize> {
    Set::new(|i: usize| i < items.len() && is_pending(items[i as int].status))
}

/// A pending order is a permutation of the pending items: it lists each
/// pending index exactly once and nothing else, so it is as long as there
/// are pending items.
pub proof fn lemma_pending_order_is_permutation(items: Seq<QueueItem>, order: Seq<usize>)
    requires
        is_pending_order(items, order),
    ensures
        order.no_duplicates(),
        order.to_set() == pending_indices(items),
        order.len() == pending_indices(items).len(),
{
    assert forall|a: int, b: int| 0 <= a < order.len() && 0 <= b < order.len() && a != b implies order[a]
        != order[b] by {
        if a < b {
            assert(order[a] != order[b]);
        } else {
            assert(order[b] != order[a]);
        }
    }
    assert forall|i: usize| #[trigger] order.to_set().contains(i) <==> pending_indices(items).contains(i) by {
        if order.to_set().contains(i) {
            let k = choose|k: int| 0 <= k < order.len() && order[k] == i;
            assert(order[k] < items.len());
        }
        if pending_indices(items).contains(i) {
            assert(is_pending(items[i as int].status));
            let k = choose|k: int| 0 <= k < order.len() && order[k] == i as int;
            assert(order.contains(i));
        }
    }
    assert(order.to_set() =~= pending_indices(items));
    order.unique_seq_to_set();
}

/// Whether `a` starts before `b`.
fn item_starts_before(a: &QueueItem, b: &QueueItem) -> (r: bool)
    ensures
        r == starts_before(*a, *b),
{
    let ra = a.priority.rank();
    let rb = b.priority.rank();
    ra > rb || (ra == rb && a.added_at_unix_ms < b.added_at_unix_ms) || (ra == rb
        && a.added_at_unix_ms == b.added_at_unix_ms && a.id < b.id)
}

/// Inserting index `i` after the entries it does not start before, and
/// before those it does, keeps the start order.
proof fn lemma_insert_in_start_order(items: Seq<QueueItem>, order: Seq<usize>, i: usize, pos: int)
    requires
        in_start_order(items, order),
        i < items.len(),
        forall|k: int| 0 <= k < order.len() ==> #[trigger] order[k] < i,
        0 <= pos <= order.len(),
        pos == 0 || !starts_before(items[i as int], items[order[pos - 1] as int]),
        forall|q: int| pos <= q < order.len() ==> starts_before(items[i as int], #[trigger] items[order[q] as int]),
    ensures
        in_start_order(items, order.insert(pos, i)),
{
    let n = order.insert(pos, i);
    order.insert_ensures(pos, i);
    assert forall|a: int, b: int| 0 <= a < b < n.len() implies !starts_before(
        #[trigger] items[n[b] as int],
        #[trigger] items[n[a] as int],
    ) by {
        if b < pos {
            assert(n[a] == order[a] && n[b] == order[b]);
        } else if b == pos {
            assert(n[a] == order[a]);
            if a < pos - 1 {
                assert(!starts_before(items[order[pos - 1] as int], items[order[a] as int]));
            }
        } else if a < pos {
            assert(n[a] == order[a] && n[b] == order[b - 1]);
            assert(!starts_before(items[order[b - 1] as int], items[order[a] as int]));
        } else if a == pos {
            assert(n[b] == order[b - 1]);
            assert(starts_before(items[i as int], items[order[b - 1] as int]));
        } else {
            assert(n[a] == order[a - 1] && n[b] == order[b - 1]);
            assert(!starts_before(items[order[b - 1] as int], items[order[a - 1] as int]));
        }
    }
    assert forall|a: int, b: int|
        0 <= a < b < n.len() && !starts_before(
            #[trigger] items[n[a] as int],
            #[trigger] items[n[b] as int],
        ) implies n[a] < n[b] by {
        if b < pos {
            assert(n[a] == order[a] && n[b] == order[b]);
        } else if b == pos {
            assert(n[a] == order[a]);
        } else if a < pos {
            assert(n[a] == order[a] && n[b] == order[b - 1]);
        } else if a == pos {
            assert(n[b] == order[b - 1]);
            assert(starts_before(items[i as int], items[order[b - 1] as int]));
        } else {
            assert(n[a] == order[a - 1] && n[b] == order[b - 1]);
        }
    }
}

/// The index of the last item with `id`.
fn last_index_of_id(items: &Vec<QueueItem>, id: u64) -> (r: Option<usize>)
    ensures
        match r {
            Some(i) => last_with_id(items@, id) == Some(i as int),
            None => last_with_id(items@, id) is None,
        },
{
    let mut j: usize = items.len();
    while j > 0
        invariant
            j <= items@.len(),
            forall|k: int| j <= k < items@.len() ==> items@[k].id != id,
        decreases j,
    {
        j = j - 1;
        if items[j].id == id {
            assert(last_with_id_at(items@, id, j as int));
            let ghost k = choose|k: int| last_with_id_at(items@, id, k);
            assert(k == j as int) by {
                if k < j as int {
                } else if k > j as int {
                }
            }
            return Some(j);
        }
    }
    assert(!exists|k: int| last_with_id_at(items@, id, k));
    None
}

/// Merges a queue read from disk into `local`: each disk item, in order,
/// replaces the last local item with its id (a running or finished local
/// item keeps its status and error) or is appended; `next_id` becomes the
/// larger of the two; the disk's rules replace the local ones unless the
/// disk has none.
pub fn merge_external_queue_state(local: &mut QueueState, on_disk: QueueState) -> (report: QueueMergeReport)
    ensures
        final(local).items@ == merge_items(old(local).items@, on_disk.items@),
        final(local).next_id == if on_disk.next_id > old(local).next_id {
            on_disk.next_id
        } else {
            old(local).next_id
        },
        final(local).rules == if on_disk.rules@.len() > 0 {
            on_disk.rules
        } else {
            old(local).rules
        },
        report.rules_replaced == (on_disk.rules@.len() > 0),
        report.new_items_added == merge_new_count(old(local).items@, on_disk.items@),
        report.new_items_added + report.existing_items_merged == on_disk.items@.len(),
{
    let QueueState { next_id, items: mut disk_items, rules } = on_disk;
    if next_id > local.next_id {
        local.next_id = next_id;
    }
    let rules_replaced = rules.len() > 0;
    if rules_replaced {
        local.rules = rules;
    }
    let ghost start = local.items@;
    let ghost all = disk_items@;
    let mut added: usize = 0;
    let mut merged: usize = 0;
    let mut k: usize = 0;
    assert(all.len() == disk_items.len());
    assert(all.take(0) =~= Seq::<QueueItem>::empty());
    while disk_items.len() > 0
        invariant
            all.len() <= usize::MAX,
            k + disk_items@.len() == all.len(),
            disk_items@ == all.skip(k as int),
            local.items@ == merge_items(start, all.take(k as int)),
            added == merge_new_count(start, all.take(k as int)),
            added + merged == k,
            local.next_id == if next_id > old(local).next_id {
                next_id
            } else {
                old(local).next_id
            },
            local.rules == if rules_replaced {
                rules
            } else {
                old(local).rules
            },
        decreases disk_items.len(),
    {
        let d = disk_items.remove(0);
        let ghost prefix = all.take(k as int + 1);
        assert(prefix.drop_last() =~= all.take(k as int));
        assert(prefix.last() == d);
        let ghost before = local.items@;
        match last_index_of_id(&local.items, d.id) {
            Some(idx) => {
                if should_preserve_local_state(&local.items[idx].status) {
                    let status = local.items[idx].status;
                    let error = clone_opt_string(&local.items[idx].last_error);
                    let mut m = d;
                    m.status = status;
                    m.last_error = error;
                    local.items.set(idx, m);
                } else {
                    local.items.set(idx, d);
                }
                merged = merged + 1;
                assert(local.items@ =~= merge_step(before, d));
            },
            None => {
                local.items.push(d);
                added = added + 1;
            },
        }
        assert(disk_items@ =~= all.skip(k as int + 1));
        k = k + 1;
    }
    assert(all.take(k as int) =~= all);
    QueueMergeReport { new_items_added: added, existing_items_merged: merged, rules_replaced }
}

} // verus!
