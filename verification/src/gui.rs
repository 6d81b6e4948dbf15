//! The state behind the desktop dashboard: the rows of the downloads it
//! started and how engine events change them, the requests it accepts, and
//! the views and reports it shows.
use vstd::prelude::*;

use crate::config::{strs_view, DownloadConfig};
use crate::paths::{join_path, path_joined};
use crate::cli::dedup_added;
use crate::queue::{
    category_name, classify_url, classify_with, priority_named, without_id, CategoryRule,
    QueueAddOutcome, QueuePriority,
};
use crate::settings::{BrowserSettings, ThemeMode, ToolbarSkin};
use crate::scheduler::{
    after_tick, due_indices, next_time, same_job, valid_spec, valid_time, DownloadScheduler,
    ScheduleSpec, ScheduledDownload, NANOS_PER_SEC,
};
use crate::spider::SpiderConfig;
use crate::native::NativeHostManifestSpec;
use crate::queue::priority_name;
use crate::av::{file_name_text, path_file_name};
use crate::settings::{category_dir_for, AppSettings};
use crate::strmap::StrMap;
use crate::text::{trim, trim_str};
use crate::urls::{default_filename, default_filename_of, parse_url, url_parsed};
use crate::native::{NativeHostInstallReport, NativeHostValidationReport};
use crate::queue::{first_with_id, has_id, QueueItem, QueueItemStatus, QueueState};
use crate::text::{decimal, decimal_int, decimal_i32, decimal_string, decimal_string_u128};
use crate::types::DownloadStatus;

verus! {

/// The label the dashboard shows for a status.
pub open spec fn status_text(s: DownloadStatus) -> Seq<char> {
    match s {
        DownloadStatus::Queued => "Queued"@,
        DownloadStatus::Running => "Downloading"@,
        DownloadStatus::Paused => "Paused"@,
        DownloadStatus::Retrying => "Retrying"@,
        DownloadStatus::Completed => "Complete"@,
        DownloadStatus::Failed => "Failed"@,
        DownloadStatus::Cancelled => "Cancelled"@,
    }
}

/// The label the dashboard shows for a status.
pub fn status_label(status: DownloadStatus) -> (s: &'static str)
    ensures
        s@ == status_text(status),
{
    match status {
        DownloadStatus::Queued => "Queued",
        DownloadStatus::Running => "Downloading",
        DownloadStatus::Paused => "Paused",
        DownloadStatus::Retrying => "Retrying",
        DownloadStatus::Completed => "Complete",
        DownloadStatus::Failed => "Failed",
        DownloadStatus::Cancelled => "Cancelled",
    }
}

/// Milliseconds since the Unix epoch of an instant given in nanoseconds
/// since the epoch: whole milliseconds, or 0 before the epoch or when they
/// do not fit in a `u64`.
pub open spec fn epoch_ms(t: int) -> int {
    if t < 0 || t / 1000000 > u64::MAX {
        0
    } else {
        t / 1000000
    }
}

/// Milliseconds since the Unix epoch of an instant (nanoseconds since the
/// epoch), see `epoch_ms`.
pub fn system_time_to_epoch_ms(t: i128) -> (ms: u64)
    ensures
        ms == epoch_ms(t as int),
{
    if t < 0 {
        return 0;
    }
    let m = t / 1000000;
    if m > u64::MAX as i128 {
        0
    } else {
        m as u64
    }
}

/// Each item after `prefix`.
pub open spec fn with_prefix(prefix: Seq<char>, items: Seq<Seq<char>>) -> Seq<Seq<char>> {
    items.map_values(|x: Seq<char>| prefix + x)
}

/// Appends a line `prefix` + item for each item.
fn push_lines(out: &mut Vec<String>, prefix: &str, items: &Vec<String>)
    ensures
        strs_view(final(out)@) == strs_view(old(out)@) + with_prefix(prefix@, strs_view(items@)),
{
    let ghost start = strs_view(out@);
    let mut i: usize = 0;
    while i < items.len()
        invariant
            i <= items@.len(),
            strs_view(out@) == start + with_prefix(prefix@, strs_view(items@.take(i as int))),
        decreases items.len() - i,
    {
        let mut line = prefix.to_owned();
        line.append(items[i].as_str());
        let ghost prev = out@;
        out.push(line);
        assert(strs_view(out@) =~= strs_view(prev).push(prefix@ + items@[i as int]@));
        assert(strs_view(items@.take(i as int + 1)) =~= strs_view(items@.take(i as int)).push(
            items@[i as int]@,
        ));
        assert(with_prefix(prefix@, strs_view(items@.take(i as int + 1))) =~= with_prefix(
            prefix@,
            strs_view(items@.take(i as int)),
        ).push(prefix@ + items@[i as int]@));
        assert(strs_view(out@) =~= start + with_prefix(prefix@, strs_view(items@.take(i as int + 1))));
        i = i + 1;
    }
    assert(items@.take(items@.len() as int) =~= items@);
}

/// A line `text` followed by a count.
fn count_line(text: &str, n: usize) -> (s: String)
    ensures
        s@ == text@ + decimal(n as nat),
{
    let mut s = text.to_owned();
    s.append(decimal_string(n as u64).as_str());
    s
}

/// The detail lines of an install or uninstall: the four counts, then each
/// manifest and registry key written and removed, then each warning.
pub open spec fn install_detail_text(action: Seq<char>, r: NativeHostInstallReport) -> Seq<Seq<char>> {
    seq![
        action + ": manifests written="@ + decimal(r.manifest_files_written@.len()),
        action + ": registry written="@ + decimal(r.registry_entries_written@.len()),
        action + ": manifests removed="@ + decimal(r.manifest_files_removed@.len()),
        action + ": registry removed="@ + decimal(r.registry_entries_removed@.len()),
    ] + with_prefix("manifest written: "@, strs_view(r.manifest_files_written@)) + with_prefix(
        "registry written: "@,
        strs_view(r.registry_entries_written@),
    ) + with_prefix("manifest removed: "@, strs_view(r.manifest_files_removed@)) + with_prefix(
        "registry removed: "@,
        strs_view(r.registry_entries_removed@),
    ) + with_prefix("warning: "@, strs_view(r.warnings@))
}

/// The detail lines of an install or uninstall (see `install_detail_text`).
pub fn format_install_report(action: &str, report: &NativeHostInstallReport) -> (lines: Vec<String>)
    ensures
        strs_view(lines@) == install_detail_text(action@, *report),
{
    let mut lines: Vec<String> = Vec::new();
    let mut p = action.to_owned();
    p.append(": manifests written=");
    lines.push(count_line(p.as_str(), report.manifest_files_written.len()));
    let mut p = action.to_owned();
    p.append(": registry written=");
    lines.push(count_line(p.as_str(), report.registry_entries_written.len()));
    let mut p = action.to_owned();
    p.append(": manifests removed=");
    lines.push(count_line(p.as_str(), report.manifest_files_removed.len()));
    let mut p = action.to_owned();
    p.append(": registry removed=");
    lines.push(count_line(p.as_str(), report.registry_entries_removed.len()));
    push_lines(&mut lines, "manifest written: ", &report.manifest_files_written);
    push_lines(&mut lines, "registry written: ", &report.registry_entries_written);
    push_lines(&mut lines, "manifest removed: ", &report.manifest_files_removed);
    push_lines(&mut lines, "registry removed: ", &report.registry_entries_removed);
    push_lines(&mut lines, "warning: ", &report.warnings);
    assert(strs_view(lines@) =~= install_detail_text(action@, *report));
    lines
}

/// The detail lines of a verification: the four counts, then each manifest
/// and registry key present and missing.
pub open spec fn validation_detail_text(r: NativeHostValidationReport) -> Seq<Seq<char>> {
    seq![
        "manifest present="@ + decimal(r.manifest_files_present@.len()),
        "manifest missing="@ + decimal(r.manifest_files_missing@.len()),
        "registry present="@ + decimal(r.registry_entries_present@.len()),
        "registry missing="@ + decimal(r.registry_entries_missing@.len()),
    ] + with_prefix("manifest present: "@, strs_view(r.manifest_files_present@)) + with_prefix(
        "manifest missing: "@,
        strs_view(r.manifest_files_missing@),
    ) + with_prefix("registry present: "@, strs_view(r.registry_entries_present@)) + with_prefix(
        "registry missing: "@,
        strs_view(r.registry_entries_missing@),
    )
}

/// The detail lines of a verification (see `validation_detail_text`).
pub fn format_validation_report(report: &NativeHostValidationReport) -> (lines: Vec<String>)
    ensures
        strs_view(lines@) == validation_detail_text(*report),
{
    let mut lines: Vec<String> = Vec::new();
    lines.push(count_line("manifest present=", report.manifest_files_present.len()));
    lines.push(count_line("manifest missing=", report.manifest_files_missing.len()));
    lines.push(count_line("registry present=", report.registry_entries_present.len()));
    lines.push(count_line("registry missing=", report.registry_entries_missing.len()));
    push_lines(&mut lines, "manifest present: ", &report.manifest_files_present);
    push_lines(&mut lines, "manifest missing: ", &report.manifest_files_missing);
    push_lines(&mut lines, "registry present: ", &report.registry_entries_present);
    push_lines(&mut lines, "registry missing: ", &report.registry_entries_missing);
    assert(strs_view(lines@) =~= validation_detail_text(*report));
    lines
}


/// How full a row's progress bar is: empty until the first progress
/// report, then the share `done / total` of the last report (empty when
/// `total` is 0, at most full), and full once the download completed, until
/// the next report.
#[derive(Debug, Clone, Copy, PartialEq, Eq, Structural)]
pub enum ProgressMark {
    Start,
    Ratio { done: u64, total: u64 },
    Full,
}

/// A download the dashboard started, as its row shows it. The speed is
/// carried as the bits of the `f64` the engine reported.
#[derive(Debug)]
pub struct DownloadRow {
    pub id: u64,
    pub queue_item_id: Option<u64>,
    pub url: String,
    pub category: String,
    pub output_path: String,
    pub status: DownloadStatus,
    pub progress: ProgressMark,
    pub downloaded_bytes: u64,
    pub total_bytes: u64,
    pub speed_bits: u64,
    pub eta_seconds: Option<u64>,
    pub active_connections: u16,
    pub target_connections: u16,
    pub message: String,
    pub added_order: u64,
}

/// What the engine reports of a download, with its values as the
/// dashboard keeps them (paths as text, the speed as the bits of an `f64`).
#[derive(Debug)]
pub enum RowEvent {
    Started { id: u64, output_path: String, total_bytes: u64, resumed: bool },
    MirrorSelected { id: u64, url: String, source_count: usize },
    Progress {
        id: u64,
        downloaded_bytes: u64,
        total_bytes: u64,
        speed_bits: u64,
        eta_seconds: Option<u64>,
        active_connections: u16,
        target_connections: u16,
    },
    Retrying { id: u64, segment_id: usize, attempt: u8, wait_ms: u64, reason: String },
    ConnectionsAdjusted { id: u64, from: u16, to: u16 },
    Paused { id: u64 },
    Resumed { id: u64 },
    Completed { id: u64, output_path: String, duration_ms: u128 },
    HookExecuted { id: u64, success: bool, code: Option<i32>, stderr: String },
    Failed { id: u64, error: String },
    Cancelled { id: u64 },
}

/// The download an event is about.
pub open spec fn event_id(e: RowEvent) -> u64 {
    match e {
        RowEvent::Started { id, .. } => id,
        RowEvent::MirrorSelected { id, .. } => id,
        RowEvent::Progress { id, .. } => id,
        RowEvent::Retrying { id, .. } => id,
        RowEvent::ConnectionsAdjusted { id, .. } => id,
        RowEvent::Paused { id } => id,
        RowEvent::Resumed { id } => id,
        RowEvent::Completed { id, .. } => id,
        RowEvent::HookExecuted { id, .. } => id,
        RowEvent::Failed { id, .. } => id,
        RowEvent::Cancelled { id } => id,
    }
}

/// `true` or `false`.
pub open spec fn bool_text(b: bool) -> Seq<char> {
    if b {
        "true"@
    } else {
        "false"@
    }
}

/// An exit code as `Debug` shows an `Option<i32>`.
pub open spec fn code_text(code: Option<i32>) -> Seq<char> {
    match code {
        Some(c) => "Some("@ + decimal_int(c as int) + ")"@,
        None => "None"@,
    }
}

/// `after` is the row `before` once `e` (about it) is applied.
pub open spec fn row_after_event(before: DownloadRow, after: DownloadRow, e: RowEvent) -> bool {
    match e {
        RowEvent::Started { output_path, total_bytes, resumed, .. } => {
            &&& after == (DownloadRow {
                output_path,
                total_bytes,
                status: DownloadStatus::Running,
                message: after.message,
                ..before
            })
            &&& after.message@ == if resumed {
                "resumed"@
            } else {
                "running"@
            }
        },
        RowEvent::MirrorSelected { url, source_count, .. } => {
            &&& after == (DownloadRow { message: after.message, ..before })
            &&& after.message@ == "mirror selected ("@ + decimal(source_count as nat) + "): "@ + url@
        },
        RowEvent::Progress {
            downloaded_bytes,
            total_bytes,
            speed_bits,
            eta_seconds,
            active_connections,
            target_connections,
            ..
        } => after == (DownloadRow {
            downloaded_bytes,
            total_bytes,
            speed_bits,
            eta_seconds,
            active_connections,
            target_connections,
            progress: ProgressMark::Ratio { done: downloaded_bytes, total: total_bytes },
            status: if before.status is Queued || before.status is Paused {
                DownloadStatus::Running
            } else {
                before.status
            },
            ..before
        }),
        RowEvent::Retrying { segment_id, attempt, wait_ms, reason, .. } => {
            &&& after == (DownloadRow {
                status: DownloadStatus::Retrying,
                message: after.message,
                ..before
            })
            &&& after.message@ == "retry segment="@ + decimal(segment_id as nat) + " attempt="@
                + decimal(attempt as nat) + " in "@ + decimal(wait_ms as nat) + "ms ("@ + reason@
                + ")"@
        },
        RowEvent::ConnectionsAdjusted { from, to, .. } => {
            &&& after == (DownloadRow { target_connections: to, message: after.message, ..before })
            &&& after.message@ == "connections adjusted "@ + decimal(from as nat) + " -> "@ + decimal(
                to as nat,
            )
        },
        RowEvent::Paused { .. } => {
            &&& after == (DownloadRow {
                status: DownloadStatus::Paused,
                message: after.message,
                ..before
            })
            &&& after.message@ == "paused"@
        },
        RowEvent::Resumed { .. } => {
            &&& after == (DownloadRow {
                status: DownloadStatus::Running,
                message: after.message,
                ..before
            })
            &&& after.message@ == "running"@
        },
        RowEvent::Completed { output_path, duration_ms, .. } => {
            &&& after == (DownloadRow {
                output_path,
                progress: ProgressMark::Full,
                status: DownloadStatus::Completed,
                message: after.message,
                ..before
            })
            &&& after.message@ == "done in "@ + decimal(duration_ms as nat) + "ms"@
        },
        RowEvent::HookExecuted { success, code, stderr, .. } => {
            &&& after == (DownloadRow { message: after.message, ..before })
            &&& after.message@ == "AV hook success="@ + bool_text(success) + " code="@ + code_text(code)
                + " stderr="@ + stderr@
        },
        RowEvent::Failed { error, .. } => after == (DownloadRow {
            status: DownloadStatus::Failed,
            message: error,
            ..before
        }),
        RowEvent::Cancelled { .. } => {
            &&& after == (DownloadRow {
                status: DownloadStatus::Cancelled,
                message: after.message,
                ..before
            })
            &&& after.message@ == "cancelled"@
        },
    }
}

/// The queue status a finished download gives its queue item, with the
/// message recorded, when the event finishes it.
pub open spec fn queue_outcome(e: RowEvent) -> Option<(QueueItemStatus, Option<String>)> {
    match e {
        RowEvent::Completed { .. } => Some((QueueItemStatus::Completed, None)),
        RowEvent::Failed { error, .. } => Some((QueueItemStatus::Failed, Some(error))),
        RowEvent::Cancelled { .. } => Some((QueueItemStatus::Cancelled, None)),
        _ => None,
    }
}

/// `after` is `before` with the first item with `id` given `status` and
/// `message` (`QueueState::set_status`).
pub open spec fn status_set(
    before: QueueState,
    after: QueueState,
    id: u64,
    status: QueueItemStatus,
    message: Option<String>,
) -> bool {
    &&& !has_id(before.items@, id) ==> after == before
    &&& forall|i: int|
        first_with_id(before.items@, id, i) ==> after.items@ == before.items@.update(
            i,
            QueueItem { status, last_error: message, ..before.items@[i] },
        )
    &&& after.next_id == before.next_id
    &&& after.rules == before.rules
}

/// `i` is the first row of download `id`.
pub open spec fn first_row(rows: Seq<DownloadRow>, id: u64, i: int) -> bool {
    &&& 0 <= i < rows.len()
    &&& rows[i].id == id
    &&& forall|j: int| 0 <= j < i ==> (#[trigger] rows[j]).id != id
}

/// The row of download `id`, when there is one.
fn find_row(rows: &Vec<DownloadRow>, id: u64) -> (r: Option<usize>)
    ensures
        match r {
            Some(i) => first_row(rows@, id, i as int),
            None => forall|j: int| 0 <= j < rows@.len() ==> (#[trigger] rows@[j]).id != id,
        },
{
    let mut i: usize = 0;
    while i < rows.len()
        invariant
            i <= rows@.len(),
            forall|j: int| 0 <= j < i ==> (#[trigger] rows@[j]).id != id,
        decreases rows.len() - i,
    {
        if rows[i].id == id {
            return Some(i);
        }
        i = i + 1;
    }
    None
}

/// The row a download event leaves (see `row_after_event`).
fn row_with_event(row: DownloadRow, event: RowEvent) -> (r: DownloadRow)
    requires
        event_id(event) == row.id,
    ensures
        row_after_event(row, r, event),
{
    match event {
        RowEvent::Started { output_path, total_bytes, resumed, .. } => {
            let message = if resumed {
                "resumed".to_owned()
            } else {
                "running".to_owned()
            };
            DownloadRow { output_path, total_bytes, status: DownloadStatus::Running, message, ..row }
        },
        RowEvent::MirrorSelected { url, source_count, .. } => {
            let mut m = "mirror selected (".to_owned();
            m.append(decimal_string(source_count as u64).as_str());
            m.append("): ");
            m.append(url.as_str());
            DownloadRow { message: m, ..row }
        },
        RowEvent::Progress {
            downloaded_bytes,
            total_bytes,
            speed_bits,
            eta_seconds,
            active_connections,
            target_connections,
            ..
        } => {
            let status = match row.status {
                DownloadStatus::Queued | DownloadStatus::Paused => DownloadStatus::Running,
                s => s,
            };
            DownloadRow {
                downloaded_bytes,
                total_bytes,
                speed_bits,
                eta_seconds,
                active_connections,
                target_connections,
                progress: ProgressMark::Ratio { done: downloaded_bytes, total: total_bytes },
                status,
                ..row
            }
        },
        RowEvent::Retrying { segment_id, attempt, wait_ms, reason, .. } => {
            let mut m = "retry segment=".to_owned();
            m.append(decimal_string(segment_id as u64).as_str());
            m.append(" attempt=");
            m.append(decimal_string(attempt as u64).as_str());
            m.append(" in ");
            m.append(decimal_string(wait_ms).as_str());
            m.append("ms (");
            m.append(reason.as_str());
            m.append(")");
            DownloadRow { status: DownloadStatus::Retrying, message: m, ..row }
        },
        RowEvent::ConnectionsAdjusted { from, to, .. } => {
            let mut m = "connections adjusted ".to_owned();
            m.append(decimal_string(from as u64).as_str());
            m.append(" -> ");
            m.append(decimal_string(to as u64).as_str());
            DownloadRow { target_connections: to, message: m, ..row }
        },
        RowEvent::Paused { .. } => {
            DownloadRow { status: DownloadStatus::Paused, message: "paused".to_owned(), ..row }
        },
        RowEvent::Resumed { .. } => {
            DownloadRow { status: DownloadStatus::Running, message: "running".to_owned(), ..row }
        },
        RowEvent::Completed { output_path, duration_ms, .. } => {
            let mut m = "done in ".to_owned();
            m.append(decimal_string_u128(duration_ms).as_str());
            m.append("ms");
            DownloadRow {
                output_path,
                progress: ProgressMark::Full,
                status: DownloadStatus::Completed,
                message: m,
                ..row
            }
        },
        RowEvent::HookExecuted { success, code, stderr, .. } => {
            let mut m = "AV hook success=".to_owned();
            if success {
                m.append("true");
            } else {
                m.append("false");
            }
            m.append(" code=");
            let ghost head = m@;
            match code {
                Some(c) => {
                    m.append("Some(");
                    m.append(decimal_i32(c).as_str());
                    m.append(")");
                    assert(m@ =~= head + code_text(code));
                },
                None => {
                    m.append("None");
                    assert(m@ =~= head + code_text(code));
                },
            }
            m.append(" stderr=");
            m.append(stderr.as_str());
            DownloadRow { message: m, ..row }
        },
        RowEvent::Failed { error, .. } => {
            DownloadRow { status: DownloadStatus::Failed, message: error, ..row }
        },
        RowEvent::Cancelled { .. } => {
            DownloadRow { status: DownloadStatus::Cancelled, message: "cancelled".to_owned(), ..row }
        },
    }
}

/// Applies an engine event to the row of its download, if there is one;
/// when the event finishes a download that came from the queue, its queue
/// item gets the outcome too, and `true` is returned: the queue must be
/// saved.
pub fn apply_event(rows: &mut Vec<DownloadRow>, queue: &mut QueueState, event: RowEvent) -> (persist: bool)
    ensures
        (forall|j: int| 0 <= j < old(rows)@.len() ==> (#[trigger] old(rows)@[j]).id != event_id(event))
            ==> final(rows)@ == old(rows)@ && *final(queue) == *old(queue) && !persist,
        forall|i: int|
            first_row(old(rows)@, event_id(event), i) ==> {
                &&& final(rows)@.len() == old(rows)@.len()
                &&& final(rows)@ == old(rows)@.update(i, final(rows)@[i])
                &&& row_after_event(old(rows)@[i], final(rows)@[i], event)
                &&& persist == (queue_outcome(event) is Some && old(rows)@[i].queue_item_id is Some)
                &&& match (queue_outcome(event), old(rows)@[i].queue_item_id) {
                    (Some((st, msg)), Some(q)) => status_set(*old(queue), *final(queue), q, st, msg),
                    _ => *final(queue) == *old(queue),
                }
            },
{
    let ghost e = event;
    let id = match &event {
        RowEvent::Started { id, .. } => *id,
        RowEvent::MirrorSelected { id, .. } => *id,
        RowEvent::Progress { id, .. } => *id,
        RowEvent::Retrying { id, .. } => *id,
        RowEvent::ConnectionsAdjusted { id, .. } => *id,
        RowEvent::Paused { id } => *id,
        RowEvent::Resumed { id } => *id,
        RowEvent::Completed { id, .. } => *id,
        RowEvent::HookExecuted { id, .. } => *id,
        RowEvent::Failed { id, .. } => *id,
        RowEvent::Cancelled { id } => *id,
    };
    let i = match find_row(rows, id) {
        Some(i) => i,
        None => {
            return false;
        },
    };
    let outcome: Option<(QueueItemStatus, Option<String>)> = match &event {
        RowEvent::Completed { .. } => Some((QueueItemStatus::Completed, None)),
        RowEvent::Failed { error, .. } => Some((QueueItemStatus::Failed, Some(error.clone()))),
        RowEvent::Cancelled { .. } => Some((QueueItemStatus::Cancelled, None)),
        _ => None,
    };
    let ghost before = rows@;
    let row = rows.remove(i);
    let queue_item_id = row.queue_item_id;
    let updated = row_with_event(row, event);
    rows.insert(i, updated);
    assert(rows@ =~= before.update(i as int, rows@[i as int]));
    match (outcome, queue_item_id) {
        (Some((st, msg)), Some(q)) => {
            queue.set_status(q, st, msg);
            true
        },
        _ => false,
    }
}


/// A header the dashboard's add dialog gives.
#[derive(Debug)]
pub struct HeaderPair {
    pub key: String,
    pub value: String,
}

/// What the dashboard's add dialog asks to download.
#[derive(Debug)]
pub struct AddDownloadRequest {
    pub url: String,
    pub save_path: Option<String>,
    pub connections: Option<u16>,
    pub category: Option<String>,
    pub mirrors: Option<Vec<String>>,
    pub headers: Option<Vec<HeaderPair>>,
}

/// The headers the dialog's pairs give: each trimmed, those with a blank
/// key or value dropped, later pairs winning.
pub open spec fn pair_headers(pairs: Seq<HeaderPair>) -> Map<Seq<char>, Seq<char>>
    decreases pairs.len(),
{
    if pairs.len() == 0 {
        Map::empty()
    } else {
        let m = pair_headers(pairs.drop_last());
        let k = trim(pairs.last().key@);
        let v = trim(pairs.last().value@);
        if k.len() > 0 && v.len() > 0 {
            m.insert(k, v)
        } else {
            m
        }
    }
}

/// The mirrors the dialog gives: each trimmed, blank ones and the download's
/// own URL dropped, in order.
pub open spec fn kept_mirrors(raws: Seq<Seq<char>>, url: Seq<char>) -> Seq<Seq<char>>
    decreases raws.len(),
{
    if raws.len() == 0 {
        Seq::empty()
    } else {
        let rest = kept_mirrors(raws.drop_last(), url);
        let t = trim(raws.last());
        if t.len() > 0 && t != url {
            rest.push(t)
        } else {
            rest
        }
    }
}

/// The fewest connections the dashboard uses: the settings', at least one.
pub open spec fn dash_min(settings: AppSettings) -> u16 {
    if settings.connection.min_connections < 1 {
        1
    } else {
        settings.connection.min_connections
    }
}

/// The most connections the dashboard uses: the settings', at least the
/// fewest.
pub open spec fn dash_max(settings: AppSettings) -> u16 {
    if settings.connection.max_connections < dash_min(settings) {
        dash_min(settings)
    } else {
        settings.connection.max_connections
    }
}

/// The initial connections of a dialog request: its own or the settings',
/// held between the fewest and the most.
pub open spec fn dash_initial(request: Option<u16>, settings: AppSettings) -> u16 {
    let c = match request {
        Some(c) => c,
        None => settings.connection.initial_connections,
    };
    if c < dash_min(settings) {
        dash_min(settings)
    } else if c > dash_max(settings) {
        dash_max(settings)
    } else {
        c
    }
}

/// `c` is the configuration a dialog request gives: the trimmed URL `url`;
/// its category (trimmed, when not blank) or the one the rules give; its
/// save path (trimmed, when not blank) or the URL's file name in the
/// category's directory; its headers and mirrors (see `pair_headers`,
/// `kept_mirrors`); the connections held between the dashboard's limits;
/// everything else from the settings.
pub open spec fn request_config(
    url: Seq<char>,
    request: AddDownloadRequest,
    settings: AppSettings,
    rules: Seq<CategoryRule>,
    c: DownloadConfig,
) -> bool {
    let cat = match request.category {
        Some(k) => if trim(k@).len() > 0 {
            trim(k@)
        } else {
            category_name(classify_with(url, rules))
        },
        None => category_name(classify_with(url, rules)),
    };
    let out = match request.save_path {
        Some(p) => if trim(p@).len() > 0 {
            trim(p@)
        } else {
            path_joined(category_dir_for(settings, Some(cat)), default_filename_of(url))
        },
        None => path_joined(category_dir_for(settings, Some(cat)), default_filename_of(url)),
    };
    &&& c.url@ == url
    &&& strs_view(c.mirror_urls@) == match request.mirrors {
        Some(m) => kept_mirrors(strs_view(m@), url),
        None => Seq::empty(),
    }
    &&& c.output_path@ == out
    &&& c.initial_connections == dash_initial(request.connections, settings)
    &&& c.min_connections == dash_min(settings)
    &&& c.max_connections == dash_max(settings)
    &&& c.min_segment_size == settings.connection.min_segment_size
    &&& c.max_retries == settings.advanced.retry_count
    &&& c.speed_limit_bps == settings.connection.default_download_speed_limit_bps
    &&& c.hour_quota_mb == settings.connection.default_hour_quota_mb
    &&& !c.overwrite
    &&& c.headers@ == match request.headers {
        Some(h) => pair_headers(h@),
        None => Map::empty(),
    }
    &&& c.proxy == (if settings.proxy.enabled {
        settings.proxy.proxy
    } else {
        None
    })
    &&& c.auth is None
    &&& c.user_agent is None
    &&& c.category matches Some(n) && n@ == cat
    &&& c.av_hook_command == settings.advanced.av_hook_command
}

/// The headers of the dialog's pairs (see `pair_headers`).
fn headers_of_pairs(pairs: &Vec<HeaderPair>) -> (m: StrMap)
    ensures
        m@ == pair_headers(pairs@),
{
    let mut m = StrMap::new();
    let mut i: usize = 0;
    while i < pairs.len()
        invariant
            i <= pairs@.len(),
            m@ == pair_headers(pairs@.take(i as int)),
        decreases pairs.len() - i,
    {
        assert(pairs@.take(i as int + 1).drop_last() =~= pairs@.take(i as int));
        let k = trim_str(pairs[i].key.as_str());
        let v = trim_str(pairs[i].value.as_str());
        if !k.as_str().is_empty() && !v.as_str().is_empty() {
            m.insert(k, v);
        }
        i = i + 1;
    }
    assert(pairs@.take(pairs@.len() as int) =~= pairs@);
    m
}

/// The mirrors the dialog gives (see `kept_mirrors`).
fn mirrors_kept(raws: &Vec<String>, url: &str) -> (v: Vec<String>)
    ensures
        strs_view(v@) == kept_mirrors(strs_view(raws@), url@),
{
    let mut v: Vec<String> = Vec::new();
    let ghost rs = strs_view(raws@);
    let u = crate::text::chars_of(url);
    let mut i: usize = 0;
    while i < raws.len()
        invariant
            i <= raws@.len(),
            rs == strs_view(raws@),
            u@ == url@,
            strs_view(v@) == kept_mirrors(rs.take(i as int), url@),
        decreases raws.len() - i,
    {
        assert(rs.take(i as int + 1).drop_last() =~= rs.take(i as int));
        assert(rs.take(i as int + 1).last() == raws@[i as int]@);
        let t = trim_str(raws[i].as_str());
        let tc = crate::text::chars_of(t.as_str());
        if !t.as_str().is_empty() && !crate::text::chars_eq(tc.as_slice(), u.as_slice()) {
            let ghost prev = v@;
            v.push(t);
            assert(strs_view(v@) =~= strs_view(prev).push(v@.last()@));
        }
        i = i + 1;
    }
    assert(rs.take(rs.len() as int) =~= rs);
    v
}

/// The configuration a dialog request gives (see `request_config`), or the
/// message refusing it: a blank URL, or one that does not parse as an
/// absolute URL.
pub fn build_request_config(
    request: &AddDownloadRequest,
    settings: &AppSettings,
    rules: &[CategoryRule],
) -> (r: Result<DownloadConfig, String>)
    ensures
        ({
            let url = trim(request.url@);
            if url.len() == 0 {
                r matches Err(m) && m@ == "URL is required"@
            } else if url_parsed(url) is None {
                r matches Err(m) && m@ == "URL must be absolute and valid"@
            } else {
                r matches Ok(c) && request_config(url, *request, *settings, rules@, c)
            }
        }),
{
    let url = trim_str(request.url.as_str());
    if url.as_str().is_empty() {
        return Err("URL is required".to_owned());
    }
    if parse_url(url.as_str()).is_err() {
        return Err("URL must be absolute and valid".to_owned());
    }
    let category = match &request.category {
        Some(k) => {
            let t = trim_str(k.as_str());
            if t.as_str().is_empty() {
                classify_url(url.as_str(), rules).as_str().to_owned()
            } else {
                t
            }
        },
        None => classify_url(url.as_str(), rules).as_str().to_owned(),
    };
    let saved = match &request.save_path {
        Some(p) => {
            let t = trim_str(p.as_str());
            if t.as_str().is_empty() {
                None
            } else {
                Some(t)
            }
        },
        None => None,
    };
    let output_path = match saved {
        Some(t) => t,
        None => {
            let dir = settings.category_output_dir(Some(category.as_str()));
            let name = default_filename(url.as_str());
            join_path(dir.as_str(), name.as_str())
        },
    };
    let headers = match &request.headers {
        Some(h) => headers_of_pairs(h),
        None => StrMap::new(),
    };
    let mirror_urls = match &request.mirrors {
        Some(m) => mirrors_kept(m, url.as_str()),
        None => {
            let v: Vec<String> = Vec::new();
            assert(strs_view(v@) =~= Seq::<Seq<char>>::empty());
            v
        },
    };
    let min_connections: u16 = if settings.connection.min_connections < 1 {
        1
    } else {
        settings.connection.min_connections
    };
    let max_connections: u16 = if settings.connection.max_connections < min_connections {
        min_connections
    } else {
        settings.connection.max_connections
    };
    let wanted = match request.connections {
        Some(c) => c,
        None => settings.connection.initial_connections,
    };
    let initial_connections: u16 = if wanted < min_connections {
        min_connections
    } else if wanted > max_connections {
        max_connections
    } else {
        wanted
    };
    let proxy = if settings.proxy.enabled {
        match &settings.proxy.proxy {
            Some(p) => Some(p.clone()),
            None => None,
        }
    } else {
        None
    };
    Ok(
        DownloadConfig {
            url,
            mirror_urls,
            output_path,
            initial_connections,
            min_connections,
            max_connections,
            min_segment_size: settings.connection.min_segment_size,
            max_retries: settings.advanced.retry_count,
            speed_limit_bps: settings.connection.default_download_speed_limit_bps,
            hour_quota_mb: settings.connection.default_hour_quota_mb,
            overwrite: false,
            headers,
            proxy,
            auth: None,
            user_agent: None,
            category: Some(category),
            av_hook_command: crate::config::clone_opt_string(&settings.advanced.av_hook_command),
        },
    )
}


/// The priority a queue request asks for; normal when it names none it
/// knows.
pub open spec fn requested_priority(raw: Option<String>) -> QueuePriority {
    match raw {
        Some(p) => match priority_named(p@) {
            Some(q) => q,
            None => QueuePriority::Normal,
        },
        None => QueuePriority::Normal,
    }
}

/// Queues a download from the dashboard with the priority asked for,
/// refusing an unfinished duplicate when `prevent` is set. Returns the id
/// of the new item, or of the one it duplicates together with the note the
/// dashboard shows.
pub fn queue_request(
    queue: &mut QueueState,
    config: DownloadConfig,
    priority: &Option<String>,
    prevent: bool,
) -> (r: (u64, Option<String>))
    ensures
        exists|o: QueueAddOutcome|
            dedup_added(*old(queue), *final(queue), config, requested_priority(*priority), prevent, o)
                && match o {
                QueueAddOutcome::Added { id } => r.0 == id && r.1 is None,
                QueueAddOutcome::Duplicate { existing_id } => r.0 == existing_id && (r.1 matches Some(
                    m,
                ) && m@ == "duplicate queue URL detected (existing #"@ + decimal(existing_id as nat)
                    + ")"@),
            },
{
    let p = match priority {
        Some(raw) => match QueuePriority::parse(raw.as_str()) {
            Some(q) => q,
            None => QueuePriority::Normal,
        },
        None => QueuePriority::Normal,
    };
    let ghost c = config;
    let o = queue.add_download_dedup(config, p, prevent);
    assert(dedup_added(*old(queue), *queue, c, p, prevent, o));
    match o {
        QueueAddOutcome::Added { id } => (id, None),
        QueueAddOutcome::Duplicate { existing_id } => {
            let mut m = "duplicate queue URL detected (existing #".to_owned();
            m.append(decimal_string(existing_id).as_str());
            m.append(")");
            (existing_id, Some(m))
        },
    }
}

/// The file name a path shows: its last component, or `default` when it
/// has none.
pub open spec fn shown_file_name(path: Seq<char>, default: Seq<char>) -> Seq<char> {
    if path_file_name(path).len() == 0 {
        default
    } else {
        path_file_name(path)
    }
}

/// The file name a path shows (see `shown_file_name`).
pub fn file_name_or(path: &str, default: &str) -> (name: String)
    ensures
        name@ == shown_file_name(path@, default@),
{
    let n = file_name_text(path);
    if n.as_str().is_empty() {
        default.to_owned()
    } else {
        n
    }
}

/// The row of a download the dashboard just started under `id`, and the
/// note it shows (`started` and the file name). The row is queued with no
/// progress yet; its category is the configuration's, else the one the
/// rules give its URL; `added_order` counts up, saturating.
pub fn start_row(
    config: &DownloadConfig,
    id: u64,
    queue_item_id: Option<u64>,
    added_counter: &mut u64,
    rules: &[CategoryRule],
) -> (r: (DownloadRow, String))
    ensures
        r.0.id == id,
        r.0.queue_item_id == queue_item_id,
        r.0.url == config.url,
        r.0.category@ == match config.category {
            Some(c) => c@,
            None => category_name(classify_with(config.url@, rules@)),
        },
        r.0.output_path == config.output_path,
        r.0.status == DownloadStatus::Queued,
        r.0.progress == ProgressMark::Start,
        r.0.downloaded_bytes == 0,
        r.0.total_bytes == 0,
        r.0.speed_bits == 0,
        r.0.eta_seconds is None,
        r.0.active_connections == 0,
        r.0.target_connections == config.initial_connections,
        r.0.message@ == "queued"@,
        r.0.added_order == *old(added_counter),
        *final(added_counter) == if *old(added_counter) == u64::MAX {
            u64::MAX
        } else {
            (*old(added_counter) + 1) as u64
        },
        r.1@ == "started "@ + shown_file_name(config.output_path@, "download"@),
{
    let file_name = file_name_or(config.output_path.as_str(), "download");
    let category = match &config.category {
        Some(c) => c.clone(),
        None => classify_url(config.url.as_str(), rules).as_str().to_owned(),
    };
    let added_order = *added_counter;
    *added_counter = added_counter.saturating_add(1);
    let row = DownloadRow {
        id,
        queue_item_id,
        url: config.url.clone(),
        category,
        output_path: config.output_path.clone(),
        status: DownloadStatus::Queued,
        progress: ProgressMark::Start,
        downloaded_bytes: 0,
        total_bytes: 0,
        speed_bits: 0,
        eta_seconds: None,
        active_connections: 0,
        target_connections: config.initial_connections,
        message: "queued".to_owned(),
        added_order,
    };
    let mut note = "started ".to_owned();
    note.append(file_name.as_str());
    (row, note)
}

/// The rows stopping the queue pauses: those that came from the queue and
/// are running, retrying or waiting to start.
pub open spec fn pauses_on_stop(row: DownloadRow) -> bool {
    row.queue_item_id is Some && (row.status is Running || row.status is Retrying
        || row.status is Queued)
}

/// The ids of the rows with `keep`, in order.
pub open spec fn ids_where(rows: Seq<DownloadRow>, keep: spec_fn(DownloadRow) -> bool) -> Seq<u64>
    decreases rows.len(),
{
    if rows.len() == 0 {
        Seq::empty()
    } else if keep(rows.last()) {
        ids_where(rows.drop_last(), keep).push(rows.last().id)
    } else {
        ids_where(rows.drop_last(), keep)
    }
}

/// The downloads to pause when the queue is stopped, in row order.
pub fn queue_download_ids(rows: &Vec<DownloadRow>) -> (ids: Vec<u64>)
    ensures
        ids@ == ids_where(rows@, |r: DownloadRow| pauses_on_stop(r)),
{
    let mut ids: Vec<u64> = Vec::new();
    let mut i: usize = 0;
    while i < rows.len()
        invariant
            i <= rows@.len(),
            ids@ == ids_where(rows@.take(i as int), |r: DownloadRow| pauses_on_stop(r)),
        decreases rows.len() - i,
    {
        assert(rows@.take(i as int + 1).drop_last() =~= rows@.take(i as int));
        let row = &rows[i];
        let running = match row.status {
            DownloadStatus::Running | DownloadStatus::Retrying | DownloadStatus::Queued => true,
            _ => false,
        };
        if row.queue_item_id.is_some() && running {
            ids.push(row.id);
        }
        i = i + 1;
    }
    assert(rows@.take(rows@.len() as int) =~= rows@);
    ids
}

/// The rows without those `drop` selects, in order.
pub open spec fn rows_without(rows: Seq<DownloadRow>, drop: spec_fn(DownloadRow) -> bool) -> Seq<DownloadRow>
    decreases rows.len(),
{
    if rows.len() == 0 {
        Seq::empty()
    } else if drop(rows.last()) {
        rows_without(rows.drop_last(), drop)
    } else {
        rows_without(rows.drop_last(), drop).push(rows.last())
    }
}

/// The queue item ids of the rows `drop` selects, in order.
pub open spec fn queue_ids_of(rows: Seq<DownloadRow>, drop: spec_fn(DownloadRow) -> bool) -> Seq<u64>
    decreases rows.len(),
{
    if rows.len() == 0 {
        Seq::empty()
    } else {
        let rest = queue_ids_of(rows.drop_last(), drop);
        if drop(rows.last()) && rows.last().queue_item_id is Some {
            rest.push(rows.last().queue_item_id->0)
        } else {
            rest
        }
    }
}

/// The queue items left once every item with one of `ids` is removed, in
/// turn.
pub open spec fn items_without_all(items: Seq<QueueItem>, ids: Seq<u64>) -> Seq<QueueItem>
    decreases ids.len(),
{
    if ids.len() == 0 {
        items
    } else {
        without_id(items_without_all(items, ids.drop_last()), ids.last())
    }
}

/// Removes the rows `drop` selects and, in turn, the queue items they came
/// from; returns how many rows went.
fn drop_rows(
    rows: &mut Vec<DownloadRow>,
    queue: &mut QueueState,
    Ghost(drop): Ghost<spec_fn(DownloadRow) -> bool>,
    by_id: Option<u64>,
) -> (removed: usize)
    requires
        match by_id {
            Some(id) => forall|r: DownloadRow| #[trigger] drop(r) == (r.id == id),
            None => forall|r: DownloadRow| #[trigger] drop(r) == (r.status == DownloadStatus::Completed),
        },
    ensures
        final(rows)@ == rows_without(old(rows)@, drop),
        final(queue).items@ == items_without_all(old(queue).items@, queue_ids_of(old(rows)@, drop)),
        final(queue).next_id == old(queue).next_id,
        final(queue).rules == old(queue).rules,
        removed == old(rows)@.len() - rows_without(old(rows)@, drop).len(),
{
    let ghost start = rows@;
    let mut all: Vec<DownloadRow> = Vec::new();
    std::mem::swap(&mut all, rows);
    let mut kept: Vec<DownloadRow> = Vec::new();
    let mut qids: Vec<u64> = Vec::new();
    let mut removed: usize = 0;
    let mut i: usize = 0;
    let n = all.len();
    let ghost mut rest_start = all@;
    while all.len() > 0
        invariant
            all@ == start.skip(i as int),
            n == start.len(),
            i <= n,
            kept@ == rows_without(start.take(i as int), drop),
            qids@ == queue_ids_of(start.take(i as int), drop),
            removed == i - kept@.len(),
            kept@.len() <= i,
            match by_id {
                Some(id) => forall|r: DownloadRow| #[trigger] drop(r) == (r.id == id),
                None => forall|r: DownloadRow| #[trigger] drop(r) == (r.status == DownloadStatus::Completed),
            },
        decreases all.len(),
    {
        let row = all.remove(0);
        assert(row == start[i as int]);
        assert(all@ =~= start.skip(i as int + 1));
        assert(start.take(i as int + 1).drop_last() =~= start.take(i as int));
        let dropped = match by_id {
            Some(id) => row.id == id,
            None => match row.status {
                DownloadStatus::Completed => true,
                _ => false,
            },
        };
        assert(dropped == drop(row));
        if dropped {
            match row.queue_item_id {
                Some(q) => qids.push(q),
                None => {},
            }
            removed = removed + 1;
        } else {
            kept.push(row);
        }
        i = i + 1;
    }
    assert(start.take(n as int) =~= start);
    *rows = kept;
    let ghost items0 = queue.items@;
    let mut k: usize = 0;
    while k < qids.len()
        invariant
            k <= qids@.len(),
            queue.items@ == items_without_all(items0, qids@.take(k as int)),
            queue.next_id == old(queue).next_id,
            queue.rules == old(queue).rules,
        decreases qids.len() - k,
    {
        assert(qids@.take(k as int + 1).drop_last() =~= qids@.take(k as int));
        queue.remove(qids[k]);
        k = k + 1;
    }
    assert(qids@.take(qids@.len() as int) =~= qids@);
    removed
}

/// Removes the row of download `id` (every row with that id) and the queue
/// items they came from; returns the note the dashboard shows.
pub fn remove_download(rows: &mut Vec<DownloadRow>, queue: &mut QueueState, id: u64) -> (note: String)
    ensures
        final(rows)@ == rows_without(old(rows)@, |r: DownloadRow| r.id == id),
        final(queue).items@ == items_without_all(
            old(queue).items@,
            queue_ids_of(old(rows)@, |r: DownloadRow| r.id == id),
        ),
        final(queue).next_id == old(queue).next_id,
        final(queue).rules == old(queue).rules,
        note@ == "removed #"@ + decimal(id as nat),
{
    drop_rows(rows, queue, Ghost(|r: DownloadRow| r.id == id), Some(id));
    let mut m = "removed #".to_owned();
    m.append(decimal_string(id).as_str());
    m
}

/// Removes the completed rows and the queue items they came from; returns
/// the note the dashboard shows, with their number.
pub fn delete_completed(rows: &mut Vec<DownloadRow>, queue: &mut QueueState) -> (note: String)
    ensures
        final(rows)@ == rows_without(old(rows)@, |r: DownloadRow| r.status == DownloadStatus::Completed),
        final(queue).items@ == items_without_all(
            old(queue).items@,
            queue_ids_of(old(rows)@, |r: DownloadRow| r.status == DownloadStatus::Completed),
        ),
        final(queue).next_id == old(queue).next_id,
        final(queue).rules == old(queue).rules,
        note@ == "removed "@ + decimal(
            (old(rows)@.len() - rows_without(
                old(rows)@,
                |r: DownloadRow| r.status == DownloadStatus::Completed,
            ).len()) as nat,
        ) + " completed downloads"@,
{
    let n = drop_rows(rows, queue, Ghost(|r: DownloadRow| r.status == DownloadStatus::Completed), None);
    let mut m = "removed ".to_owned();
    m.append(decimal_string(n as u64).as_str());
    m.append(" completed downloads");
    m
}

/// The theme a name denotes (`auto`, `light`, `dark`, trimmed, ignoring
/// ASCII case).
pub open spec fn theme_named(raw: Seq<char>) -> Option<ThemeMode> {
    let w = crate::text::lower_seq(trim(raw));
    if w == "auto"@ {
        Some(ThemeMode::Auto)
    } else if w == "light"@ {
        Some(ThemeMode::Light)
    } else if w == "dark"@ {
        Some(ThemeMode::Dark)
    } else {
        None
    }
}

/// Sets the theme a name denotes; returns the note the dashboard shows, or
/// the message refusing an unknown name (the settings unchanged).
pub fn set_theme_mode(settings: &mut AppSettings, mode: &str) -> (r: Result<String, String>)
    ensures
        match theme_named(mode@) {
            Some(t) => *final(settings) == (AppSettings {
                appearance: crate::settings::AppearanceSettings { theme: t, ..old(settings).appearance },
                ..*old(settings)
            }) && (r matches Ok(m) && m@ == "theme set to "@ + trim(mode@)),
            None => *final(settings) == *old(settings) && (r matches Err(m) && m@
                == "theme must be one of auto|light|dark"@),
        },
{
    let t = trim_str(mode);
    let w = crate::text::lower_chars(crate::text::chars_of(t.as_str()).as_slice());
    let ws = w.as_slice();
    let theme = if crate::text::chars_eq(ws, crate::text::chars_of("auto").as_slice()) {
        ThemeMode::Auto
    } else if crate::text::chars_eq(ws, crate::text::chars_of("light").as_slice()) {
        ThemeMode::Light
    } else if crate::text::chars_eq(ws, crate::text::chars_of("dark").as_slice()) {
        ThemeMode::Dark
    } else {
        return Err("theme must be one of auto|light|dark".to_owned());
    };
    settings.appearance.theme = theme;
    let mut m = "theme set to ".to_owned();
    m.append(t.as_str());
    Ok(m)
}

/// Browser settings the dashboard changes: each given value replaces the
/// current one; blank host names and manifest directories are ignored, a
/// blank program path clears it, and the extension ids are trimmed.
#[derive(Debug)]
pub struct BrowserSettingsUpdateRequest {
    pub integration_enabled: Option<bool>,
    pub intercept_all_downloads: Option<bool>,
    pub native_host_name: Option<String>,
    pub native_host_binary_path: Option<String>,
    pub chrome_extension_id: Option<String>,
    pub firefox_extension_id: Option<String>,
    pub manifest_output_dir: Option<String>,
}

/// `after` is `before` changed as the request says (see
/// `BrowserSettingsUpdateRequest`).
pub open spec fn browser_updated(before: BrowserSettings, after: BrowserSettings, r: BrowserSettingsUpdateRequest) -> bool {
    &&& after.integration_enabled == match r.integration_enabled {
        Some(b) => b,
        None => before.integration_enabled,
    }
    &&& after.intercept_all_downloads == match r.intercept_all_downloads {
        Some(b) => b,
        None => before.intercept_all_downloads,
    }
    &&& after.native_host_name@ == match r.native_host_name {
        Some(h) => if trim(h@).len() > 0 {
            trim(h@)
        } else {
            before.native_host_name@
        },
        None => before.native_host_name@,
    }
    &&& match r.native_host_binary_path {
        Some(p) => if trim(p@).len() == 0 {
            after.native_host_binary_path is None
        } else {
            after.native_host_binary_path matches Some(q) && q@ == trim(p@)
        },
        None => after.native_host_binary_path == before.native_host_binary_path,
    }
    &&& after.chrome_extension_id@ == match r.chrome_extension_id {
        Some(c) => trim(c@),
        None => before.chrome_extension_id@,
    }
    &&& after.firefox_extension_id@ == match r.firefox_extension_id {
        Some(c) => trim(c@),
        None => before.firefox_extension_id@,
    }
    &&& after.manifest_output_dir@ == match r.manifest_output_dir {
        Some(d) => if trim(d@).len() > 0 {
            trim(d@)
        } else {
            before.manifest_output_dir@
        },
        None => before.manifest_output_dir@,
    }
}

/// Applies a browser settings change (see `browser_updated`).
pub fn update_browser_settings(browser: &mut BrowserSettings, request: BrowserSettingsUpdateRequest)
    ensures
        browser_updated(*old(browser), *final(browser), request),
{
    let ghost r = request;
    if let Some(enabled) = request.integration_enabled {
        browser.integration_enabled = enabled;
    }
    if let Some(enabled) = request.intercept_all_downloads {
        browser.intercept_all_downloads = enabled;
    }
    if let Some(h) = &request.native_host_name {
        let t = trim_str(h.as_str());
        if !t.as_str().is_empty() {
            browser.native_host_name = t;
        }
    }
    if let Some(p) = &request.native_host_binary_path {
        let t = trim_str(p.as_str());
        if t.as_str().is_empty() {
            browser.native_host_binary_path = None;
        } else {
            browser.native_host_binary_path = Some(t);
        }
    }
    if let Some(c) = &request.chrome_extension_id {
        browser.chrome_extension_id = trim_str(c.as_str());
    }
    if let Some(c) = &request.firefox_extension_id {
        browser.firefox_extension_id = trim_str(c.as_str());
    }
    if let Some(d) = &request.manifest_output_dir {
        let t = trim_str(d.as_str());
        if !t.as_str().is_empty() {
            browser.manifest_output_dir = t;
        }
    }
}


/// `order` lists every index of `keys` once, by key, equal keys in index
/// order (what a stable sort by key does).
pub open spec fn stably_sorted(keys: Seq<i128>, order: Seq<usize>) -> bool {
    &&& order.len() == keys.len()
    &&& forall|k: int| 0 <= k < order.len() ==> #[trigger] order[k] < keys.len()
    &&& forall|a: int, b: int| 0 <= a < b < order.len() ==> #[trigger] order[a] != #[trigger] order[b]
    &&& forall|a: int, b: int|
        0 <= a < b < order.len() ==> #[trigger] keys[order[a] as int] < #[trigger] keys[order[b] as int]
            || (keys[order[a] as int] == keys[order[b] as int] && order[a] < order[b])
}

/// The indices of `keys` in the order a stable sort by key puts them.
pub fn stable_order(keys: &Vec<i128>) -> (order: Vec<usize>)
    ensures
        stably_sorted(keys@, order@),
{
    let mut order: Vec<usize> = Vec::new();
    let mut i: usize = 0;
    while i < keys.len()
        invariant
            i <= keys@.len(),
            order@.len() == i,
            forall|k: int| 0 <= k < order@.len() ==> #[trigger] order@[k] < i,
            forall|a: int, b: int| 0 <= a < b < order@.len() ==> #[trigger] order@[a] != #[trigger] order@[b],
            forall|a: int, b: int|
                0 <= a < b < order@.len() ==> #[trigger] keys@[order@[a] as int] < #[trigger] keys@[order@[b] as int]
                    || (keys@[order@[a] as int] == keys@[order@[b] as int] && order@[a] < order@[b]),
        decreases keys.len() - i,
    {
        let key = keys[i];
        let mut pos: usize = order.len();
        while pos > 0 && key < keys[order[pos - 1]]
            invariant
                pos <= order@.len(),
                i < keys@.len(),
                key == keys@[i as int],
                forall|k: int| 0 <= k < order@.len() ==> #[trigger] order@[k] < i,
                forall|q: int| pos <= q < order@.len() ==> key < #[trigger] keys@[order@[q] as int],
            decreases pos,
        {
            pos = pos - 1;
        }
        let ghost before = order@;
        order.insert(pos, i);
        proof {
            assert(forall|q: int| 0 <= q < pos ==> order@[q] == before[q]);
            assert(order@[pos as int] == i);
            assert(forall|q: int| pos < q < order@.len() ==> order@[q] == before[q - 1]);
            if pos > 0 {
                assert(keys@[before[pos - 1] as int] <= key);
            }
            assert forall|a: int, b: int|
                0 <= a < b < order@.len() implies #[trigger] keys@[order@[a] as int] < #[trigger] keys@[order@[b] as int]
                || (keys@[order@[a] as int] == keys@[order@[b] as int] && order@[a] < order@[b]) by {
                if b < pos {
                } else if b == pos {
                    if a < pos - 1 {
                        assert(keys@[before[a] as int] < keys@[before[pos - 1] as int] || keys@[before[a] as int] == keys@[before[pos - 1] as int]);
                    }
                } else if a < pos {
                    assert(order@[b] == before[b - 1]);
                } else if a == pos {
                    assert(order@[b] == before[b - 1]);
                } else {
                    assert(order@[a] == before[a - 1] && order@[b] == before[b - 1]);
                }
            }
            assert forall|a: int, b: int| 0 <= a < b < order@.len() implies #[trigger] order@[a] != #[trigger] order@[b] by {
                if b < pos {
                } else if b == pos {
                } else if a < pos {
                    assert(order@[b] == before[b - 1]);
                } else if a == pos {
                    assert(order@[b] == before[b - 1]);
                } else {
                    assert(order@[a] == before[a - 1] && order@[b] == before[b - 1]);
                }
            }
        }
        i = i + 1;
    }
    order
}


/// A row as the dashboard lists it; `row` is its index among the rows, where
/// its progress and speed are found.
#[derive(Debug)]
pub struct DownloadView {
    pub row: usize,
    pub id: u64,
    pub queue_item_id: Option<u64>,
    pub url: String,
    pub file_name: String,
    pub output_path: String,
    pub category: String,
    pub status: String,
    pub downloaded_bytes: u64,
    pub total_bytes: u64,
    pub eta_seconds: Option<u64>,
    pub active_connections: u16,
    pub target_connections: u16,
    pub message: String,
    pub added_order: u64,
}

/// `v` lists row `i` of `rows`.
pub open spec fn lists_row(v: DownloadView, rows: Seq<DownloadRow>, i: int) -> bool {
    let r = rows[i];
    &&& v.row == i
    &&& v.id == r.id
    &&& v.queue_item_id == r.queue_item_id
    &&& v.url == r.url
    &&& v.file_name@ == shown_file_name(r.output_path@, "download"@)
    &&& v.output_path == r.output_path
    &&& v.category == r.category
    &&& v.status@ == status_text(r.status)
    &&& v.downloaded_bytes == r.downloaded_bytes
    &&& v.total_bytes == r.total_bytes
    &&& v.eta_seconds == r.eta_seconds
    &&& v.active_connections == r.active_connections
    &&& v.target_connections == r.target_connections
    &&& v.message == r.message
    &&& v.added_order == r.added_order
}

/// The order each row was added in.
pub open spec fn row_keys(rows: Seq<DownloadRow>) -> Seq<i128> {
    rows.map_values(|r: DownloadRow| r.added_order as i128)
}

/// The id of each queue item.
pub open spec fn item_keys(items: Seq<QueueItem>) -> Seq<i128> {
    items.map_values(|it: QueueItem| it.id as i128)
}

/// The next run of each job, in milliseconds since the epoch.
pub open spec fn job_keys(jobs: Seq<ScheduledDownload>) -> Seq<i128> {
    jobs.map_values(|j: ScheduledDownload| epoch_ms(j.next_run as int) as i128)
}

/// The rows as the dashboard lists them, by the order they were added
/// (rows added at the same count keep their order).
pub fn download_views(rows: &Vec<DownloadRow>) -> (views: Vec<DownloadView>)
    ensures
        exists|order: Seq<usize>|
            stably_sorted(row_keys(rows@), order) && views@.len()
                == order.len() && forall|k: int|
                0 <= k < order.len() ==> lists_row(#[trigger] views@[k], rows@, order[k] as int),
{
    let mut keys: Vec<i128> = Vec::new();
    let mut i: usize = 0;
    while i < rows.len()
        invariant
            i <= rows@.len(),
            keys@ == row_keys(rows@.take(i as int)),
        decreases rows.len() - i,
    {
        keys.push(rows[i].added_order as i128);
        assert(keys@ =~= row_keys(rows@.take(i as int + 1)));
        i = i + 1;
    }
    assert(rows@.take(rows@.len() as int) =~= rows@);
    let order = stable_order(&keys);
    let mut views: Vec<DownloadView> = Vec::new();
    let mut k: usize = 0;
    while k < order.len()
        invariant
            k <= order@.len(),
            stably_sorted(keys@, order@),
            keys@.len() == rows@.len(),
            views@.len() == k,
            forall|q: int| 0 <= q < k ==> lists_row(#[trigger] views@[q], rows@, order@[q] as int),
        decreases order.len() - k,
    {
        let idx = order[k];
        assert(idx < keys@.len());
        let r = &rows[idx];
        let file_name = file_name_or(r.output_path.as_str(), "download");
        views.push(
            DownloadView {
                row: idx,
                id: r.id,
                queue_item_id: r.queue_item_id,
                url: r.url.clone(),
                file_name,
                output_path: r.output_path.clone(),
                category: r.category.clone(),
                status: status_label(r.status).to_owned(),
                downloaded_bytes: r.downloaded_bytes,
                total_bytes: r.total_bytes,
                eta_seconds: r.eta_seconds,
                active_connections: r.active_connections,
                target_connections: r.target_connections,
                message: r.message.clone(),
                added_order: r.added_order,
            },
        );
        k = k + 1;
    }
    views
}

/// The names of the dashboard's category list, in order.
pub open spec fn dashboard_category_names() -> Seq<Seq<char>> {
    seq![
        "All Downloads"@,
        "Compressed"@,
        "Documents"@,
        "Music"@,
        "Programs"@,
        "Video"@,
        "Other"@,
        "Unfinished"@,
        "Finished"@,
        "Grabber Projects"@,
        "Queues"@,
    ]
}

/// Whether a listed download belongs under a category of the list.
pub open spec fn counted_under(name: Seq<char>, v: DownloadView) -> bool {
    if name == "All Downloads"@ {
        true
    } else if name == "Unfinished"@ {
        v.status@ == "Queued"@ || v.status@ == "Downloading"@ || v.status@ == "Paused"@ || v.status@
            == "Retrying"@
    } else if name == "Finished"@ {
        v.status@ == "Complete"@
    } else if name == "Queues"@ {
        v.queue_item_id is Some
    } else {
        crate::text::eq_ignore_case(v.category@, name)
    }
}

/// How many listed downloads belong under a category.
pub open spec fn count_under(name: Seq<char>, views: Seq<DownloadView>) -> nat
    decreases views.len(),
{
    if views.len() == 0 {
        0
    } else {
        count_under(name, views.drop_last()) + if counted_under(name, views.last()) {
            1nat
        } else {
            0nat
        }
    }
}

/// How many listed downloads belong under the category `name` of the list.
pub fn category_count(name: &str, views: &Vec<DownloadView>) -> (n: usize)
    ensures
        n == count_under(name@, views@),
{
    let nc = crate::text::chars_of(name);
    let ns = nc.as_slice();
    let all = crate::text::chars_eq(ns, crate::text::chars_of("All Downloads").as_slice());
    let unfinished = crate::text::chars_eq(ns, crate::text::chars_of("Unfinished").as_slice());
    let finished = crate::text::chars_eq(ns, crate::text::chars_of("Finished").as_slice());
    let queues = crate::text::chars_eq(ns, crate::text::chars_of("Queues").as_slice());
    let mut n: usize = 0;
    let mut i: usize = 0;
    while i < views.len()
        invariant
            i <= views@.len(),
            nc@ == name@,
            all == (name@ == "All Downloads"@),
            unfinished == (name@ == "Unfinished"@),
            finished == (name@ == "Finished"@),
            queues == (name@ == "Queues"@),
            n == count_under(name@, views@.take(i as int)),
            n <= i,
        decreases views.len() - i,
    {
        assert(views@.take(i as int + 1).drop_last() =~= views@.take(i as int));
        let v = &views[i];
        let sc = crate::text::chars_of(v.status.as_str());
        let ss = sc.as_slice();
        let hit = if all {
            true
        } else if unfinished {
            crate::text::chars_eq(ss, crate::text::chars_of("Queued").as_slice())
                || crate::text::chars_eq(ss, crate::text::chars_of("Downloading").as_slice())
                || crate::text::chars_eq(ss, crate::text::chars_of("Paused").as_slice())
                || crate::text::chars_eq(ss, crate::text::chars_of("Retrying").as_slice())
        } else if finished {
            crate::text::chars_eq(ss, crate::text::chars_of("Complete").as_slice())
        } else if queues {
            v.queue_item_id.is_some()
        } else {
            let cc = crate::text::chars_of(v.category.as_str());
            crate::text::eq_ignore_case_chars(cc.as_slice(), nc.as_slice())
        };
        assert(hit == counted_under(name@, views@[i as int]));
        if hit {
            n = n + 1;
        }
        i = i + 1;
    }
    assert(views@.take(views@.len() as int) =~= views@);
    n
}

/// Each category of the list with the number of listed downloads under it.
pub fn category_counts(views: &Vec<DownloadView>) -> (counts: Vec<(String, usize)>)
    ensures
        counts@.len() == dashboard_category_names().len(),
        forall|k: int|
            0 <= k < counts@.len() ==> (#[trigger] counts@[k]).0@ == dashboard_category_names()[k]
                && counts@[k].1 == count_under(dashboard_category_names()[k], views@),
{
    let names: [&'static str; 11] = [
        "All Downloads",
        "Compressed",
        "Documents",
        "Music",
        "Programs",
        "Video",
        "Other",
        "Unfinished",
        "Finished",
        "Grabber Projects",
        "Queues",
    ];
    assert(names@.map_values(|s: &'static str| s@) =~= dashboard_category_names());
    let mut counts: Vec<(String, usize)> = Vec::new();
    let mut k: usize = 0;
    while k < 11
        invariant
            k <= 11,
            names@.map_values(|s: &'static str| s@) == dashboard_category_names(),
            names@.len() == 11,
            counts@.len() == k,
            forall|q: int|
                0 <= q < k ==> (#[trigger] counts@[q]).0@ == dashboard_category_names()[q]
                    && counts@[q].1 == count_under(dashboard_category_names()[q], views@),
        decreases 11 - k,
    {
        let name = names[k];
        assert(name@ == dashboard_category_names()[k as int]);
        let n = category_count(name, views);
        counts.push((name.to_owned(), n));
        k = k + 1;
    }
    counts
}

/// A download counts as active while queued, running, retrying or paused.
pub open spec fn is_active(s: DownloadStatus) -> bool {
    s is Queued || s is Running || s is Retrying || s is Paused
}

/// How many rows satisfy `f`.
pub open spec fn count_rows(rows: Seq<DownloadRow>, f: spec_fn(DownloadRow) -> bool) -> nat
    decreases rows.len(),
{
    if rows.len() == 0 {
        0
    } else {
        count_rows(rows.drop_last(), f) + if f(rows.last()) {
            1nat
        } else {
            0nat
        }
    }
}

/// How many downloads are active.
pub fn active_download_count(rows: &Vec<DownloadRow>) -> (n: usize)
    ensures
        n == count_rows(rows@, |r: DownloadRow| is_active(r.status)),
{
    let mut n: usize = 0;
    let mut i: usize = 0;
    while i < rows.len()
        invariant
            i <= rows@.len(),
            n == count_rows(rows@.take(i as int), |r: DownloadRow| is_active(r.status)),
            n <= i,
        decreases rows.len() - i,
    {
        assert(rows@.take(i as int + 1).drop_last() =~= rows@.take(i as int));
        match rows[i].status {
            DownloadStatus::Queued | DownloadStatus::Running | DownloadStatus::Retrying
            | DownloadStatus::Paused => {
                n = n + 1;
            },
            _ => {},
        }
        i = i + 1;
    }
    assert(rows@.take(rows@.len() as int) =~= rows@);
    n
}

/// The indices of the rows whose speed adds to the total: those running or
/// retrying, in order.
pub open spec fn speed_indices(rows: Seq<DownloadRow>) -> Seq<usize>
    decreases rows.len(),
{
    if rows.len() == 0 {
        Seq::empty()
    } else if rows.last().status is Running || rows.last().status is Retrying {
        speed_indices(rows.drop_last()).push((rows.len() - 1) as usize)
    } else {
        speed_indices(rows.drop_last())
    }
}

/// The indices of the rows whose speed adds to the total.
pub fn speed_rows(rows: &Vec<DownloadRow>) -> (idx: Vec<usize>)
    ensures
        idx@ == speed_indices(rows@),
{
    let mut idx: Vec<usize> = Vec::new();
    let mut i: usize = 0;
    while i < rows.len()
        invariant
            i <= rows@.len(),
            idx@ == speed_indices(rows@.take(i as int)),
        decreases rows.len() - i,
    {
        assert(rows@.take(i as int + 1).drop_last() =~= rows@.take(i as int));
        match rows[i].status {
            DownloadStatus::Running | DownloadStatus::Retrying => idx.push(i),
            _ => {},
        }
        i = i + 1;
    }
    assert(rows@.take(rows@.len() as int) =~= rows@);
    idx
}

/// A queue item as the dashboard lists it.
#[derive(Debug)]
pub struct QueueItemView {
    pub id: u64,
    pub url: String,
    pub file_name: String,
    pub output_path: String,
    pub category: String,
    pub priority: String,
    pub status: String,
    pub last_error: Option<String>,
}

/// The name `Debug` gives a queue status.
pub open spec fn queue_status_text(s: QueueItemStatus) -> Seq<char> {
    match s {
        QueueItemStatus::Queued => "Queued"@,
        QueueItemStatus::Scheduled => "Scheduled"@,
        QueueItemStatus::Running => "Running"@,
        QueueItemStatus::Completed => "Completed"@,
        QueueItemStatus::Failed => "Failed"@,
        QueueItemStatus::Cancelled => "Cancelled"@,
    }
}

/// The name `Debug` gives a queue status.
pub fn queue_status_label(s: QueueItemStatus) -> (t: &'static str)
    ensures
        t@ == queue_status_text(s),
{
    match s {
        QueueItemStatus::Queued => "Queued",
        QueueItemStatus::Scheduled => "Scheduled",
        QueueItemStatus::Running => "Running",
        QueueItemStatus::Completed => "Completed",
        QueueItemStatus::Failed => "Failed",
        QueueItemStatus::Cancelled => "Cancelled",
    }
}

/// `v` lists queue item `i`.
pub open spec fn lists_item(v: QueueItemView, items: Seq<QueueItem>, i: int) -> bool {
    let it = items[i];
    &&& v.id == it.id
    &&& v.url == it.config.url
    &&& v.file_name@ == shown_file_name(it.config.output_path@, "download"@)
    &&& v.output_path == it.config.output_path
    &&& v.category@ == category_name(it.category)
    &&& v.priority@ == priority_name(it.priority)
    &&& v.status@ == queue_status_text(it.status)
    &&& v.last_error == it.last_error
}

/// The queue items as the dashboard lists them, by id (equal ids in queue
/// order).
pub fn queue_item_views(queue: &QueueState) -> (views: Vec<QueueItemView>)
    ensures
        exists|order: Seq<usize>|
            stably_sorted(item_keys(queue.items@), order) && views@.len()
                == order.len() && forall|k: int|
                0 <= k < order.len() ==> lists_item(#[trigger] views@[k], queue.items@, order[k] as int),
{
    let items = &queue.items;
    let mut keys: Vec<i128> = Vec::new();
    let mut i: usize = 0;
    while i < items.len()
        invariant
            i <= items@.len(),
            keys@ == item_keys(items@.take(i as int)),
        decreases items.len() - i,
    {
        keys.push(items[i].id as i128);
        assert(keys@ =~= item_keys(items@.take(i as int + 1)));
        i = i + 1;
    }
    assert(items@.take(items@.len() as int) =~= items@);
    let order = stable_order(&keys);
    let mut views: Vec<QueueItemView> = Vec::new();
    let mut k: usize = 0;
    while k < order.len()
        invariant
            k <= order@.len(),
            stably_sorted(keys@, order@),
            keys@.len() == items@.len(),
            views@.len() == k,
            forall|q: int| 0 <= q < k ==> lists_item(#[trigger] views@[q], items@, order@[q] as int),
        decreases order.len() - k,
    {
        let idx = order[k];
        assert(idx < keys@.len());
        let it = &items[idx];
        views.push(
            QueueItemView {
                id: it.id,
                url: it.config.url.clone(),
                file_name: file_name_or(it.config.output_path.as_str(), "download"),
                output_path: it.config.output_path.clone(),
                category: it.category.as_str().to_owned(),
                priority: it.priority.as_str().to_owned(),
                status: queue_status_label(it.status).to_owned(),
                last_error: crate::config::clone_opt_string(&it.last_error),
            },
        );
        k = k + 1;
    }
    views
}

/// A scheduled job as the dashboard lists it.
#[derive(Debug)]
pub struct JobView {
    pub id: u64,
    pub name: String,
    pub url: String,
    pub output_path: String,
    pub kind: String,
    pub interval_secs: Option<u64>,
    pub next_run_epoch_ms: u64,
    pub enabled: bool,
}

/// The whole seconds of an interval, at least one.
pub open spec fn interval_seconds(step: u128) -> u64 {
    if step / 1000000000 < 1 {
        1
    } else {
        (step / 1000000000) as u64
    }
}

/// `v` lists job `j`.
pub open spec fn lists_job(v: JobView, j: ScheduledDownload) -> bool {
    &&& v.id == j.id
    &&& v.name == j.name
    &&& v.url == j.config.url
    &&& v.output_path == j.config.output_path
    &&& v.interval_secs == match j.spec.interval_nanos {
        Some(step) => Some(interval_seconds(step)),
        None => None,
    }
    &&& v.kind@ == if j.spec.interval_nanos is Some {
        "Recurring"@
    } else {
        "Once"@
    }
    &&& v.next_run_epoch_ms == epoch_ms(j.next_run as int)
    &&& v.enabled == j.enabled
}

/// How a job is listed (see `lists_job`).
fn job_view(j: &ScheduledDownload) -> (v: JobView)
    requires
        j.spec.interval_nanos matches Some(step) ==> step / 1000000000 <= u64::MAX,
    ensures
        lists_job(v, *j),
{
    let interval_secs = match j.spec.interval_nanos {
        Some(step) => {
            let secs = step / 1000000000;
            Some(if secs < 1 { 1u64 } else { secs as u64 })
        },
        None => None,
    };
    JobView {
        id: j.id,
        name: j.name.clone(),
        url: j.config.url.clone(),
        output_path: j.config.output_path.clone(),
        kind: if j.spec.interval_nanos.is_some() {
            "Recurring".to_owned()
        } else {
            "Once".to_owned()
        },
        interval_secs,
        next_run_epoch_ms: system_time_to_epoch_ms(j.next_run),
        enabled: j.enabled,
    }
}

/// The jobs as the dashboard lists them, by next run (equal ones in job
/// order). Every interval is one a `Duration` holds.
pub fn job_views(jobs: &Vec<ScheduledDownload>) -> (views: Vec<JobView>)
    requires
        forall|i: int| 0 <= i < jobs@.len() ==> crate::scheduler::valid_spec(#[trigger] jobs@[i].spec),
    ensures
        exists|order: Seq<usize>|
            stably_sorted(job_keys(jobs@), order)
                && views@.len() == order.len() && forall|k: int|
                0 <= k < order.len() ==> lists_job(#[trigger] views@[k], jobs@[order[k] as int]),
{
    let mut keys: Vec<i128> = Vec::new();
    let mut i: usize = 0;
    while i < jobs.len()
        invariant
            i <= jobs@.len(),
            keys@ == job_keys(jobs@.take(i as int)),
        decreases jobs.len() - i,
    {
        keys.push(system_time_to_epoch_ms(jobs[i].next_run) as i128);
        assert(keys@ =~= job_keys(jobs@.take(i as int + 1)));
        i = i + 1;
    }
    assert(jobs@.take(jobs@.len() as int) =~= jobs@);
    let order = stable_order(&keys);
    let mut views: Vec<JobView> = Vec::new();
    let mut k: usize = 0;
    while k < order.len()
        invariant
            k <= order@.len(),
            stably_sorted(keys@, order@),
            keys@.len() == jobs@.len(),
            forall|i: int| 0 <= i < jobs@.len() ==> crate::scheduler::valid_spec(#[trigger] jobs@[i].spec),
            views@.len() == k,
            forall|q: int| 0 <= q < k ==> lists_job(#[trigger] views@[q], jobs@[order@[q] as int]),
        decreases order.len() - k,
    {
        let idx = order[k];
        assert(idx < keys@.len());
        let j = &jobs[idx];
        assert(crate::scheduler::valid_spec(jobs@[idx as int].spec));
        assert(j.spec.interval_nanos matches Some(step) ==> step / 1000000000 <= u64::MAX) by (nonlinear_arith)
            requires
                j.spec.interval_nanos matches Some(step) ==> step <= 18446744073709551615999999999u128,
        {
        }
        views.push(job_view(j));
        k = k + 1;
    }
    views
}

/// The name of a theme as the dashboard shows it.
pub open spec fn theme_text(t: ThemeMode) -> Seq<char> {
    match t {
        ThemeMode::Auto => "auto"@,
        ThemeMode::Light => "light"@,
        ThemeMode::Dark => "dark"@,
    }
}

/// The name `Debug` gives a toolbar skin.
pub open spec fn skin_text(s: ToolbarSkin) -> Seq<char> {
    match s {
        ToolbarSkin::Classic => "Classic"@,
        ToolbarSkin::Windows10Flat => "Windows10Flat"@,
        ToolbarSkin::NeonGlow => "NeonGlow"@,
    }
}

/// The name of a theme as the dashboard shows it.
pub fn theme_label(t: ThemeMode) -> (s: &'static str)
    ensures
        s@ == theme_text(t),
{
    match t {
        ThemeMode::Auto => "auto",
        ThemeMode::Light => "light",
        ThemeMode::Dark => "dark",
    }
}

/// The name `Debug` gives a toolbar skin.
pub fn skin_label(s: ToolbarSkin) -> (t: &'static str)
    ensures
        t@ == skin_text(s),
{
    match s {
        ToolbarSkin::Classic => "Classic",
        ToolbarSkin::Windows10Flat => "Windows10Flat",
        ToolbarSkin::NeonGlow => "NeonGlow",
    }
}


/// `j` is the job the dashboard adds: the given id, name, schedule and
/// configuration, first run at its next run at or after `now` (its start
/// when there is none).
pub open spec fn new_job(j: ScheduledDownload, id: u64, name: Seq<char>, spec: ScheduleSpec, now: i128, enabled: bool, config: DownloadConfig) -> bool {
    &&& j.id == id
    &&& j.name@ == name
    &&& j.spec == spec
    &&& j.next_run == match next_time(spec, now) {
        Some(t) => t,
        None => spec.start_at_nanos,
    }
    &&& j.enabled == enabled
    &&& crate::config::same_config(j.config, config)
}

/// The next run of each job.
pub open spec fn run_keys(jobs: Seq<ScheduledDownload>) -> Seq<i128> {
    jobs.map_values(|j: ScheduledDownload| j.next_run)
}

/// The jobs reordered by next run, equal ones keeping their order.
fn sort_jobs(jobs: Vec<ScheduledDownload>) -> (sorted: Vec<ScheduledDownload>)
    ensures
        exists|order: Seq<usize>|
            stably_sorted(run_keys(jobs@), order) && sorted@.len() == order.len() && forall|k: int|
                0 <= k < order.len() ==> same_job(#[trigger] sorted@[k], jobs@[order[k] as int]),
{
    let mut keys: Vec<i128> = Vec::new();
    let mut i: usize = 0;
    while i < jobs.len()
        invariant
            i <= jobs@.len(),
            keys@ == run_keys(jobs@.take(i as int)),
        decreases jobs.len() - i,
    {
        keys.push(jobs[i].next_run);
        assert(keys@ =~= run_keys(jobs@.take(i as int + 1)));
        i = i + 1;
    }
    assert(jobs@.take(jobs@.len() as int) =~= jobs@);
    let order = stable_order(&keys);
    let mut sorted: Vec<ScheduledDownload> = Vec::new();
    let mut k: usize = 0;
    while k < order.len()
        invariant
            k <= order@.len(),
            stably_sorted(keys@, order@),
            keys@.len() == jobs@.len(),
            sorted@.len() == k,
            forall|q: int| 0 <= q < k ==> same_job(#[trigger] sorted@[q], jobs@[order@[q] as int]),
        decreases order.len() - k,
    {
        let idx = order[k];
        assert(idx < keys@.len());
        sorted.push(jobs[idx].clone());
        k = k + 1;
    }
    sorted
}

/// Adds a job from the dashboard: first run `start_in_secs` (none: 0)
/// seconds after `now`, repeating every `interval_secs` seconds when that is
/// given and not 0; named as asked (trimmed, when not blank), else after
/// its file name; enabled unless asked otherwise. The jobs are then ordered
/// by next run. Returns the job's id and the note the dashboard shows; ids
/// count up from `next_id`, saturating.
pub fn add_dashboard_job(
    jobs: &mut Vec<ScheduledDownload>,
    next_id: &mut u64,
    name: &Option<String>,
    config: DownloadConfig,
    now: i128,
    start_in_secs: Option<u64>,
    interval_secs: Option<u64>,
    enabled: Option<bool>,
) -> (r: (u64, String))
    requires
        valid_time(now as int),
        valid_time(
            now + match start_in_secs {
                Some(s) => s as int,
                None => 0,
            } * NANOS_PER_SEC,
        ),
    ensures
        r.0 == *old(next_id),
        *final(next_id) == if *old(next_id) == u64::MAX {
            u64::MAX
        } else {
            (*old(next_id) + 1) as u64
        },
        r.1@ == "scheduled job #"@ + decimal(r.0 as nat) + " added"@,
        exists|j: ScheduledDownload, order: Seq<usize>|
            new_job(
                j,
                r.0,
                match name {
                    Some(n) => if trim(n@).len() > 0 {
                        trim(n@)
                    } else {
                        shown_file_name(config.output_path@, "scheduled-download"@)
                    },
                    None => shown_file_name(config.output_path@, "scheduled-download"@),
                },
                ScheduleSpec {
                    start_at_nanos: (now + match start_in_secs {
                        Some(s) => s as int,
                        None => 0,
                    } * NANOS_PER_SEC) as i128,
                    interval_nanos: match interval_secs {
                        Some(s) => if s > 0 {
                            Some((s * NANOS_PER_SEC) as u128)
                        } else {
                            None
                        },
                        None => None,
                    },
                },
                now,
                match enabled {
                    Some(e) => e,
                    None => true,
                },
                config,
            ) && stably_sorted(run_keys(old(jobs)@.push(j)), order) && final(jobs)@.len()
                == order.len() && forall|k: int|
                0 <= k < order.len() ==> same_job(
                    #[trigger] final(jobs)@[k],
                    old(jobs)@.push(j)[order[k] as int],
                ),
{
    let start = match start_in_secs {
        Some(s) => s,
        None => 0,
    };
    let start_at = now + (start as i128) * (NANOS_PER_SEC as i128);
    let every = match interval_secs {
        Some(s) => s,
        None => 0,
    };
    let interval_nanos = if every > 0 {
        Some((every as u128) * NANOS_PER_SEC)
    } else {
        None
    };
    assert(every * NANOS_PER_SEC <= crate::scheduler::MAX_DURATION_NANOS) by (nonlinear_arith)
        requires
            every <= u64::MAX,
            NANOS_PER_SEC == 1000000000,
            crate::scheduler::MAX_DURATION_NANOS == 18446744073709551615999999999u128,
    ;
    let spec = ScheduleSpec { start_at_nanos: start_at, interval_nanos };
    let id = *next_id;
    *next_id = next_id.saturating_add(1);
    let file_name = file_name_or(config.output_path.as_str(), "scheduled-download");
    let job_name = match name {
        Some(n) => {
            let t = trim_str(n.as_str());
            if t.as_str().is_empty() {
                file_name
            } else {
                t
            }
        },
        None => file_name,
    };
    let next_run = match spec.next_after(now) {
        Some(t) => t,
        None => start_at,
    };
    let on = match enabled {
        Some(e) => e,
        None => true,
    };
    let ghost cfg = config;
    let job = ScheduledDownload { id, name: job_name, spec, next_run, enabled: on, config };
    let ghost j = job;
    let mut all: Vec<ScheduledDownload> = Vec::new();
    std::mem::swap(&mut all, jobs);
    all.push(job);
    let sorted = sort_jobs(all);
    *jobs = sorted;
    assert(new_job(j, id, j.name@, spec, now, on, cfg));
    let mut note = "scheduled job #".to_owned();
    note.append(decimal_string(id).as_str());
    note.append(" added");
    (id, note)
}

/// The jobs without those with `id`, in order.
pub open spec fn jobs_without(jobs: Seq<ScheduledDownload>, id: u64) -> Seq<ScheduledDownload>
    decreases jobs.len(),
{
    if jobs.len() == 0 {
        Seq::empty()
    } else if jobs.last().id == id {
        jobs_without(jobs.drop_last(), id)
    } else {
        jobs_without(jobs.drop_last(), id).push(jobs.last())
    }
}

/// Removes every job with `id`; tells whether there was one, with the note
/// the dashboard shows.
pub fn remove_dashboard_job(jobs: &mut Vec<ScheduledDownload>, id: u64) -> (r: (bool, String))
    ensures
        final(jobs)@ == jobs_without(old(jobs)@, id),
        r.0 == (final(jobs)@.len() != old(jobs)@.len()),
        r.1@ == "scheduler #"@ + decimal(id as nat) + if r.0 {
            " removed"@
        } else {
            " not found"@
        },
{
    let ghost start = jobs@;
    let mut all: Vec<ScheduledDownload> = Vec::new();
    std::mem::swap(&mut all, jobs);
    let before = all.len();
    let mut kept: Vec<ScheduledDownload> = Vec::new();
    let mut i: usize = 0;
    while all.len() > 0
        invariant
            all@ == start.skip(i as int),
            i <= start.len(),
            before == start.len(),
            kept@ == jobs_without(start.take(i as int), id),
        decreases all.len(),
    {
        let job = all.remove(0);
        assert(job == start[i as int]);
        assert(all@ =~= start.skip(i as int + 1));
        assert(start.take(i as int + 1).drop_last() =~= start.take(i as int));
        if job.id != id {
            kept.push(job);
        }
        i = i + 1;
    }
    assert(start.take(start.len() as int) =~= start);
    let removed = kept.len() != before;
    *jobs = kept;
    let mut note = "scheduler #".to_owned();
    note.append(decimal_string(id).as_str());
    if removed {
        note.append(" removed");
    } else {
        note.append(" not found");
    }
    (removed, note)
}

/// `i` is the first job with `id`.
pub open spec fn first_job(jobs: Seq<ScheduledDownload>, id: u64, i: int) -> bool {
    &&& 0 <= i < jobs.len()
    &&& jobs[i].id == id
    &&& forall|j: int| 0 <= j < i ==> (#[trigger] jobs[j]).id != id
}

/// Enables or disables the first job with `id`; tells whether there was
/// one, with the note the dashboard shows.
pub fn set_dashboard_job_enabled(jobs: &mut Vec<ScheduledDownload>, id: u64, enabled: bool) -> (r: (bool, String))
    ensures
        r.0 == exists|i: int| 0 <= i < old(jobs)@.len() && (#[trigger] old(jobs)@[i]).id == id,
        !r.0 ==> final(jobs)@ == old(jobs)@,
        forall|i: int|
            first_job(old(jobs)@, id, i) ==> final(jobs)@ == old(jobs)@.update(
                i,
                ScheduledDownload { enabled, ..old(jobs)@[i] },
            ),
        r.1@ == "scheduler #"@ + decimal(id as nat) + if !r.0 {
            " not found"@
        } else if enabled {
            " enabled"@
        } else {
            " disabled"@
        },
{
    let mut i: usize = 0;
    while i < jobs.len()
        invariant
            i <= jobs@.len(),
            jobs@ == old(jobs)@,
            forall|j: int| 0 <= j < i ==> (#[trigger] jobs@[j]).id != id,
        decreases jobs.len() - i,
    {
        if jobs[i].id == id {
            assert(first_job(old(jobs)@, id, i as int));
            let mut job = jobs.remove(i);
            job.enabled = enabled;
            jobs.insert(i, job);
            assert(jobs@ =~= old(jobs)@.update(i as int, ScheduledDownload { enabled, ..old(jobs)@[i as int] }));
            let mut note = "scheduler #".to_owned();
            note.append(decimal_string(id).as_str());
            if enabled {
                note.append(" enabled");
            } else {
                note.append(" disabled");
            }
            return (true, note);
        }
        i = i + 1;
    }
    let mut note = "scheduler #".to_owned();
    note.append(decimal_string(id).as_str());
    note.append(" not found");
    (false, note)
}

/// One tick of the dashboard's scheduler at `now`: returns copies of the
/// due jobs, in order, and moves each on to its next run after `now` plus a
/// millisecond, disabling those that have none.
pub fn due_dashboard_jobs(jobs: &mut Vec<ScheduledDownload>, now: i128) -> (due: Vec<ScheduledDownload>)
    requires
        valid_time(now as int),
        valid_time(now + 1000000),
        forall|i: int| 0 <= i < old(jobs)@.len() ==> valid_spec(#[trigger] old(jobs)@[i].spec),
    ensures
        final(jobs)@ == old(jobs)@.map_values(|j: ScheduledDownload| after_tick(j, now)),
        due@.len() == due_indices(old(jobs)@, now).len(),
        forall|k: int|
            0 <= k < due@.len() ==> same_job(#[trigger] due@[k], old(jobs)@[due_indices(old(jobs)@, now)[k]]),
{
    let mut all: Vec<ScheduledDownload> = Vec::new();
    std::mem::swap(&mut all, jobs);
    let mut sched = DownloadScheduler { jobs: all, next_id: 0 };
    let due = sched.collect_due(now);
    *jobs = sched.jobs;
    due
}

/// What topping up the running queue downloads takes: nothing while as
/// many run as allowed; when nothing is pending, whether processing is done
/// (nothing runs either); else the pending items to start, with their
/// configurations.
pub enum TopUp {
    Busy,
    Idle { finished: bool },
    Start(Vec<(u64, DownloadConfig)>),
}

/// How many queue items are running.
pub open spec fn running_count(items: Seq<QueueItem>) -> nat
    decreases items.len(),
{
    if items.len() == 0 {
        0
    } else {
        running_count(items.drop_last()) + if items.last().status is Running {
            1nat
        } else {
            0nat
        }
    }
}

/// The configuration a queue item starts with: its own, its category
/// filled in from the item when it names none.
pub open spec fn start_config(item: QueueItem, c: DownloadConfig) -> bool {
    &&& crate::config::same_config(
        c,
        DownloadConfig {
            category: c.category,
            ..item.config
        },
    )
    &&& c.category == match item.config.category {
        Some(k) => Some(k),
        None => c.category,
    }
    &&& item.config.category is None ==> (c.category matches Some(n) && n@ == category_name(item.category))
}

/// What topping up the queue downloads takes (see `TopUp`): at most
/// `concurrent` (at least one) items run at a time, and the pending items
/// start in their start order.
pub fn plan_top_up(queue: &QueueState, concurrent: usize) -> (t: TopUp)
    ensures
        ({
            let limit = if concurrent < 1 { 1 } else { concurrent as int };
            let active = running_count(queue.items@) as int;
            if active >= limit {
                t is Busy
            } else {
                exists|order: Seq<usize>|
                    crate::queue::is_pending_order(queue.items@, order) && if order.len() == 0 {
                        t == (TopUp::Idle { finished: active == 0 })
                    } else {
                        t matches TopUp::Start(list) && list@.len() == (if order.len() < limit - active {
                            order.len() as int
                        } else {
                            limit - active
                        }) && forall|k: int|
                            0 <= k < list@.len() ==> (#[trigger] list@[k]).0 == queue.items@[order[k] as int].id
                                && start_config(queue.items@[order[k] as int], list@[k].1)
                    }
            }
        }),
{
    let limit: usize = if concurrent < 1 { 1 } else { concurrent };
    let mut active: usize = 0;
    let mut i: usize = 0;
    while i < queue.items.len()
        invariant
            i <= queue.items@.len(),
            active == running_count(queue.items@.take(i as int)),
            active <= i,
        decreases queue.items.len() - i,
    {
        assert(queue.items@.take(i as int + 1).drop_last() =~= queue.items@.take(i as int));
        match queue.items[i].status {
            QueueItemStatus::Running => {
                active = active + 1;
            },
            _ => {},
        }
        i = i + 1;
    }
    assert(queue.items@.take(queue.items@.len() as int) =~= queue.items@);
    if active >= limit {
        return TopUp::Busy;
    }
    let slots = limit - active;
    let order = queue.pending_order();
    if order.len() == 0 {
        return TopUp::Idle { finished: active == 0 };
    }
    let take = if order.len() < slots { order.len() } else { slots };
    let mut list: Vec<(u64, DownloadConfig)> = Vec::new();
    let mut k: usize = 0;
    while k < take
        invariant
            k <= take,
            take <= order@.len(),
            crate::queue::is_pending_order(queue.items@, order@),
            list@.len() == k,
            forall|q: int|
                0 <= q < k ==> (#[trigger] list@[q]).0 == queue.items@[order@[q] as int].id
                    && start_config(queue.items@[order@[q] as int], list@[q].1),
        decreases take - k,
    {
        let idx = order[k];
        assert(idx < queue.items@.len());
        let item = &queue.items[idx];
        let mut cfg = item.config.clone();
        if cfg.category.is_none() {
            cfg.category = Some(item.category.as_str().to_owned());
        }
        list.push((item.id, cfg));
        k = k + 1;
    }
    TopUp::Start(list)
}


/// What the dashboard's grabber asks to scan.
#[derive(Debug)]
pub struct SpiderScanRequest {
    pub root_url: String,
    pub depth: Option<usize>,
    pub extensions: Option<Vec<String>>,
    pub same_host_only: Option<bool>,
    pub respect_robots: Option<bool>,
    pub queue_results: Option<bool>,
    pub start_downloads: Option<bool>,
    pub output_dir: Option<String>,
    pub connections: Option<u16>,
}

/// A grabber scan as the dashboard runs it: the crawl, whether the links
/// found are queued and started, where they are saved and with how many
/// connections.
#[derive(Debug)]
pub struct SpiderScanPlan {
    pub config: SpiderConfig,
    pub queue_results: bool,
    pub start_downloads: bool,
    pub output_dir: Option<String>,
    pub connections: Option<u16>,
}

/// The scan a grabber request asks for, or the message refusing it: a blank
/// root URL, or one that does not parse (the parser's message follows
/// `invalid root URL: `). The depth is the one asked for (2 when none), at
/// most 8; the extensions are normalized as the command line's are; links
/// stay on the root's host and follow `robots.txt` unless asked otherwise;
/// results are queued but not started unless asked otherwise; a blank
/// output directory counts as none.
pub fn plan_spider_scan(request: &SpiderScanRequest) -> (r: Result<SpiderScanPlan, String>)
    ensures
        ({
            let root = trim(request.root_url@);
            if root.len() == 0 {
                r matches Err(m) && m@ == "Root URL is required"@
            } else if url_parsed(root) is None {
                r matches Err(m) && crate::text::starts_with(m@, "invalid root URL: "@)
            } else {
                r matches Ok(p) && p.config.root.parts() == url_parsed(root)->0 && p.config.max_depth == (
                match request.depth {
                    Some(d) => if d < 8 {
                        d
                    } else {
                        8
                    },
                    None => 2,
                }) && crate::cli::normalized_exts(
                    match request.extensions {
                        Some(e) => e@,
                        None => Seq::empty(),
                    },
                    p.config.allowed_extensions@,
                ) && p.config.same_host_only == match request.same_host_only {
                    Some(b) => b,
                    None => true,
                } && p.config.respect_robots == match request.respect_robots {
                    Some(b) => b,
                    None => true,
                } && p.config.allowed_schemes@.len() == 0 && p.queue_results == match request.queue_results {
                    Some(b) => b,
                    None => true,
                } && p.start_downloads == match request.start_downloads {
                    Some(b) => b,
                    None => false,
                } && match request.output_dir {
                    Some(d) => if trim(d@).len() > 0 {
                        p.output_dir matches Some(o) && o@ == trim(d@)
                    } else {
                        p.output_dir is None
                    },
                    None => p.output_dir is None,
                } && p.connections == request.connections
            }
        }),
{
    let root_text = trim_str(request.root_url.as_str());
    if root_text.as_str().is_empty() {
        return Err("Root URL is required".to_owned());
    }
    let root = match parse_url(root_text.as_str()) {
        Ok(u) => u,
        Err(e) => {
            let mut m = "invalid root URL: ".to_owned();
            m.append(e.as_str());
            proof {
                reveal_strlit("invalid root URL: ");
                assert(m@.subrange(0, 18) =~= "invalid root URL: "@);
            }
            return Err(m);
        },
    };
    let max_depth = match request.depth {
        Some(d) => if d < 8 {
            d
        } else {
            8
        },
        None => 2,
    };
    let allowed_extensions = match &request.extensions {
        Some(e) => crate::cli::spider_extensions(e),
        None => {
            let none: Vec<String> = Vec::new();
            crate::cli::spider_extensions(&none)
        },
    };
    let output_dir = match &request.output_dir {
        Some(d) => {
            let t = trim_str(d.as_str());
            if t.as_str().is_empty() {
                None
            } else {
                Some(t)
            }
        },
        None => None,
    };
    Ok(
        SpiderScanPlan {
            config: SpiderConfig {
                root,
                max_depth,
                allowed_extensions,
                same_host_only: match request.same_host_only {
                    Some(b) => b,
                    None => true,
                },
                respect_robots: match request.respect_robots {
                    Some(b) => b,
                    None => true,
                },
                allowed_schemes: Vec::new(),
            },
            queue_results: match request.queue_results {
                Some(b) => b,
                None => true,
            },
            start_downloads: match request.start_downloads {
                Some(b) => b,
                None => false,
            },
            output_dir,
            connections: request.connections,
        },
    )
}

/// The dialog request the grabber makes for a link it found: the link,
/// saved under its file name in the scan's output directory when there is
/// one, with the scan's connections.
pub fn grabber_request(url: &str, plan: &SpiderScanPlan) -> (r: AddDownloadRequest)
    ensures
        r.url@ == url@,
        match plan.output_dir {
            Some(d) => r.save_path matches Some(p) && p@ == path_joined(d@, default_filename_of(url@)),
            None => r.save_path is None,
        },
        r.connections == plan.connections,
        r.category is None,
        r.mirrors is None,
        r.headers is None,
{
    let save_path = match &plan.output_dir {
        Some(d) => {
            let name = default_filename(url);
            Some(join_path(d.as_str(), name.as_str()))
        },
        None => None,
    };
    AddDownloadRequest {
        url: url.to_owned(),
        save_path,
        connections: plan.connections,
        category: None,
        mirrors: None,
        headers: None,
    }
}

/// The note the dashboard shows after a grabber scan.
pub fn grabber_note(urls: usize, queued: usize, started: usize) -> (note: String)
    ensures
        note@ == "grabber: "@ + decimal(urls as nat) + " URLs, queued "@ + decimal(queued as nat)
            + ", started "@ + decimal(started as nat),
{
    let mut m = "grabber: ".to_owned();
    m.append(decimal_string(urls as u64).as_str());
    m.append(" URLs, queued ");
    m.append(decimal_string(queued as u64).as_str());
    m.append(", started ");
    m.append(decimal_string(started as u64).as_str());
    m
}

/// The note the dashboard shows when the grabber skips a link.
pub fn grabber_skip_note(url: &str, err: &str) -> (note: String)
    ensures
        note@ == "grabber skipped URL "@ + url@ + ": "@ + err@,
{
    let mut m = "grabber skipped URL ".to_owned();
    m.append(url);
    m.append(": ");
    m.append(err);
    m
}

/// The manifest description and output directory the browser settings
/// give: the program at the configured path, else at `current_exe` (the
/// program's own path, when it is known), else the message refusing it.
pub fn resolved_native_host_spec(
    browser: &BrowserSettings,
    current_exe: Option<String>,
) -> (r: Result<(NativeHostManifestSpec, String), String>)
    ensures
        match (browser.native_host_binary_path, current_exe) {
            (None, None) => r matches Err(m) && m@ == "unable to resolve native host binary path"@,
            _ => r matches Ok((spec, dir)) && spec.host_name == browser.native_host_name
                && spec.binary_path == match browser.native_host_binary_path {
                Some(p) => p,
                None => current_exe->0,
            } && spec.chrome_extension_id == browser.chrome_extension_id && spec.firefox_extension_id
                == browser.firefox_extension_id && dir == browser.manifest_output_dir,
        },
{
    let binary_path = match &browser.native_host_binary_path {
        Some(p) => p.clone(),
        None => match current_exe {
            Some(p) => p,
            None => {
                return Err("unable to resolve native host binary path".to_owned());
            },
        },
    };
    let spec = NativeHostManifestSpec {
        host_name: browser.native_host_name.clone(),
        binary_path,
        chrome_extension_id: browser.chrome_extension_id.clone(),
        firefox_extension_id: browser.firefox_extension_id.clone(),
    };
    Ok((spec, browser.manifest_output_dir.clone()))
}

/// The detail lines after manifests were generated: host, program, output
/// directory and the two manifest paths, then a warning while the Chrome
/// extension id is exactly the placeholder.
pub fn generated_detail_lines(
    spec: &NativeHostManifestSpec,
    output_dir: &str,
    chrome_path: &str,
    firefox_path: &str,
) -> (lines: Vec<String>)
    ensures
        strs_view(lines@) == seq![
            "host: "@ + spec.host_name@,
            "binary: "@ + spec.binary_path@,
            "output dir: "@ + output_dir@,
            "chromium manifest: "@ + chrome_path@,
            "firefox manifest: "@ + firefox_path@,
        ] + if spec.chrome_extension_id@ == crate::native::CHROME_EXTENSION_ID_PLACEHOLDER@ {
            seq!["warning: chrome extension id is still placeholder"@]
        } else {
            Seq::empty()
        },
{
    let mut lines: Vec<String> = Vec::new();
    let mut a = "host: ".to_owned();
    a.append(spec.host_name.as_str());
    lines.push(a);
    let mut b = "binary: ".to_owned();
    b.append(spec.binary_path.as_str());
    lines.push(b);
    let mut c = "output dir: ".to_owned();
    c.append(output_dir);
    lines.push(c);
    let mut d = "chromium manifest: ".to_owned();
    d.append(chrome_path);
    lines.push(d);
    let mut e = "firefox manifest: ".to_owned();
    e.append(firefox_path);
    lines.push(e);
    if crate::text::chars_eq(
        crate::text::chars_of(spec.chrome_extension_id.as_str()).as_slice(),
        crate::text::chars_of(crate::native::CHROME_EXTENSION_ID_PLACEHOLDER).as_slice(),
    ) {
        lines.push("warning: chrome extension id is still placeholder".to_owned());
    }
    assert(strs_view(lines@) =~= seq![
        "host: "@ + spec.host_name@,
        "binary: "@ + spec.binary_path@,
        "output dir: "@ + output_dir@,
        "chromium manifest: "@ + chrome_path@,
        "firefox manifest: "@ + firefox_path@,
    ] + if spec.chrome_extension_id@ == crate::native::CHROME_EXTENSION_ID_PLACEHOLDER@ {
        seq!["warning: chrome extension id is still placeholder"@]
    } else {
        Seq::empty()
    });
    lines
}

/// The detail lines after a verification: those of the report, then each
/// note of the diagnostics.
pub fn validated_detail_lines(report: &NativeHostValidationReport, notes: &Vec<String>) -> (lines: Vec<String>)
    ensures
        strs_view(lines@) == validation_detail_text(*report) + with_prefix("note: "@, strs_view(notes@)),
{
    let mut lines = format_validation_report(report);
    push_lines(&mut lines, "note: ", notes);
    lines
}


/// The browser settings as the dashboard shows them.
#[derive(Debug)]
pub struct BrowserView {
    pub integration_enabled: bool,
    pub intercept_all_downloads: bool,
    pub native_host_name: String,
    pub native_host_binary_path: Option<String>,
    pub chrome_extension_id: String,
    pub firefox_extension_id: String,
    pub manifest_output_dir: String,
}

/// Everything the dashboard shows but the progress bars and speeds, which
/// it reads from the rows the download views point to (`speed_rows` lists
/// the rows whose speeds add up to the total).
#[derive(Debug)]
pub struct DashboardView {
    pub theme_mode: String,
    pub toolbar_skin: String,
    pub queue_running: bool,
    pub queue_size: usize,
    pub active_downloads: usize,
    pub speed_rows: Vec<usize>,
    pub status_message: String,
    pub categories: Vec<(String, usize)>,
    pub downloads: Vec<DownloadView>,
    pub queue_items: Vec<QueueItemView>,
    pub scheduler_jobs: Vec<JobView>,
    pub browser: BrowserView,
}

/// What the dashboard shows of the settings, queue, rows and jobs.
pub fn snapshot(
    settings: &AppSettings,
    queue: &QueueState,
    rows: &Vec<DownloadRow>,
    jobs: &Vec<ScheduledDownload>,
    queue_running: bool,
    status_message: &str,
) -> (v: DashboardView)
    requires
        forall|i: int| 0 <= i < jobs@.len() ==> valid_spec(#[trigger] jobs@[i].spec),
    ensures
        v.theme_mode@ == theme_text(settings.appearance.theme),
        v.toolbar_skin@ == skin_text(settings.appearance.toolbar_skin),
        v.queue_running == queue_running,
        v.queue_size == queue.items@.len(),
        v.active_downloads == count_rows(rows@, |r: DownloadRow| is_active(r.status)),
        v.speed_rows@ == speed_indices(rows@),
        v.status_message@ == status_message@,
        exists|order: Seq<usize>|
            stably_sorted(row_keys(rows@), order) && v.downloads@.len() == order.len() && forall|k: int|
                0 <= k < order.len() ==> lists_row(#[trigger] v.downloads@[k], rows@, order[k] as int),
        v.categories@.len() == dashboard_category_names().len(),
        forall|k: int|
            0 <= k < v.categories@.len() ==> (#[trigger] v.categories@[k]).0@ == dashboard_category_names()[k]
                && v.categories@[k].1 == count_under(dashboard_category_names()[k], v.downloads@),
        exists|order: Seq<usize>|
            stably_sorted(item_keys(queue.items@), order) && v.queue_items@.len() == order.len() && forall|
                k: int,
            | 0 <= k < order.len() ==> lists_item(#[trigger] v.queue_items@[k], queue.items@, order[k] as int),
        exists|order: Seq<usize>|
            stably_sorted(job_keys(jobs@), order) && v.scheduler_jobs@.len() == order.len() && forall|
                k: int,
            | 0 <= k < order.len() ==> lists_job(#[trigger] v.scheduler_jobs@[k], jobs@[order[k] as int]),
        v.browser.integration_enabled == settings.browser.integration_enabled,
        v.browser.intercept_all_downloads == settings.browser.intercept_all_downloads,
        v.browser.native_host_name == settings.browser.native_host_name,
        v.browser.native_host_binary_path == settings.browser.native_host_binary_path,
        v.browser.chrome_extension_id == settings.browser.chrome_extension_id,
        v.browser.firefox_extension_id == settings.browser.firefox_extension_id,
        v.browser.manifest_output_dir == settings.browser.manifest_output_dir,
{
    let downloads = download_views(rows);
    let categories = category_counts(&downloads);
    let queue_items = queue_item_views(queue);
    let scheduler_jobs = job_views(jobs);
    let b = &settings.browser;
    DashboardView {
        theme_mode: theme_label(settings.appearance.theme).to_owned(),
        toolbar_skin: skin_label(settings.appearance.toolbar_skin).to_owned(),
        queue_running,
        queue_size: queue.items.len(),
        active_downloads: active_download_count(rows),
        speed_rows: speed_rows(rows),
        status_message: status_message.to_owned(),
        categories,
        downloads,
        queue_items,
        scheduler_jobs,
        browser: BrowserView {
            integration_enabled: b.integration_enabled,
            intercept_all_downloads: b.intercept_all_downloads,
            native_host_name: b.native_host_name.clone(),
            native_host_binary_path: crate::config::clone_opt_string(&b.native_host_binary_path),
            chrome_extension_id: b.chrome_extension_id.clone(),
            firefox_extension_id: b.firefox_extension_id.clone(),
            manifest_output_dir: b.manifest_output_dir.clone(),
        },
    }
}


/// The note the dashboard shows after merging the queue file in, when the
/// merge brought anything.
pub fn sync_note(report: &crate::queue::QueueMergeReport) -> (note: Option<String>)
    ensures
        match note {
            Some(m) => (report.new_items_added > 0 || report.existing_items_merged > 0) && m@
                == "queue synced: +"@ + decimal(report.new_items_added as nat) + " new, "@ + decimal(
                report.existing_items_merged as nat,
            ) + " merged"@,
            None => report.new_items_added == 0 && report.existing_items_merged == 0,
        },
{
    if report.new_items_added > 0 || report.existing_items_merged > 0 {
        let mut m = "queue synced: +".to_owned();
        m.append(decimal_string(report.new_items_added as u64).as_str());
        m.append(" new, ");
        m.append(decimal_string(report.existing_items_merged as u64).as_str());
        m.append(" merged");
        Some(m)
    } else {
        None
    }
}

/// Shows a queue sync failure once: the note and the remembered failure
/// change only when the message differs from the one remembered.
pub fn record_sync_error(status_message: &mut String, sync_error: &mut Option<String>, msg: String)
    ensures
        (*old(sync_error) matches Some(e) && e@ == msg@) ==> *final(status_message) == *old(status_message)
            && *final(sync_error) == *old(sync_error),
        !(*old(sync_error) matches Some(e) && e@ == msg@) ==> final(status_message)@ == msg@
            && *final(sync_error) == Some(msg),
{
    let same = match &*sync_error {
        Some(e) => crate::text::chars_eq(
            crate::text::chars_of(e.as_str()).as_slice(),
            crate::text::chars_of(msg.as_str()).as_slice(),
        ),
        None => false,
    };
    if !same {
        *status_message = msg.clone();
        *sync_error = Some(msg);
    }
}

/// On the first launch (no settings file yet) the theme becomes dark;
/// tells whether the settings changed and must be saved.
pub fn first_launch_theme(settings: &mut AppSettings, settings_file_exists: bool) -> (changed: bool)
    ensures
        changed == (!settings_file_exists && old(settings).appearance.theme != ThemeMode::Dark),
        changed ==> *final(settings) == (AppSettings {
            appearance: crate::settings::AppearanceSettings {
                theme: ThemeMode::Dark,
                ..old(settings).appearance
            },
            ..*old(settings)
        }),
        !changed ==> *final(settings) == *old(settings),
{
    let dark = match settings.appearance.theme {
        ThemeMode::Dark => true,
        _ => false,
    };
    if !settings_file_exists && !dark {
        settings.appearance.theme = ThemeMode::Dark;
        true
    } else {
        false
    }
}

/// What the dashboard asks of a running download.
#[derive(Debug, Clone, Copy, PartialEq, Eq, Structural)]
pub enum DownloadAction {
    Pause,
    Resume,
    Cancel,
}

/// The note the dashboard shows once a download was asked to pause,
/// resume or stop.
pub fn control_note(action: DownloadAction, id: u64) -> (note: String)
    ensures
        note@ == match action {
            DownloadAction::Pause => "paused #"@ + decimal(id as nat),
            DownloadAction::Resume => "resumed #"@ + decimal(id as nat),
            DownloadAction::Cancel => "cancel requested for #"@ + decimal(id as nat),
        },
{
    let mut m = match action {
        DownloadAction::Pause => "paused #".to_owned(),
        DownloadAction::Resume => "resumed #".to_owned(),
        DownloadAction::Cancel => "cancel requested for #".to_owned(),
    };
    m.append(decimal_string(id).as_str());
    m
}

/// The message refusing to act on a download the dashboard has no handle
/// for.
pub fn unknown_download_note(id: u64) -> (note: String)
    ensures
        note@ == "download #"@ + decimal(id as nat) + " not found"@,
{
    let mut m = "download #".to_owned();
    m.append(decimal_string(id).as_str());
    m.append(" not found");
    m
}

} // verus!
