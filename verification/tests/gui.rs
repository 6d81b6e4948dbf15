use loki_dm_core::config::DownloadConfig;
use loki_dm_core::gui::{
    add_dashboard_job, apply_event, build_request_config, category_count, control_note,
    delete_completed, due_dashboard_jobs, format_install_report, format_validation_report,
    plan_spider_scan, plan_top_up, queue_download_ids, queue_request, remove_dashboard_job,
    remove_download, set_dashboard_job_enabled, set_theme_mode, snapshot, stable_order,
    start_row, status_label, sync_note, system_time_to_epoch_ms, update_browser_settings,
    AddDownloadRequest, BrowserSettingsUpdateRequest, DownloadAction, DownloadRow, HeaderPair,
    ProgressMark, RowEvent, SpiderScanRequest, TopUp,
};
use loki_dm_core::native::{NativeHostInstallReport, NativeHostValidationReport};
use loki_dm_core::queue::{default_category_rules, QueueItemStatus, QueueMergeReport, QueueState};
use loki_dm_core::settings::{AppSettings, ThemeMode};
use loki_dm_core::types::DownloadStatus;

fn request(url: &str) -> AddDownloadRequest {
    AddDownloadRequest { url: url.to_owned(), save_path: None, connections: None, category: None, mirrors: None, headers: None }
}

fn row(id: u64, queue_item_id: Option<u64>, status: DownloadStatus, order: u64) -> DownloadRow {
    DownloadRow {
        id,
        queue_item_id,
        url: format!("https://e/{id}.zip"),
        category: "Compressed".to_owned(),
        output_path: format!("/dl/{id}.zip"),
        status,
        progress: ProgressMark::Start,
        downloaded_bytes: 0,
        total_bytes: 0,
        speed_bits: 0,
        eta_seconds: None,
        active_connections: 0,
        target_connections: 4,
        message: "queued".to_owned(),
        added_order: order,
    }
}

#[test]
fn labels_and_epoch_milliseconds() {
    assert_eq!(status_label(DownloadStatus::Running), "Downloading");
    assert_eq!(status_label(DownloadStatus::Completed), "Complete");
    assert_eq!(system_time_to_epoch_ms(-5), 0);
    assert_eq!(system_time_to_epoch_ms(1_234_567_890), 1_234);
}

#[test]
fn request_config_validates_and_fills() {
    let settings = AppSettings::default();
    let rules = default_category_rules();
    assert_eq!(build_request_config(&request("   "), &settings, &rules).unwrap_err(), "URL is required");
    assert_eq!(build_request_config(&request("not a url"), &settings, &rules).unwrap_err(), "URL must be absolute and valid");
    let mut r = request(" https://e/movie.mkv ");
    r.save_path = Some(" /tmp/m.mkv ".to_owned());
    r.connections = Some(1000);
    r.mirrors = Some(vec![" https://m/movie.mkv ".to_owned(), "https://e/movie.mkv".to_owned(), " ".to_owned()]);
    r.headers = Some(vec![
        HeaderPair { key: " A ".to_owned(), value: " 1 ".to_owned() },
        HeaderPair { key: "B".to_owned(), value: " ".to_owned() },
    ]);
    let cfg = build_request_config(&r, &settings, &rules).expect("config");
    assert_eq!(cfg.url, "https://e/movie.mkv");
    assert_eq!(cfg.output_path, "/tmp/m.mkv");
    assert_eq!(cfg.category.as_deref(), Some("Video"));
    assert_eq!(cfg.mirror_urls, vec!["https://m/movie.mkv".to_owned()]);
    assert_eq!(cfg.headers.get("A").map(String::as_str), Some("1"));
    assert!(!cfg.headers.contains_key("B"));
    assert_eq!(cfg.initial_connections, cfg.max_connections);
}

#[test]
fn events_update_the_matching_row() {
    let mut rows = vec![row(1, Some(10), DownloadStatus::Queued, 0), row(2, None, DownloadStatus::Queued, 1)];
    let mut queue = QueueState { next_id: 11, items: Vec::new(), rules: default_category_rules() };
    let mut cfg = DownloadConfig::default();
    cfg.url = "https://e/1.zip".to_owned();
    let _ = queue.add_download(cfg);
    queue.items[0].id = 10;
    assert!(!apply_event(&mut rows, &mut queue, RowEvent::Started { id: 2, output_path: "/o".to_owned(), total_bytes: 9, resumed: true }));
    assert_eq!(rows[1].message, "resumed");
    assert_eq!(rows[1].status, DownloadStatus::Running);
    apply_event(&mut rows, &mut queue, RowEvent::Progress {
        id: 1, downloaded_bytes: 5, total_bytes: 10, speed_bits: 7, eta_seconds: Some(3),
        active_connections: 2, target_connections: 4,
    });
    assert_eq!(rows[0].progress, ProgressMark::Ratio { done: 5, total: 10 });
    assert_eq!(rows[0].status, DownloadStatus::Running);
    apply_event(&mut rows, &mut queue, RowEvent::Retrying { id: 1, segment_id: 2, attempt: 3, wait_ms: 250, reason: "timeout".to_owned() });
    assert_eq!(rows[0].message, "retry segment=2 attempt=3 in 250ms (timeout)");
    apply_event(&mut rows, &mut queue, RowEvent::HookExecuted { id: 1, success: false, code: Some(-2), stderr: "e".to_owned() });
    assert_eq!(rows[0].message, "AV hook success=false code=Some(-2) stderr=e");
    assert!(apply_event(&mut rows, &mut queue, RowEvent::Completed { id: 1, output_path: "/done".to_owned(), duration_ms: 1500 }));
    assert_eq!(rows[0].message, "done in 1500ms");
    assert_eq!(rows[0].progress, ProgressMark::Full);
    assert_eq!(queue.items[0].status, QueueItemStatus::Completed);
    assert!(!apply_event(&mut rows, &mut queue, RowEvent::Paused { id: 99 }));
}

#[test]
fn failures_reach_the_queue_item() {
    let mut rows = vec![row(1, Some(1), DownloadStatus::Running, 0)];
    let mut queue = QueueState { next_id: 1, items: Vec::new(), rules: default_category_rules() };
    let _ = queue.add_download(DownloadConfig::default());
    assert!(apply_event(&mut rows, &mut queue, RowEvent::Failed { id: 1, error: "boom".to_owned() }));
    assert_eq!(rows[0].message, "boom");
    assert_eq!(queue.items[0].status, QueueItemStatus::Failed);
    assert_eq!(queue.items[0].last_error.as_deref(), Some("boom"));
}

#[test]
fn rows_start_queued_and_count_up() {
    let mut counter = 4;
    let mut cfg = DownloadConfig::default();
    cfg.url = "https://e/song.mp3".to_owned();
    cfg.output_path = "/dl/song.mp3".to_owned();
    cfg.category = None;
    let (r, note) = start_row(&cfg, 9, None, &mut counter, &default_category_rules());
    assert_eq!(r.category, "Music");
    assert_eq!(r.added_order, 4);
    assert_eq!(counter, 5);
    assert_eq!(note, "started song.mp3");
}

#[test]
fn stop_remove_and_delete_rows() {
    let mut rows = vec![
        row(1, Some(1), DownloadStatus::Running, 0),
        row(2, None, DownloadStatus::Running, 1),
        row(3, Some(3), DownloadStatus::Completed, 2),
    ];
    assert_eq!(queue_download_ids(&rows), vec![1]);
    let mut queue = QueueState { next_id: 1, items: Vec::new(), rules: default_category_rules() };
    for _ in 0..3 {
        let _ = queue.add_download(DownloadConfig::default());
    }
    assert_eq!(delete_completed(&mut rows, &mut queue), "removed 1 completed downloads");
    assert_eq!(rows.len(), 2);
    assert_eq!(queue.items.len(), 2);
    assert_eq!(remove_download(&mut rows, &mut queue, 1), "removed #1");
    assert_eq!(rows.len(), 1);
    assert_eq!(queue.items.len(), 1);
    assert_eq!(queue.items[0].id, 2);
}

#[test]
fn theme_and_browser_settings() {
    let mut settings = AppSettings::default();
    assert_eq!(set_theme_mode(&mut settings, " LIGHT ").expect("theme"), "theme set to LIGHT");
    assert_eq!(settings.appearance.theme, ThemeMode::Light);
    assert_eq!(set_theme_mode(&mut settings, "pink").unwrap_err(), "theme must be one of auto|light|dark");
    update_browser_settings(&mut settings.browser, BrowserSettingsUpdateRequest {
        integration_enabled: Some(false),
        intercept_all_downloads: None,
        native_host_name: Some("  ".to_owned()),
        native_host_binary_path: Some(" ".to_owned()),
        chrome_extension_id: Some(" id ".to_owned()),
        firefox_extension_id: None,
        manifest_output_dir: Some(" /m ".to_owned()),
    });
    assert!(!settings.browser.integration_enabled);
    assert_eq!(settings.browser.native_host_name, "com.loki.dm");
    assert_eq!(settings.browser.native_host_binary_path, None);
    assert_eq!(settings.browser.chrome_extension_id, "id");
    assert_eq!(settings.browser.manifest_output_dir, "/m");
}

#[test]
fn queue_requests_report_duplicates() {
    let mut queue = QueueState { next_id: 1, items: Vec::new(), rules: default_category_rules() };
    let mut c = DownloadConfig::default();
    c.url = "https://e/a".to_owned();
    assert_eq!(queue_request(&mut queue, c, &Some("high".to_owned()), true), (1, None));
    let mut c = DownloadConfig::default();
    c.url = "https://e/a".to_owned();
    let (id, note) = queue_request(&mut queue, c, &None, true);
    assert_eq!(id, 1);
    assert_eq!(note.as_deref(), Some("duplicate queue URL detected (existing #1)"));
}

#[test]
fn dashboard_jobs_lifecycle() {
    let mut jobs = Vec::new();
    let mut next = 1;
    let mut c = DownloadConfig::default();
    c.output_path = "/dl/late.iso".to_owned();
    let (id, note) = add_dashboard_job(&mut jobs, &mut next, &None, c, 0, Some(10), Some(0), None);
    assert_eq!((id, note.as_str()), (1, "scheduled job #1 added"));
    assert_eq!(jobs[0].name, "late.iso");
    let mut c = DownloadConfig::default();
    c.output_path = "/dl/early.iso".to_owned();
    let (id2, _) = add_dashboard_job(&mut jobs, &mut next, &Some(" early ".to_owned()), c, 0, Some(1), Some(5), None);
    assert_eq!(id2, 2);
    assert_eq!(jobs[0].id, 2);
    assert_eq!(jobs[0].name, "early");
    let due = due_dashboard_jobs(&mut jobs, 1_000_000_000);
    assert_eq!(due.len(), 1);
    assert_eq!(due[0].id, 2);
    assert!(jobs[0].next_run > 1_000_000_000);
    let (found, note) = set_dashboard_job_enabled(&mut jobs, 1, false);
    assert!(found);
    assert_eq!(note, "scheduler #1 disabled");
    let (removed, note) = remove_dashboard_job(&mut jobs, 7);
    assert!(!removed);
    assert_eq!(note, "scheduler #7 not found");
    assert!(remove_dashboard_job(&mut jobs, 1).0);
    assert_eq!(jobs.len(), 1);
}

#[test]
fn top_up_starts_pending_items_up_to_the_limit() {
    let mut queue = QueueState { next_id: 1, items: Vec::new(), rules: default_category_rules() };
    for _ in 0..3 {
        let _ = queue.add_download(DownloadConfig::default());
    }
    queue.items[0].status = QueueItemStatus::Running;
    match plan_top_up(&queue, 2) {
        TopUp::Start(list) => {
            assert_eq!(list.len(), 1);
            assert_eq!(list[0].0, 2);
        }
        _ => panic!("expected items to start"),
    }
    assert!(matches!(plan_top_up(&queue, 1), TopUp::Busy));
    let empty = QueueState { next_id: 1, items: Vec::new(), rules: default_category_rules() };
    assert!(matches!(plan_top_up(&empty, 0), TopUp::Idle { finished: true }));
}

#[test]
fn snapshot_orders_and_counts() {
    let settings = AppSettings::default();
    let queue = QueueState { next_id: 1, items: Vec::new(), rules: default_category_rules() };
    let rows = vec![row(1, Some(1), DownloadStatus::Running, 5), row(2, None, DownloadStatus::Completed, 2)];
    let v = snapshot(&settings, &queue, &rows, &Vec::new(), true, "Ready");
    assert_eq!(v.downloads[0].id, 2);
    assert_eq!(v.downloads[0].row, 1);
    assert_eq!(v.downloads[1].file_name, "1.zip");
    assert_eq!(v.active_downloads, 1);
    assert_eq!(v.speed_rows, vec![0]);
    let counts: Vec<(String, usize)> = v.categories.clone();
    assert_eq!(counts[0], ("All Downloads".to_owned(), 2));
    assert_eq!(counts[1], ("Compressed".to_owned(), 2));
    assert_eq!(counts[7], ("Unfinished".to_owned(), 1));
    assert_eq!(counts[8], ("Finished".to_owned(), 1));
    assert_eq!(counts[10], ("Queues".to_owned(), 1));
    assert_eq!(category_count("Video", &v.downloads), 0);
    assert_eq!(v.theme_mode, "dark");
}

#[test]
fn stable_order_keeps_ties() {
    assert_eq!(stable_order(&vec![3, 1, 3, 0]), vec![3, 1, 0, 2]);
}

#[test]
fn grabber_scan_plan() {
    let req = SpiderScanRequest {
        root_url: " https://e/ ".to_owned(),
        depth: Some(20),
        extensions: Some(vec![".ZIP".to_owned()]),
        same_host_only: None,
        respect_robots: Some(false),
        queue_results: None,
        start_downloads: None,
        output_dir: Some("  ".to_owned()),
        connections: Some(2),
    };
    let plan = plan_spider_scan(&req).expect("plan");
    assert_eq!(plan.config.max_depth, 8);
    assert_eq!(plan.config.allowed_extensions, vec!["zip".to_owned()]);
    assert!(plan.config.same_host_only && !plan.config.respect_robots);
    assert!(plan.queue_results && !plan.start_downloads);
    assert_eq!(plan.output_dir, None);
    let bad = SpiderScanRequest { root_url: "nope".to_owned(), ..req };
    assert!(plan_spider_scan(&bad).unwrap_err().starts_with("invalid root URL: "));
}

#[test]
fn report_details_and_notes() {
    let r = NativeHostInstallReport {
        manifest_files_written: vec!["/a".to_owned()],
        registry_entries_written: Vec::new(),
        manifest_files_removed: Vec::new(),
        registry_entries_removed: Vec::new(),
        warnings: Vec::new(),
    };
    assert_eq!(format_install_report("install", &r), vec![
        "install: manifests written=1",
        "install: registry written=0",
        "install: manifests removed=0",
        "install: registry removed=0",
        "manifest written: /a",
    ]);
    let v = NativeHostValidationReport {
        manifest_files_present: Vec::new(),
        manifest_files_missing: vec!["/m".to_owned()],
        registry_entries_present: Vec::new(),
        registry_entries_missing: Vec::new(),
    };
    assert_eq!(format_validation_report(&v)[1], "manifest missing=1");
    assert_eq!(format_validation_report(&v)[4], "manifest missing: /m");
    assert_eq!(control_note(DownloadAction::Cancel, 3), "cancel requested for #3");
    let report = QueueMergeReport { new_items_added: 2, existing_items_merged: 0, rules_replaced: false };
    assert_eq!(sync_note(&report).as_deref(), Some("queue synced: +2 new, 0 merged"));
}
