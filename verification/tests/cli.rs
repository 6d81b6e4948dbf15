use loki_dm_core::cli::{
    build_download_config, choose_update_asset, enqueue_all, find_asset_named,
    install_report_lines, is_release_endpoint_missing, manifest_command_spec,
    manifest_output_dir, native_urls, once_schedule, parse_header_lines, parse_queue_priority,
    placeholder_warning_due, plan_native_request, queue_add_command, queue_text_urls,
    queued_response, recurring_schedule, run_candidates, should_generate_manifests,
    spider_download_options, spider_extensions, summarize_adds, update_output_dir,
    validation_report_lines, DownloadOptions, NativePlan,
};
use loki_dm_core::config::{AuthConfig, ProxyKind};
use loki_dm_core::error::LokiDmError;
use loki_dm_core::native::{
    NativeHostInstallReport, NativeHostValidationReport, NativeRequest, NativeRequestAction,
};
use loki_dm_core::queue::{default_category_rules, QueueAddOutcome, QueuePriority, QueueState};
use loki_dm_core::settings::AppSettings;
use loki_dm_core::strmap::StrMap;
use loki_dm_core::updater::{ReleaseAsset, UpdateInfo};

fn options() -> DownloadOptions {
    DownloadOptions {
        output: None,
        connections: 8,
        max_connections: 16,
        min_connections: 2,
        speed_limit_bps: None,
        overwrite: false,
        hour_quota_mb: None,
        user_agent: None,
        header: Vec::new(),
        cookie: Vec::new(),
        cookie_file: None,
        mirror: Vec::new(),
        av_hook: None,
        category: None,
        proxy_kind: None,
        proxy_host: None,
        proxy_port: None,
        proxy_username: None,
        proxy_password: None,
        basic_user: None,
        basic_password: None,
        bearer_token: None,
        use_ntlm: false,
        use_kerberos: false,
    }
}

fn message(e: LokiDmError) -> String {
    e.describe()
}

#[test]
fn builds_config_with_headers_and_cookies() {
    let mut o = options();
    o.header = vec!["X-Test: 1".to_owned()];
    o.cookie = vec!["sid=abc".to_owned()];
    o.output = Some("/tmp/out.bin".to_owned());
    o.bearer_token = Some("tok".to_owned());
    let settings = AppSettings::default();
    let cfg = build_download_config("https://example.com/a.zip", &o, &settings, None).expect("config");
    assert_eq!(cfg.url, "https://example.com/a.zip");
    assert_eq!(cfg.output_path, "/tmp/out.bin");
    assert_eq!(cfg.headers.get("X-Test").map(String::as_str), Some("1"));
    assert_eq!(cfg.headers.get("Cookie").map(String::as_str), Some("sid=abc"));
    assert_eq!(cfg.category.as_deref(), Some("Compressed"));
    assert!(matches!(&cfg.auth, Some(AuthConfig::Bearer { token }) if token == "tok"));
    assert_eq!(cfg.max_retries, settings.advanced.retry_count);
}

#[test]
fn header_cookie_skips_cookie_file() {
    let mut o = options();
    o.header = vec!["cookie: a=1".to_owned()];
    let cfg = build_download_config(
        "https://example.com/a",
        &o,
        &AppSettings::default(),
        Some(Err("failed to read cookie file".to_owned())),
    )
    .expect("config");
    assert_eq!(cfg.headers.get("cookie").map(String::as_str), Some("a=1"));
    assert!(!cfg.headers.contains_key("Cookie"));
}

#[test]
fn config_errors_come_in_order() {
    let mut o = options();
    o.header = vec!["broken".to_owned()];
    let e = build_download_config("https://e/a", &o, &AppSettings::default(), None).unwrap_err();
    assert_eq!(message(e), "invalid header format: broken");
    let mut o = options();
    o.cookie = vec!["nope".to_owned()];
    let e = build_download_config("https://e/a", &o, &AppSettings::default(), None).unwrap_err();
    assert_eq!(message(e), "invalid cookie format `nope`: expected `name=value`");
    let e = build_download_config("https://e/a", &options(), &AppSettings::default(), Some(Err("unreadable".to_owned())))
        .unwrap_err();
    assert_eq!(message(e), "unreadable");
    let mut o = options();
    o.proxy_kind = Some("FTP".to_owned());
    o.proxy_host = Some("h".to_owned());
    o.proxy_port = Some(1);
    let e = build_download_config("https://e/a", &o, &AppSettings::default(), None).unwrap_err();
    assert_eq!(message(e), "unsupported proxy kind: ftp");
}

#[test]
fn proxy_from_options_reads_kind() {
    let mut o = options();
    o.proxy_kind = Some("Socks".to_owned());
    o.proxy_host = Some("127.0.0.1".to_owned());
    o.proxy_port = Some(1080);
    let cfg = build_download_config("https://e/a", &o, &AppSettings::default(), None).expect("config");
    let p = cfg.proxy.expect("proxy");
    assert_eq!(p.kind, ProxyKind::Socks5);
    assert_eq!(p.port, 1080);
}

#[test]
fn header_lines_keep_the_last_value() {
    let m = parse_header_lines(&vec!["A: 1".to_owned(), " A :2 ".to_owned()]).expect("headers");
    assert_eq!(m.get("A").map(String::as_str), Some("2"));
    assert_eq!(m.len(), 1);
}

#[test]
fn queue_priority_errors_name_the_input() {
    assert_eq!(parse_queue_priority("HIGH").ok(), Some(QueuePriority::High));
    let e = parse_queue_priority("soon").unwrap_err();
    assert_eq!(message(e), "invalid priority `soon` (expected one of: low, normal, high, critical)");
}

#[test]
fn queue_add_command_refuses_duplicates_when_asked() {
    let mut settings = AppSettings::default();
    settings.advanced.prevent_duplicate_queue_entries = true;
    let mut queue = QueueState { next_id: 1, items: Vec::new(), rules: default_category_rules() };
    let first = queue_add_command(&mut queue, "https://e/a.zip", &options(), &settings, None, "normal", false)
        .expect("added");
    assert_eq!(first, QueueAddOutcome::Added { id: 1 });
    let second = queue_add_command(&mut queue, "https://e/a.zip", &options(), &settings, None, "high", false)
        .expect("answered");
    assert_eq!(second, QueueAddOutcome::Duplicate { existing_id: 1 });
    let third = queue_add_command(&mut queue, "https://e/a.zip", &options(), &settings, None, "high", true)
        .expect("added");
    assert_eq!(third, QueueAddOutcome::Added { id: 2 });
    assert!(queue_add_command(&mut queue, "https://e/b", &options(), &settings, None, "soon", true).is_err());
    assert_eq!(queue.items.len(), 2);
}

#[test]
fn text_urls_are_queued_in_order() {
    let settings = AppSettings::default();
    let mut queue = QueueState { next_id: 5, items: Vec::new(), rules: default_category_rules() };
    let outcomes = queue_text_urls(
        &mut queue,
        "https://e/a.mp3\n# skip\nhttps://e/a.mp3\nhttps://e/b.pdf\n",
        &Some("/dl".to_owned()),
        4,
        &settings,
        QueuePriority::Low,
        true,
    );
    assert_eq!(outcomes, vec![
        QueueAddOutcome::Added { id: 5 },
        QueueAddOutcome::Duplicate { existing_id: 5 },
        QueueAddOutcome::Added { id: 6 },
    ]);
    assert_eq!(queue.items[0].config.output_path, "/dl/a.mp3");
    assert_eq!(queue.items[0].config.initial_connections, 4);
    let (ids, dups) = summarize_adds(&outcomes);
    assert_eq!(ids, vec![5, 6]);
    assert_eq!(dups, 1);
}

#[test]
fn run_candidates_follow_pending_order() {
    let mut queue = QueueState { next_id: 1, items: Vec::new(), rules: default_category_rules() };
    let settings = AppSettings::default();
    let _ = queue_text_urls(&mut queue, "https://e/1\nhttps://e/2\n", &None, 1, &settings, QueuePriority::Normal, false);
    queue.set_priority(2, QueuePriority::Critical);
    assert_eq!(run_candidates(&queue, Some(9)), vec![9]);
    assert_eq!(run_candidates(&queue, None), vec![2, 1]);
}

#[test]
fn spider_extensions_are_normalized_sorted_and_unique() {
    let exts = spider_extensions(&vec![" .ZIP".to_owned(), "mp4".to_owned(), "..zip".to_owned(), "  ".to_owned()]);
    assert_eq!(exts, vec!["mp4".to_owned(), "zip".to_owned()]);
}

#[test]
fn spider_options_save_under_the_output_dir() {
    let settings = AppSettings::default();
    let o = spider_download_options(&settings, 3, &Some("/dl".to_owned()), "https://e/x/file.iso");
    assert_eq!(o.output.as_deref(), Some("/dl/file.iso"));
    assert_eq!(o.connections, 3);
    assert!(!o.overwrite);
}

#[test]
fn schedules_start_after_the_delay() {
    let s = once_schedule(1_000, 2);
    assert_eq!(s.start_at_nanos, 2_000_001_000);
    assert_eq!(s.interval_nanos, None);
    let r = recurring_schedule(0, 0, 0);
    assert_eq!(r.interval_nanos, Some(1_000_000_000));
}

#[test]
fn release_endpoint_missing_is_a_404() {
    assert!(is_release_endpoint_missing(&LokiDmError::HttpStatus(404), None));
    assert!(is_release_endpoint_missing(&LokiDmError::Http("x".to_owned()), Some(404)));
    assert!(!is_release_endpoint_missing(&LokiDmError::Http("x".to_owned()), Some(500)));
    assert!(!is_release_endpoint_missing(&LokiDmError::Timeout, Some(404)));
}

#[test]
fn update_assets_by_name_or_platform() {
    let info = UpdateInfo {
        current_version: "1.0.0".to_owned(),
        latest_version: "1.1.0".to_owned(),
        update_available: true,
        release_name: None,
        release_notes: None,
        published_at: None,
        assets: vec![ReleaseAsset { name: "a.deb".to_owned(), download_url: "u".to_owned(), size: None }],
    };
    assert_eq!(find_asset_named(&info.assets, "a.deb").map(|a| a.name).ok(), Some("a.deb".to_owned()));
    assert_eq!(message(find_asset_named(&info.assets, "b").unwrap_err()), "asset not found: b");
    assert!(choose_update_asset(&info, &None, "linux", "x86_64").is_ok());
    assert_eq!(update_output_dir(&None, "/cfg", "1.1.0"), "/cfg/updates/1.1.0");
}

#[test]
fn native_request_urls_and_plans() {
    let req = NativeRequest {
        url: Some("  https://e/b  ".to_owned()),
        urls: vec!["https://e/c".to_owned(), "https://e/b".to_owned()],
        ..NativeRequest::default()
    };
    assert_eq!(native_urls(&req), vec!["https://e/b".to_owned(), "https://e/c".to_owned()]);
    let settings = AppSettings::default();
    match plan_native_request(&req, &settings, &None, false) {
        NativePlan::Enqueue(configs, p) => {
            assert_eq!(configs.len(), 2);
            assert_eq!(p, QueuePriority::Normal);
        }
        _ => panic!("expected queueing"),
    }
    let ping = NativeRequest { action: NativeRequestAction::Ping, ..NativeRequest::default() };
    match plan_native_request(&ping, &settings, &None, false) {
        NativePlan::Reply(r) => assert!(r.ok && r.message == "pong"),
        _ => panic!("expected pong"),
    }
    match plan_native_request(&NativeRequest::default(), &settings, &None, false) {
        NativePlan::Reply(r) => assert_eq!(r.message, "native request must include at least one URL"),
        _ => panic!("expected refusal"),
    }
    let both = NativeRequest { output: Some("/o".to_owned()), ..req };
    match plan_native_request(&both, &settings, &None, true) {
        NativePlan::Reply(r) => assert!(!r.ok),
        _ => panic!("expected refusal"),
    }
}

#[test]
fn native_queue_answer_counts_adds() {
    let settings = AppSettings::default();
    let req = NativeRequest { urls: vec!["https://e/x.zip".to_owned(), "https://e/x.zip".to_owned()], ..NativeRequest::default() };
    let mut queue = QueueState { next_id: 3, items: Vec::new(), rules: default_category_rules() };
    let configs = match plan_native_request(&req, &settings, &Some("/dl".to_owned()), false) {
        NativePlan::Enqueue(c, _) => c,
        _ => panic!("expected queueing"),
    };
    assert_eq!(configs[0].output_path, "/dl/x.zip");
    let outcomes = enqueue_all(&mut queue, configs, QueuePriority::High, true);
    let r = queued_response(&outcomes, "/q.json", QueuePriority::High, Some("/dl/x.zip".to_owned()));
    assert!(r.ok);
    assert_eq!(r.message, "queued 1 download(s) in /q.json (duplicates: 0, priority=High)");
    assert_eq!(r.queue_ids, vec![3]);
}

#[test]
fn manifest_command_defaults() {
    let spec = manifest_command_spec("/bin/x".to_owned(), "  ", &None, " ff@x ");
    assert_eq!(spec.host_name, "com.loki.dm");
    assert_eq!(spec.firefox_extension_id, "ff@x");
    assert!(placeholder_warning_due(false, &spec));
    assert!(!placeholder_warning_due(true, &spec));
    assert!(should_generate_manifests(false, false, false));
    assert!(!should_generate_manifests(false, true, false));
    assert_eq!(manifest_output_dir(&None), "extensions/native-host");
}

#[test]
fn report_lines_start_with_the_action() {
    let report = NativeHostInstallReport {
        manifest_files_written: vec!["/a.json".to_owned()],
        registry_entries_written: Vec::new(),
        manifest_files_removed: Vec::new(),
        registry_entries_removed: Vec::new(),
        warnings: vec!["w".to_owned()],
    };
    assert_eq!(install_report_lines("install", &report), vec!["install: wrote manifest /a.json", "install: warning: w"]);
    let empty = NativeHostInstallReport {
        manifest_files_written: Vec::new(),
        registry_entries_written: Vec::new(),
        manifest_files_removed: Vec::new(),
        registry_entries_removed: Vec::new(),
        warnings: Vec::new(),
    };
    assert_eq!(install_report_lines("uninstall", &empty), vec!["uninstall: no changes"]);
    let v = NativeHostValidationReport {
        manifest_files_present: Vec::new(),
        manifest_files_missing: vec!["/m".to_owned()],
        registry_entries_present: Vec::new(),
        registry_entries_missing: Vec::new(),
    };
    assert_eq!(validation_report_lines(&v), vec!["verify: manifest missing /m", "verify: installation incomplete"]);
}

#[test]
fn strmap_keeps_keys_sorted() {
    let mut m = StrMap::new();
    m.insert("b".to_owned(), "2".to_owned());
    m.insert("a".to_owned(), "1".to_owned());
    m.insert("b".to_owned(), "3".to_owned());
    assert_eq!(m.len(), 2);
    let (k0, v0) = m.entry(0);
    assert_eq!((k0.as_str(), v0.as_str()), ("a", "1"));
    assert_eq!(m.get("b").map(String::as_str), Some("3"));
}
