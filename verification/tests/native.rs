use std::time::{SystemTime, UNIX_EPOCH};

use loki_dm_core::native::{
    chrome_allowed_origin, chrome_id_is_placeholder, collect_manifest_targets,
    collect_native_host_diagnostics, collect_registry_targets, dedupe_manifest_targets,
    frame_header, frame_payload_len, normalized_windows_path, validate_installation, HostOs,
    ManifestTarget, NativeBrowser, NativeHostManifestSpec, NativeRequest, NativeRequestAction,
    CHROME_EXTENSION_ID_PLACEHOLDER, DEFAULT_FIREFOX_EXTENSION_ID,
};

fn unique_host() -> String {
    let stamp = SystemTime::now().duration_since(UNIX_EPOCH).map_or(0, |d| d.as_nanos());
    format!("com.loki.dm.test.{stamp}")
}

fn spec_for(host: String, binary: &str, chrome: &str) -> NativeHostManifestSpec {
    NativeHostManifestSpec {
        host_name: host,
        binary_path: binary.to_owned(),
        chrome_extension_id: chrome.to_owned(),
        firefox_extension_id: DEFAULT_FIREFOX_EXTENSION_ID.to_owned(),
    }
}

#[test]
fn native_message_defaults_to_queue_action() {
    let parsed = NativeRequest { url: Some("https://example.com/file.bin".to_owned()), ..NativeRequest::default() };
    assert_eq!(parsed.action, NativeRequestAction::Queue);
}

#[test]
fn native_message_frame_round_trip() {
    let payload = br#"{"url":"https://example.com/file.bin"}"#.to_vec();
    let mut frame = Vec::with_capacity(payload.len() + 4);
    frame.extend_from_slice(&frame_header(payload.len()));
    frame.extend_from_slice(&payload);
    let header = [frame[0], frame[1], frame[2], frame[3]];
    assert_eq!(header, (payload.len() as u32).to_le_bytes());
    let len = frame_payload_len(header).expect("decode frame");
    assert_eq!(&frame[4..4 + len], payload.as_slice());
}

#[test]
fn oversized_frames_are_refused() {
    let header = (9u32 * 1024 * 1024).to_le_bytes();
    assert!(frame_payload_len(header).is_err());
    assert_eq!(frame_payload_len(8u32.to_le_bytes()).ok(), Some(8));
}

#[test]
fn install_target_generation_returns_browsers() {
    let spec = spec_for(unique_host(), "/tmp/loki-dm", "abc123");
    let targets = collect_manifest_targets(&spec, HostOs::Linux);
    assert!(!targets.is_empty());
    assert!(targets.iter().any(|t| t.browser == NativeBrowser::Chromium));
    assert!(targets.iter().any(|t| t.browser == NativeBrowser::Firefox));
}

#[test]
fn validate_reports_missing_entries_for_fresh_host() {
    let spec = spec_for(unique_host(), "/tmp/loki-dm", "abc123");
    let report = validate_installation(&spec, HostOs::Linux).expect("validate installation");
    assert!(!report.manifest_files_missing.is_empty());
}

#[test]
fn diagnostics_collects_flags_and_validation() {
    let spec = spec_for(unique_host(), "/tmp/loki-dm-missing", CHROME_EXTENSION_ID_PLACEHOLDER);
    let diagnostics =
        collect_native_host_diagnostics(&spec, Some("/tmp"), HostOs::Linux).expect("collect diagnostics");
    assert_eq!(diagnostics.host_name, spec.host_name);
    assert!(!diagnostics.binary_path_valid);
    assert!(diagnostics.chrome_extension_id_placeholder);
    assert!(!diagnostics.firefox_extension_id_empty);
    assert_eq!(diagnostics.manifest_output_dir.as_deref(), Some("/tmp"));
    assert_eq!(diagnostics.manifest_output_dir_exists, Some(true));
    assert!(!diagnostics.validation.manifest_files_missing.is_empty());
}

#[test]
fn windows_registry_targets_include_all_browsers() {
    let spec = spec_for("com.loki.dm".to_owned(), "C:\\loki-dm\\loki-dm.exe", "abc123");
    let manifest_targets = collect_manifest_targets(&spec, HostOs::Windows);
    let reg_targets = collect_registry_targets(&spec.host_name, &manifest_targets);
    let keys = reg_targets.iter().map(|entry| entry.key_path.clone()).collect::<Vec<_>>();
    assert!(keys.iter().any(|k| k == "Software\\Google\\Chrome\\NativeMessagingHosts\\com.loki.dm"));
    assert!(keys.iter().any(|k| k == "Software\\Chromium\\NativeMessagingHosts\\com.loki.dm"));
    assert!(keys.iter().any(|k| k == "Software\\Microsoft\\Edge\\NativeMessagingHosts\\com.loki.dm"));
    assert!(keys.iter().any(|k| k == "Software\\BraveSoftware\\Brave-Browser\\NativeMessagingHosts\\com.loki.dm"));
    assert!(keys.iter().any(|k| k == "Software\\Mozilla\\NativeMessagingHosts\\com.loki.dm"));
}

#[test]
fn chrome_origin_names_the_extension() {
    let spec = spec_for("com.loki.dm".to_owned(), "/usr/local/bin/loki-dm", "abc123");
    assert_eq!(chrome_allowed_origin(&spec), "chrome-extension://abc123/");
    assert!(chrome_id_is_placeholder(CHROME_EXTENSION_ID_PLACEHOLDER));
    assert!(chrome_id_is_placeholder("   "));
    assert!(!chrome_id_is_placeholder("abc123"));
}

#[test]
fn manifest_spec_defaults() {
    let spec = NativeHostManifestSpec::with_binary_path("/opt/loki".to_owned());
    assert_eq!(spec.host_name, "com.loki.dm");
    assert_eq!(spec.binary_path, "/opt/loki");
    assert_eq!(spec.chrome_extension_id, CHROME_EXTENSION_ID_PLACEHOLDER);
    assert_eq!(spec.firefox_extension_id, DEFAULT_FIREFOX_EXTENSION_ID);
}

#[test]
fn dedupes_targets_keeping_the_first() {
    let t = |b: NativeBrowser, p: &str| ManifestTarget { browser: b, path: p.to_owned() };
    let out = dedupe_manifest_targets(vec![
        t(NativeBrowser::Chromium, "/a"),
        t(NativeBrowser::Firefox, "/b"),
        t(NativeBrowser::Chromium, "/a"),
        t(NativeBrowser::Firefox, "/a"),
    ]);
    assert_eq!(out.len(), 3);
    assert_eq!(out[2].browser, NativeBrowser::Firefox);
    assert_eq!(out[2].path, "/a");
}

#[test]
fn windows_paths_use_backslashes() {
    assert_eq!(normalized_windows_path("C:/Loki/Host.json"), "c:\\loki\\host.json");
}

#[test]
fn manifests_include_ids_and_binary_path() {
    let spec = loki_dm_core::native::NativeHostManifestSpec {
        host_name: "com.loki.dm".to_owned(),
        binary_path: "/usr/local/bin/loki-dm".to_owned(),
        chrome_extension_id: "abc123".to_owned(),
        firefox_extension_id: "loki-dm@example.org".to_owned(),
    };

    let chrome = loki_dm_core::native::host_manifest(&spec, loki_dm_core::native::NativeBrowser::Chromium);
    let firefox = loki_dm_core::native::host_manifest(&spec, loki_dm_core::native::NativeBrowser::Firefox);

    assert_eq!(chrome.name, "com.loki.dm");
    assert_eq!(chrome.path, "/usr/local/bin/loki-dm");
    assert_eq!(chrome.allowed.first().map(String::as_str), Some("chrome-extension://abc123/"));

    assert_eq!(firefox.name, "com.loki.dm");
    assert_eq!(firefox.path, "/usr/local/bin/loki-dm");
    assert_eq!(firefox.allowed.first().map(String::as_str), Some("loki-dm@example.org"));
    assert_eq!(chrome.kind, "stdio");
    assert_eq!(firefox.description, "Loki DM native messaging host");
}
