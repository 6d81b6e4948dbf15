use loki_dm_core::av::render_hook_command;
use loki_dm_core::engine::backoff_with_jitter;
use loki_dm_core::error::LokiDmError;
use loki_dm_core::settings::default_category_dirs_for;

#[test]
fn status_error_names_the_reason() {
    assert_eq!(LokiDmError::HttpStatus(404).describe(), "server returned status 404 Not Found");
    assert_eq!(LokiDmError::HttpStatus(503).describe(), "server returned status 503 Service Unavailable");
}

#[test]
fn hook_command_fills_path_and_file_name() {
    let cmd = render_hook_command("scan {path} --name {filename} --file {file}", "/tmp/dl/setup.exe");
    assert_eq!(cmd, "scan /tmp/dl/setup.exe --name setup.exe --file /tmp/dl/setup.exe");
}

#[test]
fn backoff_adds_at_most_a_tenth_of_a_second() {
    for attempt in [0_u8, 1, 3, 8, 12] {
        let base = 125_u64 << attempt.min(8);
        let ms = backoff_with_jitter(attempt);
        assert!(base <= ms && ms <= base + 100, "attempt {attempt}: {ms}");
    }
}

#[test]
fn category_directories_sit_under_the_download_root() {
    let dirs = default_category_dirs_for("/tmp/dl");
    assert_eq!(dirs.len(), 6);
    assert_eq!(dirs.get("Music").map(String::as_str), Some("/tmp/dl/Music"));
    assert_eq!(dirs.get("Compressed").map(String::as_str), Some("/tmp/dl/Compressed"));
}

#[test]
fn sidecar_files_sit_beside_the_output() {
    let (part, meta) = loki_dm_core::metadata::sidecar_paths("/tmp/dl/file.iso");
    assert_eq!(part, "/tmp/dl/file.iso.part");
    assert_eq!(meta, "/tmp/dl/file.iso.lokidm");
    let (part, meta) = loki_dm_core::metadata::sidecar_paths("/");
    assert_eq!(part, "./download.part");
    assert_eq!(meta, "./download.lokidm");
    let (part, _) = loki_dm_core::metadata::sidecar_paths("plain.bin");
    assert_eq!(part, "plain.bin.part");
}

#[test]
fn empty_pattern_is_replaced_at_every_boundary() {
    assert_eq!(loki_dm_core::av::replace_text("abc", "", "x"), "xaxbxcx");
    assert_eq!(loki_dm_core::av::replace_text("", "", "x"), "x");
    assert_eq!(loki_dm_core::av::replace_text("a{p}b{p}", "{p}", "Q"), "aQbQ");
}

#[test]
fn schedule_times_are_checked() {
    assert!(loki_dm_core::scheduler::start_time_is_valid(0, 60));
    assert!(!loki_dm_core::scheduler::start_time_is_valid(i128::MAX, 0));
    assert!(loki_dm_core::scheduler::tick_time_is_valid(1_700_000_000_000_000_000));
    assert!(!loki_dm_core::scheduler::tick_time_is_valid(9_223_372_036_854_775_807_999_999_999));
    assert!(loki_dm_core::scheduler::is_valid_time(-1));
}

#[test]
fn filling_category_folders_touches_nothing_else() {
    let mut settings = loki_dm_core::settings::AppSettings::default();
    settings.download_dir = "/tmp/dl".to_owned();
    settings.advanced.retry_count = 7;
    settings.category_dirs = loki_dm_core::strmap::StrMap::new();
    settings.category_dirs.insert("Video".to_owned(), "/media/films".to_owned());
    settings.normalize_category_dirs();
    assert_eq!(settings.advanced.retry_count, 7);
    assert_eq!(settings.download_dir, "/tmp/dl");
    assert_eq!(settings.category_dirs.len(), 6);
    assert_eq!(settings.category_dirs.get("Video").map(String::as_str), Some("/media/films"));
    assert_eq!(settings.category_dirs.get("Music").map(String::as_str), Some("/tmp/dl/Music"));
}
