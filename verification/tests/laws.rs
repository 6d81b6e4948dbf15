use loki_dm_core::config::DownloadConfig;
use loki_dm_core::cookies::merge_cookie_sources;
use loki_dm_core::metadata::{build_initial_segments, DownloadMetadata, SegmentState};
use loki_dm_core::queue::{QueueAddOutcome, QueuePriority, QueueState};
use loki_dm_core::scheduler::ScheduleSpec;
use loki_dm_core::updater::{select_asset_for_platform, ReleaseAsset, UpdateInfo};

#[test]
fn priority_names_read_back_ignoring_case_and_blanks() {
    for p in [QueuePriority::Low, QueuePriority::Normal, QueuePriority::High, QueuePriority::Critical] {
        assert_eq!(QueuePriority::parse(p.as_str()), Some(p));
    }
    assert_eq!(QueuePriority::parse("  HiGh \t"), Some(QueuePriority::High));
    assert_eq!(QueuePriority::parse("URGENT"), Some(QueuePriority::Critical));
    assert_eq!(QueuePriority::parse("soon"), None);
}

fn info(names: &[&str]) -> UpdateInfo {
    UpdateInfo {
        current_version: "1.0.0".to_owned(),
        latest_version: "1.1.0".to_owned(),
        update_available: true,
        release_name: None,
        release_notes: None,
        published_at: None,
        assets: names
            .iter()
            .map(|n| ReleaseAsset { name: (*n).to_owned(), download_url: format!("https://x/{n}"), size: None })
            .collect(),
    }
}

#[test]
fn an_asset_is_chosen_exactly_when_there_is_one() {
    assert!(select_asset_for_platform(&info(&[]), "linux", "x86_64").is_none());
    let chosen = select_asset_for_platform(&info(&["notes.txt"]), "plan9", "mips").expect("asset");
    assert_eq!(chosen.name, "notes.txt");
}

#[test]
fn normalizing_twice_changes_nothing() {
    let c = DownloadConfig {
        url: "https://a/f".to_owned(),
        mirror_urls: vec![" https://m/f ".to_owned(), "https://a/f".to_owned(), "  ".to_owned()],
        min_connections: 0,
        max_connections: 0,
        initial_connections: 9,
        min_segment_size: 5,
        ..DownloadConfig::default()
    };
    let once = c.normalized();
    let twice = once.clone().normalized();
    assert_eq!(once.mirror_urls, vec!["https://m/f".to_owned()]);
    assert_eq!(twice.mirror_urls, once.mirror_urls);
    assert_eq!(
        (twice.min_connections, twice.initial_connections, twice.max_connections, twice.min_segment_size),
        (once.min_connections, once.initial_connections, once.max_connections, once.min_segment_size)
    );
    assert_eq!((once.min_connections, once.initial_connections, once.max_connections), (1, 1, 1));
}

#[test]
fn resuming_twice_changes_only_the_time() {
    let mut segs = build_initial_segments(100, 2);
    segs[0].downloaded = 500;
    segs[0].state = SegmentState::InProgress;
    let mut meta = DownloadMetadata::for_new("u".to_owned(), "o".to_owned(), "p".to_owned(), 100, None, None, segs);
    meta.normalize_for_resume();
    let first: Vec<(u64, SegmentState)> = meta.segments.iter().map(|s| (s.downloaded, s.state)).collect();
    assert_eq!(first, vec![(50, SegmentState::Pending), (0, SegmentState::Pending)]);
    meta.normalize_for_resume();
    let second: Vec<(u64, SegmentState)> = meta.segments.iter().map(|s| (s.downloaded, s.state)).collect();
    assert_eq!(first, second);
    assert_eq!(meta.bytes_downloaded, 50);
}

#[test]
fn next_run_is_the_first_repetition_after_now() {
    let sec: i128 = 1_000_000_000;
    let spec = ScheduleSpec { start_at_nanos: 100 * sec, interval_nanos: Some(10 * 1_000_000_000) };
    assert_eq!(spec.next_after(50 * sec), Some(100 * sec));
    assert_eq!(spec.next_after(125 * sec), Some(130 * sec));
    assert_eq!(spec.next_after(130 * sec), Some(140 * sec));
}

#[test]
fn cookie_merge_fails_exactly_on_a_bad_pair() {
    assert!(merge_cookie_sources(&["a=1".to_owned(), "broken".to_owned()], None).is_err());
    let m = merge_cookie_sources(&["a=1".to_owned(), "b=2".to_owned(), "a=3".to_owned()], None).expect("merged");
    assert_eq!(m.len(), 2);
    assert_eq!(m.get("a").map(String::as_str), Some("3"));
}

#[test]
fn duplicate_check_ignores_surrounding_blanks() {
    let mut q = QueueState::default();
    let first = q.add_download_dedup(
        DownloadConfig { url: "https://a.example/f.zip".to_owned(), output_path: "/tmp/f.zip".to_owned(), ..DownloadConfig::default() },
        QueuePriority::Normal,
        true,
    );
    assert_eq!(first, QueueAddOutcome::Added { id: 1 });
    let again = q.add_download_dedup(
        DownloadConfig { url: "  https://a.example/f.zip  ".to_owned(), output_path: "/tmp/g.zip".to_owned(), ..DownloadConfig::default() },
        QueuePriority::High,
        true,
    );
    assert_eq!(again, QueueAddOutcome::Duplicate { existing_id: 1 });
    assert_eq!(q.items.len(), 1);
}
