use loki_dm_core::config::{AuthConfig, DownloadConfig};
use loki_dm_core::engine::{
    accepts_byte_ranges, adjust_connection_target, backoff_from_jitter, check_auth,
    check_segment_status, next_retry, parse_content_length, parse_total_from_content_range,
    pick_best_source, plan_connections, quota_step, range_header_value,
    split_allowed, split_largest_remaining_segment, source_urls, write_fits, SourceProbe, SpeedTrend,
};
use loki_dm_core::error::LokiDmError;
use loki_dm_core::metadata::{build_initial_segments, DownloadMetadata, SegmentState};

#[test]
fn parses_content_range_total() {
    assert_eq!(parse_total_from_content_range("bytes 0-0/42"), Some(42));
    assert_eq!(parse_total_from_content_range("bytes */42"), Some(42));
    assert_eq!(parse_total_from_content_range("invalid"), None);
}

#[test]
fn parses_content_length_and_ranges() {
    assert_eq!(parse_content_length("1024"), Some(1024));
    assert_eq!(parse_content_length("abc"), None);
    assert!(accepts_byte_ranges("bytes"));
    assert!(!accepts_byte_ranges("none"));
}

#[test]
fn backoff_doubles_up_to_the_eighth_attempt() {
    assert_eq!(backoff_from_jitter(0, 0), 125);
    assert_eq!(backoff_from_jitter(1, 7), 257);
    assert_eq!(backoff_from_jitter(8, 0), 32_000);
    assert_eq!(backoff_from_jitter(20, 100), 32_100);
}

#[test]
fn retries_until_the_limit() {
    assert_eq!(next_retry(0, 6), (1, false));
    assert_eq!(next_retry(6, 6), (7, true));
    assert_eq!(next_retry(255, 6), (255, true));
}

#[test]
fn judges_segment_answers() {
    assert!(check_segment_status(true, 0, 200).is_ok());
    assert_eq!(check_segment_status(true, 10, 200), Err(LokiDmError::RangeNotHonored));
    assert!(check_segment_status(true, 10, 206).is_ok());
    assert_eq!(check_segment_status(false, 10, 404), Err(LokiDmError::HttpStatus(404)));
}

#[test]
fn connection_target_moves_by_trend() {
    assert_eq!(adjust_connection_target(4, SpeedTrend::Faster, false, 2, 8), 5);
    assert_eq!(adjust_connection_target(8, SpeedTrend::Faster, false, 2, 8), 8);
    assert_eq!(adjust_connection_target(4, SpeedTrend::Slower, false, 2, 8), 3);
    assert_eq!(adjust_connection_target(4, SpeedTrend::Steady, true, 2, 8), 3);
    assert_eq!(adjust_connection_target(2, SpeedTrend::Slower, true, 2, 8), 2);
}

#[test]
fn plans_connections_only_for_ranged_large_files() {
    let cfg = DownloadConfig {
        initial_connections: 20,
        min_connections: 2,
        max_connections: 16,
        min_segment_size: 1000,
        hour_quota_mb: Some(2),
        ..DownloadConfig::default()
    };
    let plan = plan_connections(&cfg, true, 10_000);
    assert!(plan.can_multi);
    assert_eq!(plan.initial_target, 16);
    assert_eq!(plan.hourly_quota_bytes, Some(2 * 1_048_576));
    let single = plan_connections(&cfg, false, 10_000);
    assert!(!single.can_multi);
    assert_eq!(single.initial_target, 1);
}

#[test]
fn quota_waits_for_the_rest_of_the_hour() {
    let ok = quota_step(10, 1_000, 5, 100);
    assert!(!ok.reset_window);
    assert_eq!(ok.bytes_used, 15);
    assert_eq!(ok.wait_ms, None);
    let full = quota_step(95, 600_000, 10, 100);
    assert_eq!(full.bytes_used, 95);
    assert_eq!(full.wait_ms, Some(3_000_000));
    let reset = quota_step(95, 3_600_000, 10, 100);
    assert!(reset.reset_window);
    assert_eq!(reset.bytes_used, 10);
}

#[test]
fn range_header_spans_inclusive_bytes() {
    assert_eq!(range_header_value(0, 99), "bytes=0-99");
}

#[test]
fn sources_list_primary_then_unique_mirrors() {
    let cfg = DownloadConfig {
        url: "https://a/f".to_owned(),
        mirror_urls: vec!["https://b/f".to_owned(), "https://a/f".to_owned(), "https://b/f".to_owned()],
        ..DownloadConfig::default()
    };
    assert_eq!(source_urls(&cfg), vec!["https://a/f".to_owned(), "https://b/f".to_owned()]);
}

#[test]
fn picks_ranged_then_fastest_source() {
    let probes = vec![
        Some(SourceProbe { total_size: 100, range_supported: false, latency_nanos: 1 }),
        None,
        Some(SourceProbe { total_size: 100, range_supported: true, latency_nanos: 50 }),
        Some(SourceProbe { total_size: 100, range_supported: true, latency_nanos: 20 }),
        Some(SourceProbe { total_size: 999, range_supported: true, latency_nanos: 1 }),
    ];
    assert_eq!(pick_best_source(&probes), Some(3));
    assert_eq!(pick_best_source(&vec![None, None]), None);
}

#[test]
fn basic_and_bearer_auth_are_accepted() {
    assert!(check_auth(&None).is_ok());
    assert!(check_auth(&Some(AuthConfig::Bearer { token: "t".to_owned() })).is_ok());
}

#[test]
fn splitting_keeps_the_byte_range_covered() {
    let segs = build_initial_segments(1000, 2);
    assert_eq!(segs.len(), 2);
    assert_eq!((segs[0].start, segs[0].end), (0, 499));
    assert_eq!((segs[1].start, segs[1].end), (500, 999));
    let mut meta = DownloadMetadata::for_new(
        "https://a/f".to_owned(),
        "out".to_owned(),
        "out.part".to_owned(),
        1000,
        None,
        None,
        segs,
    );
    let mut queue = std::collections::VecDeque::new();
    queue.push_back(0_usize);
    assert!(split_allowed(&meta, 100));
    assert!(split_largest_remaining_segment(&mut meta, &mut queue, 100));
    assert_eq!(meta.segments.len(), 3);
    assert_eq!(queue.iter().copied().collect::<Vec<_>>(), vec![0, 2]);
    assert_eq!(meta.version, 1);
    assert_eq!(meta.part_path, "out.part");
    let total: u64 = meta.segments.iter().map(|s| s.end - s.start + 1).sum();
    assert_eq!(total, 1000);
    assert_eq!(meta.segments[2].state, SegmentState::Pending);
    assert!(!split_largest_remaining_segment(&mut meta, &mut queue, 10_000));
    assert_eq!(meta.segments.len(), 3);
    assert_eq!(queue.len(), 2);
}

#[test]
fn initial_segments_tile_the_file() {
    let segs = build_initial_segments(10, 3);
    let spans: Vec<(u64, u64)> = segs.iter().map(|s| (s.start, s.end)).collect();
    assert_eq!(spans, vec![(0, 2), (3, 5), (6, 9)]);
    assert!(segs.iter().all(|s| s.downloaded == 0 && s.state == SegmentState::Pending));
    let tiny = build_initial_segments(2, 8);
    let spans: Vec<(u64, u64)> = tiny.iter().map(|s| (s.start, s.end)).collect();
    assert_eq!(spans, vec![(0, 0), (1, 1)]);
    assert!(build_initial_segments(0, 4).is_empty());
}

#[test]
fn guards_tell_when_the_counters_would_overflow() {
    let segs = build_initial_segments(1000, 2);
    let mut meta = DownloadMetadata::for_new(
        "https://a/f".to_owned(),
        "out".to_owned(),
        "out.part".to_owned(),
        1000,
        None,
        None,
        segs,
    );
    assert!(write_fits(&meta, 0, 400));
    assert!(loki_dm_core::metadata::resume_fits(&meta));
    meta.segments[1].start = 0;
    meta.segments[1].end = u64::MAX;
    assert!(!loki_dm_core::metadata::segments_fit(&meta.segments));
    assert!(!write_fits(&meta, 0, 1));
    assert!(!split_allowed(&meta, 100));
    assert!(!loki_dm_core::metadata::resume_fits(&meta));
}
