use loki_dm_core::media::{
    best_variant, is_hls_url, read_hls_playlist, ytdlp_download_args, ytdlp_failure,
    ytdlp_probe_args, HlsPlaylist, HlsVariant,
};

#[test]
fn detects_hls_urls() {
    assert!(is_hls_url("https://a/b/index.m3u8"));
    assert!(!is_hls_url("https://a/b/file.mp4"));
}

#[test]
fn detects_hls_urls_ignoring_case() {
    assert!(is_hls_url("https://a/b/INDEX.M3U8?x=1"));
}

#[test]
fn reads_master_playlist_variants() {
    let text = "#EXTM3U\n#EXT-X-STREAM-INF:BANDWIDTH=1000,RESOLUTION=640x360\nlow.m3u8\n#EXT-X-STREAM-INF:BANDWIDTH=3000,RESOLUTION=1280x720\nhigh.m3u8\n";
    match read_hls_playlist(text, "bad playlist").expect("playlist") {
        HlsPlaylist::Master(vs) => {
            assert_eq!(vs.len(), 2);
            assert_eq!(vs[1].uri, "high.m3u8");
            assert_eq!(vs[1].bandwidth, 3000);
            assert_eq!(vs[1].resolution, Some((1280, 720)));
        }
        HlsPlaylist::Media(_) => panic!("expected a master playlist"),
    }
}

#[test]
fn rejects_text_that_is_not_a_playlist() {
    let err = read_hls_playlist("hello", "bad playlist").unwrap_err();
    assert_eq!(err.describe(), "bad playlist");
}

#[test]
fn best_variant_prefers_bandwidth() {
    let v = |uri: &str, bw: u64| HlsVariant { uri: uri.to_owned(), bandwidth: bw, resolution: None };
    assert_eq!(best_variant(&vec![v("a", 10), v("b", 30), v("c", 20)]), Some(1));
    assert_eq!(best_variant(&Vec::new()), None);
}

#[test]
fn ytdlp_arguments_and_failures() {
    assert_eq!(ytdlp_probe_args("u"), vec!["-J", "--no-playlist", "--skip-download", "u"]);
    assert_eq!(ytdlp_download_args("u", Some("22"), "out.mp4"), vec!["--no-playlist", "-o", "out.mp4", "-f", "22", "u"]);
    assert_eq!(ytdlp_download_args("u", None, "o"), vec!["--no-playlist", "-o", "o", "u"]);
    assert_eq!(ytdlp_failure("probe ", Some(-1), "oops"), "yt-dlp probe failed with status Some(-1): oops");
    assert_eq!(ytdlp_failure("", None, "x"), "yt-dlp failed with status None: x");
}
