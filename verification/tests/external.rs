use loki_dm_core::config::{AuthConfig, DownloadConfig};
use loki_dm_core::external::{curl_arguments, needs_external_downloader};

#[test]
fn ftp_uses_external_downloader() {
    let cfg = DownloadConfig { url: "ftp://example.com/file.bin".to_owned(), ..DownloadConfig::default() };
    assert!(needs_external_downloader(&cfg));
}

#[test]
fn ntlm_uses_external_downloader() {
    let cfg = DownloadConfig {
        url: "https://example.com/file.bin".to_owned(),
        auth: Some(AuthConfig::Ntlm),
        ..DownloadConfig::default()
    };
    assert!(needs_external_downloader(&cfg));
}

#[test]
fn plain_https_stays_native() {
    let cfg = DownloadConfig { url: "https://example.com/file.bin".to_owned(), ..DownloadConfig::default() };
    assert!(!needs_external_downloader(&cfg));
}

#[test]
fn curl_arguments_name_the_part_file_and_url() {
    let cfg = DownloadConfig { url: "ftp://example.com/file.bin".to_owned(), ..DownloadConfig::default() };
    let args = curl_arguments(&cfg, "/tmp/file.bin.part", 0);
    assert!(args.contains(&"/tmp/file.bin.part".to_owned()));
    assert_eq!(args.last().map(String::as_str), Some("ftp://example.com/file.bin"));
}
