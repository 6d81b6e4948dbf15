use loki_dm_core::spider::{
    collect_urls, extract_links, href_scan_is_safe, is_allowed_by_robots, parse_robots_disallow,
    robots_text_is_safe, SpiderHit,
};
use loki_dm_core::urls::{default_filename, host_of, scheme_of};

#[test]
fn extracts_relative_and_absolute_links() {
    let base = "https://example.com/root/";
    let html = r#"
            <a href="/a/file.zip">file</a>
            <a href="https://cdn.example.com/asset.mp4">video</a>
        "#;
    assert!(href_scan_is_safe(html));
    let links = extract_links(base, html);
    assert_eq!(links.len(), 2);
    assert_eq!(links[0].as_str(), "https://example.com/a/file.zip");
    assert_eq!(links[1].as_str(), "https://cdn.example.com/asset.mp4");
}

#[test]
fn parses_robots_disallow() {
    let txt = "User-agent: *\nDisallow: /private\nDisallow: /tmp\n";
    assert!(robots_text_is_safe(txt));
    let rules = parse_robots_disallow(txt);
    assert_eq!(rules, vec!["/private", "/tmp"]);
}

#[test]
fn collects_unique_hit_urls_in_order() {
    let hits = vec![
        SpiderHit { url: "https://a/2".to_owned(), depth: 1 },
        SpiderHit { url: "https://a/1".to_owned(), depth: 0 },
        SpiderHit { url: "https://a/2".to_owned(), depth: 2 },
    ];
    let urls = collect_urls(&hits);
    assert_eq!(urls.len(), 2);
    assert!(urls.contains(&"https://a/1".to_owned()));
    assert!(urls.contains(&"https://a/2".to_owned()));
}

#[test]
fn url_helpers_read_the_parts() {
    assert_eq!(default_filename("https://example.com/dir/file.iso"), "file.iso");
    assert_eq!(default_filename("https://example.com/"), "download.bin");
    assert_eq!(default_filename("not a url"), "download.bin");
    assert_eq!(host_of("https://Example.COM/x").as_deref(), Some("example.com"));
    assert_eq!(scheme_of("ftp://h/x").as_deref(), Some("ftp"));
}

#[test]
fn robots_rules_block_prefixes() {
    let rules = vec!["/private".to_owned()];
    let blocked = loki_dm_core::urls::ParsedUrl::parse("https://a.com/private/x").expect("url");
    let open = loki_dm_core::urls::ParsedUrl::parse("https://a.com/public").expect("url");
    assert!(!is_allowed_by_robots(&blocked, &rules));
    assert!(is_allowed_by_robots(&open, &rules));
}
