use loki_dm_core::cookies::{
    merge_cookie_sources, parse_cookie_pair, parse_cookie_text, parse_netscape_cookie_line,
    render_cookie_header,
};

#[test]
fn parses_cookie_pairs() {
    assert_eq!(
        parse_cookie_pair("session=abc123"),
        Some(("session".to_owned(), "abc123".to_owned()))
    );
    assert_eq!(
        parse_cookie_pair("  auth = token ; "),
        Some(("auth".to_owned(), "token".to_owned()))
    );
    assert_eq!(parse_cookie_pair("invalid"), None);
}

#[test]
fn rejects_cookie_without_name() {
    assert_eq!(parse_cookie_pair(" =value"), None);
    assert_eq!(parse_cookie_pair("a=b=c"), Some(("a".to_owned(), "b=c".to_owned())));
}

#[test]
fn reads_netscape_cookie_text() {
    let text = "# Netscape HTTP Cookie File\n.example.com\tTRUE\t/\tFALSE\t4102444800\tsid\tabc\n#HttpOnly_.example.com\tTRUE\t/\tFALSE\t4102444800\tauth\txyz\n";
    let cookies = parse_cookie_text(text, 1_700_000_000);
    assert_eq!(cookies.get("sid").map(String::as_str), Some("abc"));
    assert_eq!(cookies.get("auth").map(String::as_str), Some("xyz"));
}

#[test]
fn drops_expired_netscape_cookies() {
    let text = ".example.com\tTRUE\t/\tFALSE\t100\told\tgone\nplain=value\n";
    let cookies = parse_cookie_text(text, 1_000);
    assert!(!cookies.contains_key("old"));
    assert_eq!(cookies.get("plain").map(String::as_str), Some("value"));
}

#[test]
fn parses_netscape_line_fields() {
    assert_eq!(
        parse_netscape_cookie_line(".example.com\tTRUE\t/\tFALSE\t42\tsid\tabc"),
        Some(("sid".to_owned(), "abc".to_owned(), 42))
    );
    assert_eq!(parse_netscape_cookie_line("not a cookie line"), None);
}

#[test]
fn merges_inline_over_parsed_file_cookies() {
    let file = parse_cookie_text(".example.com\tTRUE\t/\tFALSE\t4102444800\tsid\tabc\n", 1);
    let merged = merge_cookie_sources(&["sid=override".to_owned(), "mode=fast".to_owned()], Some(file))
        .expect("merge");
    assert_eq!(merged.get("sid").map(String::as_str), Some("override"));
    assert_eq!(merged.get("mode").map(String::as_str), Some("fast"));
    let rendered = render_cookie_header(&merged).expect("cookie header");
    assert_eq!(rendered, "mode=fast; sid=override");
}

#[test]
fn merge_reports_bad_inline_cookie() {
    let err = merge_cookie_sources(&["ok=1".to_owned(), "broken".to_owned()], None).unwrap_err();
    assert_eq!(
        err.describe(),
        "invalid cookie format `broken`: expected `name=value`"
    );
}

#[test]
fn renders_no_header_without_cookies() {
    let empty = merge_cookie_sources(&[], None).expect("merge");
    assert_eq!(render_cookie_header(&empty), None);
}
