use http_me::endpoints::{
    asset_content_type, asset_filename_range, cors_preflight, echoed_header_name, parse_status,
    status_decision, status_from_header, status_from_path, StatusOutcome,
};

#[test]
fn parse_status_accepts_u16_numerals() {
    assert_eq!(parse_status(b"404"), 404);
    assert_eq!(parse_status(b"0"), 0);
    assert_eq!(parse_status(b"65535"), 65535);
    assert_eq!(parse_status(b"+302"), 302);
}

#[test]
fn parse_status_defaults_to_200() {
    for bad in [
        &b""[..], b"+", b"-5", b"65536", b"99999999999999999999", b"12a", b"a12", b"1 2",
        b"++1",
    ] {
        assert_eq!(parse_status(bad), 200, "{:?}", bad);
    }
}

#[test]
fn status_from_header_splits_on_equals() {
    assert_eq!(status_from_header("status=302"), Some(302));
    assert_eq!(status_from_header("status=abc"), Some(200));
    assert_eq!(status_from_header("status="), Some(200));
    assert_eq!(status_from_header("a=404=9"), Some(404));
    // No '=' at all: the directive is unusable.
    assert_eq!(status_from_header("status"), None);
}

#[test]
fn status_from_path_reads_second_segment() {
    assert_eq!(status_from_path("/status/418"), Some(418));
    assert_eq!(status_from_path("/status/bogus"), Some(200));
    assert_eq!(status_from_path("/status/404/extra"), Some(404));
    assert_eq!(status_from_path("/status/"), Some(200));
    assert_eq!(status_from_path("/status"), None);
    assert_eq!(status_from_path("/"), None);
}

#[test]
fn status_decision_prefers_header_then_query_then_path() {
    assert_eq!(
        status_decision(Some("status=301"), Some("404"), "/status/500"),
        StatusOutcome::Code(301)
    );
    assert_eq!(
        status_decision(Some("other"), Some("404"), "/status/500"),
        StatusOutcome::Code(404)
    );
    assert_eq!(
        status_decision(None, None, "/status/500"),
        StatusOutcome::Code(500)
    );
    assert_eq!(
        status_decision(Some("status"), None, "/status/500"),
        StatusOutcome::MalformedHeader
    );
    assert_eq!(status_decision(None, None, "/status"), StatusOutcome::PathTooShort);
}

#[test]
fn asset_filename_is_the_last_segment() {
    let path = "/static-assets/swagger.html";
    let (lo, hi) = asset_filename_range(path);
    assert_eq!(&path[lo..hi], "swagger.html");
    let (lo, hi) = asset_filename_range("/static-assets/");
    assert_eq!(lo, hi);
    let (lo, hi) = asset_filename_range("plain");
    assert_eq!(lo, 0);
    assert_eq!(hi, "plain".len());
}

#[test]
fn asset_content_types_by_extension() {
    assert_eq!(asset_content_type("app.js"), "application/javascript; charset=utf-8");
    assert_eq!(asset_content_type("style.css"), "text/css; charset=utf-8");
    assert_eq!(asset_content_type("index.html"), "text/html; charset=utf-8");
    assert_eq!(asset_content_type("data.json"), "application/json; charset=utf-8");
    assert_eq!(asset_content_type("pic.jpg"), "image/jpg");
    assert_eq!(asset_content_type("pic.png"), "image/png");
    assert_eq!(asset_content_type("notes.txt"), "text/plain");
    assert_eq!(asset_content_type("archive.tar.png"), "image/png");
    // A name with no dot falls back to text/plain.
    assert_eq!(asset_content_type("README"), "text/plain");
}

#[test]
fn echoed_header_names() {
    assert_eq!(echoed_header_name(b"x-custom"), Some(b"resp-x-custom".to_vec()));
    assert_eq!(echoed_header_name(b"x-"), Some(b"resp-x-".to_vec()));
    assert_eq!(echoed_header_name(b"content-type"), None);
    assert_eq!(echoed_header_name(b""), None);
}

#[test]
fn options_gets_cors_preflight() {
    let resp = cors_preflight("OPTIONS").expect("preflight");
    assert_eq!(resp.status, 200);
    assert!(resp.body.is_empty());
    assert_eq!(
        resp.headers,
        vec![
            ("Access-Control-Allow-Origin".to_string(), "*".to_string()),
            (
                "Access-Control-Allow-Methods".to_string(),
                "GET, POST, PUT, DELETE, OPTIONS".to_string()
            ),
            (
                "Access-Control-Allow-Headers".to_string(),
                "Content-Type, Authorization".to_string()
            ),
        ]
    );
}

#[test]
fn non_options_gets_no_preflight() {
    assert!(cors_preflight("GET").is_none());
    assert!(cors_preflight("POST").is_none());
    assert!(cors_preflight("options").is_none());
}
