use patchbay::serve::{
    content_range, guess_mime, head_only, mime_for_extension, parse_range, parse_request,
    query_has_flag, response_head, route, RangeError, Request, Route,
};

#[test]
fn ranges() {
    assert_eq!(parse_range("bytes=0-9", 100), Ok((0, 9)));
    assert_eq!(parse_range("bytes=10-", 100), Ok((10, 99)));
    assert_eq!(parse_range("bytes=-10", 100), Ok((90, 99)));
    assert_eq!(parse_range("bytes=-1000", 100), Ok((0, 99)));
    assert_eq!(parse_range("bytes=50-1000", 100), Ok((50, 99)));
    assert_eq!(parse_range("bytes=0-1", 0), Err(RangeError::EmptyFile));
    assert_eq!(parse_range("items=0-1", 10), Err(RangeError::UnsupportedUnit));
    assert_eq!(parse_range("bytes=5", 10), Err(RangeError::InvalidRange));
    assert_eq!(parse_range("bytes=-x", 10), Err(RangeError::InvalidSuffix));
    assert_eq!(parse_range("bytes=x-1", 10), Err(RangeError::InvalidStart));
    assert_eq!(parse_range("bytes=10-", 10), Err(RangeError::StartOutOfBounds));
    assert_eq!(parse_range("bytes=1-x", 10), Err(RangeError::InvalidEnd));
    assert_eq!(parse_range("bytes=5-2", 10), Err(RangeError::EndBeforeStart));
    assert_eq!(RangeError::EndBeforeStart.message(), "range end before start");
    assert_eq!(RangeError::EmptyFile.message(), "empty file");
}

#[test]
fn query_flags() {
    assert!(query_has_flag("__meta=1", "__meta"));
    assert!(query_has_flag("a=2&__meta", "__meta"));
    assert!(!query_has_flag("__meta=0", "__meta"));
    assert!(!query_has_flag("", "__meta"));
}

#[test]
fn mime_types() {
    assert_eq!(mime_for_extension("html"), "text/html; charset=utf-8");
    assert_eq!(mime_for_extension("qlog"), "application/json; charset=utf-8");
    assert_eq!(mime_for_extension("txt"), "text/plain; charset=utf-8");
    assert_eq!(mime_for_extension("bin"), "application/octet-stream");
    assert_eq!(guess_mime("run/events.json"), "application/json; charset=utf-8");
    assert_eq!(guess_mime("run/logs/node.log"), "text/plain; charset=utf-8");
    assert_eq!(guess_mime("run/README"), "application/octet-stream");
}

#[test]
fn requests_and_routes() {
    let r = parse_request("GET /run-1/x.log?__meta=1 HTTP/1.1\r\nHost: a\r\nRange: bytes=0-5 \r\n\r\n");
    assert_eq!(r.method, "GET");
    assert_eq!(r.path, "/run-1/x.log");
    assert_eq!(r.query, "__meta=1");
    assert_eq!(r.range.as_deref(), Some("bytes=0-5"));
    match route(&r) {
        Route::File { rel, meta } => {
            assert_eq!(rel, "run-1/x.log");
            assert!(meta);
        }
        other => panic!("unexpected route {:?}", other),
    }
    let req = |m: &str, p: &str| Request { method: m.to_string(), path: p.to_string(), query: String::new(), range: None };
    assert!(matches!(route(&req("POST", "/")), Route::MethodNotAllowed));
    assert!(matches!(route(&req("GET", "/")), Route::Index));
    assert!(matches!(route(&req("HEAD", "/index.html")), Route::Index));
    assert!(matches!(route(&req("GET", "/__netsim/runs")), Route::Runs));
    assert!(matches!(route(&req("GET", "/../etc/passwd")), Route::Forbidden));
    let empty = parse_request("");
    assert_eq!(empty.method, "");
    assert_eq!(empty.path, "/");
    assert!(head_only("HEAD"));
    assert!(!head_only("GET"));
}

#[test]
fn response_heads() {
    let h = response_head(206, "text/plain", 6, &vec![("Content-Range".to_string(), content_range(0, 5, 100))]);
    assert_eq!(
        h,
        "HTTP/1.1 206 Partial Content\r\nContent-Type: text/plain\r\nContent-Length: 6\r\nCache-Control: no-cache\r\nConnection: close\r\nContent-Range: bytes 0-5/100\r\n\r\n"
    );
    assert!(response_head(404, "text/plain", 0, &Vec::new()).starts_with("HTTP/1.1 404 Not Found\r\n"));
}

use patchbay::serve::{log_line_count, run_names};

#[test]
fn log_lines_counted_like_read_until() {
    assert_eq!(log_line_count(b""), 0);
    assert_eq!(log_line_count(b"a"), 1);
    assert_eq!(log_line_count(b"a\n"), 1);
    assert_eq!(log_line_count(b"a\nb"), 2);
    assert_eq!(log_line_count(b"\n\n"), 2);
}

#[test]
fn runs_are_listed_newest_first() {
    let entries = vec![
        ("run-20240101_000000".to_string(), true),
        ("latest".to_string(), true),
        (".hidden".to_string(), true),
        ("run-20250101_000000".to_string(), true),
        ("notes.txt".to_string(), false),
        ("run-20240601_000000".to_string(), true),
    ];
    assert_eq!(
        run_names(&entries),
        vec!["run-20250101_000000", "run-20240601_000000", "run-20240101_000000"]
    );
}
