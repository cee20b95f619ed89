use bingus_http::config::{Config, HttpConfig};
use bingus_http::header::HeaderName;
use bingus_http::response::{decimal_string, reason, to_status_text, Response};

#[test]
fn string_response_is_plain_text() {
    let r = Response::from_string("hello".to_string());
    assert_eq!(r.status_code, 200);
    assert_eq!(r.body, "hello");
    assert_eq!(
        r.headers.get(&HeaderName::new("content-type")).map(|s| s.as_str()),
        Some("text/plain")
    );
    assert_eq!(
        r.headers.get(&HeaderName::new("content-length")).map(|s| s.as_str()),
        Some("5")
    );
}

#[test]
fn content_length_counts_bytes() {
    let r = Response::from_string("héllo".to_string());
    assert_eq!(
        r.headers.get(&HeaderName::new("Content-Length")).map(|s| s.as_str()),
        Some("6")
    );
}

#[test]
fn code_response_carries_status_text() {
    let r = Response::from_code(404);
    assert_eq!(r.status_code, 404);
    assert_eq!(r.body, "404 Not Found\n");
    assert_eq!(
        r.headers.get(&HeaderName::new("Content-Length")).map(|s| s.as_str()),
        Some("14")
    );
}

#[test]
fn default_response_is_ok() {
    let r = Response::default();
    assert_eq!(r.status_code, 200);
    assert_eq!(r.body, "200 OK\n");
}

#[test]
fn head_is_status_line_headers_and_blank_line() {
    let r = Response::from_string("hi".to_string());
    assert_eq!(
        r.head(),
        "HTTP/1.1 200 OK\r\nContent-Type: text/plain\r\nContent-Length: 2\r\n\r\n"
    );
}

#[test]
fn status_texts() {
    assert_eq!(to_status_text(200), "200 OK");
    assert_eq!(to_status_text(418), "418 I'm a teapot");
    assert_eq!(to_status_text(503), "503 Service Unavailable");
    assert_eq!(to_status_text(299), "299 ");
    assert_eq!(reason(301), "Moved Permanently");
    assert_eq!(reason(0), "");
}

#[test]
fn decimal_forms() {
    assert_eq!(decimal_string(0), "0");
    assert_eq!(decimal_string(7), "7");
    assert_eq!(decimal_string(10), "10");
    assert_eq!(decimal_string(4040), "4040");
    assert_eq!(decimal_string(u64::MAX), u64::MAX.to_string());
}

#[test]
fn configuration_defaults() {
    let h = HttpConfig::default();
    assert_eq!(h.host, "0.0.0.0");
    assert_eq!(h.port, 4040);
    assert_eq!(h.concurrency_limit, 512);
    assert!(!h.behind_proxy);
    let c = Config::default();
    assert_eq!(c.upload_dir, "files");
    assert_eq!(c.temp_dir, "temp");
    assert_eq!(c.prefix_length, 8);
    assert_eq!(c.max_file_size, 1_000_000_000);
    assert_eq!(c.max_file_name_length, 200);
    assert_eq!(c.stats_interval, 60);
    assert!(c.fallocate);
    assert_eq!(c.http.port, 4040);
}
