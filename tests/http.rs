use bingus_http::files::sanitize_file_name;
use bingus_http::header::{HeaderName, Headers};
use bingus_http::http::{accept_line, parse_head, HeadStep, LineRead, ParsingError, RequestHead};
use bingus_http::method::Method;

fn lines(ls: &[&str]) -> Vec<String> {
    ls.iter().map(|s| s.to_string()).collect()
}

fn head(ls: &[&str]) -> Result<RequestHead, ParsingError> {
    parse_head(&lines(ls))
}

#[test]
fn method_tokens_round_trip() {
    let all = [
        Method::GET,
        Method::HEAD,
        Method::POST,
        Method::PUT,
        Method::DELETE,
        Method::CONNECT,
        Method::OPTIONS,
        Method::TRACE,
        Method::PATCH,
    ];
    for m in all {
        assert_eq!(Method::parse(m.as_str()).unwrap(), m);
    }
    assert_eq!(Method::DELETE.as_str(), "DELETE");
}

#[test]
fn unknown_method_token_is_rejected() {
    match Method::parse("get") {
        Err(e) => assert_eq!(e.0, "get"),
        Ok(m) => panic!("parsed {:?}", m),
    }
    assert!(Method::parse("GETS").is_err());
    assert!(Method::parse("").is_err());
}

#[test]
fn header_names_are_case_normalized() {
    let a = HeaderName::new("content-type");
    let b = HeaderName::new("Content-Type");
    let c = HeaderName::new("CONTENT-TYPE");
    assert_eq!(a.as_str(), "Content-Type");
    assert!(a == b);
    assert!(b == c);
    assert_eq!(c.to_string(), "Content-Type");
    assert_eq!(HeaderName::new("x-forwarded-for").as_str(), "X-Forwarded-For");
    assert_eq!(HeaderName::new("-a--b").as_str(), "-A--B");
    assert_eq!(HeaderName::new("").as_str(), "");
}

#[test]
fn header_names_use_unicode_case_mapping() {
    assert_eq!(HeaderName::new("é").as_str(), "É");
    assert_eq!(HeaderName::new("é-ÑANDÚ").as_str(), "É-Ñandú");
    assert_eq!(HeaderName::new("ßx").as_str(), "SSx");
}

#[test]
fn header_case_variants_overwrite() {
    let mut h = Headers::new();
    h.insert(HeaderName::new("content-type"), "a".to_string());
    h.insert(HeaderName::new("Content-Type"), "b".to_string());
    h.insert(HeaderName::new("CONTENT-TYPE"), "c".to_string());
    assert_eq!(h.len(), 1);
    assert_eq!(h.get(&HeaderName::new("content-TYPE")).map(|s| s.as_str()), Some("c"));
    assert!(h.contains(&HeaderName::new("Content-type")));
    assert!(!h.contains(&HeaderName::new("Content-Length")));
    h.insert(HeaderName::new("Host"), "x".to_string());
    assert_eq!(h.len(), 2);
    let (name, value) = h.entry(1);
    assert_eq!((name.as_str(), value.as_str()), ("Host", "x"));
}

#[test]
fn lines_collect_until_blank_line() {
    let mut ls: Vec<String> = Vec::new();
    assert!(matches!(
        accept_line(&mut ls, LineRead::Line("GET / HTTP/1.1\r\n".to_string())),
        HeadStep::More
    ));
    assert!(matches!(
        accept_line(&mut ls, LineRead::Line("Host: x\n".to_string())),
        HeadStep::More
    ));
    assert!(matches!(
        accept_line(&mut ls, LineRead::Line("\r\n".to_string())),
        HeadStep::Complete
    ));
    assert_eq!(ls, vec!["GET / HTTP/1.1".to_string(), "Host: x".to_string()]);
}

#[test]
fn end_of_stream_before_any_line_is_null_request() {
    let mut ls: Vec<String> = Vec::new();
    assert!(matches!(
        accept_line(&mut ls, LineRead::Line(String::new())),
        HeadStep::Failed(ParsingError::NullRequest)
    ));
    assert!(matches!(
        accept_line(&mut ls, LineRead::Line("\r\n".to_string())),
        HeadStep::Failed(ParsingError::NullRequest)
    ));
}

#[test]
fn read_without_line_feed_ends_the_head() {
    let mut ls: Vec<String> = Vec::new();
    assert!(matches!(
        accept_line(&mut ls, LineRead::Line("GET / HTTP/1.1".to_string())),
        HeadStep::Failed(ParsingError::NullRequest)
    ));
    let mut ls = lines(&["GET / HTTP/1.1"]);
    assert!(matches!(
        accept_line(&mut ls, LineRead::Line("\r".to_string())),
        HeadStep::Failed(ParsingError::Interrupted)
    ));
    assert!(matches!(
        accept_line(&mut ls, LineRead::Line("Host: x".to_string())),
        HeadStep::Failed(ParsingError::Interrupted)
    ));
    assert_eq!(ls.len(), 1);
}

#[test]
fn unicode_white_space_is_trimmed() {
    let h = head(&["GET / HTTP/1.1", "\u{3000}Name\u{a0}:\tvalue\u{2009}"]).unwrap();
    assert_eq!(
        h.headers.get(&HeaderName::new("name")).map(|s| s.as_str()),
        Some("value")
    );
}

#[test]
fn end_of_stream_after_a_line_is_interrupted() {
    let mut ls = lines(&["GET / HTTP/1.1"]);
    assert!(matches!(
        accept_line(&mut ls, LineRead::Line(String::new())),
        HeadStep::Failed(ParsingError::Interrupted)
    ));
    assert!(matches!(
        accept_line(&mut ls, LineRead::Interrupted),
        HeadStep::Failed(ParsingError::Interrupted)
    ));
    let e = std::io::Error::new(std::io::ErrorKind::Other, "boom");
    assert!(matches!(
        accept_line(&mut ls, LineRead::Failed(e)),
        HeadStep::Failed(ParsingError::IOError(_))
    ));
    assert_eq!(ls.len(), 1);
}

#[test]
fn parses_request_line_and_headers() {
    let h = head(&[
        "POST /upload/file.txt?x=1&y=2 HTTP/1.1",
        "Host:  example.com ",
        "content-length: 12",
        "no colon here",
        " : empty name",
        "X-Empty:",
    ])
    .unwrap();
    assert_eq!(h.method, Method::POST);
    assert_eq!(h.path, "/upload/file.txt");
    assert_eq!(h.query.as_deref(), Some("x=1&y=2"));
    assert_eq!(h.headers.len(), 3);
    assert_eq!(
        h.headers.get(&HeaderName::new("host")).map(|s| s.as_str()),
        Some("example.com")
    );
    assert_eq!(
        h.headers.get(&HeaderName::new("Content-Length")).map(|s| s.as_str()),
        Some("12")
    );
    assert_eq!(
        h.headers.get(&HeaderName::new("x-empty")).map(|s| s.as_str()),
        Some("")
    );
}

#[test]
fn query_splits_at_first_question_mark() {
    let h = head(&["GET /a?b?c HTTP/1.0"]).unwrap();
    assert_eq!(h.path, "/a");
    assert_eq!(h.query.as_deref(), Some("b?c"));
    let h = head(&["GET /a HTTP/1.0"]).unwrap();
    assert_eq!(h.query, None);
}

#[test]
fn no_lines_is_null_request() {
    assert!(matches!(head(&[]), Err(ParsingError::NullRequest)));
}

#[test]
fn request_line_needs_three_tokens() {
    assert!(matches!(head(&["GET /"]), Err(ParsingError::InvalidFirstLine)));
    assert!(matches!(
        head(&["GET / HTTP/1.1 extra"]),
        Err(ParsingError::InvalidFirstLine)
    ));
    assert!(matches!(
        head(&["GET  / HTTP/1.1"]),
        Err(ParsingError::InvalidFirstLine)
    ));
}

#[test]
fn unknown_method_is_invalid_method() {
    match head(&["FETCH / HTTP/1.1"]) {
        Err(ParsingError::InvalidMethod(e)) => assert_eq!(e.0, "FETCH"),
        other => panic!("unexpected {:?}", other),
    }
}

#[test]
fn path_must_start_with_slash() {
    match head(&["GET hello HTTP/1.1"]) {
        Err(ParsingError::InvalidPath(p)) => assert_eq!(p, "hello"),
        other => panic!("unexpected {:?}", other),
    }
    match head(&["GET ?q HTTP/1.1"]) {
        Err(ParsingError::InvalidPath(p)) => assert_eq!(p, ""),
        other => panic!("unexpected {:?}", other),
    }
}

#[test]
fn path_longer_than_limit_is_rejected() {
    let long = format!("/{}", "a".repeat(2048));
    let line = format!("GET {} HTTP/1.1", long);
    match head(&[line.as_str()]) {
        Err(ParsingError::PathTooLong(max, len)) => {
            assert_eq!(max, 2048);
            assert_eq!(len, 2049);
        }
        other => panic!("unexpected {:?}", other),
    }
    let ok = format!("/{}", "a".repeat(2047));
    let line = format!("GET {} HTTP/1.1", ok);
    assert_eq!(head(&[line.as_str()]).unwrap().path.len(), 2048);
}

#[test]
fn path_length_counts_bytes() {
    let long = format!("/{}", "é".repeat(1024));
    let line = format!("GET {} HTTP/1.1", long);
    assert!(matches!(
        head(&[line.as_str()]),
        Err(ParsingError::PathTooLong(2048, 2049))
    ));
}

#[test]
fn file_names_are_sanitized() {
    assert_eq!(sanitize_file_name("a/b\\c&d?e\"f'g*h~i|j:k<l>m"), "a_b_c_d_e_f_g_h_i_j_k_l_m");
    assert_eq!(sanitize_file_name("plain.txt"), "plain.txt");
    assert_eq!(sanitize_file_name(""), "");
}
