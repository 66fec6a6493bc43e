use secure_file_server::version::HttpVersion;

#[test]
fn test_parse_http11() {
    let request = "GET /path HTTP/1.1";
    assert_eq!(HttpVersion::from_request_line(request), HttpVersion::Http11);
}

#[test]
fn test_parse_http10() {
    let request = "GET /path HTTP/1.0";
    assert_eq!(HttpVersion::from_request_line(request), HttpVersion::Http10);
}

#[test]
fn test_parse_http09() {
    let request = "GET /path";
    assert_eq!(HttpVersion::from_request_line(request), HttpVersion::Http09);
}

#[test]
fn test_parse_unknown_version() {
    let request = "GET /path HTTP/2.0";
    assert_eq!(HttpVersion::from_request_line(request), HttpVersion::Http09);
}

#[test]
fn test_status_line_prefix() {
    assert_eq!(HttpVersion::Http09.status_line_prefix(), "");
    assert_eq!(HttpVersion::Http10.status_line_prefix(), "HTTP/1.0");
    assert_eq!(HttpVersion::Http11.status_line_prefix(), "HTTP/1.1");
}

#[test]
fn test_supports_headers() {
    assert!(!HttpVersion::Http09.supports_headers());
    assert!(HttpVersion::Http10.supports_headers());
    assert!(HttpVersion::Http11.supports_headers());
}

#[test]
fn test_supports_persistent_connections() {
    assert!(!HttpVersion::Http09.supports_persistent_connections());
    assert!(!HttpVersion::Http10.supports_persistent_connections());
    assert!(HttpVersion::Http11.supports_persistent_connections());
}

#[test]
fn first_version_token_decides() {
    assert_eq!(HttpVersion::from_request_line("GET /HTTP/2 HTTP/1.1"), HttpVersion::Http09);
    assert_eq!(HttpVersion::from_request_line("GET /x HTTP/1.1 HTTP/1.0"), HttpVersion::Http11);
    assert_eq!(HttpVersion::from_request_line(""), HttpVersion::Http09);
}

#[test]
fn version_names() {
    assert_eq!(HttpVersion::Http09.to_string(), "HTTP/0.9");
    assert_eq!(HttpVersion::Http10.to_string(), "HTTP/1.0");
    assert_eq!(HttpVersion::Http11.to_string(), "HTTP/1.1");
}
