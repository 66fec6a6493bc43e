use secure_file_server::policy::ConnectionPolicy;
use secure_file_server::version::HttpVersion;

#[test]
fn test_http09_never_keep_alive() {
    let policy = ConnectionPolicy::default();
    assert!(!policy.should_keep_alive(&HttpVersion::Http09, None, 1000, 1));
    assert!(!policy.should_keep_alive(&HttpVersion::Http09, Some("keep-alive"), 1000, 1));
}

#[test]
fn test_http10_keep_alive_only_if_requested() {
    let policy = ConnectionPolicy::default();
    assert!(!policy.should_keep_alive(&HttpVersion::Http10, None, 1000, 1));
    assert!(!policy.should_keep_alive(&HttpVersion::Http10, Some("close"), 1000, 1));
    assert!(policy.should_keep_alive(&HttpVersion::Http10, Some("Keep-Alive"), 1000, 1));
    assert!(policy.should_keep_alive(&HttpVersion::Http10, Some("keep-alive"), 1000, 1));
}

#[test]
fn test_http11_keep_alive_by_default() {
    let policy = ConnectionPolicy::default();
    assert!(policy.should_keep_alive(&HttpVersion::Http11, None, 1000, 1));
    assert!(policy.should_keep_alive(&HttpVersion::Http11, Some("keep-alive"), 1000, 1));
    assert!(!policy.should_keep_alive(&HttpVersion::Http11, Some("close"), 1000, 1));
    assert!(!policy.should_keep_alive(&HttpVersion::Http11, Some("Close"), 1000, 1));
}

#[test]
fn test_max_requests_limit() {
    let policy = ConnectionPolicy::new(5, 10);
    assert!(policy.should_keep_alive(&HttpVersion::Http11, None, 1000, 4));
    assert!(!policy.should_keep_alive(&HttpVersion::Http11, None, 1000, 5));
    assert!(!policy.should_keep_alive(&HttpVersion::Http11, None, 1000, 6));
}

#[test]
fn test_large_response_closes_connection() {
    let policy = ConnectionPolicy::default();
    assert!(policy.should_keep_alive(&HttpVersion::Http11, None, 5 * 1024 * 1024, 1));
    assert!(!policy.should_keep_alive(&HttpVersion::Http11, None, 11 * 1024 * 1024, 1));
}

#[test]
fn test_parse_request_info() {
    let request = "GET /path HTTP/1.1\r\nHost: example.com\r\nConnection: keep-alive\r\n\r\n";
    let (version, connection) = ConnectionPolicy::parse_request_info(request);
    assert_eq!(version, HttpVersion::Http11);
    assert_eq!(connection, Some("keep-alive".to_string()));
}

#[test]
fn test_parse_request_info_no_connection_header() {
    let request = "GET /path HTTP/1.1\r\nHost: example.com\r\n\r\n";
    let (version, connection) = ConnectionPolicy::parse_request_info(request);
    assert_eq!(version, HttpVersion::Http11);
    assert_eq!(connection, None);
}

#[test]
fn test_parse_request_info_http09() {
    let request = "GET /path\r\n";
    let (version, connection) = ConnectionPolicy::parse_request_info(request);
    assert_eq!(version, HttpVersion::Http09);
    assert_eq!(connection, None);
}

#[test]
fn keep_alive_exact_size_bound() {
    let policy = ConnectionPolicy::default();
    assert!(policy.should_keep_alive(&HttpVersion::Http11, None, 10 * 1024 * 1024, 0));
    assert!(!policy.should_keep_alive(&HttpVersion::Http11, None, 10 * 1024 * 1024 + 1, 0));
}

#[test]
fn keep_alive_header_matched_inside_value() {
    let policy = ConnectionPolicy::default();
    assert!(policy.should_keep_alive(&HttpVersion::Http10, Some("Upgrade, KEEP-ALIVE"), 0, 0));
    assert!(!policy.should_keep_alive(&HttpVersion::Http11, Some("keep-alive, CLOSE"), 0, 0));
    assert!(!policy.should_keep_alive(&HttpVersion::Http10, Some("Keep-Alive"), 0, 100));
    assert!(policy.should_keep_alive(&HttpVersion::Http10, Some("\u{212A}eep-Alive"), 0, 0));
}

#[test]
fn parse_request_info_header_name_any_case_and_trimmed() {
    let request = "GET / HTTP/1.0\nCONNECTION:   Keep-Alive  \r\nconnection: close\r\n";
    let (version, connection) = ConnectionPolicy::parse_request_info(request);
    assert_eq!(version, HttpVersion::Http10);
    assert_eq!(connection, Some("Keep-Alive".to_string()));
}

#[test]
fn parse_request_info_empty_request() {
    let (version, connection) = ConnectionPolicy::parse_request_info("");
    assert_eq!(version, HttpVersion::Http09);
    assert_eq!(connection, None);
}
