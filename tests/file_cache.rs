use secure_file_server::cache::{
    parse_conditional_headers, parse_decimal_u64, should_return_not_modified, FileCacheInfo,
};
use secure_file_server::date::{format_http_date, is_leap_year};

#[test]
fn test_cache_duration() {
    let cache_info = FileCacheInfo {
        last_modified: 1234567890,
        size: 1024,
        etag: "\"1234567890-1024\"".to_string(),
    };

    assert_eq!(cache_info.get_cache_duration("image/png"), 31536000);
    assert_eq!(cache_info.get_cache_duration("text/html"), 3600);
    assert_eq!(cache_info.get_cache_duration("application/gzip"), 86400);
    assert_eq!(cache_info.get_cache_duration("text/plain"), 0);
}

#[test]
fn test_conditional_headers() {
    let request = "GET /test.txt HTTP/1.1\r\n\
                  Host: example.com\r\n\
                  If-Modified-Since: 1234567890\r\n\
                  If-None-Match: \"abc123\"\r\n\
                  \r\n";

    let (if_modified_since, if_none_match) = parse_conditional_headers(request);

    assert_eq!(if_modified_since, Some("1234567890".to_string()));
    assert_eq!(if_none_match, Some("\"abc123\"".to_string()));
}

#[test]
fn test_should_return_not_modified() {
    let cache_info = FileCacheInfo {
        last_modified: 1234567890,
        size: 1024,
        etag: "\"1234567890-1024\"".to_string(),
    };

    assert!(should_return_not_modified(&cache_info, None, Some("\"1234567890-1024\"")));
    assert!(should_return_not_modified(&cache_info, Some("1234567890"), None));
    assert!(!should_return_not_modified(
        &cache_info,
        Some("1234567889"),
        Some("\"different-etag\"")
    ));
}

#[test]
fn file_cache_info_from_metadata() {
    let info = FileCacheInfo::from_metadata(1700000000, 13);
    assert_eq!(info.size, 13);
    assert_eq!(info.last_modified, 1700000000);
    assert_eq!(info.etag, "\"1700000000-13\"");
}

#[test]
fn etag_changes_with_time_or_size() {
    let a = FileCacheInfo::from_metadata(1234567890, 1024);
    let b = FileCacheInfo::from_metadata(1234567890, 1024);
    let c = FileCacheInfo::from_metadata(1234567891, 1024);
    let d = FileCacheInfo::from_metadata(1234567890, 1025);
    let e = FileCacheInfo::from_metadata(12345678, 901024);
    assert_eq!(a.etag, b.etag);
    assert_ne!(a.etag, c.etag);
    assert_ne!(a.etag, d.etag);
    assert_ne!(a.etag, e.etag);
}

#[test]
fn not_modified_ignores_quoting_and_parses_plain_integers() {
    let info = FileCacheInfo::from_metadata(100, 5);
    assert!(should_return_not_modified(&info, None, Some("100-5")));
    assert!(should_return_not_modified(&info, None, Some("\"\"100-5")));
    assert!(should_return_not_modified(&info, Some("+100"), None));
    assert!(should_return_not_modified(&info, Some("200"), Some("other")));
    assert!(!should_return_not_modified(&info, Some("99"), None));
    assert!(!should_return_not_modified(&info, Some("Thu, 01 Jan 1970 00:01:40 GMT"), None));
    assert!(!should_return_not_modified(&info, Some(" 100"), None));
    assert!(!should_return_not_modified(&info, None, None));
}

#[test]
fn decimal_parsing_like_std() {
    assert_eq!(parse_decimal_u64("0"), Some(0));
    assert_eq!(parse_decimal_u64("+7"), Some(7));
    assert_eq!(parse_decimal_u64("+"), None);
    assert_eq!(parse_decimal_u64(""), None);
    assert_eq!(parse_decimal_u64("-1"), None);
    assert_eq!(parse_decimal_u64("18446744073709551615"), Some(u64::MAX));
    assert_eq!(parse_decimal_u64("18446744073709551616"), None);
    assert_eq!(parse_decimal_u64("12a"), None);
}

#[test]
fn cache_durations_by_bucket() {
    let info = FileCacheInfo::from_metadata(0, 0);
    assert_eq!(info.get_cache_duration("text/css; charset=utf-8"), 31536000);
    assert_eq!(info.get_cache_duration("font/woff2"), 31536000);
    assert_eq!(info.get_cache_duration("application/octet-stream"), 86400);
    assert_eq!(info.get_cache_duration("application/json; charset=utf-8"), 3600);
    assert_eq!(info.get_cache_duration("text/xml"), 3600);
    assert_eq!(info.get_cache_duration("application/wasm"), 0);
}

#[test]
fn last_conditional_header_wins() {
    let request = "If-None-Match: a\nIf-None-Match:  b \r\nif-modified-since: 5\r\n";
    let (ims, inm) = parse_conditional_headers(request);
    assert_eq!(ims, None);
    assert_eq!(inm, Some("b".to_string()));
}

#[test]
fn http_dates() {
    assert_eq!(format_http_date(0), "Thu, 01 Jan 1970 00:00:00 GMT");
    assert_eq!(format_http_date(1234567890), "Fri, 13 Feb 2009 23:31:30 GMT");
    assert_eq!(format_http_date(951782400), "Tue, 29 Feb 2000 00:00:00 GMT");
    assert_eq!(format_http_date(1704067199), "Sun, 31 Dec 2023 23:59:59 GMT");
    let info = FileCacheInfo::from_metadata(1234567890, 1);
    assert_eq!(info.last_modified_http(), "Fri, 13 Feb 2009 23:31:30 GMT");
}

#[test]
fn leap_years() {
    assert!(is_leap_year(2000));
    assert!(is_leap_year(2024));
    assert!(!is_leap_year(1900));
    assert!(!is_leap_year(2023));
}
