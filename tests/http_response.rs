use secure_file_server::response::HttpResponse;
use secure_file_server::version::HttpVersion;

#[test]
fn test_http09_encoding() {
    let mut response = HttpResponse::ok(b"Hello World".to_vec());
    response.set_content_type("text/plain");

    let encoded = response.encode(&HttpVersion::Http09, false);
    assert_eq!(encoded, b"Hello World");
}

#[test]
fn test_http10_encoding() {
    let mut response = HttpResponse::ok(b"Hello World".to_vec());
    response.set_content_type("text/plain");
    response.set_content_length();

    let encoded = response.encode(&HttpVersion::Http10, false);
    let expected = b"HTTP/1.0 200 OK\r\nContent-Type: text/plain\r\nContent-Length: 11\r\n\r\nHello World";
    assert_eq!(encoded, expected);
}

#[test]
fn test_http10_keep_alive() {
    let mut response = HttpResponse::ok(b"Hello World".to_vec());
    response.set_content_type("text/plain");
    response.set_content_length();

    let encoded = response.encode(&HttpVersion::Http10, true);
    let expected = b"HTTP/1.0 200 OK\r\nContent-Type: text/plain\r\nContent-Length: 11\r\nConnection: Keep-Alive\r\n\r\nHello World";
    assert_eq!(encoded, expected);
}

#[test]
fn test_http11_encoding() {
    let mut response = HttpResponse::ok(b"Hello World".to_vec());
    response.set_content_type("text/plain");
    response.set_content_length();

    let encoded = response.encode(&HttpVersion::Http11, true);
    let expected = b"HTTP/1.1 200 OK\r\nContent-Type: text/plain\r\nContent-Length: 11\r\n\r\nHello World";
    assert_eq!(encoded, expected);
}

#[test]
fn test_http11_close() {
    let mut response = HttpResponse::ok(b"Hello World".to_vec());
    response.set_content_type("text/plain");
    response.set_content_length();

    let encoded = response.encode(&HttpVersion::Http11, false);
    let expected = b"HTTP/1.1 200 OK\r\nContent-Type: text/plain\r\nContent-Length: 11\r\nConnection: close\r\n\r\nHello World";
    assert_eq!(encoded, expected);
}

#[test]
fn http09_ignores_status_and_headers() {
    let mut response = HttpResponse::not_found(b"Hello World".to_vec());
    response.add_security_headers();
    response.set_content_length();
    assert_eq!(response.encode(&HttpVersion::Http09, true), b"Hello World");
}

#[test]
fn set_header_replaces_in_place() {
    let mut response = HttpResponse::ok(Vec::new());
    response.set_header("A", "1");
    response.set_header("B", "2");
    response.set_header("A", "3");
    let expected = b"HTTP/1.1 200 OK\r\nA: 3\r\nB: 2\r\n\r\n";
    assert_eq!(response.encode(&HttpVersion::Http11, true), expected);
}

#[test]
fn redirect_and_not_modified_responses() {
    let r = HttpResponse::moved_permanently("/foo/");
    assert_eq!(
        r.encode(&HttpVersion::Http11, false),
        b"HTTP/1.1 301 Moved Permanently\r\nLocation: /foo/\r\nConnection: close\r\n\r\n"
    );
    let r = HttpResponse::not_modified("Thu, 01 Jan 1970 00:00:00 GMT", "\"0-0\"");
    assert_eq!(
        r.encode(&HttpVersion::Http10, false),
        b"HTTP/1.0 304 Not Modified\r\nLast-Modified: Thu, 01 Jan 1970 00:00:00 GMT\r\nETag: \"0-0\"\r\n\r\n"
    );
    let r = HttpResponse::internal_server_error(b"x".to_vec());
    assert_eq!(r.encode(&HttpVersion::Http10, false), b"HTTP/1.0 500 Internal Server Error\r\n\r\nx");
}

#[test]
fn caching_headers_by_duration() {
    let cases: [(i64, &str); 4] = [
        (-1, "public, max-age=31536000, immutable"),
        (0, "no-cache, no-store, must-revalidate"),
        (3600, "public, max-age=3600"),
        (-5, "no-cache"),
    ];
    for (duration, control) in cases.iter() {
        let mut r = HttpResponse::ok(Vec::new());
        r.add_caching_headers("D", "\"1-2\"", *duration);
        let expected = format!(
            "HTTP/1.1 200 OK\r\nLast-Modified: D\r\nETag: \"1-2\"\r\nCache-Control: {}\r\n\r\n",
            control
        );
        assert_eq!(r.encode(&HttpVersion::Http11, true), expected.as_bytes());
    }
}

#[test]
fn security_headers() {
    let mut r = HttpResponse::ok(Vec::new());
    r.set_cache_control("public, max-age=60");
    r.add_security_headers_no_cache_override();
    let expected = b"HTTP/1.1 200 OK\r\nCache-Control: public, max-age=60\r\nX-Content-Type-Options: nosniff\r\nX-Frame-Options: DENY\r\nX-XSS-Protection: 1; mode=block\r\n\r\n";
    assert_eq!(r.encode(&HttpVersion::Http11, true), expected);
    r.add_security_headers();
    let expected = b"HTTP/1.1 200 OK\r\nCache-Control: no-cache\r\nX-Content-Type-Options: nosniff\r\nX-Frame-Options: DENY\r\nX-XSS-Protection: 1; mode=block\r\n\r\n";
    assert_eq!(r.encode(&HttpVersion::Http11, true), expected);
}
