use secure_file_server::cache::FileCacheInfo;
use secure_file_server::mime::MimeTypes;
use secure_file_server::security::{
    resolve_directory, verify_privilege_drop, FileFacts, PathError, SecureFileServer, SecurityConfig, ServeFacts,
    ServeOutcome,
};
use secure_file_server::version::HttpVersion;

#[test]
fn test_mime_types() {
    let mime_types = MimeTypes::default();

    assert_eq!(mime_types.get_mime_type("test.html"), "text/html; charset=utf-8");
    assert_eq!(mime_types.get_mime_type("test.js"), "application/javascript; charset=utf-8");
    assert_eq!(mime_types.get_mime_type("test.wasm"), "application/wasm");
    assert_eq!(mime_types.get_mime_type("test.unknown"), "application/octet-stream");
}

fn server() -> SecureFileServer {
    SecureFileServer::new(SecurityConfig::default())
}

fn text(bytes: &[u8]) -> String {
    String::from_utf8(bytes.to_vec()).unwrap()
}

#[test]
fn mime_types_ignore_case_and_directories() {
    let m = MimeTypes::default();
    assert_eq!(m.get_mime_type("/a.b/IMAGE.PNG"), "image/png");
    assert_eq!(m.get_mime_type("/dir.html/file"), "application/octet-stream");
    assert_eq!(m.get_mime_type("a.css/"), "text/css; charset=utf-8");
    assert_eq!(m.get_mime_type("a.css/./"), "text/css; charset=utf-8");
    assert_eq!(m.get_mime_type("a.css/.."), "application/octet-stream");
    assert_eq!(m.get_mime_type("/"), "application/octet-stream");
    assert_eq!(m.get_mime_type(".html"), "application/octet-stream");
    assert_eq!(m.get_mime_type("archive.tar.gz"), "application/gzip");
    assert_eq!(m.get_mime_type("noext"), "application/octet-stream");
}

#[test]
fn domain_safety() {
    assert!(SecureFileServer::is_domain_safe("a.b"));
    assert!(!SecureFileServer::is_domain_safe("a..b"));
    assert!(!SecureFileServer::is_domain_safe(".a.b"));
    assert!(!SecureFileServer::is_domain_safe("nodot"));
    assert!(!SecureFileServer::is_domain_safe("a.b/c"));
    assert!(!SecureFileServer::is_domain_safe("a.b."));
    assert!(!SecureFileServer::is_domain_safe("a-b.c"));
    assert!(SecureFileServer::is_domain_safe("www.example.com"));
}

#[test]
fn domain_document_roots() {
    let s = server();
    assert_eq!(
        SecureFileServer::domain_root_candidate("example.com"),
        Some("/var/www/example.com".to_string())
    );
    assert_eq!(SecureFileServer::domain_root_candidate("../etc"), None);
    assert_eq!(s.get_domain_document_root("example.com", true), "/var/www/example.com");
    assert_eq!(s.get_domain_document_root("example.com", false), "/var/www/html");
    assert_eq!(s.get_domain_document_root("..", true), "/var/www/html");
}

#[test]
fn traversal_rejected_before_file_system() {
    let s = server();
    assert_eq!(s.sanitize_path("/../../etc/passwd"), Err(PathError::Traversal));
    assert_eq!(s.sanitize_path("/%2e%2e/etc/passwd"), Err(PathError::Traversal));
    assert_eq!(s.sanitize_path("/a/b..c"), Err(PathError::Traversal));
    let facts = ServeFacts { resolved_is_dir: false, has_index_html: false, has_index_htm: false, resolved: None };
    assert!(matches!(s.serve_file("/../../etc/passwd", "/var/www/html", &facts), ServeOutcome::NotFound));
}

#[test]
fn path_resolution() {
    let s = server();
    assert_eq!(s.sanitize_path("/"), Ok("/var/www/html/index.html".to_string()));
    assert_eq!(s.sanitize_path("/docs/./a.txt?x=1#top"), Ok("/var/www/html/docs/a.txt".to_string()));
    assert_eq!(s.sanitize_path("//x%20y.html"), Ok("/var/www/html/x y.html".to_string()));
    assert_eq!(s.sanitize_path("/.env"), Err(PathError::HiddenFile));
    assert_eq!(s.sanitize_path("a.txt"), Err(PathError::OutsideRoot));
    assert_eq!(s.sanitize_path("/%ff"), Err(PathError::BadEncoding));
    assert_eq!(
        s.sanitize_path_with_root("/a", "/srv/site/"),
        Ok("/srv/site/a".to_string())
    );
}

#[test]
fn file_checks() {
    let mut config = SecurityConfig::default();
    config.max_file_size = 100;
    config.blocked_extensions = vec!["exe".to_string()];
    let s = SecureFileServer::new(config);
    let facts = |size: u64| FileFacts {
        canonical: String::new(),
        exists: true,
        is_file: true,
        size: Some(size),
    };
    let root = "/var/www/html";
    assert_eq!(s.check_file(root, "/var/www/html/a.txt", &facts(10)), Ok("/var/www/html/a.txt".to_string()));
    assert_eq!(s.check_file(root, "/var/www/html/a.txt", &facts(101)), Err(PathError::TooLarge));
    assert_eq!(s.check_file(root, "/var/www/html/a.EXE", &facts(1)), Err(PathError::ExtensionRefused));
    assert_eq!(s.check_file(root, "/var/www/html2/a.txt", &facts(1)), Err(PathError::OutsideRoot));
    let missing = FileFacts { canonical: String::new(), exists: false, is_file: false, size: None };
    assert_eq!(s.check_file(root, "/var/www/html/b", &missing), Err(PathError::NotFound));
    let dir = FileFacts { canonical: String::new(), exists: true, is_file: false, size: None };
    assert_eq!(s.check_file(root, "/var/www/html/b", &dir), Err(PathError::NotAFile));
}

#[test]
fn symlinks_followed_are_checked_against_root() {
    let mut config = SecurityConfig::default();
    config.follow_symlinks = true;
    let s = SecureFileServer::new(config);
    let escaped = FileFacts { canonical: "/etc/passwd".to_string(), exists: true, is_file: true, size: Some(1) };
    assert_eq!(s.check_file("/var/www/html", "/var/www/html/link", &escaped), Err(PathError::OutsideRoot));
}

#[test]
fn extension_lists() {
    let mut config = SecurityConfig::default();
    config.allowed_extensions = vec!["html".to_string(), "css".to_string()];
    config.blocked_extensions = vec!["css".to_string()];
    let s = SecureFileServer::new(config);
    assert!(s.is_extension_allowed("HTML"));
    assert!(!s.is_extension_allowed("css"));
    assert!(!s.is_extension_allowed("js"));
    assert!(server().is_extension_allowed("js"));
    let mut config = SecurityConfig::default();
    config.blocked_extensions = vec!["k".to_string()];
    let s = SecureFileServer::new(config);
    assert!(!s.is_extension_allowed("\u{212A}"));
    assert!(!s.is_extension_allowed("K"));
}

#[test]
fn root_requests() {
    let s = server();
    assert!(s.is_root_request("/"));
    assert!(s.is_root_request(""));
    assert!(s.is_root_request("///"));
    assert!(!s.is_root_request("/index.html"));
}

#[test]
fn directory_without_slash_redirects() {
    let s = server();
    let root = "/var/www/html";
    assert_eq!(s.check_redirect("/foo", root, true), Some("/foo/".to_string()));
    assert_eq!(s.check_redirect("/foo?x=1#f", root, true), Some("/foo/?x=1#f".to_string()));
    assert_eq!(s.check_redirect("/foo/", root, true), None);
    assert_eq!(s.check_redirect("/foo", root, false), None);
    assert_eq!(s.check_redirect("/../etc", root, true), None);
    assert_eq!(s.check_redirect("/.git", root, true), None);
    let facts = ServeFacts { resolved_is_dir: true, has_index_html: false, has_index_htm: false, resolved: None };
    assert!(matches!(s.serve_file("/../etc", root, &facts), ServeOutcome::NotFound));
    let facts = ServeFacts { resolved_is_dir: true, has_index_html: false, has_index_htm: false, resolved: None };
    match s.serve_file("foo", "/var/www/html", &facts) {
        ServeOutcome::Respond(bytes) => assert_eq!(
            text(&bytes),
            "HTTP/1.1 301 Moved Permanently\r\nLocation: foo/\r\nConnection: close\r\n\r\n"
        ),
        _ => panic!("expected a redirect"),
    }
}

#[test]
fn directory_index_files() {
    let s = server();
    let facts = ServeFacts { resolved_is_dir: true, has_index_html: false, has_index_htm: true, resolved: None };
    match s.serve_file("/docs/", "/var/www/html", &facts) {
        ServeOutcome::ReadFile(p) => assert_eq!(p, "/var/www/html/docs/index.htm"),
        _ => panic!("expected the index file"),
    }
    let escape = ServeFacts { resolved_is_dir: true, has_index_html: true, has_index_htm: true, resolved: None };
    assert!(matches!(s.serve_file("/../etc/", "/var/www/html", &escape), ServeOutcome::NotFound));
    assert!(matches!(s.serve_file("/.git/", "/var/www/html", &escape), ServeOutcome::NotFound));
    assert_eq!(resolve_directory("/docs/./x/?q", "/var/www/html"), Ok("/var/www/html/docs/x".to_string()));
    let none = ServeFacts { resolved_is_dir: true, has_index_html: false, has_index_htm: false, resolved: None };
    assert!(matches!(s.serve_file("/docs/", "/var/www/html", &none), ServeOutcome::NotFound));
}

#[test]
fn root_request_serves_index_html() {
    let s = server();
    let facts = ServeFacts { resolved_is_dir: true, has_index_html: true, has_index_htm: false, resolved: None };
    let path = match s.serve_file("/", "/var/www/html", &facts) {
        ServeOutcome::ReadFile(p) => p,
        _ => panic!("expected index.html"),
    };
    assert_eq!(path, "/var/www/html/index.html");
    let info = FileCacheInfo::from_metadata(1234567890, 5);
    let out = text(&s.generate_http_response(&path, b"hello", &info));
    assert!(out.starts_with("HTTP/1.1 200 OK\r\n"));
    assert!(out.contains("Content-Type: text/html; charset=utf-8\r\n"));
    assert!(out.contains("Last-Modified: Fri, 13 Feb 2009 23:31:30 GMT\r\n"));
    assert!(out.contains("Cache-Control: public, max-age=3600\r\n"));
    assert!(out.ends_with("Connection: close\r\n\r\nhello"));
}

#[test]
fn stylesheet_cached_for_a_year() {
    let s = server();
    let facts = ServeFacts {
        resolved_is_dir: false,
        has_index_html: false,
        has_index_htm: false,
        resolved: Some(FileFacts { canonical: String::new(), exists: true, is_file: true, size: Some(3) }),
    };
    let path = match s.serve_file("/style.css", "/var/www/html", &facts) {
        ServeOutcome::ReadFile(p) => p,
        _ => panic!("expected the stylesheet"),
    };
    assert_eq!(path, "/var/www/html/style.css");
    let info = FileCacheInfo::from_metadata(0, 3);
    let out = text(&s.generate_http_response_with_version(&path, b"a{}", &info, &HttpVersion::Http11, true));
    let expected = "HTTP/1.1 200 OK\r\nContent-Type: text/css; charset=utf-8\r\nContent-Length: 3\r\nLast-Modified: Thu, 01 Jan 1970 00:00:00 GMT\r\nETag: \"0-3\"\r\nCache-Control: public, max-age=31536000\r\nX-Content-Type-Options: nosniff\r\nX-Frame-Options: DENY\r\nX-XSS-Protection: 1; mode=block\r\n\r\na{}";
    assert_eq!(out, expected);
    let head = text(&s.generate_file_response_headers(&path, 3, &info));
    assert!(head.starts_with("HTTP/1.1 200 OK\r\nContent-Type: text/css; charset=utf-8\r\nContent-Length: 3\r\n"));
    assert!(head.ends_with("Connection: close\r\n\r\n"));
}

#[test]
fn simple_pages() {
    let s = server();
    let out = text(&s.generate_simple_http_response(b"token", "text/plain", None));
    assert_eq!(
        out,
        "HTTP/1.1 200 OK\r\nContent-Type: text/plain\r\nContent-Length: 5\r\nCache-Control: no-cache\r\nConnection: close\r\n\r\ntoken"
    );
    let out = text(&s.generate_simple_http_response_with_version(
        b"<p>",
        "text/html",
        Some("D"),
        &HttpVersion::Http10,
        true,
    ));
    assert_eq!(
        out,
        "HTTP/1.0 200 OK\r\nContent-Type: text/html\r\nContent-Length: 3\r\nLast-Modified: D\r\nX-Content-Type-Options: nosniff\r\nX-Frame-Options: DENY\r\nX-XSS-Protection: 1; mode=block\r\nCache-Control: public, max-age=300\r\nConnection: Keep-Alive\r\n\r\n<p>"
    );
}

#[test]
fn privilege_drop_checks() {
    let mut config = SecurityConfig::default();
    assert_eq!(SecureFileServer::new(config.clone()).privilege_drop_target(), None);
    config.drop_to_uid = Some(1000);
    assert_eq!(SecureFileServer::new(config.clone()).privilege_drop_target(), None);
    config.drop_to_gid = Some(100);
    let s = SecureFileServer::new(config);
    assert_eq!(s.privilege_drop_target(), Some((1000, 100)));
    assert!(verify_privilege_drop(1000, 100, 1000, 100).is_ok());
    assert!(verify_privilege_drop(1000, 100, 0, 100).is_err());
}

#[test]
fn config_updates() {
    let mut s = server();
    assert_eq!(s.config().document_root, "/var/www/html");
    let mut c = SecurityConfig::default();
    c.document_root = "/srv".to_string();
    s.update_config(c);
    assert_eq!(s.config().document_root, "/srv");
    assert_eq!(s.get_mime_type("/srv/a.svg"), "image/svg+xml");
}

#[test]
fn default_page_names_domain_and_root() {
    let page = server().generate_default_page("example.com");
    assert!(page.starts_with("<!DOCTYPE html>"));
    assert!(page.contains("<p>example.com</p>"));
    assert!(page.contains("<code>/var/www/html</code>"));
    assert!(page.ends_with("</html>"));
}
