use secure_file_server::cgi::{url_decode, CgiEnv};
use secure_file_server::errors::{file_operation_error, network_operation_error, operation_error};
use secure_file_server::host::extract_domain_from_host_header;
use secure_file_server::logfile::{format_log_entry, rotated_log_path};

#[test]
fn url_decoding() {
    assert_eq!(url_decode("a+b%20c"), "a b c");
    assert_eq!(url_decode("%41%zz%"), "A%zz%");
    assert_eq!(url_decode("%e9"), "\u{e9}");
    assert_eq!(url_decode("%+5x"), "\u{5}x");
    assert_eq!(url_decode("%4"), "%");
}

#[test]
fn query_parameters() {
    let mut env = CgiEnv::new();
    env.query_string = "a=1&b=x+y&a=2&flag&c=%3D".to_string();
    let params = env.parse_query();
    assert_eq!(
        params,
        vec![
            ("a".to_string(), "2".to_string()),
            ("b".to_string(), "x y".to_string()),
            ("c".to_string(), "=".to_string()),
        ]
    );
}

#[test]
fn environment_from_request() {
    let headers = vec![("Host".to_string(), "example.com".to_string())];
    let env = CgiEnv::from_request("POST", "/upload?x=1", "example.com", "x=1", &headers);
    assert_eq!(env.request_method, "POST");
    assert_eq!(env.query_string, "x=1");
    assert_eq!(env.headers, headers);
    assert_eq!(env.content_length, None);
}

#[test]
fn host_header_domain() {
    let request = "GET / HTTP/1.1\r\nHOST:  example.com:8443 \r\n\r\n";
    assert_eq!(extract_domain_from_host_header(request), Some("example.com".to_string()));
    assert_eq!(extract_domain_from_host_header("GET / HTTP/1.1\r\n\r\n"), None);
}

#[test]
fn error_messages() {
    assert_eq!(
        file_operation_error("read", "/tmp/x", "denied").to_string(),
        "read failed for '/tmp/x': denied"
    );
    assert_eq!(
        network_operation_error("bind", "0.0.0.0:80", "in use").to_string(),
        "bind failed for '0.0.0.0:80': in use"
    );
    assert_eq!(operation_error("start", "boom").to_string(), "start failed: boom");
}

#[test]
fn log_text() {
    assert_eq!(format_log_entry(12, "INFO", "started"), "12 INFO: started\n");
    assert_eq!(rotated_log_path("/var/log/s.log", 99), "/var/log/s.log.99");
}
