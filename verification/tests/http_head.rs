use base64::engine::general_purpose::STANDARD as BASE64_STANDARD;
use base64::Engine;
use rustnps::http::{
    check_http_basic_auth, ensure_port, feed_head_byte, get_header, hex_lower_of, http_header_value, md5_hex, parse_http_host_path,
    parse_http_request_line, parse_http_status_code, parse_http_target, remove_header, rewrite_http_request_head, set_header,
    write_http_response, HeadStep,
};

#[test]
fn validates_basic_auth_from_authorization_header() {
    let token = BASE64_STANDARD.encode("demo:secret");
    let head = format!("GET / HTTP/1.1\r\nHost: example.com\r\nAuthorization: Basic {token}\r\n\r\n");
    assert!(check_http_basic_auth(head.as_bytes(), "demo", "secret"));
    assert!(!check_http_basic_auth(head.as_bytes(), "demo", "wrong"));
}

#[test]
fn basic_auth_reads_proxy_authorization_and_rejects_bad_tokens() {
    let token = BASE64_STANDARD.encode("u:p");
    let head = format!("CONNECT a:443 HTTP/1.1\r\nProxy-Authorization: basic {token}\r\n\r\n");
    assert!(check_http_basic_auth(head.as_bytes(), "u", "p"));
    let bad = "GET / HTTP/1.1\r\nAuthorization: Basic !!notbase64!!\r\n\r\n";
    assert!(!check_http_basic_auth(bad.as_bytes(), "u", "p"));
    let other_scheme = format!("GET / HTTP/1.1\r\nAuthorization: Bearer {token}\r\n\r\n");
    assert!(!check_http_basic_auth(other_scheme.as_bytes(), "u", "p"));
    assert!(!check_http_basic_auth(b"GET / HTTP/1.1\r\n\r\n", "u", "p"));
}

#[test]
fn rewrites_host_and_headers() {
    let head = b"GET /a HTTP/1.1\r\nHost: old.test\r\nConnection: keep-alive\r\n\r\n";
    let rewritten = rewrite_http_request_head(head, Some("new.test"), "X-Test: 1\nX-Flag: yes", "127.0.0.1:9000", Some("127.0.0.1"), true, true);
    let text = String::from_utf8(rewritten).unwrap();
    assert!(text.contains("Host: new.test\r\n"));
    assert!(text.contains("X-Test: 1\r\n"));
    assert!(text.contains("X-Flag: yes\r\n"));
    assert!(text.contains("X-Real-IP: 127.0.0.1\r\n"));
    assert!(text.contains("Connection: close\r\n"));
}

#[test]
fn rewrite_produces_exact_head() {
    let head = b"GET /a HTTP/1.1\r\nHost: old.test\r\nX-Forwarded-For: 10.0.0.1\r\nProxy-Connection: keep-alive\r\n\r\nbody";
    let out = rewrite_http_request_head(head, Some("  "), "", "192.168.1.5:4000", Some("192.168.1.5"), true, true);
    assert_eq!(
        String::from_utf8(out).unwrap(),
        "GET /a HTTP/1.1\r\nHost: old.test\r\nX-Forwarded-For: 10.0.0.1, 192.168.1.5\r\nX-Real-IP: 192.168.1.5\r\nConnection: close\r\n\r\n"
    );
    let plain = rewrite_http_request_head(b"GET / HTTP/1.1\r\nHost: h\r\n\r\n", None, "", "bad-addr", None, false, false);
    assert_eq!(String::from_utf8(plain).unwrap(), "GET / HTTP/1.1\r\nHost: h\r\n\r\n");
    let guessed = rewrite_http_request_head(b"GET / HTTP/1.1\r\n\r\n", None, "", "host.name:80", None, true, false);
    assert_eq!(String::from_utf8(guessed).unwrap(), "GET / HTTP/1.1\r\nX-Forwarded-For: host.name\r\nX-Real-IP: host.name\r\n\r\n");
}

#[test]
fn header_list_set_get_remove() {
    let mut headers: Vec<(String, String)> = Vec::new();
    set_header(&mut headers, "Host", "a");
    set_header(&mut headers, "host", "b");
    assert_eq!(headers.len(), 1);
    assert_eq!(get_header(&headers, "HOST"), Some("b".to_string()));
    set_header(&mut headers, "X-One", "1");
    remove_header(&mut headers, "x-one");
    assert_eq!(get_header(&headers, "X-One"), None);
    assert_eq!(headers, vec![("Host".to_string(), "b".to_string())]);
}

#[test]
fn ensure_port_adds_default() {
    assert_eq!(ensure_port("example.com", 80), "example.com:80");
    assert_eq!(ensure_port(" example.com:8080 ", 80), "example.com:8080");
    assert_eq!(ensure_port("[::1]", 443), "[::1]");
    assert_eq!(ensure_port("host:99999", 443), "host:99999:443");
}

#[test]
fn parses_request_targets() {
    assert_eq!(parse_http_target(b"CONNECT example.com HTTP/1.1\r\n\r\n"), Some(("example.com:443".to_string(), true)));
    assert_eq!(parse_http_target(b"get / HTTP/1.1\r\nhost: a.test \r\n\r\n"), Some(("a.test:80".to_string(), false)));
    assert_eq!(parse_http_target(b"GET / HTTP/1.1\r\nAccept: */*\r\n\r\n"), None);
    assert_eq!(
        parse_http_host_path(b"GET /x?y HTTP/1.1\r\nHost: A.Test:81\r\n\r\n"),
        Some(("a.test:81".to_string(), "/x?y".to_string()))
    );
    assert_eq!(
        parse_http_request_line(b"POST /p\r\n\r\n"),
        Some(("POST".to_string(), "/p".to_string(), "HTTP/1.1".to_string()))
    );
    assert_eq!(parse_http_request_line(b"POST\r\n\r\n"), None);
    assert_eq!(
        parse_http_request_line(b"POST /p HTTP/1.0\r\n\r\n"),
        Some(("POST".to_string(), "/p".to_string(), "HTTP/1.0".to_string()))
    );
    assert_eq!(parse_http_status_code(b"HTTP/1.1 404 Not Found\r\n\r\n"), Some(404));
    assert_eq!(parse_http_status_code(b"HTTP/1.1 abc\r\n\r\n"), None);
}

#[test]
fn header_values_stop_at_blank_line() {
    let head = b"GET / HTTP/1.1\r\nX-A:  one  \r\n\r\nX-B: two\r\n";
    assert_eq!(http_header_value(head, "x-a"), Some("one".to_string()));
    assert_eq!(http_header_value(head, "X-B"), None);
}

#[test]
fn writes_complete_response() {
    let mut out = Vec::new();
    write_http_response(&mut out, "200 OK", "text/plain", b"hi");
    assert_eq!(
        String::from_utf8(out).unwrap(),
        "HTTP/1.1 200 OK\r\nContent-Type: text/plain\r\nContent-Length: 2\r\nConnection: close\r\n\r\nhi"
    );
}

#[test]
fn head_reader_steps() {
    let mut buf = Vec::new();
    let mut last = HeadStep::More;
    for b in b"GET / HTTP/1.1\r\n\r\n" {
        last = feed_head_byte(&mut buf, *b, 64);
    }
    assert_eq!(last, HeadStep::Complete);
    let mut small = Vec::new();
    assert_eq!(feed_head_byte(&mut small, b'a', 2), HeadStep::More);
    assert_eq!(feed_head_byte(&mut small, b'b', 2), HeadStep::TooLong);
}

#[test]
fn md5_hex_of_known_inputs() {
    assert_eq!(md5_hex(""), "d41d8cd98f00b204e9800998ecf8427e");
    assert_eq!(md5_hex("abc"), "900150983cd24fb0d6963f7d28e17f72");
    assert_eq!(hex_lower_of(&[0x00, 0x0f, 0xab]), "000fab");
}
