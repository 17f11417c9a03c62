use rustnps::model::HealthCheck;
use rustnps::npc::{
    classify_server_error, config_candidate, health_step, HealthStep, content_type, control_action, file_relative_path, html_escape, is_fatal_server_message,
    is_invalid_vkey_message, log_config_mode_server_error, parse_args, parse_bool, parse_request_path, probe_health_target,
    proxy_protocol_v1, proxy_protocol_v2, reply_of, run, safe_join, serve_link, value_of, write_proxy_protocol_if_needed, ControlAction,
    LinkService, PeerAddr, Reply, RunPlan, ServerError,
};
use rustnps::protocol::{error, ok, LinkKind, ServerMessage};
use rustnps::socks5::{
    socks5_domain_host, socks5_greeting, socks5_ipv4_host, socks5_ipv6_host, socks5_method_reply, socks5_request, socks5_success_reply,
    socks5_target, Socks5Address, Socks5Error,
};

fn args(items: &[&str]) -> Vec<String> {
    items.iter().map(|s| s.to_string()).collect()
}

fn v4(ip: [u8; 4], port: u16) -> PeerAddr {
    PeerAddr { v6: false, ip_text: format!("{}.{}.{}.{}", ip[0], ip[1], ip[2], ip[3]), octets: ip.to_vec(), port }
}

#[test]
fn parse_args_defaults() {
    let a = parse_args(&Vec::new());
    assert_eq!(a.conn_type, "tcp");
    assert_eq!(a.local_port, 2000);
    assert_eq!(a.local_type, "p2p");
    assert_eq!(a.register_hours, 2);
    assert_eq!(a.console_log_level, "info");
    assert_eq!(a.command, "");
    assert!(!a.tls_enable);
}

#[test]
fn parse_args_reads_both_forms() {
    let a = parse_args(&args(&["-server=1.2.3.4:8024", "--vkey", "abc", "-local_port=abc", "--time", "5", "-tls_enable", "-debug"]));
    assert_eq!(a.server, "1.2.3.4:8024");
    assert_eq!(a.vkey, "abc");
    assert_eq!(a.local_port, 2000);
    assert_eq!(a.register_hours, 5);
    assert!(a.tls_enable);
    assert_eq!(a.console_log_level, "debug");
    let b = parse_args(&args(&["register", "-local_port", "3000", "-debug=no"]));
    assert_eq!(b.command, "register");
    assert_eq!(b.local_port, 3000);
    assert_eq!(b.console_log_level, "info");
}

#[test]
fn parse_args_help_and_version() {
    assert_eq!(parse_args(&args(&["-server=x", "help"])).command, "help");
    assert_eq!(parse_args(&args(&["-server=x", "help"])).server, "");
    assert_eq!(parse_args(&args(&["--version"])).command, "version");
}

#[test]
fn argument_helpers() {
    assert!(parse_bool("YES"));
    assert!(parse_bool("1"));
    assert!(!parse_bool("no"));
    assert_eq!(value_of("-vkey=k=1", "-vkey"), Some("k=1".to_string()));
    assert_eq!(value_of("-vkey", "-vkey"), None);
}

#[test]
fn proxy_protocol_v1_writes_text_header() {
    let header = proxy_protocol_v1(&v4([127, 0, 0, 1], 43210), &v4([127, 0, 0, 1], 8080)).unwrap();
    assert_eq!(String::from_utf8(header).unwrap(), "PROXY TCP4 127.0.0.1 127.0.0.1 43210 8080\r\n");
}

#[test]
fn proxy_protocol_v2_writes_binary_header() {
    let header = proxy_protocol_v2(&v4([127, 0, 0, 1], 43210), &v4([10, 0, 0, 2], 80)).unwrap();
    assert_eq!(&header[..12], b"\r\n\r\n\0\r\nQUIT\n");
    assert_eq!(header[12], 0x21);
    assert_eq!(header[13], 0x11);
    assert_eq!(&header[14..16], &[0, 12]);
    assert_eq!(&header[16..20], &[127, 0, 0, 1]);
    assert_eq!(&header[20..24], &[10, 0, 0, 2]);
    assert_eq!(&header[24..26], &43210u16.to_be_bytes());
    assert_eq!(&header[26..28], &80u16.to_be_bytes());
    assert_eq!(header.len(), 28);
}

#[test]
fn proxy_protocol_is_written_only_when_asked() {
    let remote = v4([1, 2, 3, 4], 5);
    let local = v4([5, 6, 7, 8], 9);
    assert_eq!(write_proxy_protocol_if_needed(" v1 ", Some(&remote), &local), b"PROXY TCP4 1.2.3.4 5.6.7.8 5 9\r\n".to_vec());
    assert_eq!(write_proxy_protocol_if_needed("V2", Some(&remote), &local).len(), 28);
    assert!(write_proxy_protocol_if_needed("", Some(&remote), &local).is_empty());
    assert!(write_proxy_protocol_if_needed("v1", None, &local).is_empty());
    let six = PeerAddr { v6: true, ip_text: "::1".to_string(), octets: vec![0; 16], port: 1 };
    assert!(write_proxy_protocol_if_needed("v1", Some(&six), &local).is_empty());
}

#[test]
fn server_messages_are_sorted() {
    assert!(is_invalid_vkey_message("Invalid verification key"));
    assert!(is_invalid_vkey_message("\u{5bc6}\u{94a5}\u{9519}\u{8bef}"));
    assert!(is_fatal_server_message("Client Disabled"));
    assert!(!is_fatal_server_message("busy"));
    match classify_server_error("invalid verification key".to_string()) {
        ServerError::InvalidKey(m) => {
            assert_eq!(m, "Invalid verification key, connection failed, please reconfigure the vkey parameter.")
        },
        other => panic!("unexpected {other:?}"),
    }
    match classify_server_error("client deleted".to_string()) {
        ServerError::Fatal(m) => assert_eq!(m, "client deleted"),
        other => panic!("unexpected {other:?}"),
    }
    match classify_server_error("busy".to_string()) {
        ServerError::Other(m) => assert_eq!(m, "busy"),
        other => panic!("unexpected {other:?}"),
    }
    assert_eq!(log_config_mode_server_error("web_user occupied"), "the web_user may have been occupied!");
    assert_eq!(
        log_config_mode_server_error("port 80 already in use"),
        "The server returned an error, which port or host may have been occupied or not allowed to open."
    );
    assert_eq!(log_config_mode_server_error("other"), "other");
}

#[test]
fn control_messages() {
    assert!(matches!(control_action(ServerMessage::Ping), ControlAction::Pong));
    assert!(matches!(control_action(ok("x")), ControlAction::Ignore));
    match control_action(ServerMessage::Stop { reason: "client disabled".to_string() }) {
        ControlAction::Stop(ServerError::Fatal(m)) => assert_eq!(m, "client disabled"),
        other => panic!("unexpected {other:?}"),
    }
    assert!(matches!(reply_of(ok("fine")), Reply::Accepted(m) if m == "fine"));
    assert!(matches!(reply_of(error("bad")), Reply::Refused(m) if m == "bad"));
    assert!(matches!(reply_of(ServerMessage::Ping), Reply::Unexpected));
    assert_eq!(serve_link(LinkKind::Udp), LinkService::Udp);
    assert_eq!(serve_link(LinkKind::Secret), LinkService::Tcp);
}

#[test]
fn health_probe_settings() {
    let mut h = HealthCheck::default();
    h.kind = "HTTP".to_string();
    assert_eq!(probe_health_target(&h), (true, 1));
    h.kind = "tcp".to_string();
    h.timeout_secs = 7;
    assert_eq!(probe_health_target(&h), (false, 7));
}

#[test]
fn file_tunnel_paths() {
    assert_eq!(parse_request_path(b"GET /static/a.txt?x=1 HTTP/1.1\r\n\r\n"), Some("/static/a.txt?x=1".to_string()));
    assert_eq!(file_relative_path(Some("/static/a.txt?x=1".to_string()), "/static/"), "a.txt");
    assert_eq!(file_relative_path(None, "/static"), "");
    assert_eq!(safe_join("a/./b//c.txt"), Some(vec!["a".to_string(), "b".to_string(), "c.txt".to_string()]));
    assert_eq!(safe_join("a/../b"), None);
    assert_eq!(safe_join("/etc/passwd"), None);
    assert_eq!(content_type("dir/Index.HTML"), "text/html; charset=utf-8");
    assert_eq!(content_type("a.tar.gz"), "application/octet-stream");
    assert_eq!(content_type(".bashrc"), "application/octet-stream");
    assert_eq!(html_escape("<a href=\"x\">&</a>"), "&lt;a href=&quot;x&quot;&gt;&amp;&lt;/a&gt;");
}

#[test]
fn run_plans() {
    let mut a = parse_args(&Vec::new());
    assert_eq!(config_candidate(&a, "conf/npc.conf"), Some("conf/npc.conf".to_string()));
    assert!(matches!(run(&a, None), RunPlan::MissingServer));
    assert!(matches!(run(&a, Some("conf/npc.conf".to_string())), RunPlan::ConfigFile(p) if p == "conf/npc.conf"));
    a.server = "1.2.3.4:8024".to_string();
    a.vkey = "k".to_string();
    assert_eq!(config_candidate(&a, "conf/npc.conf"), None);
    match run(&a, None) {
        RunPlan::Direct(c) => {
            assert_eq!(c.common.server_addr, "1.2.3.4:8024");
            assert_eq!(c.common.vkey, "k");
        },
        other => panic!("unexpected {other:?}"),
    }
    a.password = "p".to_string();
    match run(&a, None) {
        RunPlan::Visitor { server, local } => {
            assert_eq!(server, "1.2.3.4:8024");
            assert_eq!(local.ip, "127.0.0.1");
            assert_eq!(local.port, 2000);
            assert_eq!(local.kind, "p2p");
        },
        other => panic!("unexpected {other:?}"),
    }
}

#[test]
fn socks5_handshake_steps() {
    assert_eq!(socks5_greeting(5, 2), Ok(2));
    assert_eq!(socks5_greeting(4, 2), Err(Socks5Error::NotSocks5));
    let (reply, res) = socks5_method_reply(&[2, 0]);
    assert_eq!(reply, vec![5, 0]);
    assert_eq!(res, Ok(()));
    let (reply, res) = socks5_method_reply(&[2]);
    assert_eq!(reply, vec![5, 0xff]);
    assert_eq!(res, Err(Socks5Error::NoSupportedAuth));
    assert_eq!(Socks5Error::NoSupportedAuth.message(), "no supported auth");
    assert_eq!(socks5_request(5, 1, 1), Ok(Socks5Address::V4));
    assert_eq!(socks5_request(5, 1, 3), Ok(Socks5Address::Domain));
    assert_eq!(socks5_request(5, 1, 4), Ok(Socks5Address::V6));
    assert_eq!(socks5_request(5, 2, 1), Err(Socks5Error::OnlyConnect));
    assert_eq!(socks5_request(5, 1, 9), Err(Socks5Error::UnsupportedAddressType));
    assert_eq!(socks5_success_reply(), vec![5, 0, 0, 1, 0, 0, 0, 0, 0, 0]);
}

#[test]
fn socks5_hosts() {
    assert_eq!(socks5_ipv4_host(&[192, 168, 0, 10]), "192.168.0.10");
    let mut six = [0u8; 16];
    six[15] = 1;
    six[0] = 0xfe;
    six[1] = 0x80;
    assert_eq!(socks5_ipv6_host(&six), "fe80:0000:0000:0000:0000:0000:0000:0001");
    assert_eq!(socks5_domain_host(b"example.com"), "example.com");
    assert_eq!(socks5_domain_host(&[b'a', 0xff, b'b']), "a\u{FFFD}b");
    assert_eq!(socks5_target("example.com", 0x1f, 0x90), "example.com:8080");
}

#[test]
fn health_failures_are_counted_and_reported() {
    assert_eq!(health_step(0, false, 3), HealthStep::Failed { failures: 1, report: false });
    assert_eq!(health_step(2, false, 3), HealthStep::Failed { failures: 3, report: true });
    assert_eq!(health_step(5, false, 3), HealthStep::Failed { failures: 6, report: true });
    assert_eq!(health_step(u32::MAX, false, 3), HealthStep::Failed { failures: u32::MAX, report: u32::MAX % 3 == 0 });
    assert_eq!(health_step(3, true, 3), HealthStep::Restore);
    assert_eq!(health_step(2, true, 3), HealthStep::Clear);
}
