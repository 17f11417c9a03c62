use rustnps::cache::HttpResponseCache;
use rustnps::model::{ClientInfo, ClientRuntimeConfig, FlowCounter, Host, ServerConfig, Target, Tunnel};
use rustnps::policy::{
    bind_addr, cache_key_for_request, candidate_server_ports, client_flow_limit_reached, client_relay_policy, ensure_client_tunnel_limit,
    ensure_ip_registration_vkey, ensure_tunnel_server_port, find_host_route, host_matches, ip_in_list, is_cacheable_path, listener_key,
    port_allowed, remote_ip, route_supports_scheme, strip_host_port, tunnel_count, validate_client_access, validate_client_handshake,
    validate_tunnel_ports, prepare_host_proxy_request, https_redirect, response_cacheable, AccessError, AccessFacts, HostProxyError, RegistrationError, TunnelError,
};
use rustnps::slots::{ConnSlots, SlotError};
use rustnps::table::{remove_host, set_host_closed};

fn host_route(host: &str, location: &str, target: &str) -> Host {
    let mut h = Host::default();
    h.host = host.to_string();
    h.location = location.to_string();
    h.target = Target { target_str: target.to_string(), local_proxy: false };
    h
}

fn facts(ip: &str) -> AccessFacts {
    AccessFacts { ip: ip.to_string(), ip_authorized: false, flow_limit_reached: false, global_black_ip_list: Vec::new() }
}

#[test]
fn ports_in_allow_lists() {
    assert!(port_allowed("9001-9002,10000", 9001));
    assert!(port_allowed("9001-9002,10000", 9002));
    assert!(port_allowed("9001-9002,10000", 10000));
    assert!(!port_allowed("9001-9002,10000", 9003));
    assert!(port_allowed(" 20 - 10 ", 15));
    assert!(!port_allowed("a-b,,", 1));
    assert!(!port_allowed("", 80));
}

#[test]
fn rejects_tunnel_ports_outside_allow_list() {
    let mut server = ServerConfig::default();
    server.allow_ports = "9001-9002,10000".to_string();
    let mut tunnel = Tunnel::default();
    tunnel.ports = "9003".to_string();
    let err = validate_tunnel_ports(&server, &tunnel).unwrap_err();
    assert_eq!(err, TunnelError::PortNotAllowed(9003));
    assert!(err.message().contains("allow_ports"));
    assert_eq!(err.message(), "port 9003 is not in allow_ports");
    tunnel.ports = "9001-9002".to_string();
    assert_eq!(validate_tunnel_ports(&server, &tunnel), Ok(()));
    tunnel.mode = "Secret".to_string();
    tunnel.ports = "1".to_string();
    assert_eq!(validate_tunnel_ports(&server, &tunnel), Ok(()));
    let mut by_server_port = Tunnel::default();
    by_server_port.server_port = 8000;
    assert_eq!(validate_tunnel_ports(&server, &by_server_port), Err(TunnelError::PortNotAllowed(8000)));
}

#[test]
fn blocks_host_add_when_tunnel_limit_reached() {
    let mut server = ServerConfig::default();
    server.allow_tunnel_num_limit = true;
    let mut client = ClientRuntimeConfig::default();
    client.common.client.max_tunnel_num = 1;
    client.hosts.push(host_route("a.test", "/", ""));
    let count = tunnel_count(&client);
    assert_eq!(count, 1);
    let err = ensure_client_tunnel_limit(&server, &client.common.client, count).unwrap_err();
    assert_eq!(err, TunnelError::TunnelLimit);
    assert!(err.message().contains("exceeds the limit"));
    assert_eq!(ensure_client_tunnel_limit(&server, &client.common.client, 0), Ok(()));
    server.allow_tunnel_num_limit = false;
    assert_eq!(ensure_client_tunnel_limit(&server, &client.common.client, count), Ok(()));
    let unlimited = ClientInfo::default();
    server.allow_tunnel_num_limit = true;
    assert_eq!(ensure_client_tunnel_limit(&server, &unlimited, 50), Ok(()));
}

#[test]
fn server_port_is_generated_or_kept() {
    let mut t = Tunnel::default();
    assert_eq!(ensure_tunnel_server_port(&mut t, None), Err(TunnelError::NoServerPort));
    assert_eq!(ensure_tunnel_server_port(&mut t, Some(9001)), Ok(()));
    assert_eq!(t.server_port, 9001);
    assert_eq!(t.ports, "9001");
    let mut kept = Tunnel::default();
    kept.server_port = 7000;
    assert_eq!(ensure_tunnel_server_port(&mut kept, Some(1)), Ok(()));
    assert_eq!(kept.server_port, 7000);
    assert_eq!(kept.ports, "7000");
    assert_eq!(candidate_server_ports("0,9001-9002"), vec![9001, 9002]);
}

#[test]
fn listener_addresses() {
    let mut t = Tunnel::default();
    t.server_ip = " ".to_string();
    t.server_port = 80;
    assert_eq!(bind_addr(&t), "0.0.0.0:80");
    t.mode = "UDP".to_string();
    t.server_ip = "1.2.3.4".to_string();
    assert_eq!(listener_key(&t), Some("udp:1.2.3.4:80".to_string()));
    t.server_port = 0;
    assert_eq!(listener_key(&t), None);
}

#[test]
fn caches_static_get_requests_only() {
    let mut route = Host::default();
    route.host = "A.test".to_string();
    assert_eq!(cache_key_for_request(true, "http", &route, "GET", "/app.js"), Some("http|a.test|/app.js".to_string()));
    assert_eq!(cache_key_for_request(true, "http", &route, "POST", "/app.js"), None);
    assert_eq!(cache_key_for_request(true, "http", &route, "GET", "/api"), None);
    assert_eq!(cache_key_for_request(false, "http", &route, "GET", "/app.js"), None);
    assert!(is_cacheable_path("/x/STYLE.CSS?v=1"));
    assert!(!is_cacheable_path("/index.php"));
}

#[test]
fn host_rules_match_names_and_wildcards() {
    assert_eq!(strip_host_port(" Example.com:8080 "), "Example.com");
    assert_eq!(strip_host_port("example.com."), "example.com");
    assert_eq!(strip_host_port("[::1]:80"), "[::1]:80");
    assert!(host_matches("*.example.com", "a.example.com:80"));
    assert!(host_matches("Example.COM", "example.com"));
    assert!(!host_matches("a.test", "b.test"));
    let mut route = Host::default();
    route.scheme = "https".to_string();
    assert!(route_supports_scheme(&route, "HTTPS"));
    assert!(!route_supports_scheme(&route, "http"));
}

#[test]
fn longest_location_wins() {
    let mut client = ClientRuntimeConfig::default();
    client.hosts.push(host_route("a.test", "/", "127.0.0.1:1\n127.0.0.1:2"));
    client.hosts.push(host_route("a.test", "/api", " 127.0.0.1:3 "));
    client.hosts.push(host_route("a.test", "/api/v2", ""));
    let clients = vec![client];
    let (route, target) = find_host_route(&clients, "a.test:80", "/api/users", "http").unwrap();
    assert_eq!(route.location, "/api");
    assert_eq!(target, "127.0.0.1:3");
    let (root, first) = find_host_route(&clients, "a.test", "/other", "http").unwrap();
    assert_eq!(root.location, "/");
    assert_eq!(first, "127.0.0.1:1");
    assert!(find_host_route(&clients, "b.test", "/", "http").is_none());
}

#[test]
fn closed_routes_and_disabled_clients_are_skipped() {
    let mut client = ClientRuntimeConfig::default();
    let mut closed = host_route("a.test", "/", "127.0.0.1:1");
    closed.is_close = true;
    client.hosts.push(closed);
    let mut disabled = ClientRuntimeConfig::default();
    disabled.common.client.status = false;
    disabled.hosts.push(host_route("a.test", "/", "127.0.0.1:2"));
    let clients = vec![client, disabled];
    assert!(find_host_route(&clients, "a.test", "/", "http").is_none());
}

#[test]
fn ip_limit_blocks_unregistered_ip_and_allows_registered_ip() {
    let mut server = ServerConfig::default();
    server.ip_limit = true;
    let client = ClientRuntimeConfig::default();
    let mut f = facts("203.0.113.9");
    assert_eq!(validate_client_access(&server, &f, Some(&client)), Err(AccessError::IpNotValidated));
    f.ip_authorized = true;
    assert_eq!(validate_client_access(&server, &f, Some(&client)), Ok(()));
    assert_eq!(
        AccessError::IpNotValidated.message("203.0.113.9"),
        "the ip 203.0.113.9 is not in the validation list"
    );
}

#[test]
fn access_rules_in_order() {
    let server = ServerConfig::default();
    let mut client = ClientRuntimeConfig::default();
    assert_eq!(validate_client_access(&server, &facts(""), None), Ok(()));
    assert_eq!(validate_client_access(&server, &facts("1.1.1.1"), None), Err(AccessError::ClientNotFound));
    let mut flow = facts("1.1.1.1");
    flow.flow_limit_reached = true;
    assert_eq!(validate_client_access(&server, &flow, Some(&client)), Err(AccessError::TrafficExceeded));
    let mut global = facts("1.1.1.1");
    global.global_black_ip_list = vec![" 1.1.1.1 ".to_string()];
    assert_eq!(validate_client_access(&server, &global, Some(&client)), Err(AccessError::GlobalBlacklist));
    client.common.client.black_ip_list = vec!["1.1.1.1".to_string()];
    assert_eq!(validate_client_access(&server, &facts("1.1.1.1"), Some(&client)), Err(AccessError::ClientBlacklist));
    client.common.client.black_ip_list.clear();
    client.common.client.ip_white = true;
    client.common.client.ip_white_list = vec!["2.2.2.2".to_string()];
    assert_eq!(validate_client_access(&server, &facts("1.1.1.1"), Some(&client)), Err(AccessError::NotWhitelisted));
    assert_eq!(validate_client_access(&server, &facts("2.2.2.2"), Some(&client)), Ok(()));
    client.no_store = true;
    client.common.client.config_conn_allow = false;
    assert_eq!(validate_client_access(&server, &facts("2.2.2.2"), Some(&client)), Err(AccessError::ConfigConnDisabled));
    client.common.client.status = false;
    assert_eq!(validate_client_access(&server, &facts("2.2.2.2"), Some(&client)), Err(AccessError::ClientDisabled));
}

#[test]
fn validate_client_handshake_rejects_unknown_vkey() {
    let server = ServerConfig::default();
    let err = validate_client_handshake(&server, "missing-vkey", &facts("203.0.113.10"), None, false).unwrap_err();
    assert_eq!(err, AccessError::InvalidKey);
    assert_eq!(err.message("203.0.113.10"), "invalid verification key");
    assert_eq!(validate_client_handshake(&server, "  ", &facts(""), None, false), Err(AccessError::InvalidKey));
    assert_eq!(validate_client_handshake(&server, "123", &facts(""), None, true), Ok(()));
    let mut client = ClientRuntimeConfig::default();
    client.common.client.config_conn_allow = false;
    assert_eq!(validate_client_handshake(&server, "k", &facts(""), Some(&client), true), Err(AccessError::ConfigConnDisabled));
    assert_eq!(validate_client_handshake(&server, "k", &facts(""), Some(&client), false), Ok(()));
}

#[test]
fn ip_registration_keys() {
    assert_eq!(ensure_ip_registration_vkey("pub", " ", false), Err(RegistrationError::EmptyKey));
    assert_eq!(ensure_ip_registration_vkey("pub", "pub", false), Ok(()));
    assert_eq!(ensure_ip_registration_vkey("pub", "other", false), Err(RegistrationError::UnknownClient));
    assert_eq!(ensure_ip_registration_vkey("pub", "other", true), Ok(()));
}

#[test]
fn remote_ips_and_lists() {
    assert_eq!(remote_ip("10.0.0.1:80", Some("10.0.0.1")), "10.0.0.1");
    assert_eq!(remote_ip("host.test:80", None), "host.test");
    assert!(ip_in_list("1.2.3.4", &vec![" 1.2.3.4".to_string()]));
    assert!(!ip_in_list("1.2.3.4", &vec!["1.2.3.5".to_string()]));
}

#[test]
fn flow_limits_of_clients() {
    let counter = FlowCounter { inlet_flow: 1_048_576, export_flow: 0 };
    assert!(client_flow_limit_reached(true, 1, &counter));
    assert!(!client_flow_limit_reached(false, 1, &counter));
    assert!(!client_flow_limit_reached(true, 0, &counter));
    assert!(!client_flow_limit_reached(true, 2, &counter));
    let mut server = ServerConfig::default();
    let mut client = ClientRuntimeConfig::default();
    client.common.client.rate_limit_kb = 64;
    client.common.client.flow_limit_mb = 5;
    let open = client_relay_policy(&server, Some(&client));
    assert_eq!((open.rate_limit_kb, open.flow_limit_mb, open.counts_flow), (0, 0, true));
    server.allow_rate_limit = true;
    server.allow_flow_limit = true;
    let limited = client_relay_policy(&server, Some(&client));
    assert_eq!((limited.rate_limit_kb, limited.flow_limit_mb, limited.counts_flow), (64, 5, true));
    let unknown = client_relay_policy(&server, None);
    assert!(!unknown.counts_flow);
}

#[test]
fn blocks_connection_when_client_max_conn_reached() {
    let mut slots = ConnSlots::new();
    assert_eq!(slots.acquire("limit-vkey", true, 1), Ok(true));
    assert_eq!(slots.acquire("limit-vkey", true, 1), Err(SlotError::LimitReached));
    assert_eq!(slots.count("limit-vkey"), 1);
    slots.release("limit-vkey");
    assert_eq!(slots.acquire("limit-vkey", true, 1), Ok(true));
    slots.release("limit-vkey");
    assert_eq!(slots.count("limit-vkey"), 0);
    assert_eq!(slots.acquire("limit-vkey", false, 1), Ok(false));
    assert_eq!(slots.acquire("limit-vkey", true, 0), Ok(false));
    assert_eq!(slots.count("limit-vkey"), 0);
}

#[test]
fn response_cache_evicts_oldest() {
    let mut cache = HttpResponseCache::new();
    cache.insert("a".to_string(), b"1".to_vec(), 2);
    cache.insert("b".to_string(), b"2".to_vec(), 2);
    cache.insert("a".to_string(), b"3".to_vec(), 2);
    cache.insert("c".to_string(), b"4".to_vec(), 2);
    assert_eq!(cache.len(), 2);
    assert_eq!(cache.get("a"), Some(b"3".to_vec()));
    assert_eq!(cache.get("b"), None);
    assert_eq!(cache.get("c"), Some(b"4".to_vec()));
    let mut unbounded = HttpResponseCache::new();
    for k in ["x", "y", "z"] {
        unbounded.insert(k.to_string(), Vec::new(), 0);
    }
    assert_eq!(unbounded.len(), 3);
}

#[test]
fn host_proxy_requests_are_prepared_for_the_route() {
    let mut server = ServerConfig::default();
    server.http_cache = true;
    let mut route = host_route("a.test", "/", "127.0.0.1:1");
    route.host_change = "backend.local".to_string();
    let head = b"GET /app.js HTTP/1.1\r\nHost: a.test\r\n\r\n";
    let (out, key) = prepare_host_proxy_request(&server, &route, "", "", "1.2.3.4:5", Some("1.2.3.4"), head, "http").unwrap();
    assert_eq!(key, Some("http|a.test|/app.js".to_string()));
    assert_eq!(
        String::from_utf8(out).unwrap(),
        "GET /app.js HTTP/1.1\r\nHost: backend.local\r\nX-Forwarded-For: 1.2.3.4\r\nX-Real-IP: 1.2.3.4\r\nConnection: close\r\n\r\n"
    );
    assert_eq!(
        prepare_host_proxy_request(&server, &route, "u", "p", "1.2.3.4:5", Some("1.2.3.4"), head, "http").unwrap_err(),
        HostProxyError::Unauthorized
    );
    assert_eq!(
        prepare_host_proxy_request(&server, &route, "", "", "r", None, b"\r\n\r\n", "http").unwrap_err(),
        HostProxyError::InvalidRequest
    );
    server.http_cache = false;
    let (plain, none) = prepare_host_proxy_request(&server, &route, "", "", "r:1", None, b"POST /x HTTP/1.1\r\n\r\n", "http").unwrap();
    assert_eq!(none, None);
    assert!(!String::from_utf8(plain).unwrap().contains("Connection: close"));
}

#[test]
fn host_status_and_delete_take_effect_in_runtime_route_lookup() {
    let mut client = ClientRuntimeConfig::default();
    client.id = 111;
    client.common.vkey = "host-runtime".to_string();
    let mut route = host_route("example.com", "/api", "127.0.0.1:8080");
    route.id = 5;
    route.scheme = "http".to_string();
    route.client_vkey = "host-runtime".to_string();
    client.hosts.push(route);
    let mut clients = vec![client];

    let (found, target) = find_host_route(&clients, "example.com", "/api/users", "http").unwrap();
    assert_eq!(found.id, 5);
    assert_eq!(target, "127.0.0.1:8080");

    assert!(set_host_closed(&mut clients, 5, true));
    assert!(find_host_route(&clients, "example.com", "/api/users", "http").is_none());

    assert!(set_host_closed(&mut clients, 5, false));
    let (found, _) = find_host_route(&clients, "example.com", "/api/users", "http").unwrap();
    assert_eq!(found.id, 5);

    assert!(remove_host(&mut clients, 5));
    assert!(find_host_route(&clients, "example.com", "/api/users", "http").is_none());
    assert!(!remove_host(&mut clients, 5));
    assert!(!set_host_closed(&mut clients, 5, true));
}

#[test]
fn auto_https_routes_redirect_plain_requests() {
    let mut route = host_route("a.test:80", "/app", "127.0.0.1:8080");
    assert!(https_redirect(443, &route).is_none());
    route.auto_https = true;
    assert!(https_redirect(0, &route).is_none());
    let body = "<html><body><a href=\"https://a.test:8443/app\">Moved Permanently</a></body></html>";
    let expected = format!(
        "HTTP/1.1 301 Moved Permanently\r\nLocation: https://a.test:8443/app\r\nContent-Type: text/html; charset=utf-8\r\nContent-Length: {}\r\nConnection: close\r\n\r\n{}",
        body.len(),
        body
    );
    assert_eq!(https_redirect(8443, &route).unwrap(), expected.into_bytes());
}

#[test]
fn only_small_successful_responses_are_cached() {
    let ok = b"HTTP/1.1 200 OK\r\nContent-Length: 2\r\n\r\n";
    assert!(response_cacheable(ok, 100));
    assert!(response_cacheable(ok, 2 * 1024 * 1024));
    assert!(!response_cacheable(ok, 2 * 1024 * 1024 + 1));
    assert!(!response_cacheable(b"HTTP/1.1 404 Not Found\r\n\r\n", 10));
    assert!(!response_cacheable(b"garbage", 10));
}
