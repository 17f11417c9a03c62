use rustnps::config::{expand_ports, expand_targets, first_port, normalize_location, parse_client_config, parse_server_config, render_env};
use rustnps::kv::SectionMap;
use rustnps::logging::{enabled, init_from_text, parse_level, Level};
use rustnps::model::{ClientRuntimeConfig, FlowCounter, Host, ServerConfig, Target, Tunnel};
use rustnps::registry::{start_tunnel_task, ListenerKind, StartPlan, client_pos_by_vkey, install_client_config, restore_persistent_state, secret_lookup, visitor_link, IdSequence, InstallError};
use rustnps::protocol::LinkKind;
use rustnps::store::{join_records, persist_records, record_texts, PersistentStore, RecordText};
use rustnps::table::{
    check_new_client, check_register, host_conflict, remove_host, remove_tunnel, set_tunnel_status, ClientFormError, RegisterError,
};
use rustnps::tls::split_host_patterns;
use rustnps::web::{
    authorize_form, client_fields_html, authorize_mutation, client_edit_effect, MutationError, authenticate_web_user, captcha_answer_accepted, captcha_code_from_token, page_range, dashboard_counts, html_escape, next_seed, param, scoped_client_id, selected, WebSession,
};
use rustnps::policy::TunnelError;

fn kv(pairs: &[(&str, &str)]) -> SectionMap {
    let mut m = SectionMap::new();
    for (k, v) in pairs {
        m.insert(&k.chars().collect(), &v.chars().collect());
    }
    m
}

fn tunnel(id: u64, mode: &str, no_store: bool) -> Tunnel {
    let mut t = Tunnel::default();
    t.id = id;
    t.mode = mode.to_string();
    t.no_store = no_store;
    t
}

#[test]
fn load_client_config_parses_ip_white_fields() {
    let text = "[common]\nserver_addr=127.0.0.1:18024\nvkey=test\nipwhite=1\nipwhitepass=a+b c/?\nipwhitelist=127.0.0.1,198.51.100.7\nblackiplist=203.0.113.1,203.0.113.2\n\n[web]\nhost=127.0.0.1\ntarget_addr=127.0.0.1:8080\nlocation=/\n";
    let config = parse_client_config(text);
    assert!(config.common.client.ip_white);
    assert_eq!(config.common.client.ip_white_pass, "a+b c/?");
    assert_eq!(config.common.client.ip_white_list, vec!["127.0.0.1".to_string(), "198.51.100.7".to_string()]);
    assert_eq!(config.common.client.black_ip_list, vec!["203.0.113.1".to_string(), "203.0.113.2".to_string()]);
    assert_eq!(config.common.server_addr, "127.0.0.1:18024");
    assert_eq!(config.common.client.verify_key, "test");
    assert_eq!(config.hosts.len(), 1);
    assert_eq!(config.hosts[0].id, 1);
    assert_eq!(config.hosts[0].host, "127.0.0.1");
    assert_eq!(config.hosts[0].target.target_str, "127.0.0.1:8080");
    assert_eq!(config.hosts[0].client_vkey, "test");
    assert!(config.no_store);
}

#[test]
fn client_config_sections_by_kind() {
    let text = "[ssh]\nmode=tcp\nserver_port=9000\ntarget_addr=22\n[health_a]\nhealth_check_type=tcp\n[secret_x]\npassword=p\nport=2001\n";
    let config = parse_client_config(text);
    assert_eq!(config.tunnels.len(), 1);
    assert_eq!(config.tunnels[0].id, 1);
    assert_eq!(config.tunnels[0].server_port, 9000);
    assert_eq!(config.tunnels[0].remark, "ssh");
    assert_eq!(config.healths.len(), 1);
    assert_eq!(config.local_servers.len(), 1);
    assert_eq!(config.local_servers[0].kind, "secret");
}

#[test]
fn server_config_reads_plain_keys() {
    let c = parse_server_config("bridge_port = 9000\nallow_ports=9001-9002 # note\nweb_username=root\nhttp_cache=true\nbridge_port=9100\nweb_port=notanumber\n");
    assert_eq!(c.bridge_port, 9100);
    assert_eq!(c.allow_ports, "9001-9002");
    assert_eq!(c.web_username, "root");
    assert!(c.http_cache);
    assert_eq!(c.web_port, 8081);
    assert_eq!(c.public_vkey, "123");
}

#[test]
fn ports_and_targets_expand() {
    assert_eq!(expand_ports("80, 90-88,x,"), vec![80, 88, 89, 90]);
    assert_eq!(first_port("x, 81-82"), Some(81));
    assert_eq!(first_port(""), None);
    assert_eq!(expand_targets("10.0.0.1", "22,1.2.3.4:80\n 23 "), vec!["10.0.0.1:22", "1.2.3.4:80", "10.0.0.1:23"]);
    assert_eq!(expand_targets("", "22"), vec!["127.0.0.1:22"]);
    assert_eq!(normalize_location(""), "/");
    assert_eq!(normalize_location("api"), "/api");
    assert_eq!(normalize_location("/x"), "/x");
}

#[test]
fn environment_placeholders_are_rendered() {
    let env = kv(&[("HOME", "/root")]);
    assert_eq!(render_env("a={{.HOME}}/x {{. MISSING }}!", &env), "a=/root/x !");
    assert_eq!(render_env("b={{.HOME", &env), "b={{.HOME");
}

#[test]
fn loads_go_style_record_texts() {
    let raw = "{\"Id\":3,\"VerifyKey\":\"go-vkey\"}\n*#*{\"Id\":4}\n*#*";
    match record_texts(raw) {
        RecordText::Records(v) => assert_eq!(v, vec!["{\"Id\":3,\"VerifyKey\":\"go-vkey\"}".to_string(), "{\"Id\":4}".to_string()]),
        other => panic!("unexpected {other:?}"),
    }
    assert!(matches!(record_texts("  \n"), RecordText::Empty));
    assert!(matches!(record_texts(" [1,2] "), RecordText::Array(a) if a == "[1,2]"));
}

#[test]
fn round_trips_line_delimited_records() {
    let records = vec!["{\"id\":7}".to_string(), "{\"id\":9,\"mode\":\"tcp\"}".to_string()];
    let text = join_records(&records);
    assert_eq!(text, "{\"id\":7}\n*#*{\"id\":9,\"mode\":\"tcp\"}\n*#*");
    match record_texts(&text) {
        RecordText::Records(v) => assert_eq!(v, records),
        other => panic!("unexpected {other:?}"),
    }
    assert!(matches!(record_texts(&join_records(&Vec::new())), RecordText::Empty));
}

#[test]
fn stored_records_exclude_unstored_items() {
    let mut stored = ClientRuntimeConfig::default();
    stored.id = 7;
    stored.common.vkey = "abc".to_string();
    stored.tunnels.push(tunnel(9, "tcp", false));
    stored.tunnels.push(tunnel(10, "udp", true));
    let mut route = Host::default();
    route.no_store = false;
    route.host = "a.test".to_string();
    stored.hosts.push(route);
    let mut transient = ClientRuntimeConfig::default();
    transient.no_store = true;
    transient.tunnels.push(tunnel(11, "tcp", true));
    let records = persist_records(&vec![stored, transient]);
    assert_eq!(records.clients.len(), 1);
    assert_eq!(records.clients[0].id, 7);
    assert!(records.clients[0].tunnels.is_empty());
    assert_eq!(records.tunnels.len(), 1);
    assert_eq!(records.tunnels[0].id, 9);
    assert_eq!(records.hosts.len(), 1);
}

#[test]
fn store_paths() {
    let store = PersistentStore::from_conf_path("/etc/nps/conf/nps.conf");
    assert_eq!(store.conf_dir(), "/etc/nps/conf");
    assert_eq!(store.clients_path(), "/etc/nps/conf/clients.json");
    assert_eq!(PersistentStore::new("conf/").tasks_path(), "conf/tasks.json");
    assert_eq!(PersistentStore::new("").hosts_path(), "hosts.json");
}

#[test]
fn store_directory_follows_path_parent() {
    let dir = |p: &str| PersistentStore::from_conf_path(p).conf_dir().clone();
    for (path, expected) in [
        ("/etc/rustnps/nps.conf", "/etc/rustnps"),
        ("/", "conf"),
        ("", "conf"),
        ("nps.conf", ""),
        ("a/.", ""),
        (".", ""),
        ("./x", "."),
        ("a/./b", "a"),
        ("a/b/", "a"),
        ("/a", "/"),
        ("//a", "/"),
        ("..", ""),
        ("../a", ".."),
    ] {
        let std_parent = std::path::Path::new(path).parent().map(|d| d.to_str().unwrap().to_string()).unwrap_or_else(|| "conf".to_string());
        assert_eq!(std_parent, expected, "std on {path}");
        assert_eq!(dir(path), expected, "store on {path}");
    }
}

#[test]
fn id_sequence_skips_observed_ids() {
    let mut seq = IdSequence::new();
    assert_eq!(seq.next_link_id(), 1);
    seq.observe_id(10);
    assert_eq!(seq.next_link_id(), 11);
    seq.observe_id(3);
    assert_eq!(seq.next_link_id(), 12);
}

#[test]
fn installing_a_new_client_assigns_ids() {
    let server = ServerConfig::default();
    let mut seq = IdSequence::new();
    let mut config = ClientRuntimeConfig::default();
    config.common.vkey = "k".to_string();
    let mut t = tunnel(0, "tcp", true);
    t.ports = "8000-8001".to_string();
    t.target = Target { target_str: "22,23".to_string(), local_proxy: false };
    config.tunnels.push(t);
    let installed = install_client_config(&mut seq, &server, config, None, "now").unwrap();
    assert_eq!(installed.id, 2);
    assert!(installed.no_store);
    assert_eq!(installed.last_online_time, "now");
    assert_eq!(installed.tunnels.len(), 2);
    assert_eq!(installed.tunnels[0].client_vkey, "k");
    assert_eq!(seq.next, 3);
    let mut empty = ClientRuntimeConfig::default();
    empty.common.vkey = String::new();
    assert_eq!(install_client_config(&mut seq, &server, empty, None, "now").unwrap_err(), InstallError::EmptyKey);
}

#[test]
fn installing_refuses_ports_outside_allow_list() {
    let mut server = ServerConfig::default();
    server.allow_ports = "9001-9002,10000".to_string();
    let mut seq = IdSequence::new();
    let mut config = ClientRuntimeConfig::default();
    config.common.vkey = "port-vkey".to_string();
    let mut t = tunnel(0, "tcp", true);
    t.ports = "9003".to_string();
    config.tunnels.push(t);
    let err = install_client_config(&mut seq, &server, config, None, "now").unwrap_err();
    assert_eq!(err, InstallError::Tunnel(TunnelError::PortNotAllowed(9003)));
}

#[test]
fn tunnel_and_host_tables() {
    let mut client = ClientRuntimeConfig::default();
    client.tunnels.push(tunnel(4, "tcp", false));
    let mut route = Host::default();
    route.id = 5;
    route.host = "a.test".to_string();
    route.location = "/api".to_string();
    client.hosts.push(route);
    let mut clients = vec![client];
    let (before, after) = set_tunnel_status(&mut clients, 4, false).unwrap();
    assert!(before.status);
    assert!(!after.status);
    assert!(!clients[0].tunnels[0].status);
    assert!(set_tunnel_status(&mut clients, 99, true).is_none());
    assert!(host_conflict(&clients[0].hosts, "a.test", "/api", None));
    assert!(!host_conflict(&clients[0].hosts, "A.TEST", "/api", None));
    assert!(!host_conflict(&clients[0].hosts, "a.test", "/api", Some(5)));
    assert!(!host_conflict(&clients[0].hosts, "a.test", "/other", None));
    assert!(remove_host(&mut clients, 5));
    assert!(!remove_host(&mut clients, 5));
    assert_eq!(remove_tunnel(&mut clients, 4).map(|t| t.id), Some(4));
    assert!(clients[0].tunnels.is_empty());
}

#[test]
fn client_forms_and_sign_up() {
    let mut client = ClientRuntimeConfig::default();
    client.common.vkey = "abc".to_string();
    client.common.client.web_username = "alice".to_string();
    let clients = vec![client];
    assert_eq!(check_new_client(&clients, "abc", ""), Err(ClientFormError::VkeyDuplicate));
    assert_eq!(check_new_client(&clients, "new", "alice"), Err(ClientFormError::UsernameDuplicate));
    assert_eq!(check_new_client(&clients, "new", ""), Ok(()));
    assert_eq!(ClientFormError::VkeyDuplicate.message(), "Vkey duplicate, please reset");
    let mut server = ServerConfig::default();
    assert_eq!(check_register(&server, &clients, "bob", "pw"), Err(RegisterError::NotAllowed));
    server.allow_user_register = true;
    assert_eq!(check_register(&server, &clients, "admin", "pw"), Err(RegisterError::BadInput));
    assert_eq!(check_register(&server, &clients, "alice", "pw"), Err(RegisterError::Duplicate));
    assert_eq!(check_register(&server, &clients, "bob", "pw"), Ok(()));
}

#[test]
fn web_sign_in() {
    let server = ServerConfig::default();
    let mut client = ClientRuntimeConfig::default();
    client.id = 4;
    client.common.vkey = "key4".to_string();
    client.common.client.web_username = String::new();
    let clients = vec![client];
    let admin = authenticate_web_user(&server, &clients, "admin", "123").unwrap();
    assert!(admin.is_admin);
    let user = authenticate_web_user(&server, &clients, "user", "key4").unwrap();
    assert!(!user.is_admin);
    assert_eq!(user.client_id, Some(4));
    assert!(authenticate_web_user(&server, &clients, "user", "wrong").is_none());
    assert_eq!(scoped_client_id(&user, Some("9".to_string())), "4");
    assert_eq!(scoped_client_id(&WebSession::admin("admin"), Some("9".to_string())), "9");
    assert_eq!(scoped_client_id(&WebSession::admin("admin"), None), "0");
}

#[test]
fn web_helpers() {
    assert_eq!(html_escape("<'&\">"), "&lt;&#39;&amp;&quot;&gt;");
    assert_eq!(selected("TCP", "tcp"), "selected");
    assert_eq!(selected("udp", "tcp"), "");
    assert_eq!(param(&kv(&[("a", " 1 ")]), "a"), " 1 ");
    assert_eq!(param(&kv(&[]), "a"), "");
    assert_eq!(captcha_code_from_token("abc"), "90015");
    let mut pos = 0usize;
    assert_eq!(next_seed(b"ab", &mut pos), 97);
    assert_eq!(next_seed(b"ab", &mut pos), 98);
    assert_eq!(next_seed(b"ab", &mut pos), 0);
    assert_eq!(pos, 2);
}

#[test]
fn captcha_answers_ignore_case_and_spaces() {
    assert!(captcha_answer_accepted("9A01F", "9a01f"));
    assert!(captcha_answer_accepted("9A01F", "  9A01F\n"));
    assert!(!captcha_answer_accepted("9A01F", "9A01"));
    assert!(!captcha_answer_accepted("", "   "));
    assert!(!captcha_answer_accepted("9A01F", "9B01F"));
}

#[test]
fn listing_pages_clamp_offset_and_limit() {
    assert_eq!(page_range(10, &kv(&[])), (0, 10));
    assert_eq!(page_range(0, &kv(&[])), (0, 0));
    assert_eq!(page_range(10, &kv(&[("offset", "4"), ("limit", "3")])), (4, 7));
    assert_eq!(page_range(10, &kv(&[("offset", "8"), ("limit", "5")])), (8, 10));
    assert_eq!(page_range(10, &kv(&[("offset", "12"), ("limit", "5")])), (10, 10));
    assert_eq!(page_range(10, &kv(&[("offset", "x"), ("limit", " 2")])), (0, 10));
}

#[test]
fn dashboard_counts_within_scope() {
    let mut a = ClientRuntimeConfig::default();
    a.id = 1;
    a.tunnels.push(tunnel(1, "tcp", false));
    a.tunnels.push(tunnel(2, "UDP", false));
    a.hosts.push(Host::default());
    let mut b = ClientRuntimeConfig::default();
    b.id = 2;
    b.tunnels.push(tunnel(3, "socks5", false));
    let clients = vec![a, b];
    let flows = vec![FlowCounter { inlet_flow: 10, export_flow: 1 }, FlowCounter { inlet_flow: 5, export_flow: 2 }];
    let online = vec![true, false];
    let all = dashboard_counts(&clients, &flows, &online, None);
    assert_eq!(all.client_count, 2);
    assert_eq!(all.client_online_count, 1);
    assert_eq!(all.host_count, 1);
    assert_eq!(all.tunnel_count, 3);
    assert_eq!((all.tcp_count, all.udp_count, all.socks5_count), (1, 1, 1));
    assert_eq!((all.inlet_flow_count, all.export_flow_count), (15, 3));
    let one = dashboard_counts(&clients, &flows, &online, Some(2));
    assert_eq!(one.client_count, 1);
    assert_eq!(one.client_online_count, 0);
    assert_eq!(one.tunnel_count, 1);
    assert_eq!(one.inlet_flow_count, 5);
}

#[test]
fn log_levels() {
    assert_eq!(parse_level(" Warning "), 4);
    assert_eq!(parse_level("3"), 3);
    assert_eq!(parse_level("verbose"), 7);
    assert_eq!(init_from_text("info"), 6);
    assert!(enabled(Level::Error, 3));
    assert!(!enabled(Level::Debug, 6));
    assert_eq!(Level::Warn.label(), "W");
}

#[test]
fn certificate_host_patterns() {
    assert_eq!(split_host_patterns("a.test, *.b.test;c.test\n d.test"), vec!["a.test", "*.b.test", "c.test", "d.test"]);
    assert!(split_host_patterns(" , ").is_empty());
}

#[test]
fn client_users_change_only_their_own_items() {
    let mut mine = ClientRuntimeConfig::default();
    mine.id = 3;
    mine.tunnels.push(tunnel(30, "tcp", false));
    let mut other = ClientRuntimeConfig::default();
    other.id = 4;
    other.tunnels.push(tunnel(40, "tcp", false));
    let clients = vec![mine, other];
    let user = WebSession::client(3, "u");
    let ok = authorize_mutation(&clients, true, &user, "/index/stop", kv(&[("id", "30")])).unwrap();
    assert_eq!(param(&ok, "client_id"), "3");
    assert_eq!(authorize_mutation(&clients, true, &user, "/index/stop", kv(&[("id", "40")])).unwrap_err(), MutationError::PermissionDenied);
    assert_eq!(authorize_mutation(&clients, true, &user, "/global/save", kv(&[])).unwrap_err(), MutationError::PermissionDenied);
    let edit = authorize_mutation(&clients, false, &user, "/client/edit", kv(&[("id", "3"), ("vkey", "x"), ("web_username", "y"), ("remark", "r")])).unwrap();
    assert_eq!(edit.get_str("vkey"), None);
    assert_eq!(edit.get_str("web_username"), None);
    assert_eq!(param(&edit, "remark"), "r");
    assert!(authorize_mutation(&clients, true, &user, "/client/edit", kv(&[("id", "4")])).is_err());
    let add = authorize_mutation(&clients, true, &user, "/index/add", kv(&[("client_id", "4")])).unwrap();
    assert_eq!(param(&add, "client_id"), "3");
    let admin = WebSession::admin("admin");
    assert!(authorize_mutation(&clients, true, &admin, "/global/save", kv(&[])).is_ok());
    assert_eq!(MutationError::PermissionDenied.message(), "permission denied");
}

#[test]
fn stored_records_are_regrouped_by_client_key() {
    let mut a = ClientRuntimeConfig::default();
    a.common.vkey = "a".to_string();
    a.no_store = true;
    let mut b = ClientRuntimeConfig::default();
    b.id = 7;
    b.common.vkey = String::new();
    b.common.client.verify_key = "b".to_string();
    let mut nokey = ClientRuntimeConfig::default();
    nokey.common.vkey = String::new();
    nokey.common.client.verify_key = String::new();
    let mut a2 = ClientRuntimeConfig::default();
    a2.id = 3;
    a2.common.vkey = "a".to_string();
    a2.common.client.remark = "second".to_string();
    let mut t1 = Tunnel::default();
    t1.client_vkey = "a".to_string();
    t1.no_store = true;
    let mut t2 = Tunnel::default();
    t2.client_vkey = "zz".to_string();
    let mut h = Host::default();
    h.id = 9;
    h.client_vkey = "b".to_string();
    let mut seq = IdSequence::new();
    let out = restore_persistent_state(&mut seq, &vec![a, b, nokey, a2], &vec![t1, t2], &vec![h]);
    assert_eq!(out.len(), 2);
    assert_eq!(out[0].id, 3);
    assert_eq!(out[0].common.client.remark, "second");
    assert_eq!(out[0].common.client.verify_key, "a");
    assert_eq!(out[0].tunnels.len(), 1);
    assert_eq!(out[0].tunnels[0].id, 8);
    assert!(!out[0].tunnels[0].no_store);
    assert_eq!(out[1].id, 7);
    assert_eq!(out[1].common.vkey, "b");
    assert_eq!(out[1].hosts.len(), 1);
    assert_eq!(out[1].hosts[0].id, 9);
    assert_eq!(seq.next, 10);
    assert_eq!(client_pos_by_vkey(&out, "b"), Some(1));
    assert_eq!(client_pos_by_vkey(&out, "zz"), None);
}

#[test]
fn visitors_find_the_latest_secret_by_password_or_digest() {
    let mut t1 = tunnel(1, "secret", false);
    t1.password = "pw".to_string();
    let t2 = tunnel(2, "secret", false);
    let mut t3 = tunnel(3, "p2p", false);
    t3.password = "pw".to_string();
    t3.target.target_str = "\n 10.0.0.1:22 \n10.0.0.2:22".to_string();
    let t4 = tunnel(4, "secret", false);
    let entries = vec![
        ("pw".to_string(), t1),
        ("x".to_string(), t2),
        ("pw".to_string(), t3),
        ("900150983cd24fb0d6963f7d28e17f72".to_string(), t4),
    ];
    let found = secret_lookup(&entries, "pw").unwrap();
    assert_eq!(found.id, 3);
    assert_eq!(secret_lookup(&entries, "abc").unwrap().id, 4);
    assert!(secret_lookup(&entries, "nope").is_none());
    let link = visitor_link(&found, "  ", "1.2.3.4:5".to_string(), true, false);
    assert_eq!(link.kind, LinkKind::P2p);
    assert_eq!(link.target, "10.0.0.1:22");
    assert_eq!(link.remote_addr, "1.2.3.4:5");
    assert!(link.crypt && !link.compress);
    let link = visitor_link(&entries[1].1, "127.0.0.1:80", String::new(), false, true);
    assert_eq!(link.kind, LinkKind::Secret);
    assert_eq!(link.target, "127.0.0.1:80");
}

#[test]
fn written_records_read_back_as_the_stored_clients() {
    let mut a = ClientRuntimeConfig::default();
    a.id = 5;
    a.no_store = false;
    a.common.vkey = "alpha".to_string();
    a.common.client.verify_key = "alpha".to_string();
    a.common.client.remark = "first".to_string();
    let mut t_keep = tunnel(11, "tcp", false);
    t_keep.client_vkey = "alpha".to_string();
    let mut t_drop = tunnel(12, "udp", true);
    t_drop.client_vkey = "alpha".to_string();
    a.tunnels = vec![t_keep, t_drop];
    let mut h = Host::default();
    h.id = 13;
    h.no_store = false;
    h.client_vkey = "alpha".to_string();
    h.host = "a.example".to_string();
    a.hosts = vec![h];
    let mut b = ClientRuntimeConfig::default();
    b.id = 6;
    b.no_store = true;
    b.common.vkey = "beta".to_string();
    b.common.client.verify_key = "beta".to_string();
    let records = persist_records(&vec![a, b]);
    let mut seq = IdSequence::new();
    let back = restore_persistent_state(&mut seq, &records.clients, &records.tunnels, &records.hosts);
    assert_eq!(back.len(), 1);
    assert_eq!(back[0].id, 5);
    assert_eq!(back[0].common.vkey, "alpha");
    assert_eq!(back[0].common.client.remark, "first");
    assert_eq!(back[0].tunnels.len(), 1);
    assert_eq!(back[0].tunnels[0].id, 11);
    assert_eq!(back[0].hosts.len(), 1);
    assert_eq!(back[0].hosts[0].host, "a.example");
    assert_eq!(seq.next, 14);
}

#[test]
fn rotating_keys_and_disabling_end_client_connections() {
    let rotated = client_edit_effect("old", "new", true, true).unwrap();
    assert_eq!(rotated.reason, "invalid verification key");
    assert!(rotated.start);
    let disabled = client_edit_effect("k", "k", true, false).unwrap();
    assert_eq!(disabled.reason, "client disabled");
    assert!(!disabled.start);
    let enabled = client_edit_effect("k", "k", false, true).unwrap();
    assert!(enabled.start);
    assert!(client_edit_effect("k", "k", true, true).is_none());
}

#[test]
fn client_users_open_only_their_own_forms() {
    let mut mine = ClientRuntimeConfig::default();
    mine.id = 3;
    mine.tunnels.push(tunnel(30, "tcp", false));
    let mut route = Host::default();
    route.id = 31;
    mine.hosts.push(route);
    let mut other = ClientRuntimeConfig::default();
    other.id = 4;
    other.tunnels.push(tunnel(40, "tcp", false));
    let clients = vec![mine, other];
    let user = WebSession::client(3, "u");
    assert!(!authorize_form(&clients, &user, "/client/add", 0));
    assert!(authorize_form(&clients, &user, "/client/edit", 3));
    assert!(!authorize_form(&clients, &user, "/client/edit", 4));
    assert!(authorize_form(&clients, &user, "/index/add", 0));
    assert!(authorize_form(&clients, &user, "/index/addhost", 0));
    assert!(authorize_form(&clients, &user, "/index/edit", 30));
    assert!(!authorize_form(&clients, &user, "/index/edit", 40));
    assert!(authorize_form(&clients, &user, "/index/edithost", 31));
    assert!(!authorize_form(&clients, &user, "/index/edithost", 30));
    assert!(authorize_form(&clients, &user, "/global/index", 0));
    assert!(authorize_form(&clients, &WebSession::admin("a"), "/client/add", 0));
}

#[test]
fn tunnels_start_once_per_listener_key() {
    let server = ServerConfig::default();
    let mut t = tunnel(7, "TCP", false);
    t.status = true;
    t.server_ip = "0.0.0.0".to_string();
    t.server_port = 9001;
    t.ports = "9001".to_string();
    match start_tunnel_task(&server, &t, &vec![]) {
        StartPlan::Listen { key, kind } => {
            assert_eq!(key, "tcp:0.0.0.0:9001");
            assert_eq!(kind, ListenerKind::Tcp);
        },
        other => panic!("unexpected plan {other:?}"),
    }
    let running = vec!["udp:0.0.0.0:9001".to_string(), "tcp:0.0.0.0:9001".to_string()];
    assert!(matches!(start_tunnel_task(&server, &t, &running), StartPlan::AlreadyRunning));
    t.status = false;
    assert!(matches!(start_tunnel_task(&server, &t, &running), StartPlan::Disabled));
    t.status = true;
    t.server_port = 0;
    t.ports = String::new();
    assert!(matches!(start_tunnel_task(&server, &t, &vec![]), StartPlan::NoListenPort));
}

#[test]
fn client_form_fields_follow_the_mutation_names() {
    let mut c = ClientRuntimeConfig::default();
    c.common.vkey = "k<1>".to_string();
    c.common.client.remark = "r&d".to_string();
    c.common.client.flow_limit_mb = 12;
    c.common.client.ip_white_list = vec!["1.1.1.1".to_string(), "2.2.2.2".to_string()];
    let html = client_fields_html(Some(&c), true, true, false, false, true, false);
    assert!(html.starts_with(r#"<div class="form-group"><label>VKey</label><input class="form-control" name="vkey" value="k&lt;1&gt;"></div>"#));
    assert!(html.contains(r#"<input class="form-control" name="remark" value="r&amp;d">"#));
    assert!(html.contains(r#"name="flow_limit" value="12"><span class="help-block m-b-none">MB</span>"#));
    assert!(!html.contains("rate_limit"));
    assert!(html.contains(r#"name="max_tunnel" value="0""#));
    assert!(html.contains(">1.1.1.1\n2.2.2.2</textarea>"));
    let order = ["vkey", "remark", "flow_limit", "max_tunnel", "\"u\"", "\"p\"", "web_username", "web_password", "config_conn_allow", "compress", "crypt", "\"ipwhite\"", "ipwhitepass", "ipwhitelist", "blackiplist"];
    let mut at = 0;
    for name in order {
        let found = html[at..].find(name).unwrap_or_else(|| panic!("{name} missing"));
        at += found;
    }
    let user = client_fields_html(None, false, true, true, true, true, false);
    assert!(user.starts_with(r#"<div class="form-group"><label>VKey</label><input class="form-control" value="" readonly></div>"#));
    assert!(!user.contains("flow_limit"));
    assert!(user.contains(r#"<option value="1" selected langtag="word-yes"></option><option value="0"  langtag="word-no"></option>"#));
}
