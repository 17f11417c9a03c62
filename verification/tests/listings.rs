use rustnps::captcha::CaptchaStore;
use rustnps::grants::IpGrants;
use rustnps::mux::{frame_action, FrameAction, FRAME_CLOSE, FRAME_DATA, FRAME_OPEN};
use rustnps::slots::ConnSlots;
use rustnps::kv::SectionMap;
use rustnps::listing::{select_client_rows, select_host_rows, select_tunnel_rows};
use rustnps::model::{ClientRuntimeConfig, Host, Tunnel};

fn form(pairs: &[(&str, &str)]) -> SectionMap {
    let mut m = SectionMap::new();
    for (k, v) in pairs {
        m.insert(&k.chars().collect(), &v.chars().collect());
    }
    m
}

fn client(id: u64, vkey: &str, remark: &str) -> ClientRuntimeConfig {
    let mut c = ClientRuntimeConfig::default();
    c.id = id;
    c.common.vkey = vkey.to_string();
    c.common.client.remark = remark.to_string();
    c
}

fn tunnel(mode: &str, remark: &str, target: &str) -> Tunnel {
    let mut t = Tunnel::default();
    t.mode = mode.to_string();
    t.remark = remark.to_string();
    t.target.target_str = target.to_string();
    t
}

fn host(name: &str, remark: &str) -> Host {
    let mut h = Host::default();
    h.host = name.to_string();
    h.remark = remark.to_string();
    h
}

#[test]
fn login_grant_lasts_two_hours() {
    let mut g = IpGrants::new();
    g.grant_ip("10.0.0.1", 2, 1000);
    assert!(g.ip_granted("10.0.0.1", 1000));
    assert!(g.ip_granted("10.0.0.1", 1000 + 7199));
    assert!(!g.ip_granted("10.0.0.1", 1000 + 7200));
    assert!(!g.ip_granted("10.0.0.1", 1000));
}

#[test]
fn register_grant_lasts_at_least_an_hour() {
    let mut g = IpGrants::new();
    g.grant_ip("10.0.0.2", 0, 50);
    assert!(g.ip_granted("10.0.0.2", 3649));
    assert!(!g.ip_granted("10.0.0.3", 100));
    g.grant_ip("", 5, 50);
    assert!(!g.ip_granted("", 60));
    g.grant_ip("10.0.0.4", 1, u64::MAX - 10);
    assert!(g.ip_granted("10.0.0.4", u64::MAX - 1));
    g.grant_ip("10.0.0.2", 3, 3000);
    assert!(g.ip_granted("10.0.0.2", 3000 + 3 * 3600 - 1));
}

#[test]
fn client_rows_filter_by_id_and_search() {
    let cs = vec![client(1, "alpha", "Office"), client(2, "beta", "home"), client(3, "OFFkey", "x")];
    assert_eq!(select_client_rows(&cs, &form(&[])), vec![0, 1, 2]);
    assert_eq!(select_client_rows(&cs, &form(&[("client_id", "2")])), vec![1]);
    assert_eq!(select_client_rows(&cs, &form(&[("search", "OFF")])), vec![0, 2]);
    assert_eq!(select_client_rows(&cs, &form(&[("search", "off"), ("client_id", "3")])), vec![2]);
    assert_eq!(select_client_rows(&cs, &form(&[("client_id", "x")])), vec![0, 1, 2]);
}

#[test]
fn tunnel_rows_filter_by_mode_client_and_search() {
    let mut a = client(1, "a", "");
    a.tunnels = vec![tunnel("ALL", "web", "127.0.0.1:80"), tunnel("udp", "dns", "127.0.0.1:53")];
    let mut b = client(2, "b", "");
    b.tunnels = vec![tunnel("tcp", "ssh", "10.0.0.9:22")];
    let cs = vec![a, b];
    assert_eq!(select_tunnel_rows(&cs, &form(&[])), vec![(0, 0), (0, 1), (1, 0)]);
    assert_eq!(select_tunnel_rows(&cs, &form(&[("type", "tcp")])), vec![(0, 0), (1, 0)]);
    assert_eq!(select_tunnel_rows(&cs, &form(&[("type", "all")])), Vec::<(usize, usize)>::new());
    assert_eq!(select_tunnel_rows(&cs, &form(&[("client_id", "1"), ("search", "DNS")])), vec![(0, 1)]);
    assert_eq!(select_tunnel_rows(&cs, &form(&[("search", "10.0")])), vec![(1, 0)]);
}

#[test]
fn host_rows_filter_by_client_and_search() {
    let mut a = client(1, "a", "");
    a.hosts = vec![host("a.example", "Main"), host("b.example", "")];
    let mut b = client(2, "b", "");
    b.hosts = vec![host("c.example", "main site")];
    let cs = vec![a, b];
    assert_eq!(select_host_rows(&cs, &form(&[("search", "MAIN")])), vec![(0, 0), (1, 0)]);
    assert_eq!(select_host_rows(&cs, &form(&[("client_id", "1")])), vec![(0, 0), (0, 1)]);
    assert_eq!(select_host_rows(&cs, &form(&[("search", "b.ex")])), vec![(0, 1)]);
}

#[test]
fn captchas_expire_and_are_answered_once() {
    let mut store = CaptchaStore::new();
    store.issue("tok".to_string(), "AB12C".to_string(), 1000);
    assert_eq!(store.code_to_show("tok", 1299), Some("AB12C".to_string()));
    assert_eq!(store.code_to_show("other", 1000), None);
    assert!(store.check_answer(false, "", "", 5000));
    assert!(!store.check_answer(true, " tok ", "  ", 1000));
    assert!(store.check_answer(true, " tok ", " ab12c ", 1200));
    assert!(!store.check_answer(true, "tok", "AB12C", 1200));
    store.issue("late".to_string(), "XYZ99".to_string(), 2000);
    assert!(!store.check_answer(true, "late", "XYZ99", 2300));
    store.issue("gone".to_string(), "QQQQQ".to_string(), 3000);
    assert_eq!(store.code_to_show("gone", 3300), None);
    assert!(!store.check_answer(true, "gone", "QQQQQ", 3000));
    store.issue("wrong".to_string(), "AAAAA".to_string(), 0);
    assert!(!store.check_answer(true, "wrong", "BBBBB", 1));
}

#[test]
fn frames_are_dispatched_by_kind() {
    assert_eq!(frame_action(FRAME_OPEN, true), FrameAction::OpenStream);
    assert_eq!(frame_action(FRAME_DATA, true), FrameAction::Deliver);
    assert_eq!(frame_action(FRAME_DATA, false), FrameAction::EndSession);
    assert_eq!(frame_action(FRAME_CLOSE, false), FrameAction::CloseStream);
    assert_eq!(frame_action(9, true), FrameAction::Stop);
}

#[test]
fn connection_counts_stay_within_the_limit() {
    let mut slots = ConnSlots::new();
    assert_eq!(slots.acquire("k", true, 2), Ok(true));
    assert_eq!(slots.acquire("k", true, 2), Ok(true));
    assert!(slots.acquire("k", true, 2).is_err());
    assert_eq!(slots.count("k"), 2);
    slots.release("k");
    assert_eq!(slots.count("k"), 1);
    assert_eq!(slots.acquire("k", true, 2), Ok(true));
    assert!(slots.acquire("k", true, 2).is_err());
    slots.release("j");
    assert_eq!(slots.count("j"), 0);
    assert_eq!(slots.acquire("j", false, 1), Ok(false));
    assert_eq!(slots.count("j"), 0);
}
