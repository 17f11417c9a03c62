use rustnps::http::ensure_port;
use rustnps::kv::SectionMap;
use rustnps::model::{ClientRuntimeConfig, ServerConfig, Tunnel};
use rustnps::registry::{prepare_hello_config, IdSequence};
use rustnps::store::{complete_old_style_tunnel, persist_sorted, sort_by_key};
use rustnps::policy::TunnelError;
use rustnps::table::{
    add_client, add_host, add_tunnel, begin_tunnel_edit, copy_tunnel, edit_client, edit_host, finish_tunnel_edit, tunnel_from_params,
    ClientFormError, HostFormError, TunnelFormError,
};

fn form(pairs: &[(&str, &str)]) -> SectionMap {
    let mut m = SectionMap::new();
    for (k, v) in pairs {
        m.insert(&k.chars().collect(), &v.chars().collect());
    }
    m
}

fn client(id: u64, vkey: &str) -> ClientRuntimeConfig {
    let mut c = ClientRuntimeConfig::default();
    c.id = id;
    c.common.vkey = vkey.to_string();
    c.common.client.verify_key = vkey.to_string();
    c
}

#[test]
fn ensure_port_applied_twice_changes_nothing() {
    for addr in [" example.com ", "example.com:8080", "[::1]", "", "a:b"] {
        let once = ensure_port(addr, 80);
        assert_eq!(ensure_port(&once, 443), once);
    }
    assert_eq!(ensure_port(&ensure_port("example.com", 80), 443), "example.com:80");
    assert_eq!(ensure_port("a:b", 80), "a:b:80");
}

#[test]
fn ids_exceed_every_observed_and_issued_id() {
    let mut seq = IdSequence::new();
    seq.observe_id(10);
    assert_eq!(seq.next_link_id(), 11);
    assert_eq!(seq.next_link_id(), 12);
    seq.observe_id(5);
    assert_eq!(seq.next_link_id(), 13);
    seq.observe_id(13);
    assert_eq!(seq.next_link_id(), 14);
}

#[test]
fn config_hello_fills_the_key() {
    let mut c = ClientRuntimeConfig::default();
    c.common.vkey = String::new();
    c.common.client.verify_key = "stale".to_string();
    prepare_hello_config(&mut c, "hello");
    assert_eq!(c.common.vkey, "hello");
    assert_eq!(c.common.client.verify_key, "hello");
    let mut d = client(1, "own");
    d.common.client.verify_key = String::new();
    prepare_hello_config(&mut d, "hello");
    assert_eq!(d.common.vkey, "own");
    assert_eq!(d.common.client.verify_key, "own");
}

#[test]
fn old_style_tunnels_take_their_port_and_status() {
    let mut t = Tunnel::default();
    t.server_port = 8080;
    t.status = false;
    t.run_status = true;
    complete_old_style_tunnel(&mut t, None);
    assert_eq!(t.ports, "8080");
    assert!(!t.run_status);
    let mut u = Tunnel::default();
    u.server_port = 8080;
    u.ports = "9000-9001".to_string();
    u.status = false;
    complete_old_style_tunnel(&mut u, Some(true));
    assert_eq!(u.ports, "9000-9001");
    assert!(u.run_status);
    let mut v = Tunnel::default();
    complete_old_style_tunnel(&mut v, None);
    assert_eq!(v.ports, "");
}

#[test]
fn clients_are_written_in_key_order() {
    let mut cs = vec![client(1, "b"), client(2, "ab"), client(3, "a"), client(4, "B"), client(5, "é")];
    sort_by_key(&mut cs);
    let keys: Vec<&str> = cs.iter().map(|c| c.common.vkey.as_str()).collect();
    assert_eq!(keys, ["B", "a", "ab", "b", "é"]);
    let records = persist_sorted(vec![client(1, "z"), client(2, "m"), client(3, "a")]);
    let keys: Vec<&str> = records.clients.iter().map(|c| c.common.vkey.as_str()).collect();
    assert_eq!(keys, ["a", "m", "z"]);
}

#[test]
fn adding_clients_checks_keys_and_names() {
    let mut cs = vec![client(1, "taken")];
    cs[0].common.client.web_username = "alice".to_string();
    let mut seq = IdSequence::new();
    seq.observe_id(1);
    assert_eq!(add_client(&mut cs, &mut seq, &form(&[("vkey", "taken")]), "now"), Err(ClientFormError::VkeyDuplicate));
    assert_eq!(
        add_client(&mut cs, &mut seq, &form(&[("vkey", "fresh"), ("web_username", "alice")]), "now"),
        Err(ClientFormError::UsernameDuplicate)
    );
    assert_eq!(cs.len(), 1);
    assert_eq!(add_client(&mut cs, &mut seq, &form(&[("vkey", "fresh"), ("remark", "r")]), "t0"), Ok(2));
    assert_eq!(cs[1].common.vkey, "fresh");
    assert_eq!(cs[1].common.client.verify_key, "fresh");
    assert_eq!(cs[1].common.client.remark, "r");
    assert_eq!(cs[1].create_time, "t0");
    assert_eq!(add_client(&mut cs, &mut seq, &form(&[]), "t1"), Ok(4));
    assert_eq!(cs[2].common.vkey, "web3");
    assert_eq!(cs[2].id, 4);
}

#[test]
fn editing_clients_keeps_their_place() {
    let mut cs = vec![client(1, "one"), client(2, "two")];
    cs[0].common.client.web_username = "alice".to_string();
    let mut t = Tunnel::default();
    t.client_vkey = "two".to_string();
    cs[1].tunnels.push(t);
    assert!(matches!(edit_client(&mut cs, 9, &form(&[])), Err(ClientFormError::NotFound)));
    assert!(matches!(edit_client(&mut cs, 2, &form(&[("vkey", "one")])), Err(ClientFormError::VkeyDuplicate)));
    assert!(matches!(
        edit_client(&mut cs, 2, &form(&[("web_username", "alice")])),
        Err(ClientFormError::UsernameDuplicate)
    ));
    let (prev, cur) = edit_client(&mut cs, 2, &form(&[("vkey", "deux"), ("remark", "x")])).unwrap();
    assert_eq!(prev.common.vkey, "two");
    assert_eq!(cur.common.vkey, "deux");
    assert_eq!(cs[1].common.vkey, "deux");
    assert_eq!(cs[1].common.client.verify_key, "deux");
    assert_eq!(cs[1].tunnels[0].client_vkey, "deux");
    assert_eq!(cs[1].common.client.remark, "x");
    assert_eq!(cs[0].common.vkey, "one");
    let (_, same) = edit_client(&mut cs, 1, &form(&[])).unwrap();
    assert_eq!(same.common.vkey, "one");
}

#[test]
fn host_routes_are_added_and_edited_in_place() {
    let mut cs = vec![client(1, "one"), client(2, "two")];
    let mut server = ServerConfig::default();
    server.allow_tunnel_num_limit = true;
    let f = form(&[("host", "a.example"), ("location", "api"), ("target", "127.0.0.1:80")]);
    assert_eq!(add_host(&mut cs, &server, 9, &f, 10), Err(HostFormError::ClientNotFound));
    assert_eq!(add_host(&mut cs, &server, 2, &f, 10), Ok(()));
    assert_eq!(cs[1].hosts.len(), 1);
    assert_eq!(cs[1].hosts[0].id, 10);
    assert_eq!(cs[1].hosts[0].location, "/api");
    assert_eq!(cs[1].hosts[0].client_vkey, "two");
    assert_eq!(cs[1].hosts[0].scheme, "all");
    assert_eq!(add_host(&mut cs, &server, 2, &f, 11), Err(HostFormError::HostExists));
    assert_eq!(HostFormError::HostExists.message(), "host has exist");
    cs[0].common.client.max_tunnel_num = 1;
    cs[0].tunnels.push(Tunnel::default());
    assert_eq!(add_host(&mut cs, &server, 1, &f, 12), Err(HostFormError::Tunnel(TunnelError::TunnelLimit)));
    let g = form(&[("host", "b.example"), ("location", "/api")]);
    assert_eq!(add_host(&mut cs, &server, 2, &g, 13), Ok(()));
    assert_eq!(edit_host(&mut cs, 13, &f), Err(HostFormError::HostExists));
    assert_eq!(edit_host(&mut cs, 99, &f), Err(HostFormError::NotFound));
    assert_eq!(HostFormError::NotFound.message(), "modified error");
    cs[1].hosts[0].no_store = true;
    assert_eq!(edit_host(&mut cs, 10, &form(&[("host", "c.example")])), Ok(()));
    assert_eq!(cs[1].hosts[0].host, "c.example");
    assert_eq!(cs[1].hosts[0].location, "/");
    assert!(!cs[1].hosts[0].no_store);
    assert_eq!(cs[1].hosts[1].host, "b.example");
}

#[test]
fn tunnels_are_added_edited_and_copied() {
    let mut cs = vec![client(1, "one"), client(2, "two")];
    let mut server = ServerConfig::default();
    server.allow_ports = "9000-9010".to_string();
    let f = form(&[("type", "tcp"), ("port", "9001"), ("target", "127.0.0.1:22")]);
    let t = tunnel_from_params(&f, 5);
    assert_eq!(add_tunnel(&mut cs, &server, 7, t, None).err(), Some(TunnelFormError::ClientNotFound));
    let t = tunnel_from_params(&form(&[("port", "80")]), 5);
    assert_eq!(add_tunnel(&mut cs, &server, 2, t, None).err(), Some(TunnelFormError::Tunnel(TunnelError::PortNotAllowed(80))));
    let t = tunnel_from_params(&form(&[]), 5);
    assert_eq!(add_tunnel(&mut cs, &server, 2, t, None).err(), Some(TunnelFormError::Tunnel(TunnelError::NoServerPort)));
    let t = tunnel_from_params(&form(&[]), 5);
    let added = add_tunnel(&mut cs, &server, 2, t, Some(9005)).unwrap();
    assert_eq!(added.server_port, 9005);
    assert_eq!(added.ports, "9005");
    assert_eq!(added.client_vkey, "two");
    let t = tunnel_from_params(&f, 6);
    add_tunnel(&mut cs, &server, 2, t, None).unwrap();
    assert_eq!(cs[1].tunnels.len(), 2);
    assert!(cs[0].tunnels.is_empty());

    let (prev, edited) = begin_tunnel_edit(&mut cs, 6, &form(&[("port", "70"), ("remark", "r")])).unwrap();
    assert_eq!(prev.server_port, 9001);
    assert_eq!(edited.server_port, 70);
    assert_eq!(cs[1].tunnels[1].remark, "r");
    assert_eq!(
        finish_tunnel_edit(&mut cs, &server, 6, None).err(),
        Some(TunnelFormError::Tunnel(TunnelError::PortNotAllowed(70)))
    );
    assert_eq!(cs[1].tunnels[1].server_port, 70);
    assert!(begin_tunnel_edit(&mut cs, 99, &f).is_none());
    assert_eq!(finish_tunnel_edit(&mut cs, &server, 99, None).err(), Some(TunnelFormError::NotFound));
    begin_tunnel_edit(&mut cs, 6, &form(&[("port", "9002")])).unwrap();
    let cur = finish_tunnel_edit(&mut cs, &server, 6, None).unwrap();
    assert_eq!(cur.ports, "9002");

    let mut seq = IdSequence::new();
    seq.observe_id(6);
    assert_eq!(copy_tunnel(&mut cs, &server, &mut seq, 99, None).err(), Some(TunnelFormError::SourceNotFound));
    assert_eq!(TunnelFormError::SourceNotFound.message(), "copy error");
    let copy = copy_tunnel(&mut cs, &server, &mut seq, 5, Some(9007)).unwrap();
    assert_eq!(copy.id, 7);
    assert_eq!(copy.server_port, 9007);
    assert!(!copy.status);
    assert_eq!(cs[1].tunnels.len(), 3);
    server.allow_tunnel_num_limit = true;
    cs[1].common.client.max_tunnel_num = 3;
    assert_eq!(
        copy_tunnel(&mut cs, &server, &mut seq, 5, Some(9008)).err(),
        Some(TunnelFormError::Tunnel(TunnelError::TunnelLimit))
    );
    assert_eq!(seq.next_link_id(), 8);
}
