//! The clients of the web manager as one table: finding, switching,
//! removing and checking tunnels, host routes and clients.
use vstd::prelude::*;
use crate::config::{expand_ports, spec_expand_ports};
use crate::kv::{kv_get, SectionMap};
use crate::model::{
    ClientInfoView, ClientRuntimeConfig, ClientRuntimeConfigView, CommonConfig, CommonConfigView, GlobalConfig,
    Host, Target, Tunnel, TunnelView, strings_view,
};
use crate::policy::{all_routes, best_route, spec_validate_tunnel_ports, TunnelError};
use crate::registry::IdSequence;
use crate::text::{append, chars_of, dec, dec_exec, eq, owned, string_of};
use crate::web::{
    key_views, param, param_any, param_bool, param_lines, spec_param, spec_param_any,
    spec_param_bool,
};

verus! {

broadcast use vstd::string::group_string_axioms;

// ---------------------------------------------------------------------------
// Finding records
// ---------------------------------------------------------------------------

/// Position of the first tunnel with the id.
pub open spec fn tunnel_index(ts: Seq<Tunnel>, id: u64) -> Option<int>
    decreases ts.len(),
{
    if ts.len() == 0 {
        None
    } else if ts[0].id == id {
        Some(0)
    } else {
        match tunnel_index(ts.drop_first(), id) {
            Some(j) => Some(j + 1),
            None => None,
        }
    }
}

/// The first client holding a tunnel with the id, and the tunnel's place.
pub open spec fn spec_tunnel_pos(cs: Seq<ClientRuntimeConfig>, id: u64) -> Option<(int, int)>
    decreases cs.len(),
{
    if cs.len() == 0 {
        None
    } else {
        match tunnel_index(cs[0].tunnels@, id) {
            Some(j) => Some((0, j)),
            None => match spec_tunnel_pos(cs.drop_first(), id) {
                Some((i, j)) => Some((i + 1, j)),
                None => None,
            },
        }
    }
}

proof fn lemma_tunnel_index(ts: Seq<Tunnel>, id: u64)
    ensures
        match tunnel_index(ts, id) {
            Some(j) => 0 <= j < ts.len() && ts[j].id == id,
            None => forall|j: int| 0 <= j < ts.len() ==> ts[j].id != id,
        },
    decreases ts.len(),
{
    if ts.len() > 0 {
        lemma_tunnel_index(ts.drop_first(), id);
        assert forall|j: int| 0 < j < ts.len() implies ts[j] == ts.drop_first()[j - 1] by {}
    }
}

pub(crate) proof fn lemma_tunnel_pos(cs: Seq<ClientRuntimeConfig>, id: u64)
    ensures
        match spec_tunnel_pos(cs, id) {
            Some((i, j)) => 0 <= i < cs.len() && 0 <= j < cs[i].tunnels@.len()
                && cs[i].tunnels@[j].id == id && tunnel_index(cs[i].tunnels@, id) == Some(j),
            None => forall|i: int, j: int|
                0 <= i < cs.len() && 0 <= j < cs[i].tunnels@.len() ==> cs[i].tunnels@[j].id != id,
        },
    decreases cs.len(),
{
    if cs.len() > 0 {
        lemma_tunnel_index(cs[0].tunnels@, id);
        lemma_tunnel_pos(cs.drop_first(), id);
        assert forall|i: int| 0 < i < cs.len() implies cs[i] == cs.drop_first()[i - 1] by {}
    }
}

fn tunnel_index_exec(ts: &Vec<Tunnel>, id: u64) -> (r: Option<usize>)
    ensures
        match r {
            Some(j) => tunnel_index(ts@, id) == Some(j as int),
            None => tunnel_index(ts@, id) is None,
        },
{
    let mut j: usize = 0;
    assert(ts@.subrange(0, ts@.len() as int) =~= ts@);
    while j < ts.len()
        invariant
            j <= ts.len(),
            forall|k: int| 0 <= k < j ==> ts@[k].id != id,
            tunnel_index(ts@, id) == match tunnel_index(ts@.subrange(j as int, ts@.len() as int), id) {
                Some(k) => Some(k + j),
                None => None::<int>,
            },
        decreases ts.len() - j,
    {
        let ghost rest = ts@.subrange(j as int, ts@.len() as int);
        assert(rest[0] == ts@[j as int]);
        assert(rest.drop_first() =~= ts@.subrange(j + 1, ts@.len() as int));
        if ts[j].id == id {
            return Some(j);
        }
        j += 1;
    }
    None
}

/// Where tunnel `id` is: its client's place and its own.
pub fn tunnel_pos(clients: &Vec<ClientRuntimeConfig>, id: u64) -> (r: Option<(usize, usize)>)
    ensures
        match r {
            Some((i, j)) => spec_tunnel_pos(clients@, id) == Some((i as int, j as int)),
            None => spec_tunnel_pos(clients@, id) is None,
        },
{
    let mut i: usize = 0;
    assert(clients@.subrange(0, clients@.len() as int) =~= clients@);
    while i < clients.len()
        invariant
            i <= clients.len(),
            spec_tunnel_pos(clients@, id) == match spec_tunnel_pos(
                clients@.subrange(i as int, clients@.len() as int),
                id,
            ) {
                Some((a, b)) => Some((a + i, b)),
                None => None::<(int, int)>,
            },
        decreases clients.len() - i,
    {
        let ghost rest = clients@.subrange(i as int, clients@.len() as int);
        assert(rest[0] == clients@[i as int]);
        assert(rest.drop_first() =~= clients@.subrange(i + 1, clients@.len() as int));
        match tunnel_index_exec(&clients[i].tunnels, id) {
            Some(j) => return Some((i, j)),
            None => {},
        }
        i += 1;
    }
    None
}

/// Position of the first host route with the id.
pub open spec fn host_index(hs: Seq<Host>, id: u64) -> Option<int>
    decreases hs.len(),
{
    if hs.len() == 0 {
        None
    } else if hs[0].id == id {
        Some(0)
    } else {
        match host_index(hs.drop_first(), id) {
            Some(j) => Some(j + 1),
            None => None,
        }
    }
}

/// The first client holding a route with the id, and the route's place.
pub open spec fn spec_host_pos(cs: Seq<ClientRuntimeConfig>, id: u64) -> Option<(int, int)>
    decreases cs.len(),
{
    if cs.len() == 0 {
        None
    } else {
        match host_index(cs[0].hosts@, id) {
            Some(j) => Some((0, j)),
            None => match spec_host_pos(cs.drop_first(), id) {
                Some((i, j)) => Some((i + 1, j)),
                None => None,
            },
        }
    }
}

proof fn lemma_host_index(hs: Seq<Host>, id: u64)
    ensures
        match host_index(hs, id) {
            Some(j) => 0 <= j < hs.len() && hs[j].id == id,
            None => forall|j: int| 0 <= j < hs.len() ==> hs[j].id != id,
        },
    decreases hs.len(),
{
    if hs.len() > 0 {
        lemma_host_index(hs.drop_first(), id);
        assert forall|j: int| 0 < j < hs.len() implies hs[j] == hs.drop_first()[j - 1] by {}
    }
}

pub(crate) proof fn lemma_host_pos(cs: Seq<ClientRuntimeConfig>, id: u64)
    ensures
        match spec_host_pos(cs, id) {
            Some((i, j)) => 0 <= i < cs.len() && 0 <= j < cs[i].hosts@.len() && cs[i].hosts@[j].id
                == id && host_index(cs[i].hosts@, id) == Some(j),
            None => forall|i: int, j: int|
                0 <= i < cs.len() && 0 <= j < cs[i].hosts@.len() ==> cs[i].hosts@[j].id != id,
        },
    decreases cs.len(),
{
    if cs.len() > 0 {
        lemma_host_index(cs[0].hosts@, id);
        lemma_host_pos(cs.drop_first(), id);
        assert forall|i: int| 0 < i < cs.len() implies cs[i] == cs.drop_first()[i - 1] by {}
    }
}

fn host_index_exec(hs: &Vec<Host>, id: u64) -> (r: Option<usize>)
    ensures
        match r {
            Some(j) => host_index(hs@, id) == Some(j as int),
            None => host_index(hs@, id) is None,
        },
{
    let mut j: usize = 0;
    assert(hs@.subrange(0, hs@.len() as int) =~= hs@);
    while j < hs.len()
        invariant
            j <= hs.len(),
            host_index(hs@, id) == match host_index(hs@.subrange(j as int, hs@.len() as int), id) {
                Some(k) => Some(k + j),
                None => None::<int>,
            },
        decreases hs.len() - j,
    {
        let ghost rest = hs@.subrange(j as int, hs@.len() as int);
        assert(rest[0] == hs@[j as int]);
        assert(rest.drop_first() =~= hs@.subrange(j + 1, hs@.len() as int));
        if hs[j].id == id {
            return Some(j);
        }
        j += 1;
    }
    None
}

/// Where host route `id` is: its client's place and its own.
pub fn host_pos(clients: &Vec<ClientRuntimeConfig>, id: u64) -> (r: Option<(usize, usize)>)
    ensures
        match r {
            Some((i, j)) => spec_host_pos(clients@, id) == Some((i as int, j as int)),
            None => spec_host_pos(clients@, id) is None,
        },
{
    let mut i: usize = 0;
    assert(clients@.subrange(0, clients@.len() as int) =~= clients@);
    while i < clients.len()
        invariant
            i <= clients.len(),
            spec_host_pos(clients@, id) == match spec_host_pos(
                clients@.subrange(i as int, clients@.len() as int),
                id,
            ) {
                Some((a, b)) => Some((a + i, b)),
                None => None::<(int, int)>,
            },
        decreases clients.len() - i,
    {
        let ghost rest = clients@.subrange(i as int, clients@.len() as int);
        assert(rest[0] == clients@[i as int]);
        assert(rest.drop_first() =~= clients@.subrange(i + 1, clients@.len() as int));
        match host_index_exec(&clients[i].hosts, id) {
            Some(j) => return Some((i, j)),
            None => {},
        }
        i += 1;
    }
    None
}

// ---------------------------------------------------------------------------
// Switching and removing
// ---------------------------------------------------------------------------

/// Two clients agree on everything but their tunnels.
pub open spec fn same_but_tunnels(a: ClientRuntimeConfig, b: ClientRuntimeConfig) -> bool {
    crate::model::ClientRuntimeConfigView { tunnels: b@.tunnels, ..a@ } == b@
}

/// Two clients agree on everything but their host routes.
pub open spec fn same_but_hosts(a: ClientRuntimeConfig, b: ClientRuntimeConfig) -> bool {
    crate::model::ClientRuntimeConfigView { hosts: b@.hosts, ..a@ } == b@
}

/// The table after starting or stopping tunnel `id`: the first tunnel
/// with the id takes the status (and run status), nothing else changes;
/// without such a tunnel the table is unchanged.
pub open spec fn tunnel_status_in(before: Seq<ClientRuntimeConfig>, after: Seq<ClientRuntimeConfig>, id: u64, status: bool) -> bool {
    match spec_tunnel_pos(before, id) {
        Some((i, j)) => after.len() == before.len()
            && (forall|k: int| 0 <= k < before.len() && k != i ==> #[trigger] after[k] == before[k])
            && after[i].tunnels@ == before[i].tunnels@.update(j, after[i].tunnels@[j])
            && after[i].tunnels@[j]@ == (TunnelView { status: status, run_status: status, ..before[i].tunnels@[j]@ })
            && same_but_tunnels(before[i], after[i]),
        None => after == before,
    }
}

/// The table after deleting tunnel `id`: the first tunnel with the id
/// leaves its client, nothing else changes; without such a tunnel the
/// table is unchanged.
pub open spec fn tunnel_removed_in(before: Seq<ClientRuntimeConfig>, after: Seq<ClientRuntimeConfig>, id: u64) -> bool {
    match spec_tunnel_pos(before, id) {
        Some((i, j)) => after.len() == before.len()
            && (forall|k: int| 0 <= k < before.len() && k != i ==> #[trigger] after[k] == before[k])
            && after[i].tunnels@ == before[i].tunnels@.remove(j)
            && same_but_tunnels(before[i], after[i]),
        None => after == before,
    }
}

/// Starts or stops tunnel `id`: its status and run status both take
/// `status`. Gives the tunnel before and after, or none when no tunnel has
/// the id (the table is then unchanged).
pub fn set_tunnel_status(clients: &mut Vec<ClientRuntimeConfig>, id: u64, status: bool) -> (r: Option<(Tunnel, Tunnel)>)
    ensures
        match spec_tunnel_pos(old(clients)@, id) {
            Some((i, j)) => r matches Some((prev, cur)) && prev@ == old(clients)@[i].tunnels@[j]@
                && cur@ == (TunnelView { status: status, run_status: status, ..prev@ }),
            None => r is None,
        },
        tunnel_status_in(old(clients)@, final(clients)@, id, status),
{
    proof {
        lemma_tunnel_pos(clients@, id);
    }
    match tunnel_pos(clients, id) {
        Some((i, j)) => {
            let prev = clients[i].tunnels[j].duplicate();
            let mut cur = prev.duplicate();
            cur.status = status;
            cur.run_status = status;
            let ret = cur.duplicate();
            let mut config = clients.remove(i);
            config.tunnels.set(j, cur);
            clients.insert(i, config);
            Some((prev, ret))
        },
        None => None,
    }
}

/// Deletes tunnel `id` from the first client holding it, giving the
/// removed tunnel; none (and no change) when no tunnel has the id.
pub fn remove_tunnel(clients: &mut Vec<ClientRuntimeConfig>, id: u64) -> (r: Option<Tunnel>)
    ensures
        match spec_tunnel_pos(old(clients)@, id) {
            Some((i, j)) => r matches Some(t) && t@ == old(clients)@[i].tunnels@[j]@,
            None => r is None,
        },
        tunnel_removed_in(old(clients)@, final(clients)@, id),
{
    proof {
        lemma_tunnel_pos(clients@, id);
    }
    match tunnel_pos(clients, id) {
        Some((i, j)) => {
            let mut config = clients.remove(i);
            let t = config.tunnels.remove(j);
            clients.insert(i, config);
            Some(t)
        },
        None => None,
    }
}

/// The table after opening or closing route `id`: the first route with
/// the id takes `is_close`, nothing else changes; without such a route the
/// table is unchanged.
pub open spec fn host_closed_in(before: Seq<ClientRuntimeConfig>, after: Seq<ClientRuntimeConfig>, id: u64, is_close: bool) -> bool {
    match spec_host_pos(before, id) {
        Some((i, j)) => after.len() == before.len()
            && (forall|k: int| 0 <= k < before.len() && k != i ==> #[trigger] after[k] == before[k])
            && after[i].hosts@ == before[i].hosts@.update(j, after[i].hosts@[j])
            && after[i].hosts@[j]@ == (crate::model::HostView { is_close: is_close, ..before[i].hosts@[j]@ })
            && same_but_hosts(before[i], after[i]),
        None => after == before,
    }
}

/// Opens or closes host route `id`; false (and no change) when no route
/// has the id.
pub fn set_host_closed(clients: &mut Vec<ClientRuntimeConfig>, id: u64, is_close: bool) -> (r: bool)
    ensures
        r == spec_host_pos(old(clients)@, id) is Some,
        host_closed_in(old(clients)@, final(clients)@, id, is_close),
{
    proof {
        lemma_host_pos(clients@, id);
    }
    match host_pos(clients, id) {
        Some((i, j)) => {
            let mut h = clients[i].hosts[j].duplicate();
            h.is_close = is_close;
            let mut config = clients.remove(i);
            config.hosts.set(j, h);
            clients.insert(i, config);
            true
        },
        None => false,
    }
}

/// The routes other than `id`, in order.
pub open spec fn without_host(hs: Seq<crate::model::HostView>, id: u64) -> Seq<crate::model::HostView>
    decreases hs.len(),
{
    if hs.len() == 0 {
        hs
    } else if hs.last().id == id {
        without_host(hs.drop_last(), id)
    } else {
        without_host(hs.drop_last(), id).push(hs.last())
    }
}

/// The table after deleting route `id`: every route with the id leaves the
/// first client holding one, nothing else changes; without such a route
/// the table is unchanged.
pub open spec fn host_removed_in(before: Seq<ClientRuntimeConfig>, after: Seq<ClientRuntimeConfig>, id: u64) -> bool {
    match spec_host_pos(before, id) {
        Some((i, j)) => after.len() == before.len()
            && (forall|k: int| 0 <= k < before.len() && k != i ==> #[trigger] after[k] == before[k])
            && crate::model::hosts_view(after[i].hosts@) == without_host(crate::model::hosts_view(before[i].hosts@), id)
            && same_but_hosts(before[i], after[i]),
        None => after == before,
    }
}

/// Deletes every route with id `id` from the first client holding one;
/// false (and no change) when no route has the id.
pub fn remove_host(clients: &mut Vec<ClientRuntimeConfig>, id: u64) -> (r: bool)
    ensures
        r == spec_host_pos(old(clients)@, id) is Some,
        host_removed_in(old(clients)@, final(clients)@, id),
{
    proof {
        lemma_host_pos(clients@, id);
    }
    match host_pos(clients, id) {
        Some((i, _j)) => {
            let mut config = clients.remove(i);
            let ghost hv = crate::model::hosts_view(config.hosts@);
            let mut kept: Vec<Host> = Vec::new();
            let mut k: usize = 0;
            assert(crate::model::hosts_view(kept@) =~= without_host(hv.take(0), id));
            while k < config.hosts.len()
                invariant
                    hv == crate::model::hosts_view(config.hosts@),
                    k <= config.hosts.len(),
                    crate::model::hosts_view(kept@) == without_host(hv.take(k as int), id),
                decreases config.hosts.len() - k,
            {
                assert(hv.take(k + 1).drop_last() =~= hv.take(k as int));
                assert(hv.take(k + 1).last() == config.hosts@[k as int]@);
                if config.hosts[k].id != id {
                    let ghost before = kept@;
                    kept.push(config.hosts[k].duplicate());
                    assert(crate::model::hosts_view(kept@) =~= crate::model::hosts_view(before).push(config.hosts@[k as int]@));
                }
                k += 1;
            }
            assert(hv.take(config.hosts.len() as int) =~= hv);
            config.hosts = kept;
            clients.insert(i, config);
            true
        },
        None => false,
    }
}

// ---------------------------------------------------------------------------
// Forms
// ---------------------------------------------------------------------------

/// The first port of a list, 0 without one.
pub open spec fn first_port_of(ports: Seq<char>) -> u16 {
    let p = spec_expand_ports(ports);
    if p.len() > 0 {
        p[0]
    } else {
        0
    }
}

fn first_port_exec(ports: &str) -> (r: u16)
    ensures
        r == first_port_of(ports@),
{
    let p = expand_ports(ports);
    if p.len() > 0 {
        p[0]
    } else {
        0
    }
}

/// A new tunnel from the tunnel form of the web manager, enabled and
/// stored, with the given id.
pub fn tunnel_from_params(params: &SectionMap, id: u64) -> (r: Tunnel)
    ensures
        r.id == id,
        r.mode@ == (if spec_param(params@, "type"@).len() == 0 {
            "tcp"@
        } else {
            spec_param(params@, "type"@)
        }),
        r.ports@ == spec_param_any(params@, seq!["ports"@, "port"@]),
        r.server_port == first_port_of(spec_param_any(params@, seq!["ports"@, "port"@])),
        r.server_ip@ == (if spec_param_any(params@, seq!["server_ip"@, "serverIp"@]).len() == 0 {
            "0.0.0.0"@
        } else {
            spec_param_any(params@, seq!["server_ip"@, "serverIp"@])
        }),
        r.target.target_str@ == spec_param(params@, "target"@),
        r.target.local_proxy == spec_param_bool(params@, "local_proxy"@),
        r.remark@ == spec_param(params@, "remark"@),
        r.password@ == spec_param(params@, "password"@),
        r.local_path@ == spec_param(params@, "local_path"@),
        r.strip_pre@ == spec_param(params@, "strip_pre"@),
        r.proto_version@ == spec_param_any(params@, seq!["proto_version"@, "proxy_protocol"@]),
        r.status,
        r.run_status,
        !r.no_store,
        r.target_addr@.len() == 0,
        r.multi_account@.len() == 0,
        r.client_vkey@.len() == 0,
{
    let port_keys = ["ports", "port"];
    let ip_keys = ["server_ip", "serverIp"];
    let proto_keys = ["proto_version", "proxy_protocol"];
    assert(key_views(port_keys@) =~= seq!["ports"@, "port"@]);
    assert(key_views(ip_keys@) =~= seq!["server_ip"@, "serverIp"@]);
    assert(key_views(proto_keys@) =~= seq!["proto_version"@, "proxy_protocol"@]);
    let mode = param(params, "type");
    let ports = param_any(params, &port_keys);
    let server_port = first_port_exec(ports.as_str());
    let ip = param_any(params, &ip_keys);
    Tunnel {
        id,
        mode: if mode.as_str().is_empty() {
            owned("tcp")
        } else {
            mode
        },
        remark: param(params, "remark"),
        server_ip: if ip.as_str().is_empty() {
            owned("0.0.0.0")
        } else {
            ip
        },
        server_port,
        status: true,
        run_status: true,
        ports,
        target: Target { target_str: param(params, "target"), local_proxy: param_bool(params, "local_proxy") },
        target_addr: String::new(),
        password: param(params, "password"),
        local_path: param(params, "local_path"),
        strip_pre: param(params, "strip_pre"),
        multi_account: Vec::new(),
        proto_version: param_any(params, &proto_keys),
        client_vkey: String::new(),
        no_store: false,
    }
}

/// A tunnel after the tunnel edit form `m`: a port list whose first port
/// differs replaces the ports; a non-empty server IP or mode replaces its
/// own; the target, remark, password, local path, prefix and proxy protocol
/// take the form's values, and the tunnel becomes stored.
pub open spec fn spec_tunnel_edit(t: TunnelView, m: crate::kv::KvView) -> TunnelView {
    let ports = spec_param_any(m, seq!["ports"@, "port"@]);
    let requested = first_port_of(ports);
    let ip = spec_param_any(m, seq!["server_ip"@, "serverIp"@]);
    TunnelView {
        server_port: if requested != t.server_port {
            requested
        } else {
            t.server_port
        },
        ports: if requested != t.server_port {
            ports
        } else {
            t.ports
        },
        server_ip: if ip.len() == 0 {
            t.server_ip
        } else {
            ip
        },
        mode: if spec_param(m, "type"@).len() == 0 {
            t.mode
        } else {
            spec_param(m, "type"@)
        },
        target: crate::model::TargetView {
            target_str: spec_param(m, "target"@),
            local_proxy: spec_param_bool(m, "local_proxy"@),
        },
        remark: spec_param(m, "remark"@),
        password: spec_param(m, "password"@),
        local_path: spec_param(m, "local_path"@),
        strip_pre: spec_param(m, "strip_pre"@),
        proto_version: spec_param_any(m, seq!["proto_version"@, "proxy_protocol"@]),
        no_store: false,
        ..t
    }
}

/// Applies the tunnel edit form: see [`spec_tunnel_edit`].
pub fn edit_tunnel_from_params(tunnel: &mut Tunnel, params: &SectionMap)
    ensures
        final(tunnel)@ == spec_tunnel_edit(old(tunnel)@, params@),
        ({
            let ports = spec_param_any(params@, seq!["ports"@, "port"@]);
            let requested = first_port_of(ports);
            &&& final(tunnel).server_port == if requested != old(tunnel).server_port {
                requested
            } else {
                old(tunnel).server_port
            }
            &&& final(tunnel).ports@ == if requested != old(tunnel).server_port {
                ports
            } else {
                old(tunnel).ports@
            }
        }),
        final(tunnel).server_ip@ == (if spec_param_any(params@, seq!["server_ip"@, "serverIp"@]).len() == 0 {
            old(tunnel).server_ip@
        } else {
            spec_param_any(params@, seq!["server_ip"@, "serverIp"@])
        }),
        final(tunnel).mode@ == (if spec_param(params@, "type"@).len() == 0 {
            old(tunnel).mode@
        } else {
            spec_param(params@, "type"@)
        }),
        final(tunnel).target.target_str@ == spec_param(params@, "target"@),
        final(tunnel).target.local_proxy == spec_param_bool(params@, "local_proxy"@),
        final(tunnel).remark@ == spec_param(params@, "remark"@),
        final(tunnel).password@ == spec_param(params@, "password"@),
        final(tunnel).local_path@ == spec_param(params@, "local_path"@),
        final(tunnel).strip_pre@ == spec_param(params@, "strip_pre"@),
        final(tunnel).proto_version@ == spec_param_any(params@, seq!["proto_version"@, "proxy_protocol"@]),
        !final(tunnel).no_store,
        final(tunnel).id == old(tunnel).id,
        final(tunnel).status == old(tunnel).status,
        final(tunnel).run_status == old(tunnel).run_status,
        final(tunnel).client_vkey@ == old(tunnel).client_vkey@,
        final(tunnel).target_addr@ == old(tunnel).target_addr@,
        final(tunnel).multi_account@ == old(tunnel).multi_account@,
{
    let port_keys = ["ports", "port"];
    let ip_keys = ["server_ip", "serverIp"];
    let proto_keys = ["proto_version", "proxy_protocol"];
    assert(key_views(port_keys@) =~= seq!["ports"@, "port"@]);
    assert(key_views(ip_keys@) =~= seq!["server_ip"@, "serverIp"@]);
    assert(key_views(proto_keys@) =~= seq!["proto_version"@, "proxy_protocol"@]);
    let ports = param_any(params, &port_keys);
    let requested = first_port_exec(ports.as_str());
    if requested != tunnel.server_port {
        tunnel.ports = ports;
        tunnel.server_port = requested;
    }
    let ip = param_any(params, &ip_keys);
    if !ip.as_str().is_empty() {
        tunnel.server_ip = ip;
    }
    let mode = param(params, "type");
    if !mode.as_str().is_empty() {
        tunnel.mode = mode;
    }
    tunnel.target.target_str = param(params, "target");
    tunnel.target.local_proxy = param_bool(params, "local_proxy");
    tunnel.remark = param(params, "remark");
    tunnel.password = param(params, "password");
    tunnel.local_path = param(params, "local_path");
    tunnel.strip_pre = param(params, "strip_pre");
    tunnel.proto_version = param_any(params, &proto_keys);
    tunnel.no_store = false;
}

/// Another route of the client (any other id when `except` is given)
/// already serves the host and location.
pub open spec fn spec_host_conflict(hs: Seq<Host>, host: Seq<char>, location: Seq<char>, except: Option<u64>) -> bool {
    exists|k: int|
        0 <= k < hs.len() && (except matches Some(e) ==> hs[k].id != e) && (#[trigger] hs[k]).host@
            == host && hs[k].location@ == location
}

/// Whether a route for the host and location exists already.
pub fn host_conflict(hosts: &Vec<Host>, host: &str, location: &str, except: Option<u64>) -> (r: bool)
    ensures
        r == spec_host_conflict(hosts@, host@, location@, except),
{
    let hc = chars_of(host);
    let lc = chars_of(location);
    let mut k: usize = 0;
    while k < hosts.len()
        invariant
            k <= hosts.len(),
            hc@ == host@,
            lc@ == location@,
            forall|m: int|
                0 <= m < k ==> !((except matches Some(e) ==> hosts@[m].id != e) && (#[trigger] hosts@[m]).host@
                    == host@ && hosts@[m].location@ == location@),
        decreases hosts.len() - k,
    {
        let other = match except {
            Some(e) => hosts[k].id != e,
            None => true,
        };
        if other && eq(&chars_of(hosts[k].host.as_str()), &hc) && eq(&chars_of(hosts[k].location.as_str()), &lc) {
            return true;
        }
        k += 1;
    }
    false
}

/// The server-wide settings from the global form.
pub fn global_from_params(params: &SectionMap) -> (r: GlobalConfig)
    ensures
        r.server_url@ == spec_param_any(params@, seq!["serverUrl"@, "server_url"@]),
        strings_view(r.black_ip_list@) == param_lines(
            spec_param_any(params@, seq!["globalBlackIpList"@, "black_ip_list"@]),
        ),
{
    let url_keys = ["serverUrl", "server_url"];
    let list_keys = ["globalBlackIpList", "black_ip_list"];
    assert(key_views(url_keys@) =~= seq!["serverUrl"@, "server_url"@]);
    assert(key_views(list_keys@) =~= seq!["globalBlackIpList"@, "black_ip_list"@]);
    let list = param_any(params, &list_keys);
    GlobalConfig {
        server_url: param_any(params, &url_keys),
        black_ip_list: crate::model::strings_of(
            &crate::text::trimmed_nonempty_exec(&crate::text::lines_exec(&chars_of(list.as_str()))),
        ),
    }
}

// ---------------------------------------------------------------------------
// Clients
// ---------------------------------------------------------------------------

/// Some client is registered under the key.
pub open spec fn key_in_use(cs: Seq<ClientRuntimeConfig>, vkey: Seq<char>) -> bool {
    exists|k: int| 0 <= k < cs.len() && (#[trigger] cs[k]).common.vkey@ == vkey
}

/// Some client other than `except` signs in with the web user name.
pub open spec fn username_in_use(cs: Seq<ClientRuntimeConfig>, name: Seq<char>, except: Option<u64>) -> bool {
    exists|k: int|
        0 <= k < cs.len() && (except matches Some(e) ==> cs[k].id != e) && (#[trigger] cs[k]).common.client.web_username@ == name
}

/// Whether a client is registered under the key.
pub fn vkey_in_use(clients: &Vec<ClientRuntimeConfig>, vkey: &str) -> (r: bool)
    ensures
        r == key_in_use(clients@, vkey@),
{
    let vc = chars_of(vkey);
    let mut k: usize = 0;
    while k < clients.len()
        invariant
            k <= clients.len(),
            vc@ == vkey@,
            forall|m: int| 0 <= m < k ==> (#[trigger] clients@[m]).common.vkey@ != vkey@,
        decreases clients.len() - k,
    {
        if eq(&chars_of(clients[k].common.vkey.as_str()), &vc) {
            return true;
        }
        k += 1;
    }
    false
}

/// Whether a client other than `except` uses the web user name.
pub fn web_username_in_use(clients: &Vec<ClientRuntimeConfig>, name: &str, except: Option<u64>) -> (r: bool)
    ensures
        r == username_in_use(clients@, name@, except),
{
    let nc = chars_of(name);
    let mut k: usize = 0;
    while k < clients.len()
        invariant
            k <= clients.len(),
            nc@ == name@,
            forall|m: int|
                0 <= m < k ==> !((except matches Some(e) ==> clients@[m].id != e) && (#[trigger] clients@[m]).common.client.web_username@
                    == name@),
        decreases clients.len() - k,
    {
        let other = match except {
            Some(e) => clients[k].id != e,
            None => true,
        };
        if other && eq(&chars_of(clients[k].common.client.web_username.as_str()), &nc) {
            return true;
        }
        k += 1;
    }
    false
}

/// Why a client form was refused.
#[derive(PartialEq, Eq, Structural, Clone, Copy, Debug)]
pub enum ClientFormError {
    VkeyDuplicate,
    UsernameDuplicate,
    NotFound,
}

impl ClientFormError {
    /// The message reported for the refusal.
    pub fn message(&self) -> (r: &'static str)
        ensures
            r@ == match *self {
                ClientFormError::VkeyDuplicate => "Vkey duplicate, please reset"@,
                ClientFormError::UsernameDuplicate => "web login username duplicate, please reset"@,
                ClientFormError::NotFound => "client ID not found"@,
            },
    {
        match *self {
            ClientFormError::VkeyDuplicate => "Vkey duplicate, please reset",
            ClientFormError::UsernameDuplicate => "web login username duplicate, please reset",
            ClientFormError::NotFound => "client ID not found",
        }
    }
}

/// A new client may take the key and web user name: the key is free, and
/// a non-empty user name is not used by any client.
pub fn check_new_client(clients: &Vec<ClientRuntimeConfig>, vkey: &str, web_username: &str) -> (r: Result<(), ClientFormError>)
    ensures
        key_in_use(clients@, vkey@) ==> r == Err::<(), ClientFormError>(ClientFormError::VkeyDuplicate),
        !key_in_use(clients@, vkey@) && web_username@.len() > 0 && username_in_use(clients@, web_username@, None) ==> r
            == Err::<(), ClientFormError>(ClientFormError::UsernameDuplicate),
        !key_in_use(clients@, vkey@) && !(web_username@.len() > 0 && username_in_use(clients@, web_username@, None)) ==> r is Ok,
{
    if vkey_in_use(clients, vkey) {
        return Err(ClientFormError::VkeyDuplicate);
    }
    if !web_username.is_empty() && web_username_in_use(clients, web_username, None) {
        return Err(ClientFormError::UsernameDuplicate);
    }
    Ok(())
}

/// A new client from the client form: the key, the form's settings and
/// web login, stored, created at `now`, with the id.
pub open spec fn spec_new_client(vkey: Seq<char>, m: crate::kv::KvView, id: u64, now: Seq<char>) -> ClientRuntimeConfigView {
    ClientRuntimeConfigView {
        id: id,
        no_store: false,
        no_display: false,
        create_time: now,
        last_online_time: Seq::empty(),
        last_online_addr: Seq::empty(),
        common: CommonConfigView {
            vkey: vkey,
            client: ClientInfoView {
                verify_key: vkey,
                web_username: spec_param(m, "web_username"@),
                web_password: spec_param(m, "web_password"@),
                ..crate::web::spec_client_form(CommonConfig::default_view().client, m)
            },
            ..CommonConfig::default_view()
        },
        hosts: Seq::empty(),
        tunnels: Seq::empty(),
        healths: Seq::empty(),
        local_servers: Seq::empty(),
    }
}

/// A new client record: see [`spec_new_client`].
pub fn new_client_record(vkey: &str, params: &SectionMap, id: u64, now: &str) -> (r: ClientRuntimeConfig)
    ensures
        r@ == spec_new_client(vkey@, params@, id, now@),
{
    let mut config = ClientRuntimeConfig::default();
    config.common = crate::model::CommonConfig::default();
    config.common.vkey = owned(vkey);
    config.common.client.verify_key = owned(vkey);
    crate::web::apply_client_form(&mut config.common.client, params);
    config.common.client.web_username = param(params, "web_username");
    config.common.client.web_password = param(params, "web_password");
    config.id = id;
    config.no_store = false;
    config.create_time = owned(now);
    assert(config@ =~= ClientRuntimeConfigView {
        id: id,
        no_store: false,
        no_display: false,
        create_time: now@,
        last_online_time: Seq::empty(),
        last_online_addr: Seq::empty(),
        common: CommonConfigView {
            vkey: vkey@,
            client: ClientInfoView {
                verify_key: vkey@,
                web_username: spec_param(params@, "web_username"@),
                web_password: spec_param(params@, "web_password"@),
                ..crate::web::spec_client_form(CommonConfig::default_view().client, params@)
            },
            ..CommonConfig::default_view()
        },
        hosts: Seq::empty(),
        tunnels: Seq::empty(),
        healths: Seq::empty(),
        local_servers: Seq::empty(),
    });
    config
}

/// Position of the first client with the id.
pub open spec fn client_index(cs: Seq<ClientRuntimeConfig>, id: u64) -> Option<int>
    decreases cs.len(),
{
    if cs.len() == 0 {
        None
    } else if cs[0].id == id {
        Some(0)
    } else {
        match client_index(cs.drop_first(), id) {
            Some(k) => Some(k + 1),
            None => None,
        }
    }
}

pub(crate) proof fn lemma_client_index(cs: Seq<ClientRuntimeConfig>, id: u64)
    ensures
        match client_index(cs, id) {
            Some(i) => 0 <= i < cs.len() && cs[i].id == id && crate::web::spec_client_vkey_by_id(cs, id)
                == Some(cs[i].common.vkey@),
            None => crate::web::spec_client_vkey_by_id(cs, id) is None,
        },
    decreases cs.len(),
{
    if cs.len() > 0 {
        lemma_client_index(cs.drop_first(), id);
        assert forall|k: int| 0 < k < cs.len() implies cs[k] == cs.drop_first()[k - 1] by {}
    }
}

/// Position of client `id`.
pub fn client_pos(clients: &Vec<ClientRuntimeConfig>, id: u64) -> (r: Option<usize>)
    ensures
        match r {
            Some(i) => client_index(clients@, id) == Some(i as int),
            None => client_index(clients@, id) is None,
        },
{
    let mut i: usize = 0;
    assert(clients@.subrange(0, clients@.len() as int) =~= clients@);
    while i < clients.len()
        invariant
            i <= clients.len(),
            client_index(clients@, id) == match client_index(clients@.subrange(i as int, clients@.len() as int), id) {
                Some(k) => Some(k + i),
                None => None::<int>,
            },
        decreases clients.len() - i,
    {
        let ghost rest = clients@.subrange(i as int, clients@.len() as int);
        assert(rest[0] == clients@[i as int]);
        assert(rest.drop_first() =~= clients@.subrange(i + 1, clients@.len() as int));
        if clients[i].id == id {
            return Some(i);
        }
        i += 1;
    }
    None
}

/// The table after enabling or disabling client `id`: the first client
/// with the id takes the status, nothing else changes; without such a
/// client the table is unchanged.
pub open spec fn client_status_in(before: Seq<ClientRuntimeConfig>, after: Seq<ClientRuntimeConfig>, id: u64, status: bool) -> bool {
    match client_index(before, id) {
        Some(i) => after.len() == before.len()
            && (forall|m: int| 0 <= m < before.len() && m != i ==> #[trigger] after[m] == before[m])
            && after[i]@ == (ClientRuntimeConfigView {
                common: CommonConfigView {
                    client: ClientInfoView { status: status, ..before[i]@.common.client },
                    ..before[i]@.common
                },
                ..before[i]@
            }),
        None => after == before,
    }
}

/// The table after deleting client `id`: the first client with the id
/// leaves; without such a client the table is unchanged.
pub open spec fn client_removed_in(before: Seq<ClientRuntimeConfig>, after: Seq<ClientRuntimeConfig>, id: u64) -> bool {
    match client_index(before, id) {
        Some(i) => after == before.remove(i),
        None => after == before,
    }
}

/// Enables or disables client `id`, giving the client before and after;
/// none (and no change) without such a client.
pub fn set_client_status(clients: &mut Vec<ClientRuntimeConfig>, id: u64, status: bool) -> (r: Option<(ClientRuntimeConfig, ClientRuntimeConfig)>)
    ensures
        match client_index(old(clients)@, id) {
            Some(i) => r matches Some((prev, cur)) && prev@ == old(clients)@[i]@ && final(clients)@[i]@ == cur@,
            None => r is None,
        },
        client_status_in(old(clients)@, final(clients)@, id, status),
{
    proof {
        lemma_client_index(clients@, id);
    }
    let i = match client_pos(clients, id) {
        Some(i) => i,
        None => return None,
    };
    let prev = clients[i].duplicate();
    let mut config = clients.remove(i);
    config.common.client.status = status;
    let cur = config.duplicate();
    clients.insert(i, config);
    assert(cur@ =~= crate::model::ClientRuntimeConfigView {
        common: crate::model::CommonConfigView {
            client: crate::model::ClientInfoView { status: status, ..prev@.common.client },
            ..prev@.common
        },
        ..prev@
    });
    Some((prev, cur))
}

/// Deletes client `id`, giving it; none (and no change) without such a
/// client.
pub fn remove_client(clients: &mut Vec<ClientRuntimeConfig>, id: u64) -> (r: Option<ClientRuntimeConfig>)
    ensures
        match client_index(old(clients)@, id) {
            Some(i) => r == Some(old(clients)@[i]),
            None => r is None,
        },
        client_removed_in(old(clients)@, final(clients)@, id),
{
    proof {
        lemma_client_index(clients@, id);
    }
    match client_pos(clients, id) {
        Some(i) => Some(clients.remove(i)),
        None => None,
    }
}

/// A client edit may take the new key and web user name: the new key is
/// the old one or free, and a non-empty new user name is used by no other
/// client.
pub fn check_client_edit(clients: &Vec<ClientRuntimeConfig>, id: u64, old_vkey: &str, new_vkey: &str, web_username: Option<&str>) -> (r: Result<(), ClientFormError>)
    ensures
        new_vkey@ != old_vkey@ && key_in_use(clients@, new_vkey@) ==> r == Err::<(), ClientFormError>(ClientFormError::VkeyDuplicate),
        !(new_vkey@ != old_vkey@ && key_in_use(clients@, new_vkey@)) ==> (r is Ok <==> !(web_username matches Some(w) && w@.len() > 0
            && username_in_use(clients@, w@, Some(id)))),
        r is Err ==> r != Err::<(), ClientFormError>(ClientFormError::NotFound),
        !(new_vkey@ != old_vkey@ && key_in_use(clients@, new_vkey@)) && r is Err ==> r == Err::<(), ClientFormError>(
            ClientFormError::UsernameDuplicate,
        ),
{
    if !eq(&chars_of(new_vkey), &chars_of(old_vkey)) && vkey_in_use(clients, new_vkey) {
        return Err(ClientFormError::VkeyDuplicate);
    }
    match web_username {
        Some(w) => {
            if !w.is_empty() && web_username_in_use(clients, w, Some(id)) {
                return Err(ClientFormError::UsernameDuplicate);
            }
        },
        None => {},
    }
    Ok(())
}

/// A client after an edit: the new key on the client, its verify key and
/// every tunnel and route; the client form; the web user name when the
/// form names one; the web password.
pub open spec fn spec_client_edit(c: ClientRuntimeConfigView, new_vkey: Seq<char>, m: crate::kv::KvView) -> ClientRuntimeConfigView {
    ClientRuntimeConfigView {
        common: CommonConfigView {
            vkey: new_vkey,
            client: ClientInfoView {
                verify_key: new_vkey,
                web_username: match kv_get(m, "web_username"@) {
                    Some(w) => w,
                    None => c.common.client.web_username,
                },
                web_password: spec_param(m, "web_password"@),
                ..crate::web::spec_client_form(c.common.client, m)
            },
            ..c.common
        },
        tunnels: Seq::new(c.tunnels.len(), |k: int| TunnelView { client_vkey: new_vkey, ..c.tunnels[k] }),
        hosts: Seq::new(c.hosts.len(), |k: int| crate::model::HostView { client_vkey: new_vkey, ..c.hosts[k] }),
        ..c
    }
}

/// Applies a client edit: the new key (on the client, its verify key and
/// every tunnel and route), the client form, the web user name when given
/// and the web password.
pub fn apply_client_edit(config: &mut ClientRuntimeConfig, new_vkey: &str, params: &SectionMap)
    ensures
        final(config)@ == spec_client_edit(old(config)@, new_vkey@, params@),
{
    config.common.vkey = owned(new_vkey);
    config.common.client.verify_key = owned(new_vkey);
    crate::web::apply_client_form(&mut config.common.client, params);
    match params.get_str("web_username") {
        Some(w) => config.common.client.web_username = w,
        None => {},
    }
    config.common.client.web_password = param(params, "web_password");
    let ghost pre = config@;
    let ghost ts0 = config.tunnels@;
    let ghost cm = config.common@;
    let ghost hs_start = config.hosts@;
    let mut k: usize = 0;
    while k < config.tunnels.len()
        invariant
            k <= config.tunnels.len(),
            config.common@ == cm,
            config.id == old(config).id,
            config.hosts@ == hs_start,
            config.tunnels@.len() == ts0.len(),
            forall|m: int| 0 <= m < k ==> (#[trigger] config.tunnels@[m])@ == (TunnelView { client_vkey: new_vkey@, ..ts0[m]@ }),
            forall|m: int| k <= m < ts0.len() ==> #[trigger] config.tunnels@[m] == ts0[m],
            (ClientRuntimeConfigView { tunnels: pre.tunnels, ..config@ }) == pre,
        decreases config.tunnels.len() - k,
    {
        let mut t = config.tunnels[k].duplicate();
        t.client_vkey = owned(new_vkey);
        config.tunnels.set(k, t);
        k += 1;
    }
    let ghost hs0 = config.hosts@;
    let ghost tsf = config.tunnels@;
    let ghost mid = config@;
    k = 0;
    while k < config.hosts.len()
        invariant
            k <= config.hosts.len(),
            config.common@ == cm,
            config.id == old(config).id,
            config.tunnels@ == tsf,
            config.hosts@.len() == hs0.len(),
            forall|m: int| 0 <= m < k ==> (#[trigger] config.hosts@[m])@ == (crate::model::HostView { client_vkey: new_vkey@, ..hs0[m]@ }),
            forall|m: int| k <= m < hs0.len() ==> #[trigger] config.hosts@[m] == hs0[m],
            (ClientRuntimeConfigView { hosts: mid.hosts, ..config@ }) == mid,
        decreases config.hosts.len() - k,
    {
        let mut h = config.hosts[k].duplicate();
        h.client_vkey = owned(new_vkey);
        config.hosts.set(k, h);
        k += 1;
    }
    assert(config@.tunnels =~= Seq::new(ts0.len(), |k: int| TunnelView { client_vkey: new_vkey@, ..ts0[k]@ }));
    assert(config@.hosts =~= Seq::new(hs0.len(), |k: int| crate::model::HostView { client_vkey: new_vkey@, ..hs0[k]@ }));
    assert(config@ =~= spec_client_edit(old(config)@, new_vkey@, params@));
}

/// The key a client edit gives: the form's `vkey`, or the client's own key
/// when the form leaves it empty.
pub open spec fn edit_key(c: ClientRuntimeConfigView, m: crate::kv::KvView) -> Seq<char> {
    if spec_param(m, "vkey"@).len() == 0 {
        c.common.vkey
    } else {
        spec_param(m, "vkey"@)
    }
}

/// Why an edit of client `id` with the form `m` is refused: no such
/// client; a changed key that another client holds; a non-empty web user
/// name that another client uses. None when it goes through.
pub open spec fn spec_edit_refusal(cs: Seq<ClientRuntimeConfig>, id: u64, m: crate::kv::KvView) -> Option<ClientFormError> {
    match client_index(cs, id) {
        None => Some(ClientFormError::NotFound),
        Some(i) => {
            let key = edit_key(cs[i]@, m);
            if key != cs[i].common.vkey@ && key_in_use(cs, key) {
                Some(ClientFormError::VkeyDuplicate)
            } else if (kv_get(m, "web_username"@) matches Some(w) && w.len() > 0 && username_in_use(cs, w, Some(id))) {
                Some(ClientFormError::UsernameDuplicate)
            } else {
                None
            }
        },
    }
}

/// Edits client `id` with the client form: see [`spec_edit_refusal`] for
/// when it is refused (and nothing changes) and [`spec_client_edit`] for
/// the edited client, which keeps its place. Gives the client before and
/// after the edit.
pub fn edit_client(clients: &mut Vec<ClientRuntimeConfig>, id: u64, params: &SectionMap) -> (r: Result<(ClientRuntimeConfig, ClientRuntimeConfig), ClientFormError>)
    ensures
        match spec_edit_refusal(old(clients)@, id, params@) {
            Some(e) => (r matches Err(x) && x == e) && final(clients)@ == old(clients)@,
            None => match client_index(old(clients)@, id) {
                Some(i) => (r matches Ok((prev, cur)) && prev@ == old(clients)@[i]@ && cur@ == spec_client_edit(
                    old(clients)@[i]@,
                    edit_key(old(clients)@[i]@, params@),
                    params@,
                ) && final(clients)@[i]@ == cur@) && final(clients)@.len() == old(clients)@.len() && (forall|k: int|
                    0 <= k < old(clients)@.len() && k != i ==> #[trigger] final(clients)@[k] == old(clients)@[k]),
                None => false,
            },
        },
{
    proof {
        lemma_client_index(clients@, id);
    }
    let pos = match client_pos(clients, id) {
        Some(p) => p,
        None => return Err(ClientFormError::NotFound),
    };
    let old_vkey = clients[pos].common.vkey.clone();
    let candidate = param(params, "vkey");
    let new_vkey = if candidate.as_str().is_empty() {
        old_vkey.clone()
    } else {
        candidate
    };
    let web_username = params.get_str("web_username");
    let w: Option<&str> = match &web_username {
        Some(v) => Some(v.as_str()),
        None => None,
    };
    match check_client_edit(clients, id, old_vkey.as_str(), new_vkey.as_str(), w) {
        Ok(()) => {},
        Err(e) => return Err(e),
    }
    let prev = clients[pos].duplicate();
    let mut config = clients.remove(pos);
    apply_client_edit(&mut config, new_vkey.as_str(), params);
    let cur = config.duplicate();
    clients.insert(pos, config);
    Ok((prev, cur))
}

/// The key a new client takes: the form's `vkey`, or `web` and the next id
/// of the sequence when the form leaves it empty; and the sequence after.
pub open spec fn spec_new_key(m: crate::kv::KvView, next: u64) -> (Seq<char>, u64) {
    if spec_param(m, "vkey"@).len() == 0 {
        ("web"@ + dec(next as nat), next.wrapping_add(1))
    } else {
        (spec_param(m, "vkey"@), next)
    }
}

/// Why a new client from the form is refused: its key is taken, or a
/// non-empty web user name is in use. None when it goes through.
pub open spec fn spec_add_refusal(cs: Seq<ClientRuntimeConfig>, key: Seq<char>, m: crate::kv::KvView) -> Option<ClientFormError> {
    if key_in_use(cs, key) {
        Some(ClientFormError::VkeyDuplicate)
    } else if spec_param(m, "web_username"@).len() > 0 && username_in_use(cs, spec_param(m, "web_username"@), None) {
        Some(ClientFormError::UsernameDuplicate)
    } else {
        None
    }
}

/// Adds a client from the client form, created at `now`: its key is
/// [`spec_new_key`]; when [`spec_add_refusal`] refuses it nothing but the
/// sequence changes; otherwise the client [`spec_new_client`] is appended
/// with the next id of the sequence, which is given back.
pub fn add_client(clients: &mut Vec<ClientRuntimeConfig>, seq: &mut IdSequence, params: &SectionMap, now: &str) -> (r: Result<u64, ClientFormError>)
    ensures
        ({
            let (key, n) = spec_new_key(params@, old(seq).next);
            match spec_add_refusal(old(clients)@, key, params@) {
                Some(e) => r == Err::<u64, ClientFormError>(e) && final(clients)@ == old(clients)@ && final(seq).next == n,
                None => r == Ok::<u64, ClientFormError>(n) && final(seq).next == n.wrapping_add(1)
                    && final(clients)@.len() == old(clients)@.len() + 1
                    && final(clients)@.drop_last() == old(clients)@
                    && final(clients)@.last()@ == spec_new_client(key, params@, n, now@),
            }
        }),
{
    let supplied = param(params, "vkey");
    let vkey = if supplied.as_str().is_empty() {
        let n = seq.next_link_id();
        let mut v = chars_of("web");
        proof {
            reveal_strlit("web");
        }
        let d = dec_exec(n);
        append(&mut v, &d);
        string_of(&v)
    } else {
        supplied
    };
    let web_username = param(params, "web_username");
    match check_new_client(clients, vkey.as_str(), web_username.as_str()) {
        Ok(()) => {},
        Err(e) => return Err(e),
    }
    let id = seq.next_link_id();
    let client = new_client_record(vkey.as_str(), params, id, now);
    let ghost before = clients@;
    clients.push(client);
    assert(clients@.drop_last() == before);
    Ok(id)
}


/// Why a sign-up was refused.
#[derive(PartialEq, Eq, Structural, Clone, Copy, Debug)]
pub enum RegisterError {
    NotAllowed,
    BadInput,
    Duplicate,
}

/// A web user may sign up: sign-up is allowed, the name and password are
/// given, the name is not the administrator's and no client uses it.
pub fn check_register(server: &crate::model::ServerConfig, clients: &Vec<ClientRuntimeConfig>, username: &str, password: &str) -> (r: Result<(), RegisterError>)
    ensures
        !server.allow_user_register ==> r == Err::<(), RegisterError>(RegisterError::NotAllowed),
        server.allow_user_register && (username@.len() == 0 || password@.len() == 0 || username@ == server.web_username@) ==> r
            == Err::<(), RegisterError>(RegisterError::BadInput),
        server.allow_user_register && !(username@.len() == 0 || password@.len() == 0 || username@ == server.web_username@) ==> (r is Ok
            <==> !username_in_use(clients@, username@, None)),
        r is Err && server.allow_user_register && !(username@.len() == 0 || password@.len() == 0 || username@ == server.web_username@) ==> r
            == Err::<(), RegisterError>(RegisterError::Duplicate),
{
    if !server.allow_user_register {
        return Err(RegisterError::NotAllowed);
    }
    if username.is_empty() || password.is_empty() || eq(&chars_of(username), &chars_of(server.web_username.as_str())) {
        return Err(RegisterError::BadInput);
    }
    if web_username_in_use(clients, username, None) {
        return Err(RegisterError::Duplicate);
    }
    Ok(())
}

/// The client of a new web user: enabled and stored, signing in with the
/// name and password, without configuration connections.
pub fn registered_client(id: u64, vkey: &str, username: &str, password: &str, now: &str) -> (r: ClientRuntimeConfig)
    ensures
        r@ == (ClientRuntimeConfigView {
            id: id,
            no_store: false,
            no_display: false,
            create_time: now@,
            last_online_time: Seq::empty(),
            last_online_addr: Seq::empty(),
            common: CommonConfigView {
                vkey: vkey@,
                client: ClientInfoView {
                    verify_key: vkey@,
                    status: true,
                    web_username: username@,
                    web_password: password@,
                    config_conn_allow: false,
                    ..CommonConfig::default_view().client
                },
                ..CommonConfig::default_view()
            },
            hosts: Seq::empty(),
            tunnels: Seq::empty(),
            healths: Seq::empty(),
            local_servers: Seq::empty(),
        }),
{
    let mut config = ClientRuntimeConfig::default();
    config.id = id;
    config.no_store = false;
    config.create_time = owned(now);
    config.common = crate::model::CommonConfig::default();
    config.common.vkey = owned(vkey);
    config.common.client.verify_key = owned(vkey);
    config.common.client.status = true;
    config.common.client.web_username = owned(username);
    config.common.client.web_password = owned(password);
    config.common.client.config_conn_allow = false;
    assert(config@ =~= ClientRuntimeConfigView {
        id: id,
        no_store: false,
        no_display: false,
        create_time: now@,
        last_online_time: Seq::empty(),
        last_online_addr: Seq::empty(),
        common: CommonConfigView {
            vkey: vkey@,
            client: ClientInfoView {
                verify_key: vkey@,
                status: true,
                web_username: username@,
                web_password: password@,
                config_conn_allow: false,
                ..CommonConfig::default_view().client
            },
            ..CommonConfig::default_view()
        },
        hosts: Seq::empty(),
        tunnels: Seq::empty(),
        healths: Seq::empty(),
        local_servers: Seq::empty(),
    });
    config
}

/// The copy of a tunnel made by the web manager: a new id, no port yet
/// (one is generated), stopped, and stored.
pub fn copied_tunnel(t: &Tunnel, id: u64) -> (r: Tunnel)
    ensures
        r@ == (TunnelView {
            id: id,
            server_port: 0,
            ports: Seq::empty(),
            status: false,
            run_status: false,
            no_store: false,
            ..t@
        }),
{
    let mut c = t.duplicate();
    c.id = id;
    c.server_port = 0;
    c.ports = String::new();
    c.status = false;
    c.run_status = false;
    c.no_store = false;
    c
}

/// A new host route from the host form `m`, open and stored, with the id
/// and the client's key.
pub open spec fn spec_new_host(m: crate::kv::KvView, id: u64, vkey: Seq<char>) -> crate::model::HostView {
    crate::web::spec_host_form(
        crate::model::HostView {
            id: id,
            host: Seq::empty(),
            header_change: Seq::empty(),
            host_change: Seq::empty(),
            location: Seq::empty(),
            remark: Seq::empty(),
            scheme: Seq::empty(),
            cert_file_path: Seq::empty(),
            key_file_path: Seq::empty(),
            target: crate::model::TargetView { target_str: Seq::empty(), local_proxy: false },
            client_vkey: vkey,
            no_store: false,
            is_close: false,
            auto_https: false,
        },
        m,
    )
}

/// A new host route from the host form: see [`spec_new_host`].
pub fn new_host_record(params: &SectionMap, id: u64, vkey: &str) -> (r: Host)
    ensures
        r@ == spec_new_host(params@, id, vkey@),
{
    let mut h = Host::default();
    h.id = id;
    h.no_store = false;
    h.is_close = false;
    h.client_vkey = owned(vkey);
    crate::web::fill_host_from_params(&mut h, params);
    h
}

/// Why a host form was refused.
#[derive(PartialEq, Eq, Structural, Clone, Copy, Debug)]
pub enum HostFormError {
    /// No route has the id.
    NotFound,
    /// No client has the id.
    ClientNotFound,
    /// The client may not have another tunnel or route.
    Tunnel(TunnelError),
    /// The client has a route for the same host and location.
    HostExists,
}

impl HostFormError {
    /// The message reported for the refusal.
    pub fn message(&self) -> (r: String)
        ensures
            r@ == match *self {
                HostFormError::NotFound => "modified error"@,
                HostFormError::ClientNotFound => "add error the client can not be found"@,
                HostFormError::Tunnel(e) => crate::policy::spec_tunnel_message(e),
                HostFormError::HostExists => "host has exist"@,
            },
    {
        match *self {
            HostFormError::NotFound => owned("modified error"),
            HostFormError::ClientNotFound => owned("add error the client can not be found"),
            HostFormError::Tunnel(e) => e.message(),
            HostFormError::HostExists => owned("host has exist"),
        }
    }
}

/// Why a new route from the host form `m` for client `client_id` is
/// refused: no such client; the client is at its limit
/// ([`at_tunnel_limit`]); the client has a route for the same host and
/// location. None when it goes
/// through.
pub open spec fn spec_add_host_refusal(
    cs: Seq<ClientRuntimeConfig>,
    server: crate::model::ServerConfig,
    client_id: u64,
    m: crate::kv::KvView,
) -> Option<HostFormError> {
    match client_index(cs, client_id) {
        None => Some(HostFormError::ClientNotFound),
        Some(i) => {
            if at_tunnel_limit(server, cs[i]) {
                Some(HostFormError::Tunnel(TunnelError::TunnelLimit))
            } else if spec_host_conflict(
                cs[i].hosts@,
                spec_param(m, "host"@),
                crate::web::form_location(spec_param(m, "location"@)),
                None,
            ) {
                Some(HostFormError::HostExists)
            } else {
                None
            }
        },
    }
}

/// Adds a route with the id from the host form to client `client_id`: see
/// [`spec_add_host_refusal`] for when it is refused (and nothing changes);
/// otherwise the route [`spec_new_host`] is appended to that client's
/// routes and nothing else changes.
pub fn add_host(clients: &mut Vec<ClientRuntimeConfig>, server: &crate::model::ServerConfig, client_id: u64, params: &SectionMap, id: u64) -> (r: Result<(), HostFormError>)
    requires
        forall|k: int| 0 <= k < old(clients)@.len() ==> (#[trigger] old(clients)@[k]).tunnels@.len() + old(clients)@[k].hosts@.len() <= usize::MAX,
    ensures
        match spec_add_host_refusal(old(clients)@, *server, client_id, params@) {
            Some(e) => r == Err::<(), HostFormError>(e) && final(clients)@ == old(clients)@,
            None => match client_index(old(clients)@, client_id) {
                Some(i) => r is Ok && final(clients)@.len() == old(clients)@.len() && (forall|k: int|
                    0 <= k < old(clients)@.len() && k != i ==> #[trigger] final(clients)@[k] == old(clients)@[k])
                    && final(clients)@[i]@ == (ClientRuntimeConfigView {
                        hosts: old(clients)@[i]@.hosts.push(spec_new_host(params@, id, old(clients)@[i].common.vkey@)),
                        ..old(clients)@[i]@
                    }),
                None => false,
            },
        },
{
    proof {
        lemma_client_index(clients@, client_id);
    }
    let ci = match client_pos(clients, client_id) {
        Some(i) => i,
        None => return Err(HostFormError::ClientNotFound),
    };
    let count = crate::policy::tunnel_count(&clients[ci]);
    match crate::policy::ensure_client_tunnel_limit(server, &clients[ci].common.client, count) {
        Ok(()) => {},
        Err(e) => return Err(HostFormError::Tunnel(e)),
    }
    let host = new_host_record(params, id, clients[ci].common.vkey.as_str());
    if host_conflict(&clients[ci].hosts, host.host.as_str(), host.location.as_str(), None) {
        return Err(HostFormError::HostExists);
    }
    let ghost before = clients@;
    let mut config = clients.remove(ci);
    let ghost hs0 = config.hosts@;
    config.hosts.push(host);
    assert(crate::model::hosts_view(config.hosts@) =~= crate::model::hosts_view(hs0).push(spec_new_host(params@, id, before[ci as int].common.vkey@)));
    clients.insert(ci, config);
    assert forall|k: int| 0 <= k < before.len() && k != ci implies #[trigger] clients@[k] == before[k] by {}
    Ok(())
}

/// Why an edit of route `id` with the host form `m` is refused: no such
/// route; another route of its client has the new host and location. None
/// when it goes through.
pub open spec fn spec_edit_host_refusal(cs: Seq<ClientRuntimeConfig>, id: u64, m: crate::kv::KvView) -> Option<HostFormError> {
    match spec_host_pos(cs, id) {
        None => Some(HostFormError::NotFound),
        Some((i, j)) => {
            let u = crate::web::spec_host_form(cs[i].hosts@[j]@, m);
            if spec_host_conflict(cs[i].hosts@, u.host, u.location, Some(id)) {
                Some(HostFormError::HostExists)
            } else {
                None
            }
        },
    }
}

/// Edits route `id` with the host form: see [`spec_edit_host_refusal`] for
/// when it is refused (and nothing changes); otherwise the route takes the
/// form ([`crate::web::spec_host_form`]) and is stored, in its place, and
/// nothing else changes.
pub fn edit_host(clients: &mut Vec<ClientRuntimeConfig>, id: u64, params: &SectionMap) -> (r: Result<(), HostFormError>)
    ensures
        match spec_edit_host_refusal(old(clients)@, id, params@) {
            Some(e) => r == Err::<(), HostFormError>(e) && final(clients)@ == old(clients)@,
            None => match spec_host_pos(old(clients)@, id) {
                Some((i, j)) => r is Ok && final(clients)@.len() == old(clients)@.len() && (forall|k: int|
                    0 <= k < old(clients)@.len() && k != i ==> #[trigger] final(clients)@[k] == old(clients)@[k])
                    && final(clients)@[i]@ == (ClientRuntimeConfigView {
                        hosts: old(clients)@[i]@.hosts.update(
                            j,
                            crate::model::HostView {
                                no_store: false,
                                ..crate::web::spec_host_form(old(clients)@[i].hosts@[j]@, params@)
                            },
                        ),
                        ..old(clients)@[i]@
                    }),
                None => false,
            },
        },
{
    proof {
        lemma_host_pos(clients@, id);
    }
    let (ci, hi) = match host_pos(clients, id) {
        Some(p) => p,
        None => return Err(HostFormError::NotFound),
    };
    let mut updated = clients[ci].hosts[hi].duplicate();
    crate::web::fill_host_from_params(&mut updated, params);
    updated.no_store = false;
    if host_conflict(&clients[ci].hosts, updated.host.as_str(), updated.location.as_str(), Some(id)) {
        return Err(HostFormError::HostExists);
    }
    let ghost before = clients@;
    let ghost uv = updated@;
    let mut config = clients.remove(ci);
    let ghost hs0 = config.hosts@;
    config.hosts.set(hi, updated);
    assert(crate::model::hosts_view(config.hosts@) =~= crate::model::hosts_view(hs0).update(hi as int, uv));
    clients.insert(ci, config);
    assert forall|k: int| 0 <= k < before.len() && k != ci implies #[trigger] clients@[k] == before[k] by {}
    Ok(())
}


// ---------------------------------------------------------------------------
// Tunnel forms
// ---------------------------------------------------------------------------

/// The server limits tunnels and the client has reached its non-zero
/// limit, tunnels and routes counted together.
pub open spec fn at_tunnel_limit(server: crate::model::ServerConfig, c: ClientRuntimeConfig) -> bool {
    server.allow_tunnel_num_limit && c.common.client.max_tunnel_num != 0 && c.tunnels@.len() + c.hosts@.len()
        >= c.common.client.max_tunnel_num
}

/// Why a tunnel form was refused.
#[derive(PartialEq, Eq, Structural, Clone, Copy, Debug)]
pub enum TunnelFormError {
    /// No tunnel has the id (an edit).
    NotFound,
    /// No tunnel has the id (a copy).
    SourceNotFound,
    /// No client has the id.
    ClientNotFound,
    /// The tunnel's ports or the client's limit refuse it.
    Tunnel(TunnelError),
}

impl TunnelFormError {
    /// The message reported for the refusal.
    pub fn message(&self) -> (r: String)
        ensures
            r@ == match *self {
                TunnelFormError::NotFound => "modified error"@,
                TunnelFormError::SourceNotFound => "copy error"@,
                TunnelFormError::ClientNotFound => "add error the client can not be found"@,
                TunnelFormError::Tunnel(e) => crate::policy::spec_tunnel_message(e),
            },
    {
        match *self {
            TunnelFormError::NotFound => owned("modified error"),
            TunnelFormError::SourceNotFound => owned("copy error"),
            TunnelFormError::ClientNotFound => owned("add error the client can not be found"),
            TunnelFormError::Tunnel(e) => e.message(),
        }
    }
}

/// Adding the form's tunnel `t` to client `client_id`, with `generated`
/// the port found for a tunnel without one: its port is settled, its ports
/// must be allowed, the client must exist and be under its limit. Gives the
/// client's place and the tunnel as added (with the client's key).
pub open spec fn spec_add_tunnel(
    cs: Seq<ClientRuntimeConfig>,
    server: crate::model::ServerConfig,
    client_id: u64,
    t: TunnelView,
    generated: Option<u16>,
) -> Result<(int, TunnelView), TunnelFormError> {
    match crate::policy::spec_assign_port(t, generated) {
        Err(e) => Err(TunnelFormError::Tunnel(e)),
        Ok(v) => match spec_validate_tunnel_ports(server.allow_ports@, v.mode, v.ports, v.server_port) {
            Some(p) => Err(TunnelFormError::Tunnel(TunnelError::PortNotAllowed(p))),
            None => match client_index(cs, client_id) {
                None => Err(TunnelFormError::ClientNotFound),
                Some(i) => if at_tunnel_limit(server, cs[i]) {
                    Err(TunnelFormError::Tunnel(TunnelError::TunnelLimit))
                } else {
                    Ok((i, TunnelView { client_vkey: cs[i].common.vkey@, ..v }))
                },
            },
        },
    }
}

/// Adds the form's tunnel to client `client_id`: see [`spec_add_tunnel`];
/// when refused nothing changes, otherwise the tunnel is appended to that
/// client's tunnels and given back.
pub fn add_tunnel(
    clients: &mut Vec<ClientRuntimeConfig>,
    server: &crate::model::ServerConfig,
    client_id: u64,
    tunnel: Tunnel,
    generated: Option<u16>,
) -> (r: Result<Tunnel, TunnelFormError>)
    requires
        forall|k: int| 0 <= k < old(clients)@.len() ==> (#[trigger] old(clients)@[k]).tunnels@.len() + old(clients)@[k].hosts@.len() <= usize::MAX,
    ensures
        match spec_add_tunnel(old(clients)@, *server, client_id, tunnel@, generated) {
            Err(e) => (r matches Err(x) && x == e) && final(clients)@ == old(clients)@,
            Ok((i, v)) => (r matches Ok(t) && t@ == v) && final(clients)@.len() == old(clients)@.len() && (forall|k: int|
                0 <= k < old(clients)@.len() && k != i ==> #[trigger] final(clients)@[k] == old(clients)@[k])
                && final(clients)@[i]@ == (ClientRuntimeConfigView { tunnels: old(clients)@[i]@.tunnels.push(v), ..old(clients)@[i]@ }),
        },
{
    let mut t = tunnel;
    match crate::policy::ensure_tunnel_server_port(&mut t, generated) {
        Ok(()) => {},
        Err(e) => return Err(TunnelFormError::Tunnel(e)),
    }
    match crate::policy::validate_tunnel_ports(server, &t) {
        Ok(()) => {},
        Err(e) => return Err(TunnelFormError::Tunnel(e)),
    }
    proof {
        lemma_client_index(clients@, client_id);
    }
    let ci = match client_pos(clients, client_id) {
        Some(i) => i,
        None => return Err(TunnelFormError::ClientNotFound),
    };
    let count = crate::policy::tunnel_count(&clients[ci]);
    match crate::policy::ensure_client_tunnel_limit(server, &clients[ci].common.client, count) {
        Ok(()) => {},
        Err(e) => return Err(TunnelFormError::Tunnel(e)),
    }
    t.client_vkey = clients[ci].common.vkey.clone();
    let out = t.duplicate();
    let ghost before = clients@;
    let mut config = clients.remove(ci);
    let ghost ts0 = config.tunnels@;
    let ghost tv = t@;
    config.tunnels.push(t);
    assert(crate::model::tunnels_view(config.tunnels@) =~= crate::model::tunnels_view(ts0).push(tv));
    clients.insert(ci, config);
    assert forall|k: int| 0 <= k < before.len() && k != ci implies #[trigger] clients@[k] == before[k] by {}
    Ok(out)
}

/// Applies the tunnel edit form to tunnel `id` in its place, giving the
/// tunnel before and after; none (and no change) without such a tunnel.
/// The edit is finished by [`finish_tunnel_edit`].
pub fn begin_tunnel_edit(clients: &mut Vec<ClientRuntimeConfig>, id: u64, params: &SectionMap) -> (r: Option<(Tunnel, Tunnel)>)
    ensures
        match spec_tunnel_pos(old(clients)@, id) {
            None => r is None && final(clients)@ == old(clients)@,
            Some((i, j)) => (r matches Some((prev, cur)) && prev@ == old(clients)@[i].tunnels@[j]@
                && cur@ == spec_tunnel_edit(prev@, params@)) && final(clients)@.len() == old(clients)@.len()
                && (forall|k: int| 0 <= k < old(clients)@.len() && k != i ==> #[trigger] final(clients)@[k] == old(clients)@[k])
                && final(clients)@[i]@ == (ClientRuntimeConfigView {
                    tunnels: old(clients)@[i]@.tunnels.update(j, spec_tunnel_edit(old(clients)@[i].tunnels@[j]@, params@)),
                    ..old(clients)@[i]@
                }),
        },
{
    proof {
        lemma_tunnel_pos(clients@, id);
    }
    let (ci, ti) = match tunnel_pos(clients, id) {
        Some(p) => p,
        None => return None,
    };
    let prev = clients[ci].tunnels[ti].duplicate();
    let mut edited = prev.duplicate();
    edit_tunnel_from_params(&mut edited, params);
    let cur = edited.duplicate();
    let ghost before = clients@;
    let ghost ev = edited@;
    let mut config = clients.remove(ci);
    let ghost ts0 = config.tunnels@;
    config.tunnels.set(ti, edited);
    assert(crate::model::tunnels_view(config.tunnels@) =~= crate::model::tunnels_view(ts0).update(ti as int, ev));
    clients.insert(ci, config);
    assert forall|k: int| 0 <= k < before.len() && k != ci implies #[trigger] clients@[k] == before[k] by {}
    Some((prev, cur))
}

/// Finishes the edit of tunnel `id`, with `generated` the port found for a
/// tunnel left without one: its port is settled in place (see
/// [`crate::policy::spec_assign_port`]; nothing changes when that fails),
/// then its ports must be allowed. Gives the tunnel as it now stands.
pub fn finish_tunnel_edit(
    clients: &mut Vec<ClientRuntimeConfig>,
    server: &crate::model::ServerConfig,
    id: u64,
    generated: Option<u16>,
) -> (r: Result<Tunnel, TunnelFormError>)
    ensures
        match spec_tunnel_pos(old(clients)@, id) {
            None => r == Err::<Tunnel, TunnelFormError>(TunnelFormError::NotFound) && final(clients)@ == old(clients)@,
            Some((i, j)) => match crate::policy::spec_assign_port(old(clients)@[i].tunnels@[j]@, generated) {
                Err(e) => (r matches Err(x) && x == TunnelFormError::Tunnel(e)) && final(clients)@ == old(clients)@,
                Ok(v) => final(clients)@.len() == old(clients)@.len() && (forall|k: int|
                    0 <= k < old(clients)@.len() && k != i ==> #[trigger] final(clients)@[k] == old(clients)@[k])
                    && final(clients)@[i]@ == (ClientRuntimeConfigView {
                        tunnels: old(clients)@[i]@.tunnels.update(j, v),
                        ..old(clients)@[i]@
                    }) && match spec_validate_tunnel_ports(server.allow_ports@, v.mode, v.ports, v.server_port) {
                        Some(p) => r matches Err(x) && x == TunnelFormError::Tunnel(TunnelError::PortNotAllowed(p)),
                        None => r matches Ok(t) && t@ == v,
                    },
            },
        },
{
    proof {
        lemma_tunnel_pos(clients@, id);
    }
    let (ci, ti) = match tunnel_pos(clients, id) {
        Some(p) => p,
        None => return Err(TunnelFormError::NotFound),
    };
    let mut t = clients[ci].tunnels[ti].duplicate();
    match crate::policy::ensure_tunnel_server_port(&mut t, generated) {
        Ok(()) => {},
        Err(e) => return Err(TunnelFormError::Tunnel(e)),
    }
    let checked = crate::policy::validate_tunnel_ports(server, &t);
    let cur = t.duplicate();
    let ghost before = clients@;
    let ghost tv = t@;
    let mut config = clients.remove(ci);
    let ghost ts0 = config.tunnels@;
    config.tunnels.set(ti, t);
    assert(crate::model::tunnels_view(config.tunnels@) =~= crate::model::tunnels_view(ts0).update(ti as int, tv));
    clients.insert(ci, config);
    assert forall|k: int| 0 <= k < before.len() && k != ci implies #[trigger] clients@[k] == before[k] by {}
    match checked {
        Ok(()) => Ok(cur),
        Err(e) => Err(TunnelFormError::Tunnel(e)),
    }
}

/// Copies tunnel `id` into the client that holds it, with `generated` the
/// port found for the copy: see [`copied_tunnel`] for the copy, which
/// takes the next id of the sequence once the client is known to be under
/// its limit, and [`crate::policy::spec_assign_port`] for its port. When
/// refused the clients do not change. Gives the copy.
pub fn copy_tunnel(
    clients: &mut Vec<ClientRuntimeConfig>,
    server: &crate::model::ServerConfig,
    seq: &mut IdSequence,
    id: u64,
    generated: Option<u16>,
) -> (r: Result<Tunnel, TunnelFormError>)
    requires
        forall|k: int| 0 <= k < old(clients)@.len() ==> (#[trigger] old(clients)@[k]).tunnels@.len() + old(clients)@[k].hosts@.len() <= usize::MAX,
    ensures
        match spec_tunnel_pos(old(clients)@, id) {
            None => r == Err::<Tunnel, TunnelFormError>(TunnelFormError::SourceNotFound) && final(clients)@ == old(clients)@
                && final(seq).next == old(seq).next,
            Some((i, j)) => if at_tunnel_limit(*server, old(clients)@[i]) {
                r == Err::<Tunnel, TunnelFormError>(TunnelFormError::Tunnel(TunnelError::TunnelLimit)) && final(clients)@
                    == old(clients)@ && final(seq).next == old(seq).next
            } else {
                final(seq).next == old(seq).next.wrapping_add(1) && match crate::policy::spec_assign_port(
                    TunnelView {
                        id: old(seq).next,
                        server_port: 0,
                        ports: Seq::empty(),
                        status: false,
                        run_status: false,
                        no_store: false,
                        ..old(clients)@[i].tunnels@[j]@
                    },
                    generated,
                ) {
                    Err(e) => (r matches Err(x) && x == TunnelFormError::Tunnel(e)) && final(clients)@ == old(clients)@,
                    Ok(v) => (r matches Ok(t) && t@ == v) && final(clients)@.len() == old(clients)@.len() && (forall|k: int|
                        0 <= k < old(clients)@.len() && k != i ==> #[trigger] final(clients)@[k] == old(clients)@[k])
                        && final(clients)@[i]@ == (ClientRuntimeConfigView {
                            tunnels: old(clients)@[i]@.tunnels.push(v),
                            ..old(clients)@[i]@
                        }),
                }
            },
        },
{
    proof {
        lemma_tunnel_pos(clients@, id);
    }
    let (ci, ti) = match tunnel_pos(clients, id) {
        Some(p) => p,
        None => return Err(TunnelFormError::SourceNotFound),
    };
    let count = crate::policy::tunnel_count(&clients[ci]);
    match crate::policy::ensure_client_tunnel_limit(server, &clients[ci].common.client, count) {
        Ok(()) => {},
        Err(e) => return Err(TunnelFormError::Tunnel(e)),
    }
    let new_id = seq.next_link_id();
    let mut t = copied_tunnel(&clients[ci].tunnels[ti], new_id);
    match crate::policy::ensure_tunnel_server_port(&mut t, generated) {
        Ok(()) => {},
        Err(e) => return Err(TunnelFormError::Tunnel(e)),
    }
    let out = t.duplicate();
    let ghost before = clients@;
    let ghost tv = t@;
    let mut config = clients.remove(ci);
    let ghost ts0 = config.tunnels@;
    config.tunnels.push(t);
    assert(crate::model::tunnels_view(config.tunnels@) =~= crate::model::tunnels_view(ts0).push(tv));
    clients.insert(ci, config);
    assert forall|k: int| 0 <= k < before.len() && k != ci implies #[trigger] clients@[k] == before[k] by {}
    Ok(out)
}

// ---------------------------------------------------------------------------
// Closed and deleted routes
// ---------------------------------------------------------------------------

/// No two routes of the table share an id.
pub open spec fn host_ids_unique(cs: Seq<ClientRuntimeConfig>) -> bool {
    forall|a: int, j: int, b: int, k: int|
        0 <= a < cs.len() && 0 <= j < cs[a].hosts@.len() && 0 <= b < cs.len() && 0 <= k < cs[b].hosts@.len()
            && (a != b || j != k) ==> #[trigger] cs[a].hosts@[j].id != #[trigger] cs[b].hosts@[k].id
}

/// Every route of the table with the id is closed.
pub open spec fn closed_wherever(cs: Seq<ClientRuntimeConfig>, id: u64) -> bool {
    forall|a: int, j: int| 0 <= a < cs.len() && 0 <= j < cs[a].hosts@.len() && (#[trigger] cs[a].hosts@[j]).id == id
        ==> cs[a].hosts@[j].is_close
}

proof fn lemma_routes_closed(cs: Seq<ClientRuntimeConfig>, id: u64)
    requires
        closed_wherever(cs, id),
    ensures
        forall|k: int| 0 <= k < all_routes(cs).len() && (#[trigger] all_routes(cs)[k]).1.id == id ==> all_routes(cs)[k].1.is_close,
    decreases cs.len(),
{
    if cs.len() > 0 {
        let d = cs.drop_last();
        assert forall|a: int, j: int| 0 <= a < d.len() && 0 <= j < d[a].hosts@.len() && (#[trigger] d[a].hosts@[j]).id == id
            implies d[a].hosts@[j].is_close by {
            assert(d[a] == cs[a]);
        }
        lemma_routes_closed(d, id);
        let c = cs.last();
        assert(c == cs[cs.len() - 1]);
        let n = all_routes(d).len();
        assert forall|k: int| 0 <= k < all_routes(cs).len() && (#[trigger] all_routes(cs)[k]).1.id == id implies all_routes(cs)[k].1.is_close by {
            if k < n {
                assert(all_routes(cs)[k] == all_routes(d)[k]);
            } else {
                assert(all_routes(cs)[k] == (c.common.client.status, c.hosts@[k - n]));
                assert(cs[cs.len() - 1].hosts@[k - n].id == id);
            }
        }
    }
}

proof fn lemma_best_route_open(routes: Seq<(bool, Host)>, id: u64, host: Seq<char>, path: Seq<char>, scheme: Seq<char>)
    requires
        forall|k: int| 0 <= k < routes.len() && (#[trigger] routes[k]).1.id == id ==> routes[k].1.is_close,
    ensures
        best_route(routes, host, path, scheme) matches Some(h) ==> h.id != id,
    decreases routes.len(),
{
    if routes.len() > 0 {
        let d = routes.drop_last();
        assert forall|k: int| 0 <= k < d.len() && (#[trigger] d[k]).1.id == id implies d[k].1.is_close by {
            assert(d[k] == routes[k]);
        }
        lemma_best_route_open(d, id, host, path, scheme);
        assert(routes.last() == routes[routes.len() - 1]);
    }
}

proof fn lemma_without_host_drops(hs: Seq<crate::model::HostView>, id: u64)
    ensures
        forall|k: int| 0 <= k < without_host(hs, id).len() ==> (#[trigger] without_host(hs, id)[k]).id != id,
    decreases hs.len(),
{
    if hs.len() > 0 {
        lemma_without_host_drops(hs.drop_last(), id);
        let w = without_host(hs.drop_last(), id);
        assert forall|k: int| 0 <= k < without_host(hs, id).len() implies (#[trigger] without_host(hs, id)[k]).id != id by {
            if hs.last().id != id && k == w.len() {
                assert(without_host(hs, id)[k] == hs.last());
            } else {
                assert(without_host(hs, id)[k] == w[k]);
            }
        }
    }
}

/// A closed route is no longer served: once route `id` is closed, looking
/// up the route for any request never gives it (route ids being unique).
pub proof fn lemma_closed_route_not_served(
    before: Seq<ClientRuntimeConfig>,
    after: Seq<ClientRuntimeConfig>,
    id: u64,
    host: Seq<char>,
    path: Seq<char>,
    scheme: Seq<char>,
)
    requires
        host_ids_unique(before),
        host_closed_in(before, after, id, true),
    ensures
        best_route(all_routes(after), host, path, scheme) matches Some(h) ==> h.id != id,
{
    lemma_host_pos(before, id);
    match spec_host_pos(before, id) {
        Some((i, j0)) => {
            assert forall|a: int, j: int| 0 <= a < after.len() && 0 <= j < after[a].hosts@.len() && (#[trigger] after[a].hosts@[j]).id == id
                implies after[a].hosts@[j].is_close by {
                if a != i {
                    assert(after[a] == before[a]);
                    assert(before[a].hosts@[j].id != before[i].hosts@[j0].id);
                } else if j != j0 {
                    assert(after[i].hosts@[j] == before[i].hosts@[j]);
                    assert(before[i].hosts@[j].id != before[i].hosts@[j0].id);
                } else {
                    assert(after[i].hosts@[j0]@.is_close);
                }
            }
        },
        None => {},
    }
    lemma_routes_closed(after, id);
    lemma_best_route_open(all_routes(after), id, host, path, scheme);
}

/// A deleted route is no longer served: once route `id` is deleted,
/// looking up the route for any request never gives it (route ids being
/// unique).
pub proof fn lemma_deleted_route_not_served(
    before: Seq<ClientRuntimeConfig>,
    after: Seq<ClientRuntimeConfig>,
    id: u64,
    host: Seq<char>,
    path: Seq<char>,
    scheme: Seq<char>,
)
    requires
        host_ids_unique(before),
        host_removed_in(before, after, id),
    ensures
        best_route(all_routes(after), host, path, scheme) matches Some(h) ==> h.id != id,
{
    lemma_host_pos(before, id);
    match spec_host_pos(before, id) {
        Some((i, j0)) => {
            let w = without_host(crate::model::hosts_view(before[i].hosts@), id);
            lemma_without_host_drops(crate::model::hosts_view(before[i].hosts@), id);
            assert forall|a: int, j: int| 0 <= a < after.len() && 0 <= j < after[a].hosts@.len() && (#[trigger] after[a].hosts@[j]).id == id
                implies after[a].hosts@[j].is_close by {
                if a != i {
                    assert(after[a] == before[a]);
                    assert(before[a].hosts@[j].id != before[i].hosts@[j0].id);
                } else {
                    assert(crate::model::hosts_view(after[i].hosts@)[j] == after[i].hosts@[j]@);
                    assert(w[j].id != id);
                }
            }
        },
        None => {},
    }
    lemma_routes_closed(after, id);
    lemma_best_route_open(all_routes(after), id, host, path, scheme);
}

} // verus!
