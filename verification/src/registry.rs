//! The server's bookkeeping of clients and tunnels: ids, the tunnels that
//! actually run, how a tunnel is started, the links it opens, the secret
//! table, and installing a client's configuration.
use vstd::prelude::*;
use crate::config::{expand_ports, expand_targets, spec_expand_ports, spec_expand_targets};
use crate::model::{
    ClientInfoView, ClientRuntimeConfig, ClientRuntimeConfigView, CommonConfigView, Host, HostView,
    ServerConfig, Target, TargetView, Tunnel, TunnelView, configs_view, hosts_view, strings_view,
    tunnels_view,
};
use crate::policy::{
    ensure_client_tunnel_limit, listener_key, spec_validate_tunnel_ports, validate_tunnel_ports,
    TunnelError,
};
use crate::protocol::{FileServe, Link, LinkKind};
use crate::text::{append, append_str, chars_of, dec, dec_exec, eq_ic, eq_ignore_case_str, eq_str, lower, lower_vec, owned, string_of, trim, trim_str};

verus! {

broadcast use vstd::string::group_string_axioms;

// ---------------------------------------------------------------------------
// Ids
// ---------------------------------------------------------------------------

/// The source of link, tunnel, host and client ids: hands out increasing
/// numbers and never one at or below an id it has seen.
pub struct IdSequence {
    pub next: u64,
}

impl IdSequence {
    /// A sequence starting at 1.
    pub fn new() -> (r: Self)
        ensures
            r.next == 1,
    {
        IdSequence { next: 1 }
    }

    /// The next id.
    pub fn next_link_id(&mut self) -> (r: u64)
        ensures
            r == old(self).next,
            final(self).next == old(self).next.wrapping_add(1),
    {
        let r = self.next;
        self.next = self.next.wrapping_add(1);
        r
    }

    /// Records an id taken from elsewhere so that later ids are larger
    /// (the sequence wraps after `u64::MAX`).
    pub fn observe_id(&mut self, id: u64)
        ensures
            final(self).next == spec_observe(old(self).next, id),
    {
        if self.next <= id {
            self.next = id.wrapping_add(1);
        }
    }
}

/// The sequence after seeing `id`.
pub open spec fn spec_observe(next: u64, id: u64) -> u64 {
    if next <= id {
        id.wrapping_add(1)
    } else {
        next
    }
}

/// After an id is seen, the next id handed out is larger than it.
pub proof fn lemma_fresh_after_observe(next: u64, id: u64)
    requires
        id < u64::MAX,
    ensures
        spec_observe(next, id) > id,
{
}

/// One call on an [`IdSequence`]: `observe_id` with an id, or
/// `next_link_id`.
pub enum IdStep {
    Observe(u64),
    Issue,
}

/// The sequence's counter after one call.
pub open spec fn spec_id_step(next: u64, step: IdStep) -> u64 {
    match step {
        IdStep::Observe(id) => spec_observe(next, id),
        IdStep::Issue => next.wrapping_add(1),
    }
}

/// The counter after the calls `steps`, in order, starting from `next`.
pub open spec fn spec_id_run(next: u64, steps: Seq<IdStep>) -> u64
    decreases steps.len(),
{
    if steps.len() == 0 {
        next
    } else {
        spec_id_step(spec_id_run(next, steps.drop_last()), steps.last())
    }
}

/// The id that call `i` of `steps` dealt with: the id observed, or the id
/// handed out.
pub open spec fn spec_step_id(next: u64, steps: Seq<IdStep>, i: int) -> u64 {
    match steps[i] {
        IdStep::Observe(id) => id,
        IdStep::Issue => spec_id_run(next, steps.take(i)),
    }
}

/// Ids never repeat: after any run of `observe_id` and `next_link_id`
/// calls in which no id reaches `u64::MAX`, the id handed out next is larger
/// than every id observed and every id handed out before.
pub proof fn lemma_ids_fresh(next: u64, steps: Seq<IdStep>)
    requires
        forall|i: int| 0 <= i < steps.len() ==> spec_step_id(next, steps, i) < u64::MAX,
    ensures
        forall|i: int|
            0 <= i < steps.len() ==> spec_id_run(next, steps) > #[trigger] spec_step_id(
                next,
                steps,
                i,
            ),
    decreases steps.len(),
{
    if steps.len() > 0 {
        let k = steps.len() - 1;
        let pre = steps.drop_last();
        assert forall|i: int| 0 <= i < pre.len() implies spec_step_id(next, pre, i)
            == spec_step_id(next, steps, i) by {
            assert(pre.take(i) =~= steps.take(i));
        }
        lemma_ids_fresh(next, pre);
        assert(steps.take(k) =~= pre);
        let n = spec_id_run(next, pre);
        assert(spec_step_id(next, steps, k) < u64::MAX);
        assert(spec_id_run(next, steps) >= n);
        assert(spec_id_run(next, steps) > spec_step_id(next, steps, k));
        assert forall|i: int| 0 <= i < steps.len() implies spec_id_run(next, steps)
            > #[trigger] spec_step_id(next, steps, i) by {
            if i < k {
                assert(spec_step_id(next, pre, i) == spec_step_id(next, steps, i));
            }
        }
    }
}

// ---------------------------------------------------------------------------
// Running tunnels
// ---------------------------------------------------------------------------

/// Secret and p2p tunnels have no listener.
pub open spec fn is_visitor_mode(mode: Seq<char>) -> bool {
    lower(mode) == "secret"@ || lower(mode) == "p2p"@
}

/// The tunnels one configured tunnel runs as: one per port of its list
/// (each named `remark_port` and taking the target at the same place when
/// there are several ports), or the tunnel itself for visitor modes and
/// empty port lists.
pub open spec fn expand_one(t: TunnelView) -> Seq<TunnelView> {
    let ports = spec_expand_ports(t.ports);
    let targets = spec_expand_targets(t.target_addr, t.target.target_str);
    if is_visitor_mode(t.mode) || ports.len() == 0 {
        seq![t]
    } else {
        Seq::new(
            ports.len(),
            |i: int|
                TunnelView {
                    server_port: ports[i],
                    remark: if ports.len() > 1 {
                        t.remark + seq!['_'] + dec(ports[i] as nat)
                    } else {
                        t.remark
                    },
                    target: if ports.len() > 1 && i < targets.len() {
                        TargetView { target_str: targets[i], local_proxy: t.target.local_proxy }
                    } else {
                        t.target
                    },
                    ..t
                },
        )
    }
}

/// Every configured tunnel expanded, in order.
pub open spec fn expand_all(ts: Seq<TunnelView>) -> Seq<TunnelView>
    decreases ts.len(),
{
    if ts.len() == 0 {
        Seq::empty()
    } else {
        expand_all(ts.drop_last()) + expand_one(ts.last())
    }
}

fn expand_tunnel(t: &Tunnel, out: &mut Vec<Tunnel>)
    ensures
        tunnels_view(final(out)@) == tunnels_view(old(out)@) + expand_one(t@),
{
    let ghost start = tunnels_view(out@);
    let mode = lower_vec(&chars_of(t.mode.as_str()));
    let ports = expand_ports(t.ports.as_str());
    if eq_str(&mode, "secret") || eq_str(&mode, "p2p") || ports.len() == 0 {
        out.push(t.duplicate());
        assert(tunnels_view(out@) =~= start + seq![t@]);
        return;
    }
    let targets = expand_targets(t.target_addr.as_str(), t.target.target_str.as_str());
    let ghost tv = strings_view(targets@);
    let mut i: usize = 0;
    while i < ports.len()
        invariant
            i <= ports.len(),
            ports@ == spec_expand_ports(t.ports@),
            tv == strings_view(targets@),
            tv == spec_expand_targets(t.target_addr@, t.target.target_str@),
            !is_visitor_mode(t.mode@),
            ports.len() > 0,
            tunnels_view(out@) == start + expand_one(t@).take(i as int),
        decreases ports.len() - i,
    {
        let mut c = t.duplicate();
        c.server_port = ports[i];
        if ports.len() > 1 {
            let mut r = chars_of(t.remark.as_str());
            r.push('_');
            append(&mut r, &dec_exec(ports[i] as u64));
            c.remark = string_of(&r);
            if i < targets.len() {
                c.target.target_str = targets[i].clone();
            }
        }
        let ghost before = out@;
        out.push(c);
        assert(c@ == expand_one(t@)[i as int]);
        assert(tunnels_view(out@) =~= tunnels_view(before).push(c@));
        assert(expand_one(t@).take(i + 1) =~= expand_one(t@).take(i as int).push(c@));
        i += 1;
    }
    assert(expand_one(t@).take(ports.len() as int) =~= expand_one(t@));
}

/// The tunnels a client's configuration runs as.
pub fn expand_runtime_tunnels(config: &ClientRuntimeConfig) -> (r: Vec<Tunnel>)
    ensures
        tunnels_view(r@) == expand_all(tunnels_view(config.tunnels@)),
{
    let ghost ts = tunnels_view(config.tunnels@);
    let mut out: Vec<Tunnel> = Vec::new();
    let mut i: usize = 0;
    assert(tunnels_view(out@) =~= expand_all(ts.take(0)));
    while i < config.tunnels.len()
        invariant
            ts == tunnels_view(config.tunnels@),
            i <= config.tunnels.len(),
            tunnels_view(out@) == expand_all(ts.take(i as int)),
        decreases config.tunnels.len() - i,
    {
        assert(ts.take(i + 1).drop_last() =~= ts.take(i as int));
        assert(ts.take(i + 1).last() == config.tunnels@[i as int]@);
        expand_tunnel(&config.tunnels[i], &mut out);
        i += 1;
    }
    assert(ts.take(config.tunnels.len() as int) =~= ts);
    out
}

// ---------------------------------------------------------------------------
// Starting tunnels
// ---------------------------------------------------------------------------

/// The listener that serves a mode.
#[derive(PartialEq, Eq, Structural, Clone, Copy, Debug)]
pub enum ListenerKind {
    /// `tcp`, `tcptrans` and `file`.
    Tcp,
    HttpProxy,
    Socks5,
    Udp,
    /// A mode without a listener.
    Unknown,
}

pub open spec fn spec_listener_kind(mode: Seq<char>) -> ListenerKind {
    let m = lower(mode);
    if m == "tcp"@ || m == "tcptrans"@ || m == "file"@ {
        ListenerKind::Tcp
    } else if m == "httpproxy"@ {
        ListenerKind::HttpProxy
    } else if m == "socks5"@ {
        ListenerKind::Socks5
    } else if m == "udp"@ {
        ListenerKind::Udp
    } else {
        ListenerKind::Unknown
    }
}

/// What starting a tunnel does.
#[derive(Debug)]
pub enum StartPlan {
    /// The tunnel is disabled.
    Disabled,
    /// A port is not allowed.
    Invalid(TunnelError),
    /// A visitor tunnel: registered by password when it has one.
    Secret { register: bool },
    /// The tunnel has no port to listen on.
    NoListenPort,
    /// A listener under the tunnel's key runs already: nothing starts.
    AlreadyRunning,
    /// A listener under `key` of the given kind.
    Listen { key: String, kind: ListenerKind },
}

fn key_running(running: &Vec<String>, key: &String) -> (r: bool)
    ensures
        r == strings_view(running@).contains(key@),
{
    let ghost rv = strings_view(running@);
    let mut i: usize = 0;
    while i < running.len()
        invariant
            rv == strings_view(running@),
            i <= running.len(),
            forall|k: int| 0 <= k < i ==> rv[k] != key@,
        decreases running.len() - i,
    {
        if eq_str(&chars_of(running[i].as_str()), key.as_str()) {
            assert(rv[i as int] == key@);
            return true;
        }
        i += 1;
    }
    false
}

/// The key of the listener a tunnel with a port listens under.
pub open spec fn spec_listener_key_of(tunnel: Tunnel) -> Seq<char> {
    lower(tunnel.mode@) + seq![':'] + tunnel.server_ip@ + seq![':'] + dec(tunnel.server_port as nat)
}

/// Decides how a tunnel is started; `running` holds the keys of the
/// listeners that run already.
pub fn start_tunnel_task(server: &ServerConfig, tunnel: &Tunnel, running: &Vec<String>) -> (r: StartPlan)
    ensures
        !tunnel.status ==> r is Disabled,
        tunnel.status ==> match spec_validate_tunnel_ports(
            server.allow_ports@,
            tunnel.mode@,
            tunnel.ports@,
            tunnel.server_port,
        ) {
            Some(p) => r == StartPlan::Invalid(TunnelError::PortNotAllowed(p)),
            None => if is_visitor_mode(tunnel.mode@) {
                r == StartPlan::Secret { register: tunnel.password@.len() > 0 }
            } else if tunnel.server_port == 0 {
                r is NoListenPort
            } else if strings_view(running@).contains(spec_listener_key_of(*tunnel)) {
                r is AlreadyRunning
            } else {
                r matches StartPlan::Listen { key, kind } && key@ == spec_listener_key_of(*tunnel)
                    && kind == spec_listener_kind(tunnel.mode@)
            },
        },
{
    if !tunnel.status {
        return StartPlan::Disabled;
    }
    match validate_tunnel_ports(server, tunnel) {
        Err(e) => return StartPlan::Invalid(e),
        Ok(()) => {},
    }
    let m = lower_vec(&chars_of(tunnel.mode.as_str()));
    if eq_str(&m, "secret") || eq_str(&m, "p2p") {
        return StartPlan::Secret { register: !tunnel.password.as_str().is_empty() };
    }
    let key = match listener_key(tunnel) {
        Some(k) => k,
        None => return StartPlan::NoListenPort,
    };
    if key_running(running, &key) {
        return StartPlan::AlreadyRunning;
    }
    let kind = if eq_str(&m, "tcp") || eq_str(&m, "tcptrans") || eq_str(&m, "file") {
        ListenerKind::Tcp
    } else if eq_str(&m, "httpproxy") {
        ListenerKind::HttpProxy
    } else if eq_str(&m, "socks5") {
        ListenerKind::Socks5
    } else if eq_str(&m, "udp") {
        ListenerKind::Udp
    } else {
        ListenerKind::Unknown
    };
    StartPlan::Listen { key, kind }
}

/// The last entry of the secret table under `key` (later entries replace
/// earlier ones), looking from the end of the first `n` entries.
pub open spec fn last_entry(es: Seq<(Seq<char>, TunnelView)>, key: Seq<char>, n: int) -> Option<TunnelView>
    decreases n,
{
    if n <= 0 || n > es.len() {
        None
    } else if es[n - 1].0 == key {
        Some(es[n - 1].1)
    } else {
        last_entry(es, key, n - 1)
    }
}

/// The tunnel a visitor's password opens: the entry under the password
/// itself, else the entry under its MD5 hex digest.
pub open spec fn spec_secret_lookup(es: Seq<(Seq<char>, TunnelView)>, password: Seq<char>) -> Option<TunnelView> {
    match last_entry(es, password, es.len() as int) {
        Some(t) => Some(t),
        None => last_entry(es, crate::http::hex_lower(crate::http::md5_of(vstd::utf8::encode_utf8(password))), es.len() as int),
    }
}

fn last_entry_exec(entries: &Vec<(String, Tunnel)>, key: &str) -> (r: Option<Tunnel>)
    ensures
        match last_entry(entries_view(entries@), key@, entries@.len() as int) {
            Some(t) => r matches Some(x) && x@ == t,
            None => r is None,
        },
{
    let ghost es = entries_view(entries@);
    let mut n: usize = entries.len();
    while n > 0
        invariant
            es == entries_view(entries@),
            n <= entries.len(),
            last_entry(es, key@, entries@.len() as int) == last_entry(es, key@, n as int),
        decreases n,
    {
        if eq_str(&chars_of(entries[n - 1].0.as_str()), key) {
            return Some(entries[n - 1].1.duplicate());
        }
        n -= 1;
    }
    None
}

/// Finds the tunnel a visitor's password opens in the secret table.
pub fn secret_lookup(entries: &Vec<(String, Tunnel)>, password: &str) -> (r: Option<Tunnel>)
    ensures
        match spec_secret_lookup(entries_view(entries@), password@) {
            Some(t) => r matches Some(x) && x@ == t,
            None => r is None,
        },
{
    match last_entry_exec(entries, password) {
        Some(t) => Some(t),
        None => {
            let hashed = crate::http::md5_hex(password);
            last_entry_exec(entries, hashed.as_str())
        },
    }
}

/// The link a secret or p2p visitor asks the tunnel's client to open: to
/// the target the visitor names, or (when it names none) the tunnel's
/// first target, or its whole target text when the list is empty; a p2p
/// link for p2p tunnels and a secret link otherwise.
pub fn visitor_link(tunnel: &Tunnel, visitor_target: &str, remote: String, crypt: bool, compress: bool) -> (r: Link)
    ensures
        r.target@ == if trim(visitor_target@).len() > 0 {
            visitor_target@
        } else if crate::model::target_items(tunnel.target.target_str@).len() > 0 {
            crate::model::target_items(tunnel.target.target_str@)[0]
        } else {
            tunnel.target.target_str@
        },
        r.kind == if eq_ic(tunnel.mode@, "p2p"@) {
            LinkKind::P2p
        } else {
            LinkKind::Secret
        },
        r.remote_addr == remote,
        r.crypt == crypt,
        r.compress == compress,
        r.local_proxy == tunnel.target.local_proxy,
        r.proto_version@.len() == 0,
        r.file is None,
{
    let target = if trim_str(visitor_target).len() > 0 {
        owned(visitor_target)
    } else {
        match tunnel.target.pick(0) {
            Some((t, _)) => t,
            None => tunnel.target.target_str.clone(),
        }
    };
    Link {
        kind: if eq_ignore_case_str(&chars_of(tunnel.mode.as_str()), "p2p") {
            LinkKind::P2p
        } else {
            LinkKind::Secret
        },
        target,
        remote_addr: remote,
        crypt,
        compress,
        local_proxy: tunnel.target.local_proxy,
        proto_version: String::new(),
        file: None,
    }
}

/// The key under which a listener remembers its next target.
pub fn cursor_key(tunnel: &Tunnel) -> (r: String)
    ensures
        r@ == tunnel.client_vkey@ + seq![':'] + tunnel.remark@,
{
    let mut k = chars_of(tunnel.client_vkey.as_str());
    k.push(':');
    append_str(&mut k, tunnel.remark.as_str());
    string_of(&k)
}

/// The link a listener asks the client to open for an accepted
/// connection: TCP listeners open file links for file tunnels (without
/// transport wrapping) and TCP links otherwise, passing the PROXY
/// protocol version on; HTTP proxies open HTTP links, SOCKS5 TCP links,
/// UDP listeners UDP links. `crypt` and `compress` are the client's
/// transport flags.
pub fn listener_link(kind: ListenerKind, tunnel: &Tunnel, target: String, remote: String, crypt: bool, compress: bool) -> (r: Link)
    ensures
        r.target == target,
        r.remote_addr == remote,
        r.local_proxy == tunnel.target.local_proxy,
        kind == ListenerKind::Tcp && eq_ic(tunnel.mode@, "file"@) ==> (r.kind == LinkKind::File && !r.crypt
            && !r.compress && r.proto_version@ == tunnel.proto_version@ && (r.file matches Some(f)
            && f.local_path@ == tunnel.local_path@ && f.strip_pre@ == tunnel.strip_pre@)),
        kind == ListenerKind::Tcp && !eq_ic(tunnel.mode@, "file"@) ==> (r.kind == LinkKind::Tcp
            && r.crypt == crypt && r.compress == compress && r.proto_version@ == tunnel.proto_version@
            && r.file is None),
        kind == ListenerKind::HttpProxy ==> (r.kind == LinkKind::Http && r.crypt == crypt && r.compress
            == compress && r.proto_version@.len() == 0 && r.file is None),
        (kind == ListenerKind::Socks5 || kind == ListenerKind::Unknown) ==> (r.kind == LinkKind::Tcp
            && r.crypt == crypt && r.compress == compress && r.proto_version@.len() == 0 && r.file is None),
        kind == ListenerKind::Udp ==> (r.kind == LinkKind::Udp && r.crypt == crypt && r.compress
            == compress && r.proto_version@.len() == 0 && r.file is None),
{
    match kind {
        ListenerKind::Tcp => {
            if eq_ignore_case_str(&chars_of(tunnel.mode.as_str()), "file") {
                Link {
                    kind: LinkKind::File,
                    target,
                    remote_addr: remote,
                    crypt: false,
                    compress: false,
                    local_proxy: tunnel.target.local_proxy,
                    proto_version: tunnel.proto_version.clone(),
                    file: Some(
                        FileServe {
                            local_path: tunnel.local_path.clone(),
                            strip_pre: tunnel.strip_pre.clone(),
                        },
                    ),
                }
            } else {
                Link {
                    kind: LinkKind::Tcp,
                    target,
                    remote_addr: remote,
                    crypt,
                    compress,
                    local_proxy: tunnel.target.local_proxy,
                    proto_version: tunnel.proto_version.clone(),
                    file: None,
                }
            }
        },
        ListenerKind::HttpProxy => Link {
            kind: LinkKind::Http,
            target,
            remote_addr: remote,
            crypt,
            compress,
            local_proxy: tunnel.target.local_proxy,
            proto_version: String::new(),
            file: None,
        },
        ListenerKind::Udp => Link {
            kind: LinkKind::Udp,
            target,
            remote_addr: remote,
            crypt,
            compress,
            local_proxy: tunnel.target.local_proxy,
            proto_version: String::new(),
            file: None,
        },
        _ => Link {
            kind: LinkKind::Tcp,
            target,
            remote_addr: remote,
            crypt,
            compress,
            local_proxy: tunnel.target.local_proxy,
            proto_version: String::new(),
            file: None,
        },
    }
}

// ---------------------------------------------------------------------------
// Secrets
// ---------------------------------------------------------------------------

/// A tunnel a visitor may reach: an enabled, running visitor tunnel with a
/// password.
pub open spec fn secret_usable(t: TunnelView) -> bool {
    is_visitor_mode(t.mode) && t.status && t.run_status && t.password.len() > 0
}

/// The visitor tunnels of the enabled clients, each once by its password
/// and once by the password's MD5, in order.
pub open spec fn secret_entries_of(ts: Seq<TunnelView>) -> Seq<(Seq<char>, TunnelView)>
    decreases ts.len(),
{
    if ts.len() == 0 {
        Seq::empty()
    } else {
        let rest = secret_entries_of(ts.drop_last());
        let t = ts.last();
        if secret_usable(t) {
            rest.push((t.password, t)).push(
                (crate::http::hex_lower(crate::http::md5_of(vstd::utf8::encode_utf8(t.password))), t),
            )
        } else {
            rest
        }
    }
}

pub open spec fn spec_secret_entries(cs: Seq<ClientRuntimeConfig>) -> Seq<(Seq<char>, TunnelView)>
    decreases cs.len(),
{
    if cs.len() == 0 {
        Seq::empty()
    } else {
        let c = cs.last();
        spec_secret_entries(cs.drop_last()) + if c.common.client.status {
            secret_entries_of(tunnels_view(c.tunnels@))
        } else {
            Seq::empty()
        }
    }
}

pub open spec fn entries_view(v: Seq<(String, Tunnel)>) -> Seq<(Seq<char>, TunnelView)> {
    Seq::new(v.len(), |i: int| (v[i].0@, v[i].1@))
}

/// The table visitors are matched against, as `(key, tunnel)` entries in
/// insertion order (a later entry replaces an earlier one with its key).
pub fn rebuild_secret_registry(clients: &Vec<ClientRuntimeConfig>) -> (r: Vec<(String, Tunnel)>)
    ensures
        entries_view(r@) == spec_secret_entries(clients@),
{
    let mut out: Vec<(String, Tunnel)> = Vec::new();
    let mut i: usize = 0;
    assert(entries_view(out@) =~= spec_secret_entries(clients@.take(0)));
    while i < clients.len()
        invariant
            i <= clients.len(),
            entries_view(out@) == spec_secret_entries(clients@.take(i as int)),
        decreases clients.len() - i,
    {
        assert(clients@.take(i + 1).drop_last() =~= clients@.take(i as int));
        assert(clients@.take(i + 1).last() == clients@[i as int]);
        let c = &clients[i];
        let ghost before = entries_view(out@);
        if c.common.client.status {
            let ghost ts = tunnels_view(c.tunnels@);
            let mut j: usize = 0;
            assert(before + secret_entries_of(ts.take(0)) =~= before);
            while j < c.tunnels.len()
                invariant
                    ts == tunnels_view(c.tunnels@),
                    j <= c.tunnels.len(),
                    entries_view(out@) == before + secret_entries_of(ts.take(j as int)),
                decreases c.tunnels.len() - j,
            {
                assert(ts.take(j + 1).drop_last() =~= ts.take(j as int));
                assert(ts.take(j + 1).last() == c.tunnels@[j as int]@);
                let t = &c.tunnels[j];
                let m = lower_vec(&chars_of(t.mode.as_str()));
                if (eq_str(&m, "secret") || eq_str(&m, "p2p")) && t.status && t.run_status
                    && !t.password.as_str().is_empty() {
                    let ghost mid = out@;
                    out.push((t.password.clone(), t.duplicate()));
                    out.push((crate::http::md5_hex(t.password.as_str()), t.duplicate()));
                    assert(entries_view(out@) =~= entries_view(mid).push((t.password@, t@)).push(
                        (crate::http::hex_lower(crate::http::md5_of(vstd::utf8::encode_utf8(t.password@))), t@),
                    ));
                }
                j += 1;
            }
            assert(ts.take(c.tunnels.len() as int) =~= ts);
        } else {
            assert(before + Seq::<(Seq<char>, TunnelView)>::empty() =~= before);
        }
        i += 1;
    }
    assert(clients@.take(clients.len() as int) =~= clients@);
    out
}

// ---------------------------------------------------------------------------
// Installing a client's configuration
// ---------------------------------------------------------------------------

/// Why a configuration sent by a client was refused.
#[derive(PartialEq, Eq, Structural, Clone, Copy, Debug)]
pub enum InstallError {
    /// The configuration names no verification key.
    EmptyKey,
    /// A tunnel is refused, or the client has too many.
    Tunnel(TunnelError),
    /// The stored client does not accept configuration connections.
    ConfigConnDisabled,
}

/// Host routes with ids assigned (a zero id takes the next id) and the
/// client's key, and the sequence afterwards.
pub open spec fn assign_host_ids(hs: Seq<HostView>, vkey: Seq<char>, next: u64) -> (Seq<HostView>, u64)
    decreases hs.len(),
{
    if hs.len() == 0 {
        (Seq::empty(), next)
    } else {
        let (done, n) = assign_host_ids(hs.drop_last(), vkey, next);
        let h = hs.last();
        let id = if h.id == 0 {
            n
        } else {
            h.id
        };
        let n2 = if h.id == 0 {
            n.wrapping_add(1)
        } else {
            n
        };
        (done.push(HostView { id: id, client_vkey: vkey, ..h }), spec_observe(n2, id))
    }
}

/// Tunnels with ids assigned and the client's key, each checked against
/// `allow_ports` in order; the first refused tunnel ends the installation.
pub open spec fn assign_tunnel_ids(allow_ports: Seq<char>, ts: Seq<TunnelView>, vkey: Seq<char>, next: u64) -> (Result<Seq<TunnelView>, TunnelError>, u64)
    decreases ts.len(),
{
    if ts.len() == 0 {
        (Ok(Seq::empty()), next)
    } else {
        let (prev, n) = assign_tunnel_ids(allow_ports, ts.drop_last(), vkey, next);
        match prev {
            Err(e) => (Err(e), n),
            Ok(done) => {
                let t = ts.last();
                let id = if t.id == 0 {
                    n
                } else {
                    t.id
                };
                let n2 = if t.id == 0 {
                    n.wrapping_add(1)
                } else {
                    n
                };
                match spec_validate_tunnel_ports(allow_ports, t.mode, t.ports, t.server_port) {
                    Some(p) => (Err(TunnelError::PortNotAllowed(p)), n2),
                    None => (
                        Ok(done.push(TunnelView { id: id, client_vkey: vkey, ..t })),
                        spec_observe(n2, id),
                    ),
                }
            },
        }
    }
}

/// The stored host routes that outlive a reconnection.
pub open spec fn stored_hosts(hs: Seq<HostView>) -> Seq<HostView>
    decreases hs.len(),
{
    if hs.len() == 0 {
        hs
    } else if hs.last().no_store {
        stored_hosts(hs.drop_last())
    } else {
        stored_hosts(hs.drop_last()).push(hs.last())
    }
}

/// The stored tunnels that outlive a reconnection.
pub open spec fn stored_tunnels(ts: Seq<TunnelView>) -> Seq<TunnelView>
    decreases ts.len(),
{
    if ts.len() == 0 {
        ts
    } else if ts.last().no_store {
        stored_tunnels(ts.drop_last())
    } else {
        stored_tunnels(ts.drop_last()).push(ts.last())
    }
}

/// The tunnel limit check and the expansion that end an installation.
pub open spec fn install_finish(server: ServerConfig, m: ClientRuntimeConfigView, next: u64) -> (Result<ClientRuntimeConfigView, InstallError>, u64) {
    if server.allow_tunnel_num_limit && m.common.client.max_tunnel_num != 0 && m.tunnels.len()
        + m.hosts.len() >= m.common.client.max_tunnel_num {
        (Err(InstallError::Tunnel(TunnelError::TunnelLimit)), next)
    } else {
        (Ok(ClientRuntimeConfigView { tunnels: expand_all(m.tunnels), ..m }), spec_observe(next, m.id))
    }
}

/// Installing a client's configuration: ids and keys for its routes and
/// tunnels, its ports checked, merged with the stored client of the same
/// key (keeping that client's id, flags, creation time and stored records)
/// or registered as a new unstored client, its tunnel limit checked, and
/// its tunnels expanded; with the id sequence afterwards.
pub open spec fn spec_install(server: ServerConfig, c: ClientRuntimeConfigView, existing: Option<ClientRuntimeConfigView>, now: Seq<char>, next: u64) -> (Result<ClientRuntimeConfigView, InstallError>, u64) {
    let vkey = c.common.vkey;
    if vkey.len() == 0 {
        (Err(InstallError::EmptyKey), next)
    } else {
        let (hs, n1) = assign_host_ids(c.hosts, vkey, next);
        let (tr, n2) = assign_tunnel_ids(server.allow_ports@, c.tunnels, vkey, n1);
        match tr {
            Err(e) => (Err(InstallError::Tunnel(e)), n2),
            Ok(ts) => match existing {
                Some(e) => if c.no_store && !e.common.client.config_conn_allow {
                    (Err(InstallError::ConfigConnDisabled), n2)
                } else {
                    install_finish(
                        server,
                        ClientRuntimeConfigView {
                            id: e.id,
                            no_store: e.no_store,
                            no_display: e.no_display,
                            create_time: e.create_time,
                            last_online_time: now,
                            hosts: hs + stored_hosts(e.hosts),
                            tunnels: ts + stored_tunnels(e.tunnels),
                            ..c
                        },
                        n2,
                    )
                },
                None => install_finish(
                    server,
                    ClientRuntimeConfigView {
                        id: n2,
                        no_store: true,
                        last_online_time: now,
                        hosts: hs,
                        tunnels: ts,
                        ..c
                    },
                    n2.wrapping_add(1),
                ),
            },
        }
    }
}

fn assign_hosts_exec(seq: &mut IdSequence, hosts: &Vec<Host>, vkey: &String) -> (r: Vec<Host>)
    ensures
        (hosts_view(r@), final(seq).next) == assign_host_ids(hosts_view(hosts@), vkey@, old(seq).next),
{
    let ghost hv = hosts_view(hosts@);
    let mut out: Vec<Host> = Vec::new();
    let mut i: usize = 0;
    assert(hosts_view(out@) =~= assign_host_ids(hv.take(0), vkey@, old(seq).next).0);
    while i < hosts.len()
        invariant
            hv == hosts_view(hosts@),
            i <= hosts.len(),
            (hosts_view(out@), seq.next) == assign_host_ids(hv.take(i as int), vkey@, old(seq).next),
        decreases hosts.len() - i,
    {
        assert(hv.take(i + 1).drop_last() =~= hv.take(i as int));
        assert(hv.take(i + 1).last() == hosts@[i as int]@);
        let mut h = hosts[i].duplicate();
        if h.id == 0 {
            h.id = seq.next_link_id();
        }
        seq.observe_id(h.id);
        h.client_vkey = vkey.clone();
        let ghost before = out@;
        out.push(h);
        assert(hosts_view(out@) =~= hosts_view(before).push(h@));
        i += 1;
    }
    assert(hv.take(hosts.len() as int) =~= hv);
    out
}

fn assign_tunnels_exec(seq: &mut IdSequence, server: &ServerConfig, tunnels: &Vec<Tunnel>, vkey: &String) -> (r: Result<Vec<Tunnel>, TunnelError>)
    ensures
        match assign_tunnel_ids(server.allow_ports@, tunnels_view(tunnels@), vkey@, old(seq).next) {
            (Ok(ts), n) => (r matches Ok(v) && tunnels_view(v@) == ts) && final(seq).next == n,
            (Err(e), n) => r == Err::<Vec<Tunnel>, TunnelError>(e) && final(seq).next == n,
        },
{
    let ghost tv = tunnels_view(tunnels@);
    let mut out: Vec<Tunnel> = Vec::new();
    let mut i: usize = 0;
    assert(tunnels_view(out@) =~= Seq::<TunnelView>::empty());
    while i < tunnels.len()
        invariant
            tv == tunnels_view(tunnels@),
            i <= tunnels.len(),
            assign_tunnel_ids(server.allow_ports@, tv.take(i as int), vkey@, old(seq).next) == (
            Ok::<Seq<TunnelView>, TunnelError>(tunnels_view(out@)), seq.next),
        decreases tunnels.len() - i,
    {
        assert(tv.take(i + 1).drop_last() =~= tv.take(i as int));
        assert(tv.take(i + 1).last() == tunnels@[i as int]@);
        let mut t = tunnels[i].duplicate();
        if t.id == 0 {
            t.id = seq.next_link_id();
        }
        match validate_tunnel_ports(server, &t) {
            Err(e) => {
                proof {
                    let mut k = i + 1;
                    lemma_assign_tunnel_error_sticks(server.allow_ports@, tv, vkey@, old(seq).next, (i + 1) as int);
                }
                return Err(e);
            },
            Ok(()) => {},
        }
        seq.observe_id(t.id);
        t.client_vkey = vkey.clone();
        let ghost before = out@;
        out.push(t);
        assert(tunnels_view(out@) =~= tunnels_view(before).push(t@));
        i += 1;
    }
    assert(tv.take(tunnels.len() as int) =~= tv);
    Ok(out)
}

/// Once a tunnel is refused, the later tunnels change nothing.
proof fn lemma_assign_tunnel_error_sticks(allow_ports: Seq<char>, ts: Seq<TunnelView>, vkey: Seq<char>, next: u64, k: int)
    requires
        0 < k <= ts.len(),
        assign_tunnel_ids(allow_ports, ts.take(k), vkey, next).0 is Err,
    ensures
        assign_tunnel_ids(allow_ports, ts, vkey, next) == assign_tunnel_ids(allow_ports, ts.take(k), vkey, next),
    decreases ts.len() - k,
{
    if k < ts.len() {
        assert(ts.take(k + 1).drop_last() =~= ts.take(k));
        lemma_assign_tunnel_error_sticks(allow_ports, ts, vkey, next, k + 1);
    } else {
        assert(ts.take(k) =~= ts);
    }
}

fn stored_hosts_exec(hosts: &Vec<Host>, out: &mut Vec<Host>)
    ensures
        hosts_view(final(out)@) == hosts_view(old(out)@) + stored_hosts(hosts_view(hosts@)),
{
    let ghost hv = hosts_view(hosts@);
    let ghost start = hosts_view(out@);
    let mut i: usize = 0;
    assert(start + stored_hosts(hv.take(0)) =~= start);
    while i < hosts.len()
        invariant
            hv == hosts_view(hosts@),
            i <= hosts.len(),
            hosts_view(out@) == start + stored_hosts(hv.take(i as int)),
        decreases hosts.len() - i,
    {
        assert(hv.take(i + 1).drop_last() =~= hv.take(i as int));
        assert(hv.take(i + 1).last() == hosts@[i as int]@);
        if !hosts[i].no_store {
            let ghost before = out@;
            out.push(hosts[i].duplicate());
            assert(hosts_view(out@) =~= hosts_view(before).push(hosts@[i as int]@));
        }
        i += 1;
    }
    assert(hv.take(hosts.len() as int) =~= hv);
}

fn stored_tunnels_exec(tunnels: &Vec<Tunnel>, out: &mut Vec<Tunnel>)
    ensures
        tunnels_view(final(out)@) == tunnels_view(old(out)@) + stored_tunnels(tunnels_view(tunnels@)),
{
    let ghost tv = tunnels_view(tunnels@);
    let ghost start = tunnels_view(out@);
    let mut i: usize = 0;
    assert(start + stored_tunnels(tv.take(0)) =~= start);
    while i < tunnels.len()
        invariant
            tv == tunnels_view(tunnels@),
            i <= tunnels.len(),
            tunnels_view(out@) == start + stored_tunnels(tv.take(i as int)),
        decreases tunnels.len() - i,
    {
        assert(tv.take(i + 1).drop_last() =~= tv.take(i as int));
        assert(tv.take(i + 1).last() == tunnels@[i as int]@);
        if !tunnels[i].no_store {
            let ghost before = out@;
            out.push(tunnels[i].duplicate());
            assert(tunnels_view(out@) =~= tunnels_view(before).push(tunnels@[i as int]@));
        }
        i += 1;
    }
    assert(tv.take(tunnels.len() as int) =~= tv);
}

/// The configuration a config hello carries, made ready to install: a
/// record that names no key takes the key of the hello, and the client's
/// verify key is the record's key.
pub open spec fn spec_hello_config(c: ClientRuntimeConfigView, hello_vkey: Seq<char>) -> ClientRuntimeConfigView {
    let key = if c.common.vkey.len() == 0 {
        hello_vkey
    } else {
        c.common.vkey
    };
    ClientRuntimeConfigView {
        common: CommonConfigView {
            vkey: key,
            client: ClientInfoView { verify_key: key, ..c.common.client },
            ..c.common
        },
        ..c
    }
}

/// Fills in the key of a configuration that arrived with a config hello:
/// see [`spec_hello_config`].
pub fn prepare_hello_config(config: &mut ClientRuntimeConfig, hello_vkey: &str)
    ensures
        final(config)@ == spec_hello_config(old(config)@, hello_vkey@),
{
    if config.common.vkey.as_str().is_empty() {
        config.common.vkey = owned(hello_vkey);
    }
    config.common.client.verify_key = config.common.vkey.clone();
}

/// Installs the configuration a client sent: see [`spec_install`].
/// `existing` is the stored client with the same key; `now` is the time
/// text of the connection.
pub fn install_client_config(
    seq: &mut IdSequence,
    server: &ServerConfig,
    config: ClientRuntimeConfig,
    existing: Option<&ClientRuntimeConfig>,
    now: &str,
) -> (r: Result<ClientRuntimeConfig, InstallError>)
    ensures
        match spec_install(
            *server,
            config@,
            match existing {
                Some(e) => Some(e@),
                None => None,
            },
            now@,
            old(seq).next,
        ) {
            (Ok(c), n) => (r matches Ok(v) && v@ == c) && final(seq).next == n,
            (Err(e), n) => r == Err::<ClientRuntimeConfig, InstallError>(e) && final(seq).next == n,
        },
{
    let mut config = config;
    let vkey = config.common.vkey.clone();
    if vkey.as_str().is_empty() {
        return Err(InstallError::EmptyKey);
    }
    let ghost c0 = config@;
    let hosts = assign_hosts_exec(seq, &config.hosts, &vkey);
    let tunnels = match assign_tunnels_exec(seq, server, &config.tunnels, &vkey) {
        Ok(t) => t,
        Err(e) => return Err(InstallError::Tunnel(e)),
    };
    config.hosts = hosts;
    config.tunnels = tunnels;
    match existing {
        Some(e) => {
            if config.no_store && !e.common.client.config_conn_allow {
                return Err(InstallError::ConfigConnDisabled);
            }
            config.id = e.id;
            config.no_store = e.no_store;
            config.no_display = e.no_display;
            config.create_time = e.create_time.clone();
            config.last_online_time = owned(now);
            stored_hosts_exec(&e.hosts, &mut config.hosts);
            stored_tunnels_exec(&e.tunnels, &mut config.tunnels);
        },
        None => {
            config.id = seq.next_link_id();
            config.no_store = true;
            config.last_online_time = owned(now);
        },
    }
    let count = match config.tunnels.len().checked_add(config.hosts.len()) {
        Some(n) => n,
        None => usize::MAX,
    };
    match ensure_client_tunnel_limit(server, &config.common.client, count) {
        Err(e) => return Err(InstallError::Tunnel(e)),
        Ok(()) => {},
    }
    seq.observe_id(config.id);
    let expanded = expand_runtime_tunnels(&config);
    config.tunnels = expanded;
    proof {
        assert(config@.common == c0.common);
    }
    Ok(config)
}


// ---------------------------------------------------------------------------
// Records read back at start-up
// ---------------------------------------------------------------------------

/// The first position of the client known by `key`, looking from `start`.
pub open spec fn key_index_from(cs: Seq<ClientRuntimeConfigView>, key: Seq<char>, start: int) -> Option<int>
    decreases cs.len() - start,
{
    if start < 0 || start >= cs.len() {
        None
    } else if cs[start].common.vkey == key {
        Some(start)
    } else {
        key_index_from(cs, key, start + 1)
    }
}

/// The first position of the client known by `key`.
pub open spec fn key_index(cs: Seq<ClientRuntimeConfigView>, key: Seq<char>) -> Option<int> {
    key_index_from(cs, key, 0)
}

/// Position of the client known by `vkey`.
pub fn client_pos_by_vkey(clients: &Vec<ClientRuntimeConfig>, vkey: &str) -> (r: Option<usize>)
    ensures
        match r {
            Some(i) => i < clients@.len() && key_index(configs_view(clients@), vkey@) == Some(i as int),
            None => key_index(configs_view(clients@), vkey@) is None,
        },
{
    let ghost cs = configs_view(clients@);
    let mut i: usize = 0;
    while i < clients.len()
        invariant
            cs == configs_view(clients@),
            i <= clients.len(),
            key_index(cs, vkey@) == key_index_from(cs, vkey@, i as int),
        decreases clients.len() - i,
    {
        if eq_str(&chars_of(clients[i].common.vkey.as_str()), vkey) {
            return Some(i);
        }
        i += 1;
    }
    None
}

/// The id a record keeps: its own, or the next of the sequence when it has
/// none; and the sequence after it has seen that id.
pub open spec fn spec_assign_id(next: u64, id: u64) -> (u64, u64) {
    if id == 0 {
        (next, spec_observe(next.wrapping_add(1), next))
    } else {
        (id, spec_observe(next, id))
    }
}

fn assign_id(seq: &mut IdSequence, id: u64) -> (r: u64)
    ensures
        (r, final(seq).next) == spec_assign_id(old(seq).next, id),
{
    let got = if id == 0 {
        seq.next_link_id()
    } else {
        id
    };
    seq.observe_id(got);
    got
}

/// The key a stored client is known by: its `vkey`, or its own key when
/// that is empty.
pub open spec fn stored_key(c: ClientRuntimeConfigView) -> Seq<char> {
    if c.common.vkey.len() == 0 {
        c.common.client.verify_key
    } else {
        c.common.vkey
    }
}

/// The clients read so far and the id sequence.
pub type RestoreView = (Seq<ClientRuntimeConfigView>, u64);

/// Reading back one client: one without a key is skipped; otherwise it gets
/// an id, is known by its key (on both key fields), is stored, and takes the
/// place of an earlier client with the same key.
pub open spec fn restore_client(st: RestoreView, c: ClientRuntimeConfigView) -> RestoreView {
    let key = stored_key(c);
    if key.len() == 0 {
        st
    } else {
        let (id, next) = spec_assign_id(st.1, c.id);
        let c2 = ClientRuntimeConfigView {
            id: id,
            no_store: false,
            common: CommonConfigView {
                vkey: key,
                client: ClientInfoView { verify_key: key, ..c.common.client },
                ..c.common
            },
            ..c
        };
        match key_index(st.0, key) {
            Some(i) => (st.0.update(i, c2), next),
            None => (st.0.push(c2), next),
        }
    }
}

/// Reading back one tunnel: one without a client key is skipped; otherwise
/// it gets an id, is stored, and joins the tunnels of its client (it is
/// dropped, its id used up, when no client has the key).
pub open spec fn restore_tunnel(st: RestoreView, t: TunnelView) -> RestoreView {
    if t.client_vkey.len() == 0 {
        st
    } else {
        let (id, next) = spec_assign_id(st.1, t.id);
        let t2 = TunnelView { id: id, no_store: false, ..t };
        match key_index(st.0, t.client_vkey) {
            Some(i) => (st.0.update(i, ClientRuntimeConfigView { tunnels: st.0[i].tunnels.push(t2), ..st.0[i] }), next),
            None => (st.0, next),
        }
    }
}

/// Reading back one route, as for a tunnel.
pub open spec fn restore_host(st: RestoreView, h: HostView) -> RestoreView {
    if h.client_vkey.len() == 0 {
        st
    } else {
        let (id, next) = spec_assign_id(st.1, h.id);
        let h2 = HostView { id: id, no_store: false, ..h };
        match key_index(st.0, h.client_vkey) {
            Some(i) => (st.0.update(i, ClientRuntimeConfigView { hosts: st.0[i].hosts.push(h2), ..st.0[i] }), next),
            None => (st.0, next),
        }
    }
}

pub open spec fn restore_clients(st: RestoreView, cs: Seq<ClientRuntimeConfigView>) -> RestoreView
    decreases cs.len(),
{
    if cs.len() == 0 {
        st
    } else {
        restore_client(restore_clients(st, cs.drop_last()), cs.last())
    }
}

pub open spec fn restore_tunnels(st: RestoreView, ts: Seq<TunnelView>) -> RestoreView
    decreases ts.len(),
{
    if ts.len() == 0 {
        st
    } else {
        restore_tunnel(restore_tunnels(st, ts.drop_last()), ts.last())
    }
}

pub open spec fn restore_hosts(st: RestoreView, hs: Seq<HostView>) -> RestoreView
    decreases hs.len(),
{
    if hs.len() == 0 {
        st
    } else {
        restore_host(restore_hosts(st, hs.drop_last()), hs.last())
    }
}

/// The clients rebuilt from stored records, and the id sequence after:
/// the clients in the order read, then each tunnel and each route in the
/// order read.
pub open spec fn spec_restore(next: u64, cs: Seq<ClientRuntimeConfigView>, ts: Seq<TunnelView>, hs: Seq<HostView>) -> RestoreView {
    restore_hosts(restore_tunnels(restore_clients((Seq::empty(), next), cs), ts), hs)
}


/// No two clients share a key.
pub open spec fn keys_distinct(cs: Seq<ClientRuntimeConfigView>) -> bool {
    forall|i: int, j: int| 0 <= i < j < cs.len() ==> #[trigger] cs[i].common.vkey != #[trigger] cs[j].common.vkey
}

proof fn lemma_key_index_from(cs: Seq<ClientRuntimeConfigView>, key: Seq<char>, start: int)
    requires
        0 <= start,
    ensures
        match key_index_from(cs, key, start) {
            Some(i) => start <= i < cs.len() && cs[i].common.vkey == key,
            None => forall|j: int| start <= j < cs.len() ==> #[trigger] cs[j].common.vkey != key,
        },
    decreases cs.len() - start,
{
    if start < cs.len() && cs[start].common.vkey != key {
        lemma_key_index_from(cs, key, start + 1);
    }
}

proof fn lemma_restore_client_distinct(st: RestoreView, c: ClientRuntimeConfigView)
    requires
        keys_distinct(st.0),
    ensures
        keys_distinct(restore_client(st, c).0),
{
    lemma_key_index_from(st.0, stored_key(c), 0);
    let r = restore_client(st, c).0;
    if stored_key(c).len() > 0 {
        assert forall|i: int, j: int| 0 <= i < j < r.len() implies #[trigger] r[i].common.vkey != #[trigger] r[j].common.vkey by {
            if key_index(st.0, stored_key(c)) is None {
                if j == st.0.len() {
                    assert(r[i] == st.0[i]);
                } else {
                    assert(r[i] == st.0[i] && r[j] == st.0[j]);
                }
            } else {
                assert(r[i].common.vkey == st.0[i].common.vkey);
                assert(r[j].common.vkey == st.0[j].common.vkey);
            }
        }
    }
}

proof fn lemma_restore_tunnel_keys(st: RestoreView, t: TunnelView)
    ensures
        restore_tunnel(st, t).0.len() == st.0.len(),
        forall|i: int| 0 <= i < st.0.len() ==> #[trigger] restore_tunnel(st, t).0[i].common == st.0[i].common,
{
    lemma_key_index_from(st.0, t.client_vkey, 0);
}

proof fn lemma_restore_host_keys(st: RestoreView, h: HostView)
    ensures
        restore_host(st, h).0.len() == st.0.len(),
        forall|i: int| 0 <= i < st.0.len() ==> #[trigger] restore_host(st, h).0[i].common == st.0[i].common,
{
    lemma_key_index_from(st.0, h.client_vkey, 0);
}

proof fn lemma_restore_distinct(next: u64, cs: Seq<ClientRuntimeConfigView>, ts: Seq<TunnelView>, hs: Seq<HostView>)
    ensures
        keys_distinct(restore_clients((Seq::empty(), next), cs).0),
        keys_distinct(restore_tunnels(restore_clients((Seq::empty(), next), cs), ts).0),
        keys_distinct(spec_restore(next, cs, ts, hs).0),
    decreases cs.len() + ts.len() + hs.len(),
{
    if hs.len() > 0 {
        lemma_restore_distinct(next, cs, ts, hs.drop_last());
        let st = restore_hosts(restore_tunnels(restore_clients((Seq::empty(), next), cs), ts), hs.drop_last());
        lemma_restore_host_keys(st, hs.last());
        let r = restore_host(st, hs.last()).0;
        assert forall|i: int, j: int| 0 <= i < j < r.len() implies #[trigger] r[i].common.vkey != #[trigger] r[j].common.vkey by {
            assert(r[i].common == st.0[i].common);
            assert(r[j].common == st.0[j].common);
        }
    } else if ts.len() > 0 {
        lemma_restore_distinct(next, cs, ts.drop_last(), hs);
        let st = restore_tunnels(restore_clients((Seq::empty(), next), cs), ts.drop_last());
        lemma_restore_tunnel_keys(st, ts.last());
        let r = restore_tunnel(st, ts.last()).0;
        assert forall|i: int, j: int| 0 <= i < j < r.len() implies #[trigger] r[i].common.vkey != #[trigger] r[j].common.vkey by {
            assert(r[i].common == st.0[i].common);
            assert(r[j].common == st.0[j].common);
        }
    } else if cs.len() > 0 {
        lemma_restore_distinct(next, cs.drop_last(), ts, hs);
        lemma_restore_client_distinct(restore_clients((Seq::empty(), next), cs.drop_last()), cs.last());
    }
}

proof fn lemma_key_index_push_from(a: Seq<ClientRuntimeConfigView>, x: ClientRuntimeConfigView, key: Seq<char>, start: int)
    requires
        0 <= start,
        x.common.vkey != key,
    ensures
        key_index_from(a.push(x), key, start) == key_index_from(a, key, start),
    decreases a.len() + 1 - start,
{
    if start < a.len() {
        assert(a.push(x)[start] == a[start]);
        lemma_key_index_push_from(a, x, key, start + 1);
    } else if start == a.len() {
        assert(a.push(x)[start] == x);
        assert(key_index_from(a.push(x), key, start + 1) is None);
    }
}

/// Adding a client with another key does not move the one found for `key`.
pub proof fn lemma_key_index_push(a: Seq<ClientRuntimeConfigView>, x: ClientRuntimeConfigView, key: Seq<char>)
    requires
        x.common.vkey != key,
    ensures
        key_index(a.push(x), key) == key_index(a, key),
{
    lemma_key_index_push_from(a, x, key, 0);
}

proof fn lemma_key_index_last_from(a: Seq<ClientRuntimeConfigView>, x: ClientRuntimeConfigView, key: Seq<char>, start: int)
    requires
        0 <= start <= a.len(),
        x.common.vkey == key,
        forall|i: int| 0 <= i < a.len() ==> #[trigger] a[i].common.vkey != key,
    ensures
        key_index_from(a.push(x), key, start) == Some(a.len() as int),
    decreases a.len() + 1 - start,
{
    if start < a.len() {
        assert(a.push(x)[start] == a[start]);
        lemma_key_index_last_from(a, x, key, start + 1);
    }
}

/// A client added with a key no other client has is the one found for it.
pub proof fn lemma_key_index_last(a: Seq<ClientRuntimeConfigView>, x: ClientRuntimeConfigView)
    requires
        forall|i: int| 0 <= i < a.len() ==> #[trigger] a[i].common.vkey != x.common.vkey,
    ensures
        key_index(a.push(x), x.common.vkey) == Some(a.len() as int),
{
    lemma_key_index_last_from(a, x, x.common.vkey, 0);
}

/// A client without the key is not found for it.
pub proof fn lemma_key_index_absent(a: Seq<ClientRuntimeConfigView>, key: Seq<char>)
    requires
        forall|i: int| 0 <= i < a.len() ==> #[trigger] a[i].common.vkey != key,
    ensures
        key_index(a, key) is None,
{
    lemma_key_index_from(a, key, 0);
}

/// Restoring two runs of tunnels is restoring the first, then the second.
pub proof fn lemma_restore_tunnels_concat(st: RestoreView, a: Seq<TunnelView>, b: Seq<TunnelView>)
    ensures
        restore_tunnels(st, a + b) == restore_tunnels(restore_tunnels(st, a), b),
    decreases b.len(),
{
    if b.len() == 0 {
        assert(a + b =~= a);
    } else {
        assert((a + b).drop_last() =~= a + b.drop_last());
        lemma_restore_tunnels_concat(st, a, b.drop_last());
    }
}

/// Restoring two runs of routes is restoring the first, then the second.
pub proof fn lemma_restore_hosts_concat(st: RestoreView, a: Seq<HostView>, b: Seq<HostView>)
    ensures
        restore_hosts(st, a + b) == restore_hosts(restore_hosts(st, a), b),
    decreases b.len(),
{
    if b.len() == 0 {
        assert(a + b =~= a);
    } else {
        assert((a + b).drop_last() =~= a + b.drop_last());
        lemma_restore_hosts_concat(st, a, b.drop_last());
    }
}

/// Tunnels of other clients leave a last client alone.
pub proof fn lemma_restore_tunnels_frame(a: Seq<ClientRuntimeConfigView>, x: ClientRuntimeConfigView, n: u64, ts: Seq<TunnelView>)
    requires
        forall|k: int| 0 <= k < ts.len() ==> #[trigger] ts[k].client_vkey != x.common.vkey,
    ensures
        restore_tunnels((a.push(x), n), ts) == (restore_tunnels((a, n), ts).0.push(x), restore_tunnels((a, n), ts).1),
    decreases ts.len(),
{
    if ts.len() > 0 {
        let d = ts.drop_last();
        assert forall|k: int| 0 <= k < d.len() implies #[trigger] d[k].client_vkey != x.common.vkey by {
            assert(d[k] == ts[k]);
        }
        lemma_restore_tunnels_frame(a, x, n, d);
        let inner = restore_tunnels((a, n), d);
        let t = ts.last();
        assert(t == ts[ts.len() - 1]);
        if t.client_vkey.len() > 0 {
            lemma_key_index_push(inner.0, x, t.client_vkey);
            lemma_key_index_from(inner.0, t.client_vkey, 0);
            let (id, next) = spec_assign_id(inner.1, t.id);
            let t2 = TunnelView { id: id, no_store: false, ..t };
            match key_index(inner.0, t.client_vkey) {
                Some(i) => {
                    let c2 = ClientRuntimeConfigView { tunnels: inner.0[i].tunnels.push(t2), ..inner.0[i] };
                    assert(inner.0.push(x)[i] == inner.0[i]);
                    assert(inner.0.push(x).update(i, ClientRuntimeConfigView { tunnels: inner.0.push(x)[i].tunnels.push(t2), ..inner.0.push(x)[i] })
                        =~= inner.0.update(i, c2).push(x));
                },
                None => {},
            }
        }
    }
}

/// Routes of other clients leave a last client alone.
pub proof fn lemma_restore_hosts_frame(a: Seq<ClientRuntimeConfigView>, x: ClientRuntimeConfigView, n: u64, hs: Seq<HostView>)
    requires
        forall|k: int| 0 <= k < hs.len() ==> #[trigger] hs[k].client_vkey != x.common.vkey,
    ensures
        restore_hosts((a.push(x), n), hs) == (restore_hosts((a, n), hs).0.push(x), restore_hosts((a, n), hs).1),
    decreases hs.len(),
{
    if hs.len() > 0 {
        let d = hs.drop_last();
        assert forall|k: int| 0 <= k < d.len() implies #[trigger] d[k].client_vkey != x.common.vkey by {
            assert(d[k] == hs[k]);
        }
        lemma_restore_hosts_frame(a, x, n, d);
        let inner = restore_hosts((a, n), d);
        let h = hs.last();
        assert(h == hs[hs.len() - 1]);
        if h.client_vkey.len() > 0 {
            lemma_key_index_push(inner.0, x, h.client_vkey);
            lemma_key_index_from(inner.0, h.client_vkey, 0);
            let (id, next) = spec_assign_id(inner.1, h.id);
            let h2 = HostView { id: id, no_store: false, ..h };
            match key_index(inner.0, h.client_vkey) {
                Some(i) => {
                    let c2 = ClientRuntimeConfigView { hosts: inner.0[i].hosts.push(h2), ..inner.0[i] };
                    assert(inner.0.push(x)[i] == inner.0[i]);
                    assert(inner.0.push(x).update(i, ClientRuntimeConfigView { hosts: inner.0.push(x)[i].hosts.push(h2), ..inner.0.push(x)[i] })
                        =~= inner.0.update(i, c2).push(x));
                },
                None => {},
            }
        }
    }
}

/// Stored tunnels with ids, all of the last client, join its tunnels in
/// order.
pub proof fn lemma_restore_tunnels_fill(s: Seq<ClientRuntimeConfigView>, y: ClientRuntimeConfigView, n: u64, ts: Seq<TunnelView>)
    requires
        y.common.vkey.len() > 0,
        forall|i: int| 0 <= i < s.len() ==> #[trigger] s[i].common.vkey != y.common.vkey,
        forall|k: int| 0 <= k < ts.len() ==> (#[trigger] ts[k]).client_vkey == y.common.vkey && ts[k].id != 0 && !ts[k].no_store,
    ensures
        restore_tunnels((s.push(y), n), ts).0 == s.push(ClientRuntimeConfigView { tunnels: y.tunnels + ts, ..y }),
    decreases ts.len(),
{
    if ts.len() == 0 {
        assert(y.tunnels + ts =~= y.tunnels);
        assert(ClientRuntimeConfigView { tunnels: y.tunnels + ts, ..y } == y);
    } else {
        let d = ts.drop_last();
        assert forall|k: int| 0 <= k < d.len() implies (#[trigger] d[k]).client_vkey == y.common.vkey && d[k].id != 0 && !d[k].no_store by {
            assert(d[k] == ts[k]);
        }
        lemma_restore_tunnels_fill(s, y, n, d);
        let inner = restore_tunnels((s.push(y), n), d);
        let y1 = ClientRuntimeConfigView { tunnels: y.tunnels + d, ..y };
        let t = ts.last();
        assert(t == ts[ts.len() - 1]);
        lemma_key_index_last(s, y1);
        assert(inner.0[s.len() as int] == y1);
        assert(TunnelView { id: t.id, no_store: false, ..t } == t);
        assert((y.tunnels + d).push(t) =~= y.tunnels + ts);
        assert(inner.0.update(s.len() as int, ClientRuntimeConfigView { tunnels: y1.tunnels.push(t), ..y1 })
            =~= s.push(ClientRuntimeConfigView { tunnels: y.tunnels + ts, ..y }));
    }
}

/// Stored routes with ids, all of the last client, join its routes in
/// order.
pub proof fn lemma_restore_hosts_fill(s: Seq<ClientRuntimeConfigView>, y: ClientRuntimeConfigView, n: u64, hs: Seq<HostView>)
    requires
        y.common.vkey.len() > 0,
        forall|i: int| 0 <= i < s.len() ==> #[trigger] s[i].common.vkey != y.common.vkey,
        forall|k: int| 0 <= k < hs.len() ==> (#[trigger] hs[k]).client_vkey == y.common.vkey && hs[k].id != 0 && !hs[k].no_store,
    ensures
        restore_hosts((s.push(y), n), hs).0 == s.push(ClientRuntimeConfigView { hosts: y.hosts + hs, ..y }),
    decreases hs.len(),
{
    if hs.len() == 0 {
        assert(y.hosts + hs =~= y.hosts);
        assert(ClientRuntimeConfigView { hosts: y.hosts + hs, ..y } == y);
    } else {
        let d = hs.drop_last();
        assert forall|k: int| 0 <= k < d.len() implies (#[trigger] d[k]).client_vkey == y.common.vkey && d[k].id != 0 && !d[k].no_store by {
            assert(d[k] == hs[k]);
        }
        lemma_restore_hosts_fill(s, y, n, d);
        let inner = restore_hosts((s.push(y), n), d);
        let y1 = ClientRuntimeConfigView { hosts: y.hosts + d, ..y };
        let h = hs.last();
        assert(h == hs[hs.len() - 1]);
        lemma_key_index_last(s, y1);
        assert(inner.0[s.len() as int] == y1);
        assert(HostView { id: h.id, no_store: false, ..h } == h);
        assert((y.hosts + d).push(h) =~= y.hosts + hs);
        assert(inner.0.update(s.len() as int, ClientRuntimeConfigView { hosts: y1.hosts.push(h), ..y1 })
            =~= s.push(ClientRuntimeConfigView { hosts: y.hosts + hs, ..y }));
    }
}

fn restore_client_exec(seq: &mut IdSequence, out: &mut Vec<ClientRuntimeConfig>, c: &ClientRuntimeConfig)
    ensures
        (configs_view(final(out)@), final(seq).next) == restore_client((configs_view(old(out)@), old(seq).next), c@),
{
    let key = if c.common.vkey.as_str().is_empty() {
        c.common.client.verify_key.clone()
    } else {
        c.common.vkey.clone()
    };
    if key.as_str().is_empty() {
        return;
    }
    let id = assign_id(seq, c.id);
    let mut c2 = c.duplicate();
    c2.id = id;
    c2.no_store = false;
    c2.common.vkey = key.clone();
    c2.common.client.verify_key = key.clone();
    let ghost before = configs_view(out@);
    let ghost v2 = c2@;
    assert(v2 =~= ClientRuntimeConfigView {
        id: id,
        no_store: false,
        common: CommonConfigView {
            vkey: key@,
            client: ClientInfoView { verify_key: key@, ..c@.common.client },
            ..c@.common
        },
        ..c@
    });
    match client_pos_by_vkey(out, key.as_str()) {
        Some(p) => {
            out.set(p, c2);
            assert(configs_view(out@) =~= before.update(p as int, v2));
        },
        None => {
            out.push(c2);
            assert(configs_view(out@) =~= before.push(v2));
        },
    }
}

fn restore_tunnel_exec(seq: &mut IdSequence, out: &mut Vec<ClientRuntimeConfig>, t: &Tunnel)
    ensures
        (configs_view(final(out)@), final(seq).next) == restore_tunnel((configs_view(old(out)@), old(seq).next), t@),
{
    if t.client_vkey.as_str().is_empty() {
        return;
    }
    let id = assign_id(seq, t.id);
    let mut t2 = t.duplicate();
    t2.id = id;
    t2.no_store = false;
    let ghost before = configs_view(out@);
    match client_pos_by_vkey(out, t.client_vkey.as_str()) {
        Some(p) => {
            let mut config = out[p].duplicate();
            let ghost cv = config@;
            let ghost tv = t2@;
            config.tunnels.push(t2);
            assert(tunnels_view(config.tunnels@) =~= cv.tunnels.push(tv));
            let ghost nv = config@;
            out.set(p, config);
            assert(nv =~= ClientRuntimeConfigView { tunnels: cv.tunnels.push(tv), ..cv });
            assert(configs_view(out@) =~= before.update(p as int, nv));
        },
        None => {},
    }
}

fn restore_host_exec(seq: &mut IdSequence, out: &mut Vec<ClientRuntimeConfig>, h: &Host)
    ensures
        (configs_view(final(out)@), final(seq).next) == restore_host((configs_view(old(out)@), old(seq).next), h@),
{
    if h.client_vkey.as_str().is_empty() {
        return;
    }
    let id = assign_id(seq, h.id);
    let mut h2 = h.duplicate();
    h2.id = id;
    h2.no_store = false;
    let ghost before = configs_view(out@);
    match client_pos_by_vkey(out, h.client_vkey.as_str()) {
        Some(p) => {
            let mut config = out[p].duplicate();
            let ghost cv = config@;
            let ghost hv = h2@;
            config.hosts.push(h2);
            assert(hosts_view(config.hosts@) =~= cv.hosts.push(hv));
            let ghost nv = config@;
            out.set(p, config);
            assert(nv =~= ClientRuntimeConfigView { hosts: cv.hosts.push(hv), ..cv });
            assert(configs_view(out@) =~= before.update(p as int, nv));
        },
        None => {},
    }
}

/// Rebuilds the clients from the records read at start-up (see
/// [`spec_restore`]), taking ids from `seq` for records without one.
pub fn restore_persistent_state(
    seq: &mut IdSequence,
    clients: &Vec<ClientRuntimeConfig>,
    tunnels: &Vec<Tunnel>,
    hosts: &Vec<Host>,
) -> (r: Vec<ClientRuntimeConfig>)
    ensures
        (configs_view(r@), final(seq).next) == spec_restore(
            old(seq).next,
            configs_view(clients@),
            tunnels_view(tunnels@),
            hosts_view(hosts@),
        ),
        keys_distinct(configs_view(r@)),
{
    proof {
        lemma_restore_distinct(seq.next, configs_view(clients@), tunnels_view(tunnels@), hosts_view(hosts@));
    }
    let mut out: Vec<ClientRuntimeConfig> = Vec::new();
    let ghost start: RestoreView = (Seq::empty(), seq.next);
    let ghost cs = configs_view(clients@);
    let mut i: usize = 0;
    assert(configs_view(out@) =~= Seq::<ClientRuntimeConfigView>::empty());
    assert(cs.take(0) =~= Seq::<ClientRuntimeConfigView>::empty());
    while i < clients.len()
        invariant
            cs == configs_view(clients@),
            i <= clients.len(),
            (configs_view(out@), seq.next) == restore_clients(start, cs.take(i as int)),
        decreases clients.len() - i,
    {
        assert(cs.take(i + 1).drop_last() =~= cs.take(i as int));
        restore_client_exec(seq, &mut out, &clients[i]);
        i += 1;
    }
    assert(cs.take(clients.len() as int) =~= cs);
    let ghost mid: RestoreView = (configs_view(out@), seq.next);
    let ghost ts = tunnels_view(tunnels@);
    i = 0;
    assert(ts.take(0) =~= Seq::<TunnelView>::empty());
    while i < tunnels.len()
        invariant
            ts == tunnels_view(tunnels@),
            i <= tunnels.len(),
            (configs_view(out@), seq.next) == restore_tunnels(mid, ts.take(i as int)),
        decreases tunnels.len() - i,
    {
        assert(ts.take(i + 1).drop_last() =~= ts.take(i as int));
        restore_tunnel_exec(seq, &mut out, &tunnels[i]);
        i += 1;
    }
    assert(ts.take(tunnels.len() as int) =~= ts);
    let ghost late: RestoreView = (configs_view(out@), seq.next);
    let ghost hs = hosts_view(hosts@);
    i = 0;
    assert(hs.take(0) =~= Seq::<HostView>::empty());
    while i < hosts.len()
        invariant
            hs == hosts_view(hosts@),
            i <= hosts.len(),
            (configs_view(out@), seq.next) == restore_hosts(late, hs.take(i as int)),
        decreases hosts.len() - i,
    {
        assert(hs.take(i + 1).drop_last() =~= hs.take(i as int));
        restore_host_exec(seq, &mut out, &hosts[i]);
        i += 1;
    }
    assert(hs.take(hosts.len() as int) =~= hs);
    out
}

} // verus!
