//! Server-side rules: which ports a tunnel may use, tunnel limits, listener
//! addresses, host routing, response caching decisions and client access.
use vstd::prelude::*;
use vstd::utf8::encode_utf8;
use crate::config::{comma_items, part_ports, ports_of_parts, spec_expand_ports, expand_ports};
use crate::model::{ClientInfo, ClientRuntimeConfig, Host, ServerConfig, Tunnel, TunnelView, strings_view};
use crate::kv::strip_trailing;
use crate::text::{
    append, append_str, chars_of, dec, dec_exec, ends_with, ends_with_vec, eq_ic, eq_ignore_case_str,
    eq_str, lower, lower_vec, owned, parse_u16, parse_uint, rsplit_once, rsplit_once_exec, slice,
    split_char, split_char_exec, split_once, split_once_exec, starts_with, starts_with_vec,
    string_of, trim, trim_str, trim_vec, trimmed_nonempty, trimmed_nonempty_exec, views,
};

verus! {

broadcast use vstd::string::group_string_axioms;

// ---------------------------------------------------------------------------
// Allowed ports
// ---------------------------------------------------------------------------

/// One item of an `allow_ports` list admits `port`: a range `a-b` (either
/// order, ends included) or a single port.
pub open spec fn port_item_allows(item: Seq<char>, port: u16) -> bool {
    match split_once(item, '-') {
        Some((a, b)) => match (parse_uint(trim(a), 0xffff), parse_uint(trim(b), 0xffff)) {
            (Some(x), Some(y)) => (x <= port && port <= y) || (y <= port && port <= x),
            _ => false,
        },
        None => parse_uint(item, 0xffff) == Some(port as nat),
    }
}

/// Some item of the list admits the port.
pub open spec fn spec_port_allowed(allow_ports: Seq<char>, port: u16) -> bool {
    exists|i: int|
        0 <= i < comma_items(allow_ports).len() && port_item_allows(
            #[trigger] comma_items(allow_ports)[i],
            port,
        )
}

fn port_item_allows_exec(item: &Vec<char>, port: u16) -> (r: bool)
    ensures
        r == port_item_allows(item@, port),
{
    match split_once_exec(item, '-') {
        Some((a, b)) => match (parse_u16(&trim_vec(&a)), parse_u16(&trim_vec(&b))) {
            (Some(x), Some(y)) => (x <= port && port <= y) || (y <= port && port <= x),
            _ => false,
        },
        None => match parse_u16(item) {
            Some(p) => p == port,
            None => false,
        },
    }
}

/// Whether `allow_ports` (such as `9001-9002,10000`) admits `port`.
pub fn port_allowed(allow_ports: &str, port: u16) -> (r: bool)
    ensures
        r == spec_port_allowed(allow_ports@, port),
{
    let items = trimmed_nonempty_exec(&split_char_exec(&chars_of(allow_ports), ','));
    let ghost its = views(items@);
    assert(its == comma_items(allow_ports@));
    let mut i: usize = 0;
    while i < items.len()
        invariant
            its == views(items@),
            its == comma_items(allow_ports@),
            i <= items.len(),
            forall|j: int| 0 <= j < i ==> !port_item_allows(#[trigger] its[j], port),
        decreases items.len() - i,
    {
        if port_item_allows_exec(&items[i], port) {
            assert(port_item_allows(its[i as int], port));
            return true;
        }
        i += 1;
    }
    false
}

proof fn lemma_part_ports_contains(item: Seq<char>, port: u16)
    ensures
        part_ports(item).contains(port) <==> port_item_allows(item, port),
{
    match split_once(item, '-') {
        Some((a, b)) => match (parse_uint(trim(a), 0xffff), parse_uint(trim(b), 0xffff)) {
            (Some(x), Some(y)) => {
                let (lo, hi) = if x <= y {
                    (x, y)
                } else {
                    (y, x)
                };
                let r = crate::config::port_range(lo, hi);
                if lo <= port && port <= hi {
                    assert(r[port - lo] == port);
                }
                if r.contains(port) {
                    let k = choose|k: int| 0 <= k < r.len() && r[k] == port;
                    assert(r[k] == (lo + k) as u16);
                }
            },
            _ => {},
        },
        None => match parse_uint(item, 0xffff) {
            Some(p) => {
                assert(seq![p as u16][0] == p as u16);
            },
            None => {},
        },
    }
}

proof fn lemma_ports_of_parts_contains(ps: Seq<Seq<char>>, port: u16)
    ensures
        ports_of_parts(ps).contains(port) <==> exists|i: int|
            0 <= i < ps.len() && port_item_allows(#[trigger] ps[i], port),
    decreases ps.len(),
{
    if ps.len() > 0 {
        let init = ps.drop_last();
        lemma_ports_of_parts_contains(init, port);
        lemma_part_ports_contains(ps.last(), port);
        let a = ports_of_parts(init);
        let b = part_ports(ps.last());
        if (a + b).contains(port) {
            let k = choose|k: int| 0 <= k < (a + b).len() && (a + b)[k] == port;
            if k < a.len() {
                assert(a[k] == port);
                let i = choose|i: int| 0 <= i < init.len() && port_item_allows(#[trigger] init[i], port);
                assert(ps[i] == init[i]);
            } else {
                assert(b[k - a.len()] == port);
                assert(ps[ps.len() - 1] == ps.last());
            }
        }
        if exists|i: int| 0 <= i < ps.len() && port_item_allows(#[trigger] ps[i], port) {
            let i = choose|i: int| 0 <= i < ps.len() && port_item_allows(#[trigger] ps[i], port);
            if i < ps.len() - 1 {
                assert(init[i] == ps[i]);
                assert(a.contains(port));
                let k = choose|k: int| 0 <= k < a.len() && a[k] == port;
                assert((a + b)[k] == port);
            } else {
                assert(b.contains(port));
                let k = choose|k: int| 0 <= k < b.len() && b[k] == port;
                assert((a + b)[a.len() + k] == port);
            }
        }
    }
}

/// A port is allowed exactly when the expanded `allow_ports` list holds it.
pub proof fn lemma_port_allowed_iff_expanded(allow_ports: Seq<char>, port: u16)
    ensures
        spec_port_allowed(allow_ports, port) <==> spec_expand_ports(allow_ports).contains(port),
{
    lemma_ports_of_parts_contains(comma_items(allow_ports), port);
}

// ---------------------------------------------------------------------------
// Tunnel limits and ports
// ---------------------------------------------------------------------------

/// Why a tunnel was refused.
#[derive(PartialEq, Eq, Structural, Clone, Copy, Debug)]
pub enum TunnelError {
    /// The client already has as many tunnels as it may.
    TunnelLimit,
    /// The port is not in `allow_ports`.
    PortNotAllowed(u16),
    /// No server port could be found for the tunnel.
    NoServerPort,
}

/// The message reported for a tunnel error.
pub open spec fn spec_tunnel_message(e: TunnelError) -> Seq<char> {
    match e {
        TunnelError::TunnelLimit => "the number of tunnels exceeds the limit"@,
        TunnelError::PortNotAllowed(p) => "port "@ + dec(p as nat) + " is not in allow_ports"@,
        TunnelError::NoServerPort => "no available server port found in allow_ports"@,
    }
}

impl TunnelError {
    /// The message reported for the error.
    pub fn message(&self) -> (r: String)
        ensures
            r@ == spec_tunnel_message(*self),
    {
        match *self {
            TunnelError::TunnelLimit => owned("the number of tunnels exceeds the limit"),
            TunnelError::PortNotAllowed(p) => {
                let mut m: Vec<char> = Vec::new();
                append_str(&mut m, "port ");
                append(&mut m, &dec_exec(p as u64));
                append_str(&mut m, " is not in allow_ports");
                string_of(&m)
            },
            TunnelError::NoServerPort => owned("no available server port found in allow_ports"),
        }
    }
}

/// Tunnels and host routes of a client together.
pub fn tunnel_count(config: &ClientRuntimeConfig) -> (r: usize)
    requires
        config.tunnels.len() + config.hosts.len() <= usize::MAX,
    ensures
        r == config.tunnels.len() + config.hosts.len(),
{
    config.tunnels.len() + config.hosts.len()
}

/// A client with `tunnel_count` tunnels may add one more unless the server
/// enforces limits and the client's non-zero limit is reached.
pub fn ensure_client_tunnel_limit(server: &ServerConfig, client: &ClientInfo, tunnel_count: usize) -> (r: Result<(), TunnelError>)
    ensures
        r is Err <==> (server.allow_tunnel_num_limit && client.max_tunnel_num != 0 && tunnel_count
            >= client.max_tunnel_num),
        r is Err ==> r == Err::<(), TunnelError>(TunnelError::TunnelLimit),
{
    if !server.allow_tunnel_num_limit || client.max_tunnel_num == 0 {
        return Ok(());
    }
    if tunnel_count >= client.max_tunnel_num {
        return Err(TunnelError::TunnelLimit);
    }
    Ok(())
}

/// The ports a tunnel listens on: its port list, or its single server port
/// when the list names none.
pub open spec fn tunnel_listen_ports(ports: Seq<char>, server_port: u16) -> Seq<u16> {
    let p = spec_expand_ports(ports);
    if p.len() == 0 && server_port > 0 {
        seq![server_port]
    } else {
        p
    }
}

/// The first listening port that `allow_ports` does not admit.
pub open spec fn first_denied(allow_ports: Seq<char>, ps: Seq<u16>) -> Option<u16>
    decreases ps.len(),
{
    if ps.len() == 0 {
        None
    } else if !spec_port_allowed(allow_ports, ps[0]) {
        Some(ps[0])
    } else {
        first_denied(allow_ports, ps.drop_first())
    }
}

/// Secret and p2p tunnels, and servers without `allow_ports`, accept any
/// port; otherwise every listening port must be allowed.
pub open spec fn spec_validate_tunnel_ports(allow_ports: Seq<char>, mode: Seq<char>, ports: Seq<char>, server_port: u16) -> Option<u16> {
    let m = lower(trim(mode));
    if m == "secret"@ || m == "p2p"@ || trim(allow_ports).len() == 0 {
        None
    } else {
        first_denied(allow_ports, tunnel_listen_ports(ports, server_port))
    }
}

/// Checks every port a tunnel would listen on against `allow_ports`.
pub fn validate_tunnel_ports(server: &ServerConfig, tunnel: &Tunnel) -> (r: Result<(), TunnelError>)
    ensures
        match spec_validate_tunnel_ports(server.allow_ports@, tunnel.mode@, tunnel.ports@, tunnel.server_port) {
            Some(p) => r == Err::<(), TunnelError>(TunnelError::PortNotAllowed(p)),
            None => r is Ok,
        },
{
    let m = lower_vec(&trim_str(tunnel.mode.as_str()));
    let ap = trim_str(server.allow_ports.as_str());
    if eq_str(&m, "secret") || eq_str(&m, "p2p") || ap.len() == 0 {
        return Ok(());
    }
    let mut ports = expand_ports(tunnel.ports.as_str());
    if ports.len() == 0 && tunnel.server_port > 0 {
        ports.push(tunnel.server_port);
    }
    let ghost ps = ports@;
    assert(ps == tunnel_listen_ports(tunnel.ports@, tunnel.server_port));
    assert(spec_validate_tunnel_ports(server.allow_ports@, tunnel.mode@, tunnel.ports@, tunnel.server_port)
        == first_denied(server.allow_ports@, ps));
    let mut i: usize = 0;
    assert(ps.subrange(0, ps.len() as int) =~= ps);
    while i < ports.len()
        invariant
            ps == ports@,
            spec_validate_tunnel_ports(server.allow_ports@, tunnel.mode@, tunnel.ports@, tunnel.server_port)
                == first_denied(server.allow_ports@, ps),
            i <= ports.len(),
            first_denied(server.allow_ports@, ps) == first_denied(
                server.allow_ports@,
                ps.subrange(i as int, ps.len() as int),
            ),
        decreases ports.len() - i,
    {
        let ghost rest = ps.subrange(i as int, ps.len() as int);
        assert(rest[0] == ps[i as int]);
        assert(rest.drop_first() =~= ps.subrange(i + 1, ps.len() as int));
        if !port_allowed(server.allow_ports.as_str(), ports[i]) {
            return Err(TunnelError::PortNotAllowed(ports[i]));
        }
        i += 1;
    }
    Ok(())
}

/// The ports of `allow_ports` that may be tried for a new tunnel, in
/// order (port 0 skipped).
pub open spec fn spec_candidate_ports(allow_ports: Seq<char>) -> Seq<u16> {
    nonzero_ports(spec_expand_ports(allow_ports))
}

/// The ports other than 0, in order.
pub open spec fn nonzero_ports(ps: Seq<u16>) -> Seq<u16>
    decreases ps.len(),
{
    if ps.len() == 0 {
        ps
    } else if ps.last() == 0 {
        nonzero_ports(ps.drop_last())
    } else {
        nonzero_ports(ps.drop_last()).push(ps.last())
    }
}

/// Ports to try, in order, when a tunnel needs a generated server port.
pub fn candidate_server_ports(allow_ports: &str) -> (r: Vec<u16>)
    ensures
        r@ == spec_candidate_ports(allow_ports@),
{
    let all = expand_ports(allow_ports);
    let mut out: Vec<u16> = Vec::new();
    let mut i: usize = 0;
    while i < all.len()
        invariant
            i <= all.len(),
            all@ == spec_expand_ports(allow_ports@),
            out@ == nonzero_ports(all@.take(i as int)),
        decreases all.len() - i,
    {
        assert(all@.take(i + 1).drop_last() =~= all@.take(i as int));
        assert(all@.take(i + 1).last() == all@[i as int]);
        if all[i] != 0 {
            out.push(all[i]);
        }
        i += 1;
    }
    assert(all@.take(all.len() as int) =~= all@);
    out
}

/// The address a tunnel without a server IP binds to.
pub open spec fn spec_bind_ip(server_ip: Seq<char>) -> Seq<char> {
    if trim(server_ip).len() == 0 {
        "0.0.0.0"@
    } else {
        trim(server_ip)
    }
}

/// The tunnel once its server port is settled: with no server port the
/// generated one (which must exist) becomes both the port and the port
/// list; with a port but an empty list, the list names the port.
pub open spec fn spec_assign_port(t: TunnelView, generated: Option<u16>) -> Result<TunnelView, TunnelError> {
    if t.server_port == 0 {
        match generated {
            Some(p) => Ok(TunnelView { server_port: p, ports: dec(p as nat), ..t }),
            None => Err(TunnelError::NoServerPort),
        }
    } else if trim(t.ports).len() == 0 {
        Ok(TunnelView { ports: dec(t.server_port as nat), ..t })
    } else {
        Ok(t)
    }
}

/// A generated or configured server port is recorded on the tunnel: with
/// no server port the generated one (which must exist) becomes both the
/// port and the port list; with a port but an empty list, the list names
/// the port.
pub fn ensure_tunnel_server_port(tunnel: &mut Tunnel, generated: Option<u16>) -> (r: Result<(), TunnelError>)
    ensures
        old(tunnel).server_port == 0 ==> match generated {
            Some(p) => r is Ok && final(tunnel).server_port == p && final(tunnel).ports@ == dec(p as nat),
            None => r == Err::<(), TunnelError>(TunnelError::NoServerPort) && final(tunnel).server_port == 0
                && final(tunnel).ports@ == old(tunnel).ports@,
        },
        old(tunnel).server_port != 0 ==> r is Ok && final(tunnel).server_port == old(tunnel).server_port
            && final(tunnel).ports@ == (if trim(old(tunnel).ports@).len() == 0 {
                dec(old(tunnel).server_port as nat)
            } else {
                old(tunnel).ports@
            }),
        final(tunnel)@ == (TunnelView { server_port: final(tunnel).server_port, ports: final(tunnel).ports@, ..old(tunnel)@ }),
        match spec_assign_port(old(tunnel)@, generated) {
            Ok(v) => r is Ok && final(tunnel)@ == v,
            Err(e) => r == Err::<(), TunnelError>(e) && final(tunnel)@ == old(tunnel)@,
        },
{
    if tunnel.server_port == 0 {
        match generated {
            Some(p) => {
                tunnel.server_port = p;
                tunnel.ports = string_of(&dec_exec(p as u64));
                Ok(())
            },
            None => Err(TunnelError::NoServerPort),
        }
    } else {
        if trim_str(tunnel.ports.as_str()).len() == 0 {
            tunnel.ports = string_of(&dec_exec(tunnel.server_port as u64));
        }
        Ok(())
    }
}

/// `ip:port` a tunnel listens on; a blank server IP means every address.
pub fn bind_addr(tunnel: &Tunnel) -> (r: String)
    ensures
        r@ == spec_bind_ip(tunnel.server_ip@) + seq![':'] + dec(tunnel.server_port as nat),
{
    let t = trim_str(tunnel.server_ip.as_str());
    let mut out: Vec<char> = if t.len() == 0 {
        chars_of("0.0.0.0")
    } else {
        t
    };
    out.push(':');
    append(&mut out, &dec_exec(tunnel.server_port as u64));
    string_of(&out)
}

/// The key under which a running listener is registered: lowercased mode,
/// server IP and port; none for a tunnel without a port.
pub fn listener_key(tunnel: &Tunnel) -> (r: Option<String>)
    ensures
        tunnel.server_port == 0 ==> r is None,
        tunnel.server_port != 0 ==> (r matches Some(k) && k@ == lower(tunnel.mode@) + seq![':']
            + tunnel.server_ip@ + seq![':'] + dec(tunnel.server_port as nat)),
{
    if tunnel.server_port == 0 {
        return None;
    }
    let mut out = lower_vec(&chars_of(tunnel.mode.as_str()));
    out.push(':');
    append_str(&mut out, tunnel.server_ip.as_str());
    out.push(':');
    append(&mut out, &dec_exec(tunnel.server_port as u64));
    Some(string_of(&out))
}

// ---------------------------------------------------------------------------
// Hosts and routes
// ---------------------------------------------------------------------------

/// A host name without surrounding spaces, trailing dots and port; a
/// bracketed IPv6 literal is kept whole.
pub open spec fn spec_strip_host_port(host: Seq<char>) -> Seq<char> {
    let clean = strip_trailing(trim(host), '.');
    if clean.len() > 0 && clean[0] == '[' {
        clean
    } else {
        match rsplit_once(clean, ':') {
            Some((name, port)) => if parse_uint(port, 0xffff) is Some {
                name
            } else {
                clean
            },
            None => clean,
        }
    }
}

pub(crate) fn strip_trailing_dots(s: &Vec<char>) -> (r: Vec<char>)
    ensures
        r@ == strip_trailing(s@, '.'),
{
    let mut j: usize = s.len();
    assert(s@.subrange(0, j as int) =~= s@);
    while j > 0 && s[j - 1] == '.'
        invariant
            j <= s.len(),
            strip_trailing(s@, '.') == strip_trailing(s@.subrange(0, j as int), '.'),
        decreases j,
    {
        assert(s@.subrange(0, j as int).drop_last() =~= s@.subrange(0, j - 1));
        j -= 1;
    }
    slice(s, 0, j)
}

fn strip_host_port_chars(host: &Vec<char>) -> (r: Vec<char>)
    ensures
        r@ == spec_strip_host_port(host@),
{
    let clean = strip_trailing_dots(&trim_vec(host));
    if clean.len() > 0 && clean[0] == '[' {
        return clean;
    }
    match rsplit_once_exec(&clean, ':') {
        Some((name, port)) => if parse_u16(&port).is_some() {
            name
        } else {
            clean
        },
        None => clean,
    }
}

/// Drops the port and trailing dots from a `Host` header value.
pub fn strip_host_port(host: &str) -> (r: String)
    ensures
        r@ == spec_strip_host_port(host@),
{
    string_of(&strip_host_port_chars(&chars_of(host)))
}

/// A route rule matches a host: equal once ports are dropped and case is
/// ignored, or a `*.suffix` rule and a host that ends with the suffix.
pub open spec fn spec_host_matches(rule: Seq<char>, host: Seq<char>) -> bool {
    let r = lower(spec_strip_host_port(rule));
    let h = lower(spec_strip_host_port(host));
    r == h || (starts_with(r, "*."@) && ends_with(h, r.subrange(2, r.len() as int)))
}

/// Whether a route rule matches a host.
pub fn host_matches(rule: &str, host: &str) -> (r: bool)
    ensures
        r == spec_host_matches(rule@, host@),
{
    let r = lower_vec(&strip_host_port_chars(&chars_of(rule)));
    let h = lower_vec(&strip_host_port_chars(&chars_of(host)));
    if crate::text::eq(&r, &h) {
        return true;
    }
    if crate::text::starts_with_str(&r, "*.") {
        proof {
            reveal_strlit("*.");
        }
        let suffix = slice(&r, 2, r.len());
        return ends_with_vec(&h, &suffix);
    }
    false
}

/// A route rule matches a host only for the host it names: once ports and
/// trailing dots are dropped and ASCII case is ignored, either the host is
/// the rule, or the rule is `*.suffix` and the host's name ends with
/// `suffix`.
pub proof fn lemma_host_match_needs_name(rule: Seq<char>, host: Seq<char>)
    ensures
        ({
            let r = lower(spec_strip_host_port(rule));
            let h = lower(spec_strip_host_port(host));
            spec_host_matches(rule, host) ==> h == r || (r.len() >= 2 && r[0] == '*' && r[1] == '.' && h.len() + 2
                >= r.len() && h.subrange(h.len() + 2 - r.len(), h.len() as int) == r.subrange(2, r.len() as int))
        }),
{
    reveal_strlit("*.");
    let r = lower(spec_strip_host_port(rule));
    if starts_with(r, "*."@) {
        assert(r.subrange(0, 2)[0] == r[0]);
        assert(r.subrange(0, 2)[1] == r[1]);
    }
}

/// A route rule matches the host it names, and a `*.suffix` rule matches
/// every host whose name ends with `suffix`, ports, trailing dots and ASCII
/// case aside.
pub proof fn lemma_host_match_covers(rule: Seq<char>, host: Seq<char>, prefix: Seq<char>)
    ensures
        ({
            let r = lower(spec_strip_host_port(rule));
            let h = lower(spec_strip_host_port(host));
            &&& h == r ==> spec_host_matches(rule, host)
            &&& (r.len() >= 2 && r[0] == '*' && r[1] == '.' && h == prefix + r.subrange(2, r.len() as int))
                ==> spec_host_matches(rule, host)
        }),
{
    reveal_strlit("*.");
    let r = lower(spec_strip_host_port(rule));
    let h = lower(spec_strip_host_port(host));
    if r.len() >= 2 && r[0] == '*' && r[1] == '.' && h == prefix + r.subrange(2, r.len() as int) {
        assert(r.subrange(0, 2) =~= "*."@);
        assert(h.subrange(h.len() - (r.len() - 2), h.len() as int) =~= r.subrange(2, r.len() as int));
    }
}

proof fn lemma_strip_plain_name(name: Seq<char>)
    requires
        name.len() > 0,
        name[0] != '[',
        !crate::text::is_ws(name[0]),
        !crate::text::is_ws(name.last()),
        name.last() != '.',
        forall|i: int| 0 <= i < name.len() ==> name[i] != ':',
    ensures
        spec_strip_host_port(name) == name,
{
    crate::text::lemma_trim_fixed(name);
    crate::text::lemma_rfind_char_none(name, ':');
}

proof fn lemma_strip_named_port(name: Seq<char>, port: u16)
    requires
        name.len() > 0,
        name[0] != '[',
        !crate::text::is_ws(name[0]),
        forall|i: int| 0 <= i < name.len() ==> name[i] != ':',
    ensures
        spec_strip_host_port(name + seq![':'] + dec(port as nat)) == name,
{
    let d = dec(port as nat);
    crate::text::lemma_dec_digits(port as nat);
    let h = name + seq![':'] + d;
    assert(h[0] == name[0]);
    assert(h.last() == d.last());
    assert(crate::text::is_digit(d[d.len() - 1]));
    crate::text::lemma_trim_fixed(h);
    assert(strip_trailing(h, '.') == h);
    assert forall|j: int| name.len() < j < h.len() implies h[j] != ':' by {
        assert(h[j] == d[j - name.len() - 1]);
        assert(crate::text::is_digit(d[j - name.len() - 1]));
    }
    crate::text::lemma_rfind_char_at(h, ':', name.len() as int);
    assert(h.subrange(0, name.len() as int) =~= name);
    assert(h.subrange(name.len() + 1int, h.len() as int) =~= d);
    assert(d[0] != '+') by {
        assert(crate::text::is_digit(d[0]));
    }
    assert(parse_uint(d, 0xffff) == Some(port as nat));
}

/// The port of a `Host` header does not change which routes match it: a
/// plain host name (no port, brackets, surrounding spaces or trailing dot)
/// matches the same rules with `:port` added.
pub proof fn lemma_host_match_ignores_port(rule: Seq<char>, name: Seq<char>, port: u16)
    requires
        name.len() > 0,
        name[0] != '[',
        !crate::text::is_ws(name[0]),
        !crate::text::is_ws(name.last()),
        name.last() != '.',
        forall|i: int| 0 <= i < name.len() ==> name[i] != ':',
    ensures
        spec_host_matches(rule, name + seq![':'] + dec(port as nat)) == spec_host_matches(rule, name),
{
    lemma_strip_plain_name(name);
    lemma_strip_named_port(name, port);
}

/// A route serves a scheme: a blank or `all` route serves both, others
/// the scheme they name (ASCII case ignored).
pub open spec fn spec_route_supports_scheme(route_scheme: Seq<char>, scheme: Seq<char>) -> bool {
    let s = lower(trim(route_scheme));
    s.len() == 0 || s == "all"@ || eq_ic(s, scheme)
}

/// Whether a host route serves requests of `scheme`.
pub fn route_supports_scheme(route: &Host, scheme: &str) -> (r: bool)
    ensures
        r == spec_route_supports_scheme(route.scheme@, scheme@),
{
    let s = lower_vec(&trim_str(route.scheme.as_str()));
    s.len() == 0 || eq_str(&s, "all") || eq_ignore_case_str(&s, scheme)
}

/// Extensions of static files whose responses may be cached.
pub open spec fn cacheable_ext(e: Seq<char>) -> bool {
    e == "css"@ || e == "js"@ || e == "png"@ || e == "jpg"@ || e == "jpeg"@ || e == "gif"@ || e
        == "svg"@ || e == "ico"@ || e == "webp"@ || e == "woff"@ || e == "woff2"@ || e == "ttf"@
        || e == "map"@ || e == "txt"@ || e == "html"@ || e == "htm"@
}

/// The text after the last `c` (all of it without one).
pub open spec fn after_last(s: Seq<char>, c: char) -> Seq<char> {
    match rsplit_once(s, c) {
        Some((_, b)) => b,
        None => s,
    }
}

/// A path without its query names a static file by its extension.
pub open spec fn spec_is_cacheable_path(path: Seq<char>) -> bool {
    let plain = trim(split_char(path, '?')[0]);
    cacheable_ext(lower(after_last(plain, '.')))
}

/// A path is cacheable by the extension after its last `.`: for a path
/// `stem.ext` (no surrounding spaces, no query) whose `ext` has no `.`,
/// whatever dots the stem holds.
pub proof fn lemma_cacheable_by_last_extension(stem: Seq<char>, ext: Seq<char>)
    requires
        forall|i: int| 0 <= i < ext.len() ==> ext[i] != '.' && ext[i] != '?',
        forall|i: int| 0 <= i < stem.len() ==> stem[i] != '?',
        stem.len() == 0 || !crate::text::is_ws(stem[0]),
        ext.len() == 0 || !crate::text::is_ws(ext.last()),
    ensures
        spec_is_cacheable_path(stem + seq!['.'] + ext) == cacheable_ext(lower(ext)),
{
    let p = stem + seq!['.'] + ext;
    assert forall|i: int| 0 <= i < p.len() implies p[i] != '?' by {
        if i < stem.len() {
            assert(p[i] == stem[i]);
        } else if i > stem.len() {
            assert(p[i] == ext[i - stem.len() - 1]);
        }
    }
    crate::text::lemma_split_scan_none(p, '?');
    assert(split_char(p, '?')[0] == p);
    assert(p[0] == if stem.len() > 0 {
        stem[0]
    } else {
        '.'
    });
    assert(p.last() == if ext.len() > 0 {
        ext.last()
    } else {
        '.'
    });
    crate::text::lemma_trim_fixed(p);
    assert forall|j: int| stem.len() < j < p.len() implies p[j] != '.' by {
        assert(p[j] == ext[j - stem.len() - 1]);
    }
    crate::text::lemma_rfind_char_at(p, '.', stem.len() as int);
    assert(p.subrange(stem.len() + 1int, p.len() as int) =~= ext);
}

/// The query of a path does not decide whether it is cacheable.
pub proof fn lemma_cacheable_ignores_query(path: Seq<char>, query: Seq<char>)
    requires
        forall|i: int| 0 <= i < path.len() ==> path[i] != '?',
    ensures
        spec_is_cacheable_path(path.push('?') + query) == spec_is_cacheable_path(path),
{
    crate::text::lemma_split_scan_first(path, '?', query);
    crate::text::lemma_split_scan_none(path, '?');
    assert(split_char(path, '?')[0] == path);
    assert(split_char(path.push('?') + query, '?')[0] == path);
}

/// Whether a request path names a cacheable static file.
pub fn is_cacheable_path(path: &str) -> (r: bool)
    ensures
        r == spec_is_cacheable_path(path@),
{
    let pieces = split_char_exec(&chars_of(path), '?');
    assert(split_char(path@, '?').len() >= 1);
    assert(views(pieces@)[0] == pieces@[0]@);
    let plain = trim_vec(&pieces[0]);
    let ext_raw = match rsplit_once_exec(&plain, '.') {
        Some((_, b)) => b,
        None => plain,
    };
    let e = lower_vec(&ext_raw);
    eq_str(&e, "css") || eq_str(&e, "js") || eq_str(&e, "png") || eq_str(&e, "jpg") || eq_str(
        &e,
        "jpeg",
    ) || eq_str(&e, "gif") || eq_str(&e, "svg") || eq_str(&e, "ico") || eq_str(&e, "webp")
        || eq_str(&e, "woff") || eq_str(&e, "woff2") || eq_str(&e, "ttf") || eq_str(&e, "map")
        || eq_str(&e, "txt") || eq_str(&e, "html") || eq_str(&e, "htm")
}

/// The cache key of a request: only `GET`s of static files, and only when
/// the server caches.
pub open spec fn spec_cache_key(http_cache: bool, scheme: Seq<char>, route_host: Seq<char>, method: Seq<char>, path: Seq<char>) -> Option<Seq<char>> {
    if !http_cache || !eq_ic(method, "GET"@) || !spec_is_cacheable_path(path) {
        None
    } else {
        Some(scheme + seq!['|'] + lower(route_host) + seq!['|'] + path)
    }
}

/// `scheme|host|path` for a cacheable request, else none.
pub fn cache_key_for_request(http_cache: bool, scheme: &str, route: &Host, method: &str, path: &str) -> (r: Option<String>)
    ensures
        match r {
            Some(k) => spec_cache_key(http_cache, scheme@, route.host@, method@, path@) == Some(k@),
            None => spec_cache_key(http_cache, scheme@, route.host@, method@, path@) is None,
        },
{
    if !http_cache || !eq_ignore_case_str(&chars_of(method), "GET") || !is_cacheable_path(path) {
        return None;
    }
    let mut out = chars_of(scheme);
    out.push('|');
    append(&mut out, &lower_vec(&chars_of(route.host.as_str())));
    out.push('|');
    append_str(&mut out, path);
    Some(string_of(&out))
}

/// A route that serves the request: the client is enabled, the route is
/// open, serves the scheme, matches the host, its location prefixes the
/// path, and it has a target.
pub open spec fn route_serves(client_status: bool, h: Host, host: Seq<char>, path: Seq<char>, scheme: Seq<char>) -> bool {
    &&& client_status
    &&& !h.is_close
    &&& spec_route_supports_scheme(h.scheme@, scheme)
    &&& spec_host_matches(h.host@, host)
    &&& starts_with(path, h.location@)
    &&& crate::model::target_items(h.target.target_str@).len() > 0
}

/// The best of the routes: the serving route with the longest location (in
/// bytes), the earliest among equals.
pub open spec fn best_route(routes: Seq<(bool, Host)>, host: Seq<char>, path: Seq<char>, scheme: Seq<char>) -> Option<Host>
    decreases routes.len(),
{
    if routes.len() == 0 {
        None
    } else {
        let before = best_route(routes.drop_last(), host, path, scheme);
        let (st, h) = routes.last();
        if route_serves(st, h, host, path, scheme) && (before matches Some(b) ==> encode_utf8(
            h.location@,
        ).len() > encode_utf8(b.location@).len()) {
            Some(h)
        } else {
            before
        }
    }
}

/// Every host route of every client, with the client's status, in order.
pub open spec fn all_routes(clients: Seq<ClientRuntimeConfig>) -> Seq<(bool, Host)>
    decreases clients.len(),
{
    if clients.len() == 0 {
        Seq::empty()
    } else {
        let c = clients.last();
        all_routes(clients.drop_last()) + Seq::new(
            c.hosts@.len(),
            |i: int| (c.common.client.status, c.hosts@[i]),
        )
    }
}

/// The route for a request to `host_header` and `path` over `scheme`, and
/// its first target.
pub fn find_host_route(clients: &Vec<ClientRuntimeConfig>, host_header: &str, path: &str, scheme: &str) -> (r: Option<(Host, String)>)
    ensures
        match best_route(all_routes(clients@), spec_strip_host_port(host_header@), path@, scheme@) {
            Some(h) => r matches Some((route, target)) && route@ == h@ && target@
                == crate::model::target_items(h.target.target_str@)[0],
            None => r is None,
        },
{
    let host = strip_host_port(host_header);
    let ghost hv = spec_strip_host_port(host_header@);
    let pc = chars_of(path);
    let mut best: Option<(Host, String)> = None;
    let ghost mut best_h: Option<Host> = None;
    let mut ci: usize = 0;
    while ci < clients.len()
        invariant
            ci <= clients.len(),
            host@ == hv,
            pc@ == path@,
            best_h == best_route(all_routes(clients@.take(ci as int)), hv, path@, scheme@),
            match best_h {
                Some(h) => best matches Some((route, target)) && route@ == h@ && target@
                    == crate::model::target_items(h.target.target_str@)[0],
                None => best is None,
            },
        decreases clients.len() - ci,
    {
        let config = &clients[ci];
        let ghost prefix = all_routes(clients@.take(ci as int));
        assert(clients@.take(ci + 1).drop_last() =~= clients@.take(ci as int));
        assert(clients@.take(ci + 1).last() == clients@[ci as int]);
        let ghost block = Seq::new(
            config.hosts@.len(),
            |i: int| (config.common.client.status, config.hosts@[i]),
        );
        assert(all_routes(clients@.take(ci + 1)) == prefix + block);
        let mut hi: usize = 0;
        assert(prefix + block.take(0) =~= prefix);
        while hi < config.hosts.len()
            invariant
                hi <= config.hosts.len(),
                host@ == hv,
                pc@ == path@,
                block == Seq::new(
                    config.hosts@.len(),
                    |i: int| (config.common.client.status, config.hosts@[i]),
                ),
                best_h == best_route(prefix + block.take(hi as int), hv, path@, scheme@),
                match best_h {
                    Some(h) => best matches Some((route, target)) && route@ == h@ && target@
                        == crate::model::target_items(h.target.target_str@)[0],
                    None => best is None,
                },
            decreases config.hosts.len() - hi,
        {
            let route = &config.hosts[hi];
            assert((prefix + block.take(hi + 1)).drop_last() =~= prefix + block.take(hi as int));
            assert((prefix + block.take(hi + 1)).last() == (config.common.client.status, *route));
            let serves = config.common.client.status && !route.is_close && route_supports_scheme(
                route,
                scheme,
            ) && host_matches(route.host.as_str(), host.as_str()) && crate::text::starts_with_str(
                &pc,
                route.location.as_str(),
            );
            if serves {
                match route.target.pick(0) {
                    Some((target, _)) => {
                        let replace = match &best {
                            Some((old, _)) => route.location.as_str().as_bytes().len() > old.location.as_str().as_bytes().len(),
                            None => true,
                        };
                        proof {
                            assert(crate::model::target_items(route.target.target_str@).len() > 0);
                            assert(0int % crate::model::target_items(route.target.target_str@).len() as int == 0);
                        }
                        if replace {
                            best = Some((route.duplicate(), target));
                            proof {
                                best_h = Some(*route);
                            }
                        }
                    },
                    None => {},
                }
            }
            hi += 1;
        }
        assert(block.take(config.hosts.len() as int) =~= block);
        ci += 1;
    }
    assert(clients@.take(clients.len() as int) =~= clients@);
    best
}

/// Why the host proxy refused a request.
#[derive(PartialEq, Eq, Structural, Clone, Copy, Debug)]
pub enum HostProxyError {
    /// The route's client asks for basic credentials that the request
    /// does not carry.
    Unauthorized,
    /// The request line does not parse.
    InvalidRequest,
}

/// The host a route sends to its backend: its host change when one is
/// set, else its own host.
pub open spec fn spec_route_host(route: Host) -> Seq<char> {
    if trim(route.host_change@).len() == 0 {
        route.host@
    } else {
        route.host_change@
    }
}

/// The cache key of a request on a route, from its request line.
pub open spec fn spec_request_cache_key(http_cache: bool, scheme: Seq<char>, route: Host, t: Seq<char>) -> Option<Seq<char>> {
    match crate::http::spec_http_request_line(t) {
        Some((m, u, v)) => spec_cache_key(http_cache, scheme, route.host@, m, u),
        None => None,
    }
}

/// Where a route with automatic HTTPS sends plain HTTP requests: the
/// route's host (without its port) on the HTTPS port, at the route's
/// location.
pub open spec fn spec_https_redirect_url(https_port: u16, route: Host) -> Seq<char> {
    "https://"@ + spec_strip_host_port(route.host@) + ":"@ + dec(https_port as nat) + route.location@
}

/// The page of a redirect to `url`.
pub open spec fn redirect_body(url: Seq<char>) -> Seq<char> {
    "<html><body><a href=\u{22}"@ + url + "\u{22}>Moved Permanently</a></body></html>"@
}

/// The response a route with automatic HTTPS answers over plain HTTP (a
/// `301` to the HTTPS address), when an HTTPS port is configured; none
/// otherwise.
pub open spec fn spec_https_redirect(https_port: u16, route: Host) -> Option<Seq<u8>> {
    if route.auto_https && https_port > 0 {
        let url = spec_https_redirect_url(https_port, route);
        let body = redirect_body(url);
        Some(encode_utf8(
            "HTTP/1.1 301 Moved Permanently\r\nLocation: "@ + url
                + "\r\nContent-Type: text/html; charset=utf-8\r\nContent-Length: "@
                + dec(encode_utf8(body).len()) + "\r\nConnection: close\r\n\r\n"@ + body,
        ))
    } else {
        None
    }
}

/// The redirect answer of a route with automatic HTTPS.
pub fn https_redirect(https_port: u16, route: &Host) -> (r: Option<Vec<u8>>)
    ensures
        match spec_https_redirect(https_port, *route) {
            Some(b) => r matches Some(v) && v@ == b,
            None => r is None,
        },
{
    if !(route.auto_https && https_port > 0) {
        return None;
    }
    let mut url: Vec<char> = Vec::new();
    append_str(&mut url, "https://");
    append_str(&mut url, strip_host_port(route.host.as_str()).as_str());
    append_str(&mut url, ":");
    append(&mut url, &dec_exec(https_port as u64));
    append_str(&mut url, route.location.as_str());
    let mut body: Vec<char> = Vec::new();
    append_str(&mut body, "<html><body><a href=\u{22}");
    append(&mut body, &url);
    append_str(&mut body, "\u{22}>Moved Permanently</a></body></html>");
    let body_len = crate::http::utf8_bytes(string_of(&body).as_str()).len();
    let mut text: Vec<char> = Vec::new();
    append_str(&mut text, "HTTP/1.1 301 Moved Permanently\r\nLocation: ");
    append(&mut text, &url);
    append_str(&mut text, "\r\nContent-Type: text/html; charset=utf-8\r\nContent-Length: ");
    append(&mut text, &dec_exec(body_len as u64));
    append_str(&mut text, "\r\nConnection: close\r\n\r\n");
    append(&mut text, &body);
    Some(crate::http::utf8_bytes(string_of(&text).as_str()))
}

/// The largest response the HTTP cache keeps, in bytes.
pub const MAX_CACHED_RESPONSE: usize = 2097152;

/// A fetched response goes into the cache: its status is `200` and it is
/// not larger than [`MAX_CACHED_RESPONSE`].
pub fn response_cacheable(head: &[u8], total_len: usize) -> (r: bool)
    ensures
        r == (crate::http::spec_http_status_code(crate::http::lossy_text(head@)) == Some(200u16)
            && total_len <= MAX_CACHED_RESPONSE),
{
    match crate::http::parse_http_status_code(head) {
        Some(code) => code == 200 && total_len <= MAX_CACHED_RESPONSE,
        None => false,
    }
}

/// What the host proxy forwards for a request head: refused without the
/// client's basic credentials (when the client sets both), refused when
/// the request line does not parse, else the head rewritten for the
/// route (host, header changes, origin headers, and `Connection: close`
/// for a cacheable request) with the request's cache key.
pub fn prepare_host_proxy_request(
    server: &ServerConfig,
    route: &Host,
    basic_username: &str,
    basic_password: &str,
    remote: &str,
    peer_ip: Option<&str>,
    head: &[u8],
    scheme: &str,
) -> (r: Result<(Vec<u8>, Option<String>), HostProxyError>)
    ensures
        ({
            let t = crate::http::lossy_text(head@);
            let needs_auth = basic_username@.len() > 0 && basic_password@.len() > 0;
            let key = spec_request_cache_key(server.http_cache, scheme@, *route, t);
            &&& needs_auth && !crate::http::spec_basic_auth(t, basic_username@, basic_password@) ==> r
                == Err::<(Vec<u8>, Option<String>), HostProxyError>(HostProxyError::Unauthorized)
            &&& !(needs_auth && !crate::http::spec_basic_auth(t, basic_username@, basic_password@))
                && crate::http::spec_http_request_line(t) is None ==> r == Err::<
                (Vec<u8>, Option<String>),
                HostProxyError,
            >(HostProxyError::InvalidRequest)
            &&& !(needs_auth && !crate::http::spec_basic_auth(t, basic_username@, basic_password@))
                && crate::http::spec_http_request_line(t) is Some ==> (r matches Ok((h, k)) && (match k {
                Some(kk) => key == Some(kk@),
                None => key is None,
            }) && h@ == encode_utf8(
                crate::http::spec_rewrite_head(
                    t,
                    Some(spec_route_host(*route)),
                    route.header_change@,
                    remote@,
                    crate::http::opt_view(peer_ip),
                    server.http_add_origin_header,
                    key is Some,
                ),
            ))
        }),
{
    if !basic_username.is_empty() && !basic_password.is_empty() && !crate::http::check_http_basic_auth(
        head,
        basic_username,
        basic_password,
    ) {
        return Err(HostProxyError::Unauthorized);
    }
    let (method, path, _version) = match crate::http::parse_http_request_line(head) {
        Some(line) => line,
        None => return Err(HostProxyError::InvalidRequest),
    };
    let key = cache_key_for_request(server.http_cache, scheme, route, method.as_str(), path.as_str());
    let host = if trim_str(route.host_change.as_str()).len() == 0 {
        route.host.as_str()
    } else {
        route.host_change.as_str()
    };
    let prepared = crate::http::rewrite_http_request_head(
        head,
        Some(host),
        route.header_change.as_str(),
        remote,
        peer_ip,
        server.http_add_origin_header,
        key.is_some(),
    );
    Ok((prepared, key))
}

// ---------------------------------------------------------------------------
// Client access
// ---------------------------------------------------------------------------

/// Some item of the list, trimmed, is the IP.
pub open spec fn spec_ip_in_list(ip: Seq<char>, items: Seq<Seq<char>>) -> bool {
    exists|i: int| 0 <= i < items.len() && trim(#[trigger] items[i]) == ip
}

/// No IP is in an empty list.
pub proof fn lemma_ip_not_in_empty(ip: Seq<char>)
    ensures
        !spec_ip_in_list(ip, Seq::empty()),
{
}

/// A one-entry list holds exactly the IP its entry names, spaces aside:
/// an entry that merely begins or ends like the IP does not hold it.
pub proof fn lemma_ip_in_single(ip: Seq<char>, item: Seq<char>)
    ensures
        spec_ip_in_list(ip, seq![item]) == (trim(item) == ip),
{
    if trim(item) == ip {
        assert(trim(seq![item][0]) == ip);
    }
}

/// An IP is in two lists put together exactly when it is in one of them.
pub proof fn lemma_ip_in_concat(ip: Seq<char>, a: Seq<Seq<char>>, b: Seq<Seq<char>>)
    ensures
        spec_ip_in_list(ip, a + b) == (spec_ip_in_list(ip, a) || spec_ip_in_list(ip, b)),
{
    let ab = a + b;
    if spec_ip_in_list(ip, ab) {
        let i = choose|i: int| 0 <= i < ab.len() && trim(#[trigger] ab[i]) == ip;
        if i < a.len() {
            assert(ab[i] == a[i]);
        } else {
            assert(ab[i] == b[i - a.len()]);
        }
    }
    if spec_ip_in_list(ip, a) {
        let i = choose|i: int| 0 <= i < a.len() && trim(#[trigger] a[i]) == ip;
        assert(ab[i] == a[i]);
    }
    if spec_ip_in_list(ip, b) {
        let i = choose|i: int| 0 <= i < b.len() && trim(#[trigger] b[i]) == ip;
        assert(ab[i + a.len()] == b[i]);
    }
}

/// Whether a trimmed entry of `items` equals `ip`.
pub fn ip_in_list(ip: &str, items: &Vec<String>) -> (r: bool)
    ensures
        r == spec_ip_in_list(ip@, strings_view(items@)),
{
    let ghost its = strings_view(items@);
    let ic = chars_of(ip);
    let mut i: usize = 0;
    while i < items.len()
        invariant
            its == strings_view(items@),
            ic@ == ip@,
            i <= items.len(),
            forall|j: int| 0 <= j < i ==> trim(#[trigger] its[j]) != ip@,
        decreases items.len() - i,
    {
        let t = trim_str(items[i].as_str());
        if crate::text::eq(&t, &ic) {
            assert(trim(its[i as int]) == ip@);
            return true;
        }
        i += 1;
    }
    false
}

/// The IP of a remote address: the socket address's IP when it parses as
/// one (`peer_ip`), else the host with its port dropped.
pub fn remote_ip(remote: &str, peer_ip: Option<&str>) -> (r: String)
    ensures
        r@ == match peer_ip {
            Some(p) => p@,
            None => spec_strip_host_port(remote@),
        },
{
    match peer_ip {
        Some(p) => owned(p),
        None => strip_host_port(remote),
    }
}

/// Why a client connection or request was refused.
#[derive(PartialEq, Eq, Structural, Clone, Copy, Debug)]
pub enum AccessError {
    InvalidKey,
    IpNotValidated,
    TrafficExceeded,
    GlobalBlacklist,
    ClientNotFound,
    ClientDisabled,
    ConfigConnDisabled,
    ClientBlacklist,
    NotWhitelisted,
}

/// The facts about a connecting client that the access rules read.
pub struct AccessFacts {
    /// The remote IP (empty when unknown).
    pub ip: String,
    /// The IP was registered and its registration has not expired.
    pub ip_authorized: bool,
    /// The client's traffic has reached its flow limit.
    pub flow_limit_reached: bool,
    /// The server-wide blacklist.
    pub global_black_ip_list: Vec<String>,
}

/// The access rules for a tunnel connection, in the order they are
/// checked; `None` when access is granted.
pub open spec fn spec_client_access(ip_limit: bool, f: AccessFacts, client: Option<ClientRuntimeConfig>) -> Option<AccessError> {
    let ip = f.ip@;
    if ip.len() == 0 {
        None
    } else if ip_limit && !f.ip_authorized {
        Some(AccessError::IpNotValidated)
    } else if f.flow_limit_reached {
        Some(AccessError::TrafficExceeded)
    } else if spec_ip_in_list(ip, strings_view(f.global_black_ip_list@)) {
        Some(AccessError::GlobalBlacklist)
    } else {
        match client {
            None => Some(AccessError::ClientNotFound),
            Some(c) => {
                let info = c.common.client;
                if !info.status {
                    Some(AccessError::ClientDisabled)
                } else if c.no_store && !info.config_conn_allow {
                    Some(AccessError::ConfigConnDisabled)
                } else if spec_ip_in_list(ip, strings_view(info.black_ip_list@)) {
                    Some(AccessError::ClientBlacklist)
                } else if info.ip_white && !spec_ip_in_list(ip, strings_view(info.ip_white_list@)) {
                    Some(AccessError::NotWhitelisted)
                } else {
                    None
                }
            },
        }
    }
}

/// Decides whether a connection from `facts.ip` may use the client's
/// tunnels.
pub fn validate_client_access(server: &ServerConfig, facts: &AccessFacts, client: Option<&ClientRuntimeConfig>) -> (r: Result<(), AccessError>)
    ensures
        match spec_client_access(
            server.ip_limit,
            *facts,
            match client {
                Some(c) => Some(*c),
                None => None,
            },
        ) {
            Some(e) => r == Err::<(), AccessError>(e),
            None => r is Ok,
        },
{
    if facts.ip.as_str().is_empty() {
        return Ok(());
    }
    if server.ip_limit && !facts.ip_authorized {
        return Err(AccessError::IpNotValidated);
    }
    if facts.flow_limit_reached {
        return Err(AccessError::TrafficExceeded);
    }
    if ip_in_list(facts.ip.as_str(), &facts.global_black_ip_list) {
        return Err(AccessError::GlobalBlacklist);
    }
    let c = match client {
        Some(c) => c,
        None => return Err(AccessError::ClientNotFound),
    };
    let info = &c.common.client;
    if !info.status {
        return Err(AccessError::ClientDisabled);
    }
    if c.no_store && !info.config_conn_allow {
        return Err(AccessError::ConfigConnDisabled);
    }
    if ip_in_list(facts.ip.as_str(), &info.black_ip_list) {
        return Err(AccessError::ClientBlacklist);
    }
    if info.ip_white && !ip_in_list(facts.ip.as_str(), &info.ip_white_list) {
        return Err(AccessError::NotWhitelisted);
    }
    Ok(())
}

/// The handshake rules for a client connecting to the bridge, in the order
/// they are checked; `None` when the client is admitted. A configuration
/// connection with the public key is admitted at once.
pub open spec fn spec_client_handshake(
    public_vkey: Seq<char>,
    ip_limit: bool,
    vkey: Seq<char>,
    f: AccessFacts,
    client: Option<ClientRuntimeConfig>,
    require_config_conn_allow: bool,
) -> Option<AccessError> {
    let ip = f.ip@;
    if trim(vkey).len() == 0 {
        Some(AccessError::InvalidKey)
    } else if require_config_conn_allow && vkey == public_vkey {
        None
    } else if ip_limit && ip.len() > 0 && !f.ip_authorized {
        Some(AccessError::IpNotValidated)
    } else if ip.len() > 0 && spec_ip_in_list(ip, strings_view(f.global_black_ip_list@)) {
        Some(AccessError::GlobalBlacklist)
    } else {
        match client {
            None => Some(AccessError::InvalidKey),
            Some(c) => {
                let info = c.common.client;
                if !info.status {
                    Some(AccessError::ClientDisabled)
                } else if require_config_conn_allow && !info.config_conn_allow {
                    Some(AccessError::ConfigConnDisabled)
                } else if ip.len() > 0 && spec_ip_in_list(ip, strings_view(info.black_ip_list@)) {
                    Some(AccessError::ClientBlacklist)
                } else if ip.len() > 0 && info.ip_white && !spec_ip_in_list(
                    ip,
                    strings_view(info.ip_white_list@),
                ) {
                    Some(AccessError::NotWhitelisted)
                } else {
                    None
                }
            },
        }
    }
}

pub open spec fn opt_client(client: Option<&ClientRuntimeConfig>) -> Option<ClientRuntimeConfig> {
    match client {
        Some(c) => Some(*c),
        None => None,
    }
}

/// Decides whether a client presenting `vkey` may open a control or
/// configuration connection; `client` is the client registered under
/// `vkey`.
pub fn validate_client_handshake(
    server: &ServerConfig,
    vkey: &str,
    facts: &AccessFacts,
    client: Option<&ClientRuntimeConfig>,
    require_config_conn_allow: bool,
) -> (r: Result<(), AccessError>)
    ensures
        match spec_client_handshake(
            server.public_vkey@,
            server.ip_limit,
            vkey@,
            *facts,
            opt_client(client),
            require_config_conn_allow,
        ) {
            Some(e) => r == Err::<(), AccessError>(e),
            None => r is Ok,
        },
{
    if trim_str(vkey).len() == 0 {
        return Err(AccessError::InvalidKey);
    }
    if require_config_conn_allow && crate::text::eq(&chars_of(vkey), &chars_of(server.public_vkey.as_str())) {
        return Ok(());
    }
    let has_ip = !facts.ip.as_str().is_empty();
    if server.ip_limit && has_ip && !facts.ip_authorized {
        return Err(AccessError::IpNotValidated);
    }
    if has_ip && ip_in_list(facts.ip.as_str(), &facts.global_black_ip_list) {
        return Err(AccessError::GlobalBlacklist);
    }
    let c = match client {
        Some(c) => c,
        None => return Err(AccessError::InvalidKey),
    };
    let info = &c.common.client;
    if !info.status {
        return Err(AccessError::ClientDisabled);
    }
    if require_config_conn_allow && !info.config_conn_allow {
        return Err(AccessError::ConfigConnDisabled);
    }
    if has_ip && ip_in_list(facts.ip.as_str(), &info.black_ip_list) {
        return Err(AccessError::ClientBlacklist);
    }
    if has_ip && info.ip_white && !ip_in_list(facts.ip.as_str(), &info.ip_white_list) {
        return Err(AccessError::NotWhitelisted);
    }
    Ok(())
}

impl AccessError {
    /// The message reported for the refusal; `ip` is the remote IP.
    pub fn message(&self, ip: &str) -> (r: String)
        ensures
            r@ == match *self {
                AccessError::InvalidKey => "invalid verification key"@,
                AccessError::IpNotValidated => "the ip "@ + ip@ + " is not in the validation list"@,
                AccessError::TrafficExceeded => "traffic exceeded"@,
                AccessError::GlobalBlacklist => "remote ip is in global blacklist"@,
                AccessError::ClientNotFound => "client not found"@,
                AccessError::ClientDisabled => "client disabled"@,
                AccessError::ConfigConnDisabled => "config connection is disabled for this client"@,
                AccessError::ClientBlacklist => "remote ip is in client blacklist"@,
                AccessError::NotWhitelisted => "remote ip is not in client whitelist"@,
            },
    {
        match *self {
            AccessError::InvalidKey => owned("invalid verification key"),
            AccessError::IpNotValidated => {
                let mut m = chars_of("the ip ");
                append_str(&mut m, ip);
                append_str(&mut m, " is not in the validation list");
                string_of(&m)
            },
            AccessError::TrafficExceeded => owned("traffic exceeded"),
            AccessError::GlobalBlacklist => owned("remote ip is in global blacklist"),
            AccessError::ClientNotFound => owned("client not found"),
            AccessError::ClientDisabled => owned("client disabled"),
            AccessError::ConfigConnDisabled => owned("config connection is disabled for this client"),
            AccessError::ClientBlacklist => owned("remote ip is in client blacklist"),
            AccessError::NotWhitelisted => owned("remote ip is not in client whitelist"),
        }
    }
}

/// Why an IP registration was refused.
#[derive(PartialEq, Eq, Structural, Clone, Copy, Debug)]
pub enum RegistrationError {
    EmptyKey,
    UnknownClient,
}

/// An IP may be registered with the public key or with the key of a known
/// client; `known_client` says whether a client is registered under
/// `vkey`.
pub fn ensure_ip_registration_vkey(public_vkey: &str, vkey: &str, known_client: bool) -> (r: Result<(), RegistrationError>)
    ensures
        trim(vkey@).len() == 0 ==> r == Err::<(), RegistrationError>(RegistrationError::EmptyKey),
        trim(vkey@).len() != 0 && vkey@ == public_vkey@ ==> r is Ok,
        trim(vkey@).len() != 0 && vkey@ != public_vkey@ ==> (r is Ok <==> known_client),
        r is Err && trim(vkey@).len() != 0 ==> r == Err::<(), RegistrationError>(RegistrationError::UnknownClient),
{
    if trim_str(vkey).len() == 0 {
        return Err(RegistrationError::EmptyKey);
    }
    if crate::text::eq(&chars_of(vkey), &chars_of(public_vkey)) {
        return Ok(());
    }
    if known_client {
        Ok(())
    } else {
        Err(RegistrationError::UnknownClient)
    }
}

/// Encryption and compression of a client's links: off when transport
/// wrapping is disabled or the client is unknown; compression only
/// without encryption.
pub fn client_transport_flags(client: Option<&ClientRuntimeConfig>, disable_transport: bool) -> (r: (bool, bool))
    ensures
        r == (match client {
            Some(c) => if disable_transport {
                (false, false)
            } else {
                (c.common.client.crypt, !c.common.client.crypt && c.common.client.compress)
            },
            None => (false, false),
        }),
{
    if disable_transport {
        return (false, false);
    }
    match client {
        Some(c) => (c.common.client.crypt, !c.common.client.crypt && c.common.client.compress),
        None => (false, false),
    }
}

/// The relay policy of a client: its limits where the server enforces
/// them, and its traffic counted; nothing for an unknown client.
pub fn client_relay_policy(server: &ServerConfig, client: Option<&ClientRuntimeConfig>) -> (r: crate::relay::RelayPolicy)
    ensures
        r == (match client {
            Some(c) => crate::relay::RelayPolicy {
                rate_limit_kb: if server.allow_rate_limit {
                    c.common.client.rate_limit_kb
                } else {
                    0
                },
                flow_limit_mb: if server.allow_flow_limit {
                    c.common.client.flow_limit_mb
                } else {
                    0
                },
                counts_flow: true,
            },
            None => crate::relay::RelayPolicy { rate_limit_kb: 0, flow_limit_mb: 0, counts_flow: false },
        }),
{
    match client {
        Some(c) => crate::relay::RelayPolicy {
            rate_limit_kb: if server.allow_rate_limit {
                c.common.client.rate_limit_kb
            } else {
                0
            },
            flow_limit_mb: if server.allow_flow_limit {
                c.common.client.flow_limit_mb
            } else {
                0
            },
            counts_flow: true,
        },
        None => crate::relay::RelayPolicy { rate_limit_kb: 0, flow_limit_mb: 0, counts_flow: false },
    }
}

/// A client's counted traffic has reached its flow limit (only where the
/// server enforces flow limits and the limit is not zero).
pub fn client_flow_limit_reached(allow_flow_limit: bool, flow_limit_mb: u64, counter: &crate::model::FlowCounter) -> (r: bool)
    ensures
        r == (allow_flow_limit && flow_limit_mb != 0 && crate::relay::sat_add(
            counter.inlet_flow,
            counter.export_flow,
        ) >= crate::relay::spec_flow_limit_bytes(flow_limit_mb)),
{
    if !allow_flow_limit || flow_limit_mb == 0 {
        return false;
    }
    let total = counter.inlet_flow.saturating_add(counter.export_flow);
    total >= crate::relay::flow_limit_bytes(flow_limit_mb)
}

/// The first tunnel with the id.
pub open spec fn find_tunnel(ts: Seq<Tunnel>, id: u64) -> Option<Tunnel>
    decreases ts.len(),
{
    if ts.len() == 0 {
        None
    } else if ts[0].id == id {
        Some(ts[0])
    } else {
        find_tunnel(ts.drop_first(), id)
    }
}

/// The first client holding tunnel `id` is enabled, and the tunnel is
/// enabled and running.
pub open spec fn spec_tunnel_active(cs: Seq<ClientRuntimeConfig>, id: u64) -> bool
    decreases cs.len(),
{
    if cs.len() == 0 {
        false
    } else {
        match find_tunnel(cs[0].tunnels@, id) {
            Some(t) => cs[0].common.client.status && t.status && t.run_status,
            None => spec_tunnel_active(cs.drop_first(), id),
        }
    }
}

fn find_tunnel_exec(ts: &Vec<Tunnel>, id: u64) -> (r: Option<usize>)
    ensures
        match r {
            Some(i) => i < ts@.len() && find_tunnel(ts@, id) == Some(ts@[i as int]),
            None => find_tunnel(ts@, id) is None,
        },
{
    let mut i: usize = 0;
    assert(ts@.subrange(0, ts@.len() as int) =~= ts@);
    while i < ts.len()
        invariant
            i <= ts.len(),
            find_tunnel(ts@, id) == find_tunnel(ts@.subrange(i as int, ts@.len() as int), id),
        decreases ts.len() - i,
    {
        let ghost rest = ts@.subrange(i as int, ts@.len() as int);
        assert(rest[0] == ts@[i as int]);
        assert(rest.drop_first() =~= ts@.subrange(i + 1, ts@.len() as int));
        if ts[i].id == id {
            return Some(i);
        }
        i += 1;
    }
    None
}

/// Whether tunnel `id` may carry traffic.
pub fn tunnel_is_active(clients: &Vec<ClientRuntimeConfig>, id: u64) -> (r: bool)
    ensures
        r == spec_tunnel_active(clients@, id),
{
    let mut i: usize = 0;
    assert(clients@.subrange(0, clients@.len() as int) =~= clients@);
    while i < clients.len()
        invariant
            i <= clients.len(),
            spec_tunnel_active(clients@, id) == spec_tunnel_active(
                clients@.subrange(i as int, clients@.len() as int),
                id,
            ),
        decreases clients.len() - i,
    {
        let ghost rest = clients@.subrange(i as int, clients@.len() as int);
        assert(rest[0] == clients@[i as int]);
        assert(rest.drop_first() =~= clients@.subrange(i + 1, clients@.len() as int));
        let c = &clients[i];
        match find_tunnel_exec(&c.tunnels, id) {
            Some(k) => {
                let t = &c.tunnels[k];
                return c.common.client.status && t.status && t.run_status;
            },
            None => {},
        }
        i += 1;
    }
    false
}

} // verus!
