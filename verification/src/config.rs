//! Loading `nps.conf` and `npc.conf`: port lists, target lists, sections,
//! and the records built from them.
use vstd::prelude::*;
use crate::kv::{
    flag_value, get_bool, get_bool_alias, get_list, get_string, get_string_alias, get_u16,
    get_u64, get_usize, ini_sections, kv_bool, kv_first, kv_get, kv_string, kv_uint, list_items, parse_ini_sections, parse_plain_kv, plain_kv, sections_view, KvView, SectionMap,
};
use crate::model::{
    hosts_view, healths_view, locals_view, strings_of, strings_view, tunnels_view, ClientInfoView,
    ClientRuntimeConfig, ClientRuntimeConfigView, CommonConfig, CommonConfigView, HealthCheck,
    HealthCheckView, Host, HostView, LocalServer, LocalServerView, ServerConfig, Target,
    TargetView, Tunnel, TunnelView,
};
use crate::text::{
    append, chars_of, find_char, find_char_exec, find_sub, find_sub_exec, lower,
    lines, lower_vec, owned, parse_uint, parse_uint_exec, replace_char, replace_char_exec, slice,
    split_char, split_char_exec, split_once, split_once_exec, starts_with, starts_with_str,
    string_of, trim, trim_vec, trimmed_nonempty, trimmed_nonempty_exec, views,
};

verus! {

// ---------------------------------------------------------------------------
// Port and target lists
// ---------------------------------------------------------------------------

/// The ports `lo..=hi`.
pub open spec fn port_range(lo: nat, hi: nat) -> Seq<u16> {
    Seq::new((hi + 1 - lo) as nat, |i: int| (lo + i) as u16)
}

/// The ports one comma separated item stands for: `a-b` (either order) or
/// a single port; nothing when it does not parse.
pub open spec fn part_ports(part: Seq<char>) -> Seq<u16> {
    match split_once(part, '-') {
        Some((a, b)) => match (parse_uint(trim(a), 0xffff), parse_uint(trim(b), 0xffff)) {
            (Some(x), Some(y)) => if x <= y {
                port_range(x, y)
            } else {
                port_range(y, x)
            },
            _ => Seq::empty(),
        },
        None => match parse_uint(part, 0xffff) {
            Some(p) => seq![p as u16],
            None => Seq::empty(),
        },
    }
}

pub open spec fn ports_of_parts(ps: Seq<Seq<char>>) -> Seq<u16>
    decreases ps.len(),
{
    if ps.len() == 0 {
        Seq::empty()
    } else {
        ports_of_parts(ps.drop_last()) + part_ports(ps.last())
    }
}

/// The items of a comma separated list, trimmed, empty ones dropped.
pub open spec fn comma_items(s: Seq<char>) -> Seq<Seq<char>> {
    trimmed_nonempty(split_char(s, ','))
}

/// All ports of a list such as `8000-8002,9000`, in order.
pub open spec fn spec_expand_ports(s: Seq<char>) -> Seq<u16> {
    ports_of_parts(comma_items(s))
}

spec fn range_from(lo: nat, n: nat) -> Seq<u16> {
    Seq::new(n, |i: int| (lo + i) as u16)
}

fn push_range(out: &mut Vec<u16>, lo: u16, hi: u16)
    requires
        lo <= hi,
    ensures
        final(out)@ == old(out)@ + port_range(lo as nat, hi as nat),
{
    let mut p: u32 = lo as u32;
    assert(old(out)@ + range_from(lo as nat, 0) =~= old(out)@);
    while p <= hi as u32
        invariant
            lo <= p <= hi as u32 + 1,
            out@ == old(out)@ + range_from(lo as nat, (p - lo) as nat),
        decreases hi as u32 + 1 - p,
    {
        out.push(p as u16);
        p += 1;
        assert(out@ =~= old(out)@ + range_from(lo as nat, (p - lo) as nat));
    }
    assert(range_from(lo as nat, (p - lo) as nat) =~= port_range(lo as nat, hi as nat));
}

fn part_ports_exec(part: &Vec<char>) -> (r: Vec<u16>)
    ensures
        r@ == part_ports(part@),
{
    let mut out: Vec<u16> = Vec::new();
    match split_once_exec(part, '-') {
        Some((a, b)) => {
            let ta = trim_vec(&a);
            let tb = trim_vec(&b);
            match (crate::text::parse_u16(&ta), crate::text::parse_u16(&tb)) {
                (Some(x), Some(y)) => {
                    if x <= y {
                        push_range(&mut out, x, y);
                    } else {
                        push_range(&mut out, y, x);
                    }
                    assert(out@ =~= part_ports(part@));
                },
                _ => {
                    assert(out@ =~= part_ports(part@));
                },
            }
        },
        None => {
            match crate::text::parse_u16(part) {
                Some(p) => {
                    out.push(p);
                    assert(out@ =~= part_ports(part@));
                },
                None => {
                    assert(out@ =~= part_ports(part@));
                },
            }
        },
    }
    out
}

/// Expands a port list: items separated by commas, each a port or a range
/// `a-b` in either order; items that do not parse are skipped.
pub fn expand_ports(s: &str) -> (r: Vec<u16>)
    ensures
        r@ == spec_expand_ports(s@),
{
    let chars = chars_of(s);
    let pieces = split_char_exec(&chars, ',');
    let parts = trimmed_nonempty_exec(&pieces);
    let ghost pv = views(parts@);
    let mut out: Vec<u16> = Vec::new();
    let mut i: usize = 0;
    while i < parts.len()
        invariant
            pv == views(parts@),
            pv == comma_items(s@),
            i <= parts.len(),
            out@ == ports_of_parts(pv.take(i as int)),
        decreases parts.len() - i,
    {
        assert(pv.take(i + 1).drop_last() == pv.take(i as int));
        let more = part_ports_exec(&parts[i]);
        let mut j: usize = 0;
        let ghost before = out@;
        while j < more.len()
            invariant
                j <= more.len(),
                out@ == before + more@.take(j as int),
            decreases more.len() - j,
        {
            out.push(more[j]);
            j += 1;
            assert(more@.take(j as int) == more@.take(j - 1).push(more@[j - 1]));
        }
        assert(more@.take(more.len() as int) == more@);
        i += 1;
    }
    assert(pv.take(parts.len() as int) == pv);
    out
}

/// The first port of a list.
pub fn first_port(s: &str) -> (r: Option<u16>)
    ensures
        spec_expand_ports(s@).len() == 0 ==> r is None,
        spec_expand_ports(s@).len() > 0 ==> r == Some(spec_expand_ports(s@)[0]),
{
    let ports = expand_ports(s);
    if ports.len() == 0 {
        None
    } else {
        Some(ports[0])
    }
}

/// One target of a target list: kept when it has a port, else prefixed
/// with the base IP, or with `127.0.0.1` when there is none.
pub open spec fn target_entry(base_ip: Seq<char>, item: Seq<char>) -> Seq<char> {
    if find_char(item, ':') is Some {
        item
    } else if base_ip.len() > 0 {
        base_ip + seq![':'] + item
    } else {
        "127.0.0.1:"@ + item
    }
}

pub open spec fn target_entries(base_ip: Seq<char>, items: Seq<Seq<char>>) -> Seq<Seq<char>> {
    Seq::new(items.len(), |i: int| target_entry(base_ip, items[i]))
}

/// The targets of a list separated by commas or newlines.
pub open spec fn spec_expand_targets(base_ip: Seq<char>, target: Seq<char>) -> Seq<Seq<char>> {
    target_entries(base_ip, trimmed_nonempty(split_char(replace_char(target, ',', '\n'), '\n')))
}

/// Expands a target list separated by commas or newlines into addresses.
pub fn expand_targets(base_ip: &str, target: &str) -> (r: Vec<String>)
    ensures
        strings_view(r@) == spec_expand_targets(base_ip@, target@),
{
    let base = chars_of(base_ip);
    let t = chars_of(target);
    let replaced = replace_char_exec(&t, ',', '\n');
    let pieces = split_char_exec(&replaced, '\n');
    let items = trimmed_nonempty_exec(&pieces);
    let ghost iv = views(items@);
    let mut out: Vec<String> = Vec::new();
    let mut i: usize = 0;
    while i < items.len()
        invariant
            iv == views(items@),
            i <= items.len(),
            out@.len() == i,
            forall|j: int| 0 <= j < i ==> (#[trigger] out@[j])@ == target_entry(base@, iv[j]),
        decreases items.len() - i,
    {
        let item = &items[i];
        let entry = if find_char_exec(item, ':').is_some() {
            slice(item, 0, item.len())
        } else if base.len() > 0 {
            let mut e = slice(&base, 0, base.len());
            e.push(':');
            append(&mut e, item);
            e
        } else {
            let mut e = chars_of("127.0.0.1:");
            append(&mut e, item);
            e
        };
        assert(entry@ == target_entry(base@, iv[i as int]));
        out.push(string_of(&entry));
        i += 1;
    }
    assert(strings_view(out@) =~= spec_expand_targets(base_ip@, target@));
    out
}

// ---------------------------------------------------------------------------
// Environment placeholders
// ---------------------------------------------------------------------------

pub open spec fn open_pat() -> Seq<char> {
    seq!['{', '{', '.']
}

pub open spec fn close_pat() -> Seq<char> {
    seq!['}', '}']
}

/// The text with every `{{.NAME}}` replaced by the value of `NAME` in
/// `env` (empty when absent); an opening without a closing ends the
/// replacement, and replaced values are not scanned again.
pub open spec fn spec_render_env(s: Seq<char>, env: KvView) -> Seq<char>
    decreases s.len(),
{
    match find_sub(s, open_pat()) {
        None => s,
        Some(o) => match find_sub(s.subrange(o, s.len() as int), close_pat()) {
            None => s,
            Some(c) => if 0 <= o && 3 <= c && o + c + 2 <= s.len() {
                s.subrange(0, o) + kv_string(env, trim(s.subrange(o + 3, o + c)), Seq::empty())
                    + spec_render_env(s.subrange(o + c + 2, s.len() as int), env)
            } else {
                s
            },
        },
    }
}

proof fn lemma_close_after_open(after: Seq<char>, c: int)
    requires
        after.len() >= 3,
        after.subrange(0, 3) == open_pat(),
        find_sub(after, close_pat()) == Some(c),
    ensures
        3 <= c,
        c + 2 <= after.len(),
{
    crate::text::lemma_find_sub_props(after, close_pat());
    assert(after[0] == '{');
    assert(after[1] == '{');
    assert(after[2] == '.');
    assert(after.subrange(c, c + 2)[0] == after[c]);
}

/// Replaces `{{.NAME}}` placeholders by values from `env`.
pub fn render_env(raw: &str, env: &SectionMap) -> (r: String)
    ensures
        r@ == spec_render_env(raw@, env@),
{
    let s = chars_of(raw);
    let mut open_v: Vec<char> = Vec::new();
    open_v.push('{');
    open_v.push('{');
    open_v.push('.');
    let mut close_v: Vec<char> = Vec::new();
    close_v.push('}');
    close_v.push('}');
    assert(open_v@ =~= open_pat());
    assert(close_v@ =~= close_pat());
    let mut out: Vec<char> = Vec::new();
    let mut pos: usize = 0;
    assert(s@.subrange(0, s@.len() as int) =~= s@);
    assert(out@ + spec_render_env(s@, env@) =~= spec_render_env(s@, env@));
    loop
        invariant
            pos <= s.len(),
            s@ == raw@,
            open_v@ == open_pat(),
            close_v@ == close_pat(),
            spec_render_env(s@, env@) == out@ + spec_render_env(
                s@.subrange(pos as int, s@.len() as int),
                env@,
            ),
        decreases s.len() - pos,
    {
        let rest = slice(&s, pos, s.len());
        match find_sub_exec(&rest, &open_v) {
            None => {
                assert(spec_render_env(rest@, env@) == rest@);
                append(&mut out, &rest);
                return string_of(&out);
            },
            Some(o) => {
                let after = slice(&rest, o, rest.len());
                match find_sub_exec(&after, &close_v) {
                    None => {
                        assert(spec_render_env(rest@, env@) == rest@);
                        append(&mut out, &rest);
                        return string_of(&out);
                    },
                    Some(c) => {
                        proof {
                            crate::text::lemma_find_sub_props(rest@, open_pat());
                            assert(after@.subrange(0, 3) =~= rest@.subrange(o as int, o + 3));
                            lemma_close_after_open(after@, c as int);
                        }
                        let name_raw = slice(&rest, o + 3, o + c);
                        let name = trim_vec(&name_raw);
                        let value = match env.get(&name) {
                            Some(v) => chars_of(v.as_str()),
                            None => Vec::new(),
                        };
                        let head = slice(&rest, 0, o);
                        append(&mut out, &head);
                        append(&mut out, &value);
                        assert(rest@.subrange(o + c + 2, rest@.len() as int) =~= s@.subrange(
                            pos + o + c + 2,
                            s@.len() as int,
                        ));
                        pos = pos + o + c + 2;
                    },
                }
            },
        }
    }
}

// ---------------------------------------------------------------------------
// Records
// ---------------------------------------------------------------------------

/// `/` for an empty location, the location when it starts with `/`, else
/// the location with `/` in front.
pub open spec fn spec_normalize_location(v: Seq<char>) -> Seq<char> {
    if v.len() == 0 {
        "/"@
    } else if v[0] == '/' {
        v
    } else {
        seq!['/'] + v
    }
}

/// Normalizes a route location to start with `/`.
pub fn normalize_location(v: &str) -> (r: String)
    ensures
        r@ == spec_normalize_location(v@),
{
    let c = chars_of(v);
    if c.len() == 0 {
        owned("/")
    } else if c[0] == '/' {
        string_of(&c)
    } else {
        let mut out: Vec<char> = Vec::new();
        out.push('/');
        append(&mut out, &c);
        assert(out@ =~= seq!['/'] + c@);
        string_of(&out)
    }
}

/// The `[common]` section of `npc.conf` as a view.
pub open spec fn spec_parse_common(m: KvView) -> CommonConfigView {
    let vkey = kv_string(m, "vkey"@, "123"@);
    CommonConfigView {
        server_addr: kv_string(m, "server_addr"@, "127.0.0.1:8024"@),
        conn_type: kv_string(m, "conn_type"@, "tcp"@),
        vkey: vkey,
        auto_reconnection: kv_bool(m, "auto_reconnection"@, true),
        tls_enable: kv_bool(m, "tls_enable"@, false),
        proxy_url: kv_string(m, "proxy_url"@, Seq::empty()),
        disconnect_timeout: kv_uint(m, "disconnect_timeout"@, u64::MAX as nat, 60) as u64,
        client: ClientInfoView {
            verify_key: Seq::empty(),
            remark: kv_string(m, "remark"@, Seq::empty()),
            status: true,
            compress: kv_bool(m, "compress"@, false),
            crypt: kv_bool(m, "crypt"@, false),
            basic_username: kv_string(m, "basic_username"@, Seq::empty()),
            basic_password: kv_string(m, "basic_password"@, Seq::empty()),
            web_username: kv_string(m, "web_username"@, "user"@),
            web_password: kv_string(m, "web_password"@, vkey),
            config_conn_allow: kv_bool(m, "config_conn_allow"@, true),
            rate_limit_kb: kv_uint(m, "rate_limit"@, u64::MAX as nat, 0) as u64,
            flow_limit_mb: kv_uint(m, "flow_limit"@, u64::MAX as nat, 0) as u64,
            max_conn: kv_uint(m, "max_conn"@, usize::MAX as nat, 0) as usize,
            max_tunnel_num: kv_uint(m, "max_tunnel_num"@, usize::MAX as nat, 0) as usize,
            black_ip_list: match kv_first(m, seq!["black_ip_list"@, "blackiplist"@]) {
                Some(v) => list_items(v),
                None => Seq::empty(),
            },
            ip_white: match kv_first(m, seq!["ip_white"@, "ipwhite"@]) {
                Some(v) => flag_value(v),
                None => false,
            },
            ip_white_pass: match kv_first(m, seq!["ip_white_pass"@, "ipwhitepass"@]) {
                Some(v) => v,
                None => Seq::empty(),
            },
            ip_white_list: match kv_first(m, seq!["ip_white_list"@, "ipwhitelist"@]) {
                Some(v) => list_items(v),
                None => Seq::empty(),
            },
        },
    }
}

/// Parses the `[common]` section of `npc.conf`.
pub fn parse_common(kv: &SectionMap) -> (r: CommonConfig)
    ensures
        r@ == spec_parse_common(kv@),
{
    proof {
        reveal_strlit("");
    }
    let mut c = CommonConfig::default();
    c.server_addr = get_string(kv, "server_addr", "127.0.0.1:8024");
    c.conn_type = get_string(kv, "conn_type", "tcp");
    c.vkey = get_string(kv, "vkey", "123");
    c.auto_reconnection = get_bool(kv, "auto_reconnection", true);
    c.tls_enable = get_bool(kv, "tls_enable", false);
    c.proxy_url = get_string(kv, "proxy_url", "");
    c.disconnect_timeout = get_u64(kv, "disconnect_timeout", 60);
    c.client.basic_username = get_string(kv, "basic_username", "");
    c.client.basic_password = get_string(kv, "basic_password", "");
    c.client.web_username = get_string(kv, "web_username", "user");
    c.client.web_password = get_string(kv, "web_password", c.vkey.as_str());
    c.client.config_conn_allow = get_bool(kv, "config_conn_allow", true);
    c.client.compress = get_bool(kv, "compress", false);
    c.client.crypt = get_bool(kv, "crypt", false);
    c.client.rate_limit_kb = get_u64(kv, "rate_limit", 0);
    c.client.flow_limit_mb = get_u64(kv, "flow_limit", 0);
    c.client.max_conn = get_usize(kv, "max_conn", 0);
    c.client.remark = get_string(kv, "remark", "");
    c.client.max_tunnel_num = get_usize(kv, "max_tunnel_num", 0);
    let black_keys = ["black_ip_list", "blackiplist"];
    let white_keys = ["ip_white", "ipwhite"];
    let pass_keys = ["ip_white_pass", "ipwhitepass"];
    let list_keys = ["ip_white_list", "ipwhitelist"];
    assert(black_keys@.map_values(|k: &str| k@) =~= seq!["black_ip_list"@, "blackiplist"@]);
    assert(white_keys@.map_values(|k: &str| k@) =~= seq!["ip_white"@, "ipwhite"@]);
    assert(pass_keys@.map_values(|k: &str| k@) =~= seq!["ip_white_pass"@, "ipwhitepass"@]);
    assert(list_keys@.map_values(|k: &str| k@) =~= seq!["ip_white_list"@, "ipwhitelist"@]);
    c.client.black_ip_list = get_list(kv, &black_keys);
    c.client.ip_white = get_bool_alias(kv, &white_keys, false);
    c.client.ip_white_pass = get_string_alias(kv, &pass_keys, "");
    c.client.ip_white_list = get_list(kv, &list_keys);
    assert(c@ =~= spec_parse_common(kv@));
    c
}

/// The `header_NAME = value` pairs of a section, as `NAME:value` lines in
/// the order of the section.
pub open spec fn header_lines(m: KvView) -> Seq<char>
    decreases m.len(),
{
    if m.len() == 0 {
        Seq::empty()
    } else {
        let rest = header_lines(m.drop_last());
        let (k, v) = m.last();
        if starts_with(k, "header_"@) {
            rest + k.subrange(7, k.len() as int) + seq![':'] + v + seq!['\n']
        } else {
            rest
        }
    }
}

/// Each `header_NAME = value` entry of a host section adds the line
/// `NAME:value` (the key without its `header_` prefix) after those of the
/// entries before it; any other entry adds nothing.
pub proof fn lemma_host_header_entry(title: Seq<char>, m: KvView, key: Seq<char>, value: Seq<char>)
    ensures
        ({
            let before = spec_parse_host(title, m).header_change;
            let after = spec_parse_host(title, m.push((key, value))).header_change;
            &&& (forall|name: Seq<char>| key == "header_"@ + name ==> after == before + name + seq![':'] + value + seq!['\n'])
            &&& !starts_with(key, "header_"@) ==> after == before
        }),
{
    reveal_strlit("header_");
    assert(m.push((key, value)).drop_last() == m);
    assert forall|name: Seq<char>| key == "header_"@ + name implies spec_parse_host(title, m.push((key, value))).header_change
        == spec_parse_host(title, m).header_change + name + seq![':'] + value + seq!['\n'] by {
        assert(key.subrange(0, 7) =~= "header_"@);
        assert(key.subrange(7, key.len() as int) =~= name);
    }
}

/// A host section whose only `header_` entry is `header_NAME = value`
/// changes the one header `NAME` to `value`.
pub proof fn lemma_host_single_header(title: Seq<char>, name: Seq<char>, value: Seq<char>)
    ensures
        spec_parse_host(title, seq![("header_"@ + name, value)]).header_change == name + seq![':'] + value + seq!['\n'],
{
    lemma_host_header_entry(title, Seq::empty(), "header_"@ + name, value);
    assert(Seq::<(Seq<char>, Seq<char>)>::empty().push(("header_"@ + name, value)) =~= seq![("header_"@ + name, value)]);
    assert(header_lines(Seq::empty()) == Seq::<char>::empty());
    assert(Seq::<char>::empty() + name + seq![':'] + value + seq!['\n'] =~= name + seq![':'] + value + seq!['\n']);
}

/// A host route section as a view.
pub open spec fn spec_parse_host(title: Seq<char>, m: KvView) -> HostView {
    HostView {
        id: 0,
        host: kv_string(m, "host"@, Seq::empty()),
        header_change: header_lines(m),
        host_change: kv_string(m, "host_change"@, Seq::empty()),
        location: spec_normalize_location(kv_string(m, "location"@, "/"@)),
        remark: title,
        scheme: kv_string(m, "scheme"@, "all"@),
        cert_file_path: kv_string(m, "cert_file_path"@, Seq::empty()),
        key_file_path: kv_string(m, "key_file_path"@, Seq::empty()),
        target: TargetView {
            target_str: replace_char(kv_string(m, "target_addr"@, Seq::empty()), ',', '\n'),
            local_proxy: false,
        },
        client_vkey: Seq::empty(),
        no_store: true,
        is_close: false,
        auto_https: kv_bool(m, "auto_https"@, false),
    }
}

fn header_lines_exec(kv: &SectionMap) -> (r: Vec<char>)
    ensures
        r@ == header_lines(kv@),
{
    let ghost m = kv@;
    let mut out: Vec<char> = Vec::new();
    let mut i: usize = 0;
    while i < kv.entries.len()
        invariant
            m == kv@,
            i <= kv.entries.len(),
            out@ == header_lines(m.take(i as int)),
        decreases kv.entries.len() - i,
    {
        assert(m.take(i + 1).drop_last() == m.take(i as int));
        let k = chars_of(kv.entries[i].0.as_str());
        if starts_with_str(&k, "header_") {
            assert(("header_"@).len() == 7) by {
                reveal_strlit("header_");
            }
            let name = slice(&k, 7, k.len());
            append(&mut out, &name);
            out.push(':');
            let v = chars_of(kv.entries[i].1.as_str());
            append(&mut out, &v);
            out.push('\n');
        }
        i += 1;
    }
    assert(m.take(kv.entries.len() as int) == m);
    out
}

/// Parses a host route section.
pub fn parse_host(title: &str, kv: &SectionMap) -> (r: Host)
    ensures
        r@ == spec_parse_host(title@, kv@),
{
    proof {
        reveal_strlit("");
    }
    let mut h = Host::default();
    h.remark = owned(title);
    h.host = get_string(kv, "host", "");
    let target = get_string(kv, "target_addr", "");
    let tc = chars_of(target.as_str());
    h.target.target_str = string_of(&replace_char_exec(&tc, ',', '\n'));
    h.host_change = get_string(kv, "host_change", "");
    h.scheme = get_string(kv, "scheme", "all");
    h.cert_file_path = get_string(kv, "cert_file_path", "");
    h.key_file_path = get_string(kv, "key_file_path", "");
    let location = get_string(kv, "location", "/");
    h.location = normalize_location(location.as_str());
    h.auto_https = get_bool(kv, "auto_https", false);
    h.header_change = string_of(&header_lines_exec(kv));
    assert(h@ =~= spec_parse_host(title@, kv@));
    h
}

/// A tunnel section as a view.
pub open spec fn spec_parse_tunnel(title: Seq<char>, m: KvView) -> TunnelView {
    let ports = kv_string(m, "server_port"@, Seq::empty());
    let expanded = spec_expand_ports(ports);
    let target_str = replace_char(kv_string(m, "target_addr"@, Seq::empty()), ',', '\n');
    let target_port = kv_string(m, "target_port"@, Seq::empty());
    TunnelView {
        id: 0,
        mode: kv_string(m, "mode"@, "tcp"@),
        remark: title,
        server_ip: kv_string(m, "server_ip"@, "0.0.0.0"@),
        server_port: if expanded.len() > 0 {
            expanded[0]
        } else {
            0
        },
        status: true,
        run_status: true,
        ports: ports,
        target: TargetView {
            target_str: if target_port.len() > 0 && target_str.len() == 0 {
                target_port
            } else {
                target_str
            },
            local_proxy: false,
        },
        target_addr: kv_string(m, "target_ip"@, Seq::empty()),
        password: kv_string(m, "password"@, Seq::empty()),
        local_path: kv_string(m, "local_path"@, Seq::empty()),
        strip_pre: kv_string(m, "strip_pre"@, Seq::empty()),
        multi_account: Seq::empty(),
        proto_version: kv_string(m, "proxy_protocol"@, Seq::empty()),
        client_vkey: Seq::empty(),
        no_store: true,
    }
}

/// Parses a tunnel section.
pub fn parse_tunnel(title: &str, kv: &SectionMap) -> (r: Tunnel)
    ensures
        r@ == spec_parse_tunnel(title@, kv@),
{
    proof {
        reveal_strlit("");
    }
    let mut t = Tunnel::default();
    t.remark = owned(title);
    t.mode = get_string(kv, "mode", "tcp");
    t.ports = get_string(kv, "server_port", "");
    t.server_port = match first_port(t.ports.as_str()) {
        Some(p) => p,
        None => 0,
    };
    t.server_ip = get_string(kv, "server_ip", "0.0.0.0");
    let target = get_string(kv, "target_addr", "");
    let tc = chars_of(target.as_str());
    let target_str = replace_char_exec(&tc, ',', '\n');
    t.target_addr = get_string(kv, "target_ip", "");
    let target_port = get_string(kv, "target_port", "");
    let tp = chars_of(target_port.as_str());
    if tp.len() > 0 && target_str.len() == 0 {
        t.target.target_str = target_port;
    } else {
        t.target.target_str = string_of(&target_str);
    }
    t.password = get_string(kv, "password", "");
    t.local_path = get_string(kv, "local_path", "");
    t.strip_pre = get_string(kv, "strip_pre", "");
    t.proto_version = get_string(kv, "proxy_protocol", "");
    assert(t@ =~= spec_parse_tunnel(title@, kv@));
    t
}

/// A local visitor section as a view; `kind` is the lowercased title.
pub open spec fn spec_parse_local_server(kind: Seq<char>, m: KvView) -> LocalServerView {
    LocalServerView {
        kind: if starts_with(kind, "p2p"@) {
            "p2p"@
        } else {
            "secret"@
        },
        ip: kv_string(m, "local_ip"@, "127.0.0.1"@),
        port: kv_uint(m, "local_port"@, 0xffff, 0) as u16,
        password: kv_string(m, "password"@, Seq::empty()),
        target: kv_string(m, "target_addr"@, Seq::empty()),
    }
}

/// Parses a local visitor section.
pub fn parse_local_server(kind: &str, kv: &SectionMap) -> (r: LocalServer)
    ensures
        r@ == spec_parse_local_server(kind@, kv@),
{
    proof {
        reveal_strlit("");
    }
    let k = chars_of(kind);
    let r = LocalServer {
        kind: if starts_with_str(&k, "p2p") {
            owned("p2p")
        } else {
            owned("secret")
        },
        ip: get_string(kv, "local_ip", "127.0.0.1"),
        port: get_u16(kv, "local_port", 0),
        password: get_string(kv, "password", ""),
        target: get_string(kv, "target_addr", ""),
    };
    assert(r@ =~= spec_parse_local_server(kind@, kv@));
    r
}

/// A health check section as a view.
pub open spec fn spec_parse_health(title: Seq<char>, m: KvView) -> HealthCheckView {
    HealthCheckView {
        remark: title,
        timeout_secs: kv_uint(m, "health_check_timeout"@, u64::MAX as nat, 1) as u64,
        max_failed: #[verifier::truncate] (kv_uint(m, "health_check_max_failed"@, u64::MAX as nat, 3) as u32),
        interval_secs: kv_uint(m, "health_check_interval"@, u64::MAX as nat, 1) as u64,
        http_url: kv_string(m, "health_http_url"@, "/"@),
        kind: kv_string(m, "health_check_type"@, "tcp"@),
        targets: comma_items(kv_string(m, "health_check_target"@, Seq::empty())),
    }
}

/// Parses a health check section.
pub fn parse_health(title: &str, kv: &SectionMap) -> (r: HealthCheck)
    ensures
        r@ == spec_parse_health(title@, kv@),
{
    proof {
        reveal_strlit("");
    }
    let targets = get_string(kv, "health_check_target", "");
    let tc = chars_of(targets.as_str());
    let pieces = split_char_exec(&tc, ',');
    let items = trimmed_nonempty_exec(&pieces);
    let max_failed = get_u64(kv, "health_check_max_failed", 3);
    let r = HealthCheck {
        remark: owned(title),
        timeout_secs: get_u64(kv, "health_check_timeout", 1),
        max_failed: #[verifier::truncate] (max_failed as u32),
        interval_secs: get_u64(kv, "health_check_interval", 1),
        http_url: get_string(kv, "health_http_url", "/"),
        kind: get_string(kv, "health_check_type", "tcp"),
        targets: strings_of(&items),
    };
    assert(r@ =~= spec_parse_health(title@, kv@));
    r
}

// ---------------------------------------------------------------------------
// Whole files
// ---------------------------------------------------------------------------

/// The fields of `nps.conf`, each read from the pairs of the text or left
/// at its default.
pub open spec fn server_config_matches(c: ServerConfig, m: KvView) -> bool {
    &&& c.appname@ == kv_string(m, "appname"@, "nps"@)
    &&& c.runmode@ == kv_string(m, "runmode"@, "dev"@)
    &&& c.http_proxy_ip@ == kv_string(m, "http_proxy_ip"@, "0.0.0.0"@)
    &&& c.http_proxy_port == kv_uint(m, "http_proxy_port"@, 0xffff, 80)
    &&& c.https_proxy_port == kv_uint(m, "https_proxy_port"@, 0xffff, 443)
    &&& c.https_just_proxy == kv_bool(m, "https_just_proxy"@, true)
    &&& c.bridge_type@ == kv_string(m, "bridge_type"@, "tcp"@)
    &&& c.bridge_ip@ == kv_string(m, "bridge_ip"@, "0.0.0.0"@)
    &&& c.bridge_port == kv_uint(m, "bridge_port"@, 0xffff, 8024)
    &&& c.public_vkey@ == kv_string(m, "public_vkey"@, "123"@)
    &&& c.web_ip@ == kv_string(m, "web_ip"@, "0.0.0.0"@)
    &&& c.web_port == kv_uint(m, "web_port"@, 0xffff, 8081)
    &&& c.web_username@ == kv_string(m, "web_username"@, "admin"@)
    &&& c.web_password@ == kv_string(m, "web_password"@, "123"@)
    &&& c.web_base_url@ == kv_string(m, "web_base_url"@, ""@)
    &&& c.allow_user_login == kv_bool(m, "allow_user_login"@, true)
    &&& c.allow_user_register == kv_bool(m, "allow_user_register"@, false)
    &&& c.open_captcha == kv_bool(m, "open_captcha"@, false)
    &&& c.allow_user_change_username == kv_bool(m, "allow_user_change_username"@, true)
    &&& c.allow_flow_limit == kv_bool(m, "allow_flow_limit"@, false)
    &&& c.allow_rate_limit == kv_bool(m, "allow_rate_limit"@, false)
    &&& c.allow_tunnel_num_limit == kv_bool(m, "allow_tunnel_num_limit"@, false)
    &&& c.allow_connection_num_limit == kv_bool(m, "allow_connection_num_limit"@, false)
    &&& c.allow_ports@ == kv_string(m, "allow_ports"@, ""@)
    &&& c.allow_local_proxy == kv_bool(m, "allow_local_proxy"@, false)
    &&& c.allow_multi_ip == kv_bool(m, "allow_multi_ip"@, true)
    &&& c.http_cache == kv_bool(m, "http_cache"@, false)
    &&& c.http_cache_length == kv_uint(m, "http_cache_length"@, usize::MAX as nat, 100)
    &&& c.http_add_origin_header == kv_bool(m, "http_add_origin_header"@, true)
    &&& c.ip_limit == kv_bool(m, "ip_limit"@, false)
    &&& c.disconnect_timeout == kv_uint(m, "disconnect_timeout"@, u64::MAX as nat, 60)
    &&& c.tls_enable == kv_bool(m, "tls_enable"@, false)
    &&& c.tls_bridge_port == kv_uint(m, "tls_bridge_port"@, 0xffff, 8025)
    &&& c.p2p_ip@ == kv_string(m, "p2p_ip"@, "127.0.0.1"@)
    &&& c.p2p_port == kv_uint(m, "p2p_port"@, 0xffff, 6000)
    &&& c.log_level@ == kv_string(m, "log_level"@, "7"@)
    &&& c.log_path@ == kv_string(m, "log_path"@, ""@)
}

/// Parses the text of `nps.conf` (placeholders already rendered): plain
/// `key=value` lines, later keys overwriting earlier ones.
pub fn parse_server_config(text: &str) -> (r: ServerConfig)
    ensures
        server_config_matches(r, plain_kv(lines(text@))),
{
    proof {
        reveal_strlit("");
    }
    let raw = chars_of(text);
    let kv = parse_plain_kv(&raw);
    let mut c = ServerConfig::default();
    c.appname = get_string(&kv, "appname", "nps");
    c.runmode = get_string(&kv, "runmode", "dev");
    c.http_proxy_ip = get_string(&kv, "http_proxy_ip", "0.0.0.0");
    c.http_proxy_port = get_u16(&kv, "http_proxy_port", 80);
    c.https_proxy_port = get_u16(&kv, "https_proxy_port", 443);
    c.https_just_proxy = get_bool(&kv, "https_just_proxy", true);
    c.bridge_type = get_string(&kv, "bridge_type", "tcp");
    c.bridge_ip = get_string(&kv, "bridge_ip", "0.0.0.0");
    c.bridge_port = get_u16(&kv, "bridge_port", 8024);
    c.public_vkey = get_string(&kv, "public_vkey", "123");
    c.web_ip = get_string(&kv, "web_ip", "0.0.0.0");
    c.web_port = get_u16(&kv, "web_port", 8081);
    c.web_username = get_string(&kv, "web_username", "admin");
    c.web_password = get_string(&kv, "web_password", "123");
    c.web_base_url = get_string(&kv, "web_base_url", "");
    c.allow_user_login = get_bool(&kv, "allow_user_login", true);
    c.allow_user_register = get_bool(&kv, "allow_user_register", false);
    c.open_captcha = get_bool(&kv, "open_captcha", false);
    c.allow_user_change_username = get_bool(&kv, "allow_user_change_username", true);
    c.allow_flow_limit = get_bool(&kv, "allow_flow_limit", false);
    c.allow_rate_limit = get_bool(&kv, "allow_rate_limit", false);
    c.allow_tunnel_num_limit = get_bool(&kv, "allow_tunnel_num_limit", false);
    c.allow_connection_num_limit = get_bool(&kv, "allow_connection_num_limit", false);
    c.allow_ports = get_string(&kv, "allow_ports", "");
    c.allow_local_proxy = get_bool(&kv, "allow_local_proxy", false);
    c.allow_multi_ip = get_bool(&kv, "allow_multi_ip", true);
    c.http_cache = get_bool(&kv, "http_cache", false);
    c.http_cache_length = get_usize(&kv, "http_cache_length", 100);
    c.http_add_origin_header = get_bool(&kv, "http_add_origin_header", true);
    c.ip_limit = get_bool(&kv, "ip_limit", false);
    c.disconnect_timeout = get_u64(&kv, "disconnect_timeout", 60);
    c.tls_enable = get_bool(&kv, "tls_enable", false);
    c.tls_bridge_port = get_u16(&kv, "tls_bridge_port", 8025);
    c.p2p_ip = get_string(&kv, "p2p_ip", "127.0.0.1");
    c.p2p_port = get_u16(&kv, "p2p_port", 6000);
    c.log_level = get_string(&kv, "log_level", "7");
    c.log_path = get_string(&kv, "log_path", "");
    c
}

/// The client configuration after the given sections, and the next id to
/// hand out to a host or tunnel.
pub open spec fn client_scan(secs: Seq<(Seq<char>, KvView)>) -> (ClientRuntimeConfigView, u64)
    decreases secs.len(),
{
    if secs.len() == 0 {
        (client_initial(), 1)
    } else {
        let (c, next) = client_scan(secs.drop_last());
        let (title, m) = secs.last();
        let title_lc = lower(title);
        if title_lc == "common"@ {
            let common = spec_parse_common(m);
            let common = CommonConfigView {
                client: ClientInfoView { verify_key: common.vkey, ..common.client },
                ..common
            };
            (ClientRuntimeConfigView { common: common, ..c }, next)
        } else if starts_with(title_lc, "health"@) {
            (ClientRuntimeConfigView { healths: c.healths.push(spec_parse_health(title, m)), ..c }, next)
        } else if (starts_with(title_lc, "secret"@) || starts_with(title_lc, "p2p"@)) && kv_get(
            m,
            "mode"@,
        ) is None {
            (
                ClientRuntimeConfigView {
                    local_servers: c.local_servers.push(spec_parse_local_server(title_lc, m)),
                    ..c
                },
                next,
            )
        } else if kv_get(m, "host"@) is Some {
            let h = spec_parse_host(title, m);
            let h = HostView { id: next, client_vkey: c.common.vkey, ..h };
            (ClientRuntimeConfigView { hosts: c.hosts.push(h), ..c }, next.wrapping_add(1))
        } else {
            let t = spec_parse_tunnel(title, m);
            let t = TunnelView { id: next, client_vkey: c.common.vkey, ..t };
            (ClientRuntimeConfigView { tunnels: c.tunnels.push(t), ..c }, next.wrapping_add(1))
        }
    }
}

/// The configuration a client file starts from.
pub open spec fn client_initial() -> ClientRuntimeConfigView {
    ClientRuntimeConfigView {
        id: 0,
        no_store: true,
        no_display: false,
        create_time: Seq::empty(),
        last_online_time: Seq::empty(),
        last_online_addr: Seq::empty(),
        common: CommonConfig::default_view(),
        hosts: Seq::empty(),
        tunnels: Seq::empty(),
        healths: Seq::empty(),
        local_servers: Seq::empty(),
    }
}

/// Parses the text of `npc.conf` (placeholders already rendered): the
/// `[common]` section, health checks, local visitors, host routes and
/// tunnels, numbered from 1 in file order.
pub fn parse_client_config(text: &str) -> (r: ClientRuntimeConfig)
    ensures
        r@ == client_scan(ini_sections(text@)).0,
{
    let raw = chars_of(text);
    let sections = parse_ini_sections(&raw);
    let ghost sv = sections_view(sections@);
    let mut runtime = ClientRuntimeConfig::default();
    runtime.no_store = true;
    assert(runtime@.hosts =~= Seq::empty());
    assert(runtime@.tunnels =~= Seq::empty());
    assert(runtime@.healths =~= Seq::empty());
    assert(runtime@.local_servers =~= Seq::empty());
    assert(runtime@ == client_initial());
    let mut next_id: u64 = 1;
    let mut i: usize = 0;
    while i < sections.len()
        invariant
            sv == sections_view(sections@),
            sv == ini_sections(text@),
            i <= sections.len(),
            (runtime@, next_id) == client_scan(sv.take(i as int)),
        decreases sections.len() - i,
    {
        assert(sv.take(i + 1).drop_last() == sv.take(i as int));
        assert(sv.take(i + 1).last() == sv[i as int]);
        let title = &sections[i].0;
        let kv = &sections[i].1;
        let tc = chars_of(title.as_str());
        let title_lc = lower_vec(&tc);
        let ghost before = runtime@;
        if crate::text::eq_str(&title_lc, "common") {
            let mut common = parse_common(kv);
            common.client.verify_key = common.vkey.clone();
            runtime.common = common;
            assert(runtime@ =~= client_scan(sv.take(i + 1)).0);
        } else if starts_with_str(&title_lc, "health") {
            let h = parse_health(title.as_str(), kv);
            runtime.healths.push(h);
            assert(runtime@.healths =~= before.healths.push(spec_parse_health(tc@, kv@)));
        } else if (starts_with_str(&title_lc, "secret") || starts_with_str(&title_lc, "p2p"))
            && !kv.contains_key("mode") {
            let lc = string_of(&title_lc);
            let l = parse_local_server(lc.as_str(), kv);
            runtime.local_servers.push(l);
            assert(runtime@.local_servers =~= before.local_servers.push(
                spec_parse_local_server(title_lc@, kv@),
            ));
        } else if kv.contains_key("host") {
            let mut host = parse_host(title.as_str(), kv);
            host.id = next_id;
            host.client_vkey = runtime.common.vkey.clone();
            next_id = next_id.wrapping_add(1);
            let ghost hv = host@;
            runtime.hosts.push(host);
            assert(runtime@.hosts =~= before.hosts.push(hv));
        } else {
            let mut tunnel = parse_tunnel(title.as_str(), kv);
            tunnel.id = next_id;
            tunnel.client_vkey = runtime.common.vkey.clone();
            next_id = next_id.wrapping_add(1);
            let ghost tv = tunnel@;
            runtime.tunnels.push(tunnel);
            assert(runtime@.tunnels =~= before.tunnels.push(tv));
        }
        i += 1;
    }
    assert(sv.take(sections.len() as int) == sv);
    runtime
}

} // verus!
