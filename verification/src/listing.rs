//! The rows of the web manager's client, tunnel and host lists: which
//! clients, tunnels and routes a listing request selects, in order.
use vstd::prelude::*;
use crate::kv::{KvView, SectionMap};
use crate::model::ClientRuntimeConfig;
use crate::text::{chars_of, contains, contains_vec, eq_ic, eq_str, eq_ignore_case_str, lower, lower_vec};
use crate::web::{param, param_u64, spec_param, spec_param_uint};

verus! {

broadcast use vstd::string::group_string_axioms;

// ---------------------------------------------------------------------------
// Specifications
// ---------------------------------------------------------------------------

/// `needle` is empty or occurs in `hay` with ASCII letters lowered.
pub open spec fn matches_search(hay: Seq<char>, needle: Seq<char>) -> bool {
    needle.len() == 0 || contains(lower(hay), needle)
}

/// What a listing request asks for: its `client_id` (0 for every client)
/// and its `search` text with ASCII letters lowered.
pub open spec fn request_client(m: KvView) -> u64 {
    spec_param_uint(m, "client_id"@, u64::MAX as nat) as u64
}

pub open spec fn request_search(m: KvView) -> Seq<char> {
    lower(spec_param(m, "search"@))
}

/// The client is the one asked for, or none is.
pub open spec fn client_wanted(c: ClientRuntimeConfig, client_id: u64) -> bool {
    client_id == 0 || c.id == client_id
}

/// A client row is shown: the client is wanted and its remark or key
/// matches the search.
pub open spec fn client_row_shown(c: ClientRuntimeConfig, client_id: u64, search: Seq<char>) -> bool {
    client_wanted(c, client_id) && (matches_search(c.common.client.remark@, search) || matches_search(
        c.common.vkey@,
        search,
    ))
}

/// The places of the client rows of `cs`, in order.
pub open spec fn spec_client_rows(cs: Seq<ClientRuntimeConfig>, client_id: u64, search: Seq<char>) -> Seq<usize>
    decreases cs.len(),
{
    if cs.len() == 0 {
        Seq::empty()
    } else if client_row_shown(cs.last(), client_id, search) {
        spec_client_rows(cs.drop_last(), client_id, search).push((cs.len() - 1) as usize)
    } else {
        spec_client_rows(cs.drop_last(), client_id, search)
    }
}

/// The mode a tunnel is listed with: `all` (in any case) is listed as `tcp`.
pub open spec fn listed_mode(mode: Seq<char>) -> Seq<char> {
    if eq_ic(mode, "all"@) {
        "tcp"@
    } else {
        mode
    }
}

/// A tunnel row is shown: its listed mode is the type asked for (when one
/// is), and its remark or target matches the search.
pub open spec fn tunnel_row_shown(t: crate::model::Tunnel, type_filter: Seq<char>, search: Seq<char>) -> bool {
    (type_filter.len() == 0 || listed_mode(t.mode@) == type_filter) && (matches_search(t.remark@, search)
        || matches_search(t.target.target_str@, search))
}

/// The rows among the first tunnels `ts` of client `i`: pairs of the
/// client's place and the tunnel's.
pub open spec fn tunnel_picks(i: usize, ts: Seq<crate::model::Tunnel>, type_filter: Seq<char>, search: Seq<char>) -> Seq<(usize, usize)>
    decreases ts.len(),
{
    if ts.len() == 0 {
        Seq::empty()
    } else if tunnel_row_shown(ts.last(), type_filter, search) {
        tunnel_picks(i, ts.drop_last(), type_filter, search).push((i, (ts.len() - 1) as usize))
    } else {
        tunnel_picks(i, ts.drop_last(), type_filter, search)
    }
}

/// The tunnel rows of `cs`: for each wanted client in order, its shown
/// tunnels in order.
pub open spec fn spec_tunnel_rows(cs: Seq<ClientRuntimeConfig>, type_filter: Seq<char>, client_id: u64, search: Seq<char>) -> Seq<(usize, usize)>
    decreases cs.len(),
{
    if cs.len() == 0 {
        Seq::empty()
    } else if client_wanted(cs.last(), client_id) {
        spec_tunnel_rows(cs.drop_last(), type_filter, client_id, search) + tunnel_picks(
            (cs.len() - 1) as usize,
            cs.last().tunnels@,
            type_filter,
            search,
        )
    } else {
        spec_tunnel_rows(cs.drop_last(), type_filter, client_id, search)
    }
}

/// A route row is shown: its host or remark matches the search.
pub open spec fn host_row_shown(h: crate::model::Host, search: Seq<char>) -> bool {
    matches_search(h.host@, search) || matches_search(h.remark@, search)
}

/// The rows among the first routes `hs` of client `i`.
pub open spec fn host_picks(i: usize, hs: Seq<crate::model::Host>, search: Seq<char>) -> Seq<(usize, usize)>
    decreases hs.len(),
{
    if hs.len() == 0 {
        Seq::empty()
    } else if host_row_shown(hs.last(), search) {
        host_picks(i, hs.drop_last(), search).push((i, (hs.len() - 1) as usize))
    } else {
        host_picks(i, hs.drop_last(), search)
    }
}

/// The route rows of `cs`: for each wanted client in order, its shown
/// routes in order.
pub open spec fn spec_host_rows(cs: Seq<ClientRuntimeConfig>, client_id: u64, search: Seq<char>) -> Seq<(usize, usize)>
    decreases cs.len(),
{
    if cs.len() == 0 {
        Seq::empty()
    } else if client_wanted(cs.last(), client_id) {
        spec_host_rows(cs.drop_last(), client_id, search) + host_picks((cs.len() - 1) as usize, cs.last().hosts@, search)
    } else {
        spec_host_rows(cs.drop_last(), client_id, search)
    }
}

// ---------------------------------------------------------------------------
// Executable functions
// ---------------------------------------------------------------------------

fn matches_search_exec(hay: &str, needle: &Vec<char>) -> (r: bool)
    ensures
        r == matches_search(hay@, needle@),
{
    if needle.len() == 0 {
        return true;
    }
    let h = lower_vec(&chars_of(hay));
    contains_vec(&h, needle)
}

fn listed_mode_is(mode: &str, type_filter: &Vec<char>) -> (r: bool)
    ensures
        r == (listed_mode(mode@) == type_filter@),
{
    let m = chars_of(mode);
    if eq_ignore_case_str(&m, "all") {
        eq_str(type_filter, "tcp")
    } else {
        crate::text::eq(&m, type_filter)
    }
}

/// The places of the client rows a listing request selects (see
/// [`spec_client_rows`]), in the order of `clients`.
pub fn select_client_rows(clients: &Vec<ClientRuntimeConfig>, params: &SectionMap) -> (r: Vec<usize>)
    ensures
        r@ == spec_client_rows(clients@, request_client(params@), request_search(params@)),
{
    let client_id = param_u64(params, "client_id");
    let search = lower_vec(&chars_of(param(params, "search").as_str()));
    let ghost cs = clients@;
    let mut out: Vec<usize> = Vec::new();
    let mut i: usize = 0;
    assert(cs.take(0) =~= Seq::<ClientRuntimeConfig>::empty());
    while i < clients.len()
        invariant
            cs == clients@,
            i <= cs.len(),
            client_id == request_client(params@),
            search@ == request_search(params@),
            out@ == spec_client_rows(cs.take(i as int), client_id, search@),
        decreases cs.len() - i,
    {
        assert(cs.take(i + 1).drop_last() == cs.take(i as int));
        assert(cs.take(i + 1).last() == cs[i as int]);
        let c = &clients[i];
        if (client_id == 0 || c.id == client_id) && (matches_search_exec(c.common.client.remark.as_str(), &search)
            || matches_search_exec(c.common.vkey.as_str(), &search)) {
            out.push(i);
        }
        i += 1;
    }
    assert(cs.take(cs.len() as int) == cs);
    out
}

/// The tunnel rows a listing request selects (see [`spec_tunnel_rows`]):
/// its `type`, `client_id` and `search`.
pub fn select_tunnel_rows(clients: &Vec<ClientRuntimeConfig>, params: &SectionMap) -> (r: Vec<(usize, usize)>)
    ensures
        r@ == spec_tunnel_rows(clients@, spec_param(params@, "type"@), request_client(params@), request_search(params@)),
{
    let type_filter = chars_of(param(params, "type").as_str());
    let client_id = param_u64(params, "client_id");
    let search = lower_vec(&chars_of(param(params, "search").as_str()));
    let ghost cs = clients@;
    let mut out: Vec<(usize, usize)> = Vec::new();
    let mut i: usize = 0;
    assert(cs.take(0) =~= Seq::<ClientRuntimeConfig>::empty());
    while i < clients.len()
        invariant
            cs == clients@,
            i <= cs.len(),
            type_filter@ == spec_param(params@, "type"@),
            client_id == request_client(params@),
            search@ == request_search(params@),
            out@ == spec_tunnel_rows(cs.take(i as int), type_filter@, client_id, search@),
        decreases cs.len() - i,
    {
        assert(cs.take(i + 1).drop_last() == cs.take(i as int));
        assert(cs.take(i + 1).last() == cs[i as int]);
        let c = &clients[i];
        if client_id == 0 || c.id == client_id {
            let ghost ts = c.tunnels@;
            let ghost base = out@;
            let mut j: usize = 0;
            assert(ts.take(0) =~= Seq::<crate::model::Tunnel>::empty());
            assert(base + tunnel_picks(i, ts.take(0), type_filter@, search@) =~= base);
            while j < c.tunnels.len()
                invariant
                    ts == c.tunnels@,
                    j <= ts.len(),
                    out@ == base + tunnel_picks(i, ts.take(j as int), type_filter@, search@),
                decreases ts.len() - j,
            {
                assert(ts.take(j + 1).drop_last() == ts.take(j as int));
                assert(ts.take(j + 1).last() == ts[j as int]);
                let t = &c.tunnels[j];
                if (type_filter.len() == 0 || listed_mode_is(t.mode.as_str(), &type_filter)) && (matches_search_exec(
                    t.remark.as_str(),
                    &search,
                ) || matches_search_exec(t.target.target_str.as_str(), &search)) {
                    out.push((i, j));
                    assert(out@ =~= base + tunnel_picks(i, ts.take(j + 1), type_filter@, search@));
                }
                j += 1;
            }
            assert(ts.take(ts.len() as int) == ts);
        }
        i += 1;
    }
    assert(cs.take(cs.len() as int) == cs);
    out
}

/// The route rows a listing request selects (see [`spec_host_rows`]): its
/// `client_id` and `search`.
pub fn select_host_rows(clients: &Vec<ClientRuntimeConfig>, params: &SectionMap) -> (r: Vec<(usize, usize)>)
    ensures
        r@ == spec_host_rows(clients@, request_client(params@), request_search(params@)),
{
    let client_id = param_u64(params, "client_id");
    let search = lower_vec(&chars_of(param(params, "search").as_str()));
    let ghost cs = clients@;
    let mut out: Vec<(usize, usize)> = Vec::new();
    let mut i: usize = 0;
    assert(cs.take(0) =~= Seq::<ClientRuntimeConfig>::empty());
    while i < clients.len()
        invariant
            cs == clients@,
            i <= cs.len(),
            client_id == request_client(params@),
            search@ == request_search(params@),
            out@ == spec_host_rows(cs.take(i as int), client_id, search@),
        decreases cs.len() - i,
    {
        assert(cs.take(i + 1).drop_last() == cs.take(i as int));
        assert(cs.take(i + 1).last() == cs[i as int]);
        let c = &clients[i];
        if client_id == 0 || c.id == client_id {
            let ghost hs = c.hosts@;
            let ghost base = out@;
            let mut j: usize = 0;
            assert(hs.take(0) =~= Seq::<crate::model::Host>::empty());
            assert(base + host_picks(i, hs.take(0), search@) =~= base);
            while j < c.hosts.len()
                invariant
                    hs == c.hosts@,
                    j <= hs.len(),
                    out@ == base + host_picks(i, hs.take(j as int), search@),
                decreases hs.len() - j,
            {
                assert(hs.take(j + 1).drop_last() == hs.take(j as int));
                assert(hs.take(j + 1).last() == hs[j as int]);
                let h = &c.hosts[j];
                if matches_search_exec(h.host.as_str(), &search) || matches_search_exec(h.remark.as_str(), &search) {
                    out.push((i, j));
                    assert(out@ =~= base + host_picks(i, hs.take(j + 1), search@));
                }
                j += 1;
            }
            assert(hs.take(hs.len() as int) == hs);
        }
        i += 1;
    }
    assert(cs.take(cs.len() as int) == cs);
    out
}

} // verus!
