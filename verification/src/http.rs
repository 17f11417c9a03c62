//! HTTP request heads: the request line, header lookup, rewriting the
//! headers of a proxied request, basic authentication and plain responses.
//!
//! A head arrives as bytes and is read as text the way
//! `String::from_utf8_lossy` reads it; everything after that conversion is
//! specified over `Seq<char>`.
use vstd::prelude::*;
use vstd::utf8::{decode_utf8, encode_utf8, valid_utf8};
use base64::prelude::BASE64_STANDARD;
use base64::Engine;
use crate::text::{
    chars_of, dec, dec_exec, eq_ic, eq_ignore_case_str, ends_with, find_char, find_char_exec,
    find_sub, find_sub_exec, lines, lines_exec, lower, lower_vec, occurs_at, parse_u16,
    parse_uint, rsplit_once, rsplit_once_exec, slice, split_once, split_once_exec, split_ws,
    split_ws_exec, string_of, trim, trim_end, trim_vec, upper, upper_vec, append, append_str,
    eq_str, trimmed_nonempty, trimmed_nonempty_exec, views, lemma_trim_idempotent,
    lemma_trim_fixed, lemma_dec_digits, lemma_rfind_char_at, is_digit,
};
use crate::bytes::{bytes_eq, extend_bytes};
use crate::model::pairs_view;

verus! {

broadcast use vstd::string::group_string_axioms;

// ---------------------------------------------------------------------------
// Bytes to text
// ---------------------------------------------------------------------------

/// The text that `String::from_utf8_lossy` makes of the bytes.
pub uninterp spec fn lossy_text(b: Seq<u8>) -> Seq<char>;

/// `String::from_utf8_lossy`, collected into characters. Valid UTF-8 is
/// decoded as it is; how invalid sequences are replaced is left to the name.
#[verifier::external_body]
pub(crate) fn utf8_lossy(b: &[u8]) -> (r: Vec<char>)
    ensures
        r@ == lossy_text(b@),
        valid_utf8(b@) ==> r@ == decode_utf8(b@),
{
    String::from_utf8_lossy(b).chars().collect()
}

/// The UTF-8 bytes of a string.
pub fn utf8_bytes(s: &str) -> (r: Vec<u8>)
    ensures
        r@ == encode_utf8(s@),
{
    let b = s.as_bytes();
    let mut r: Vec<u8> = Vec::new();
    extend_bytes(&mut r, b);
    r
}

// ---------------------------------------------------------------------------
// Addresses
// ---------------------------------------------------------------------------

/// The text after the last `:` is a port number.
pub open spec fn has_port(clean: Seq<char>) -> bool {
    match rsplit_once(clean, ':') {
        Some((_, p)) => parse_uint(p, 0xffff) is Some,
        None => false,
    }
}

/// The trimmed address, with `:default_port` added unless it already ends
/// in a port or is a bracketed IPv6 literal.
pub open spec fn spec_ensure_port(addr: Seq<char>, default_port: u16) -> Seq<char> {
    let clean = trim(addr);
    if clean.len() > 0 && clean[0] == '[' {
        clean
    } else if has_port(clean) {
        clean
    } else {
        clean + seq![':'] + dec(default_port as nat)
    }
}

fn ensure_port_chars(addr: &Vec<char>, default_port: u16) -> (r: Vec<char>)
    ensures
        r@ == spec_ensure_port(addr@, default_port),
{
    let clean = trim_vec(addr);
    if clean.len() > 0 && clean[0] == '[' {
        return clean;
    }
    let with_port = match rsplit_once_exec(&clean, ':') {
        Some((_, p)) => parse_u16(&p).is_some(),
        None => false,
    };
    if with_port {
        clean
    } else {
        let mut out = clean;
        out.push(':');
        let d = dec_exec(default_port as u64);
        append(&mut out, &d);
        out
    }
}

/// Adds `default_port` to an address that names none.
pub fn ensure_port(addr: &str, default_port: u16) -> (r: String)
    ensures
        r@ == spec_ensure_port(addr@, default_port),
{
    let a = chars_of(addr);
    string_of(&ensure_port_chars(&a, default_port))
}

/// Adding a default port to an address that already went through
/// `ensure_port` changes nothing, whatever the second default.
pub proof fn lemma_ensure_port_idempotent(addr: Seq<char>, p: u16, q: u16)
    ensures
        spec_ensure_port(spec_ensure_port(addr, p), q) == spec_ensure_port(addr, p),
{
    let c = trim(addr);
    lemma_trim_idempotent(addr);
    if c.len() > 0 && c[0] == '[' {
    } else if has_port(c) {
    } else {
        let d = dec(p as nat);
        lemma_dec_digits(p as nat);
        let r = c + seq![':'] + d;
        assert(r.last() == d.last());
        assert(is_digit(d[d.len() - 1]));
        assert(r[0] == (if c.len() > 0 { c[0] } else { ':' }));
        lemma_trim_fixed(r);
        assert forall|j: int| c.len() < j < r.len() implies r[j] != ':' by {
            assert(r[j] == d[j - c.len() - 1]);
            assert(is_digit(d[j - c.len() - 1]));
        }
        lemma_rfind_char_at(r, ':', c.len() as int);
        assert(r.subrange(c.len() + 1int, r.len() as int) =~= d);
        assert(d[0] != '+') by {
            assert(is_digit(d[0]));
        }
        assert(parse_uint(d, 0xffff) == Some(p as nat));
        assert(has_port(r));
    }
}

// ---------------------------------------------------------------------------
// Request line and headers
// ---------------------------------------------------------------------------

/// The value of the first line of `ls` that reads `host:value`, the name
/// compared without regard to ASCII case.
pub open spec fn host_line_value(ls: Seq<Seq<char>>) -> Option<Seq<char>>
    decreases ls.len(),
{
    if ls.len() == 0 {
        None
    } else {
        match split_once(ls[0], ':') {
            Some((k, v)) => if eq_ic(k, "host"@) {
                Some(v)
            } else {
                host_line_value(ls.drop_first())
            },
            None => host_line_value(ls.drop_first()),
        }
    }
}

/// The words of the first line of the text, if it has a line.
pub open spec fn request_words(t: Seq<char>) -> Option<Seq<Seq<char>>> {
    let ls = lines(t);
    if ls.len() == 0 {
        None
    } else {
        Some(split_ws(trim(ls[0])))
    }
}

/// Where a proxy request goes: the `CONNECT` authority (port 443 by
/// default) and `true`, or the `Host` header (port 80 by default) and
/// `false`.
pub open spec fn spec_http_target(t: Seq<char>) -> Option<(Seq<char>, bool)> {
    match request_words(t) {
        None => None,
        Some(parts) => if parts.len() == 0 {
            None
        } else {
            let uri = if parts.len() > 1 {
                parts[1]
            } else {
                Seq::empty()
            };
            if upper(parts[0]) == "CONNECT"@ {
                Some((spec_ensure_port(uri, 443), true))
            } else {
                match host_line_value(lines(t).drop_first()) {
                    Some(v) => Some((spec_ensure_port(trim(v), 80), false)),
                    None => None,
                }
            }
        },
    }
}

/// The host (trimmed, lowercased) and the path of a request (`/` when the
/// request line names none).
pub open spec fn spec_http_host_path(t: Seq<char>) -> Option<(Seq<char>, Seq<char>)> {
    match request_words(t) {
        None => None,
        Some(parts) => {
            let path = if parts.len() > 1 {
                parts[1]
            } else {
                "/"@
            };
            match host_line_value(lines(t).drop_first()) {
                Some(v) => Some((lower(trim(v)), path)),
                None => None,
            }
        },
    }
}

/// Method, target and version of the request line (`HTTP/1.1` when the
/// version is missing).
pub open spec fn spec_http_request_line(t: Seq<char>) -> Option<(Seq<char>, Seq<char>, Seq<char>)> {
    match request_words(t) {
        None => None,
        Some(parts) => if parts.len() < 2 {
            None
        } else {
            Some(
                (
                    parts[0],
                    parts[1],
                    if parts.len() > 2 {
                        parts[2]
                    } else {
                        "HTTP/1.1"@
                    },
                ),
            )
        },
    }
}

/// The status code of a response line.
pub open spec fn spec_http_status_code(t: Seq<char>) -> Option<u16> {
    match request_words(t) {
        None => None,
        Some(parts) => if parts.len() < 2 {
            None
        } else {
            match parse_uint(parts[1], 0xffff) {
                Some(n) => Some(n as u16),
                None => None,
            }
        },
    }
}

/// The trimmed value of the first header called `name` (ASCII case
/// ignored) among the header lines `ls`, which end at the first blank line.
pub open spec fn header_scan(ls: Seq<Seq<char>>, name: Seq<char>) -> Option<Seq<char>>
    decreases ls.len(),
{
    if ls.len() == 0 {
        None
    } else {
        let line = trim_end(ls[0]);
        if line.len() == 0 {
            None
        } else {
            match split_once(line, ':') {
                Some((k, v)) => if eq_ic(trim(k), name) {
                    Some(trim(v))
                } else {
                    header_scan(ls.drop_first(), name)
                },
                None => header_scan(ls.drop_first(), name),
            }
        }
    }
}

/// The value of the header `name` in a request head.
pub open spec fn spec_header_value(t: Seq<char>, name: Seq<char>) -> Option<Seq<char>> {
    let ls = lines(t);
    if ls.len() == 0 {
        None
    } else {
        header_scan(ls.drop_first(), name)
    }
}

fn host_line_value_exec(ls: &Vec<Vec<char>>, from: usize) -> (r: Option<Vec<char>>)
    requires
        from <= ls.len(),
    ensures
        match r {
            Some(v) => host_line_value(views(ls@).subrange(from as int, ls.len() as int)) == Some(
                v@,
            ),
            None => host_line_value(views(ls@).subrange(from as int, ls.len() as int)) is None,
        },
{
    let ghost all = views(ls@);
    let mut i = from;
    while i < ls.len()
        invariant
            all == views(ls@),
            from <= i <= ls.len(),
            host_line_value(all.subrange(from as int, ls.len() as int)) == host_line_value(
                all.subrange(i as int, ls.len() as int),
            ),
        decreases ls.len() - i,
    {
        let ghost rest = all.subrange(i as int, ls.len() as int);
        assert(rest[0] == ls@[i as int]@);
        assert(rest.drop_first() =~= all.subrange(i + 1, ls.len() as int));
        match split_once_exec(&ls[i], ':') {
            Some((k, v)) => {
                if eq_ignore_case_str(&k, "host") {
                    return Some(v);
                }
            },
            None => {},
        }
        i += 1;
    }
    None
}

fn request_words_exec(t: &Vec<char>) -> (r: (Vec<Vec<char>>, Option<Vec<Vec<char>>>))
    ensures
        views(r.0@) == lines(t@),
        match r.1 {
            Some(p) => request_words(t@) == Some(views(p@)),
            None => request_words(t@) is None,
        },
{
    let ls = lines_exec(t);
    if ls.len() == 0 {
        return (ls, None);
    }
    let first = trim_vec(&ls[0]);
    let parts = split_ws_exec(&first);
    (ls, Some(parts))
}

/// [`parse_http_target`] on text already decoded.
pub fn http_target_of(t: &Vec<char>) -> (r: Option<(String, bool)>)
    ensures
        match r {
            Some((a, c)) => spec_http_target(t@) == Some((a@, c)),
            None => spec_http_target(t@) is None,
        },
{
    let (ls, words) = request_words_exec(t);
    let parts = match words {
        None => return None,
        Some(p) => p,
    };
    if parts.len() == 0 {
        return None;
    }
    let method = upper_vec(&parts[0]);
    let uri: Vec<char> = if parts.len() > 1 {
        slice(&parts[1], 0, parts[1].len())
    } else {
        Vec::new()
    };
    assert(parts.len() > 1 ==> uri@ == parts@[1]@);
    if eq_str(&method, "CONNECT") {
        return Some((string_of(&ensure_port_chars(&uri, 443)), true));
    }
    assert(views(ls@).subrange(1, ls.len() as int) =~= lines(t@).drop_first());
    match host_line_value_exec(&ls, 1) {
        Some(v) => {
            let tv = trim_vec(&v);
            Some((string_of(&ensure_port_chars(&tv, 80)), false))
        },
        None => None,
    }
}

/// The target of a proxy request: the `CONNECT` authority, or the `Host`
/// header with port 80 when it names none; `true` marks `CONNECT`.
pub fn parse_http_target(head: &[u8]) -> (r: Option<(String, bool)>)
    ensures
        match r {
            Some((a, c)) => spec_http_target(lossy_text(head@)) == Some((a@, c)),
            None => spec_http_target(lossy_text(head@)) is None,
        },
{
    let t = utf8_lossy(head);
    http_target_of(&t)
}

/// [`parse_http_host_path`] on text already decoded.
pub fn http_host_path_of(t: &Vec<char>) -> (r: Option<(String, String)>)
    ensures
        match r {
            Some((h, p)) => spec_http_host_path(t@) == Some((h@, p@)),
            None => spec_http_host_path(t@) is None,
        },
{
    let (ls, words) = request_words_exec(t);
    let parts = match words {
        None => return None,
        Some(p) => p,
    };
    let path: Vec<char> = if parts.len() > 1 {
        slice(&parts[1], 0, parts[1].len())
    } else {
        let mut d: Vec<char> = Vec::new();
        d.push('/');
        proof {
            reveal_strlit("/");
        }
        assert(d@ =~= "/"@);
        d
    };
    assert(views(ls@).subrange(1, ls.len() as int) =~= lines(t@).drop_first());
    match host_line_value_exec(&ls, 1) {
        Some(v) => {
            let h = lower_vec(&trim_vec(&v));
            Some((string_of(&h), string_of(&path)))
        },
        None => None,
    }
}

/// The lowercased `Host` header and the path of a request.
pub fn parse_http_host_path(head: &[u8]) -> (r: Option<(String, String)>)
    ensures
        match r {
            Some((h, p)) => spec_http_host_path(lossy_text(head@)) == Some((h@, p@)),
            None => spec_http_host_path(lossy_text(head@)) is None,
        },
{
    let t = utf8_lossy(head);
    http_host_path_of(&t)
}

/// [`parse_http_request_line`] on text already decoded.
pub fn http_request_line_of(t: &Vec<char>) -> (r: Option<(String, String, String)>)
    ensures
        match r {
            Some((m, u, v)) => spec_http_request_line(t@) == Some((m@, u@, v@)),
            None => spec_http_request_line(t@) is None,
        },
{
    let (_ls, words) = request_words_exec(t);
    let parts = match words {
        None => return None,
        Some(p) => p,
    };
    if parts.len() < 2 {
        return None;
    }
    let version = if parts.len() > 2 {
        string_of(&parts[2])
    } else {
        crate::text::owned("HTTP/1.1")
    };
    Some((string_of(&parts[0]), string_of(&parts[1]), version))
}

/// Method, target and version of a request head.
pub fn parse_http_request_line(head: &[u8]) -> (r: Option<(String, String, String)>)
    ensures
        match r {
            Some((m, u, v)) => spec_http_request_line(lossy_text(head@)) == Some((m@, u@, v@)),
            None => spec_http_request_line(lossy_text(head@)) is None,
        },
{
    let t = utf8_lossy(head);
    http_request_line_of(&t)
}

/// [`parse_http_status_code`] on text already decoded.
pub fn http_status_code_of(t: &Vec<char>) -> (r: Option<u16>)
    ensures
        r == spec_http_status_code(t@),
{
    let (_ls, words) = request_words_exec(t);
    let parts = match words {
        None => return None,
        Some(p) => p,
    };
    if parts.len() < 2 {
        return None;
    }
    parse_u16(&parts[1])
}

/// The status code of a response head.
pub fn parse_http_status_code(head: &[u8]) -> (r: Option<u16>)
    ensures
        r == spec_http_status_code(lossy_text(head@)),
{
    let t = utf8_lossy(head);
    http_status_code_of(&t)
}

/// [`http_header_value`] on text already decoded.
pub fn header_value_of(t: &Vec<char>, name: &str) -> (r: Option<String>)
    ensures
        match r {
            Some(v) => spec_header_value(t@, name@) == Some(v@),
            None => spec_header_value(t@, name@) is None,
        },
{
    let ls = lines_exec(t);
    if ls.len() == 0 {
        return None;
    }
    let ghost all = views(ls@);
    assert(all.subrange(1, ls.len() as int) =~= all.drop_first());
    let mut i: usize = 1;
    while i < ls.len()
        invariant
            all == views(ls@),
            all == lines(t@),
            1 <= i <= ls.len(),
            spec_header_value(t@, name@) == header_scan(
                all.subrange(i as int, ls.len() as int),
                name@,
            ),
        decreases ls.len() - i,
    {
        let ghost rest = all.subrange(i as int, ls.len() as int);
        assert(rest[0] == ls@[i as int]@);
        assert(rest.drop_first() =~= all.subrange(i + 1, ls.len() as int));
        let line = crate::text::trim_end_vec(&ls[i]);
        if line.len() == 0 {
            return None;
        }
        match split_once_exec(&line, ':') {
            Some((k, v)) => {
                let kt = trim_vec(&k);
                if eq_ignore_case_str(&kt, name) {
                    return Some(string_of(&trim_vec(&v)));
                }
            },
            None => {},
        }
        i += 1;
    }
    None
}

/// The trimmed value of the first header called `name` (ASCII case
/// ignored) before the blank line that ends the head.
pub fn http_header_value(head: &[u8], name: &str) -> (r: Option<String>)
    ensures
        match r {
            Some(v) => spec_header_value(lossy_text(head@), name@) == Some(v@),
            None => spec_header_value(lossy_text(head@), name@) is None,
        },
{
    let t = utf8_lossy(head);
    header_value_of(&t, name)
}

// ---------------------------------------------------------------------------
// Header lists
// ---------------------------------------------------------------------------

/// `i` is the first header named `name` (ASCII case ignored).
pub open spec fn first_header_at(hs: Seq<(Seq<char>, Seq<char>)>, name: Seq<char>, i: int) -> bool {
    &&& 0 <= i < hs.len()
    &&& eq_ic(hs[i].0, name)
    &&& forall|j: int| 0 <= j < i ==> !eq_ic(#[trigger] hs[j].0, name)
}

pub open spec fn has_header(hs: Seq<(Seq<char>, Seq<char>)>, name: Seq<char>) -> bool {
    exists|i: int| first_header_at(hs, name, i)
}

pub open spec fn header_pos(hs: Seq<(Seq<char>, Seq<char>)>, name: Seq<char>) -> int {
    choose|i: int| first_header_at(hs, name, i)
}

/// The value of the first header named `name`.
pub open spec fn spec_get_header(hs: Seq<(Seq<char>, Seq<char>)>, name: Seq<char>) -> Option<Seq<char>> {
    if has_header(hs, name) {
        Some(hs[header_pos(hs, name)].1)
    } else {
        None
    }
}

/// The first header named `name` takes `value`; without one, `(name,
/// value)` is added at the end.
pub open spec fn spec_set_header(hs: Seq<(Seq<char>, Seq<char>)>, name: Seq<char>, value: Seq<char>) -> Seq<(Seq<char>, Seq<char>)> {
    if has_header(hs, name) {
        let i = header_pos(hs, name);
        hs.update(i, (hs[i].0, value))
    } else {
        hs.push((name, value))
    }
}

/// Every header named `name` removed, the others kept in order.
pub open spec fn spec_remove_header(hs: Seq<(Seq<char>, Seq<char>)>, name: Seq<char>) -> Seq<(Seq<char>, Seq<char>)>
    decreases hs.len(),
{
    if hs.len() == 0 {
        hs
    } else {
        let rest = spec_remove_header(hs.drop_last(), name);
        if eq_ic(hs.last().0, name) {
            rest
        } else {
            rest.push(hs.last())
        }
    }
}

proof fn lemma_first_header_unique(hs: Seq<(Seq<char>, Seq<char>)>, name: Seq<char>, i: int, k: int)
    requires
        first_header_at(hs, name, i),
        first_header_at(hs, name, k),
    ensures
        i == k,
{
    if i < k {
        assert(!eq_ic(hs[i].0, name));
    } else if k < i {
        assert(!eq_ic(hs[k].0, name));
    }
}

fn find_header(headers: &Vec<(String, String)>, name: &str) -> (r: Option<usize>)
    ensures
        match r {
            Some(i) => first_header_at(pairs_view(headers@), name@, i as int) && has_header(
                pairs_view(headers@),
                name@,
            ) && header_pos(pairs_view(headers@), name@) == i,
            None => !has_header(pairs_view(headers@), name@),
        },
{
    let ghost hs = pairs_view(headers@);
    let mut i: usize = 0;
    while i < headers.len()
        invariant
            hs == pairs_view(headers@),
            i <= headers.len(),
            forall|j: int| 0 <= j < i ==> !eq_ic(#[trigger] hs[j].0, name@),
        decreases headers.len() - i,
    {
        let k = chars_of(headers[i].0.as_str());
        if eq_ignore_case_str(&k, name) {
            proof {
                assert(first_header_at(hs, name@, i as int));
                let p = header_pos(hs, name@);
                lemma_first_header_unique(hs, name@, i as int, p);
            }
            return Some(i);
        }
        i += 1;
    }
    proof {
        if has_header(hs, name@) {
            let p = header_pos(hs, name@);
            assert(first_header_at(hs, name@, p));
            assert(!eq_ic(hs[p].0, name@));
        }
    }
    None
}

/// Sets the first header named `name` (ASCII case ignored) to `value`, or
/// appends the header.
pub fn set_header(headers: &mut Vec<(String, String)>, name: &str, value: &str)
    ensures
        pairs_view(final(headers)@) == spec_set_header(pairs_view(old(headers)@), name@, value@),
{
    let ghost hs = pairs_view(headers@);
    match find_header(headers, name) {
        Some(i) => {
            let key = headers[i].0.clone();
            headers.set(i, (key, crate::text::owned(value)));
            assert(pairs_view(headers@) =~= hs.update(i as int, (hs[i as int].0, value@)));
        },
        None => {
            headers.push((crate::text::owned(name), crate::text::owned(value)));
            assert(pairs_view(headers@) =~= hs.push((name@, value@)));
        },
    }
}

/// The value of the first header named `name` (ASCII case ignored).
pub fn get_header(headers: &Vec<(String, String)>, name: &str) -> (r: Option<String>)
    ensures
        match r {
            Some(v) => spec_get_header(pairs_view(headers@), name@) == Some(v@),
            None => spec_get_header(pairs_view(headers@), name@) is None,
        },
{
    match find_header(headers, name) {
        Some(i) => Some(headers[i].1.clone()),
        None => None,
    }
}

/// Removes every header named `name` (ASCII case ignored).
pub fn remove_header(headers: &mut Vec<(String, String)>, name: &str)
    ensures
        pairs_view(final(headers)@) == spec_remove_header(pairs_view(old(headers)@), name@),
{
    let ghost hs = pairs_view(headers@);
    let mut kept: Vec<(String, String)> = Vec::new();
    let mut i: usize = 0;
    while i < headers.len()
        invariant
            hs == pairs_view(headers@),
            i <= headers.len(),
            pairs_view(kept@) == spec_remove_header(hs.take(i as int), name@),
        decreases headers.len() - i,
    {
        assert(hs.take(i + 1).drop_last() =~= hs.take(i as int));
        assert(hs.take(i + 1).last() == hs[i as int]);
        let k = chars_of(headers[i].0.as_str());
        if !eq_ignore_case_str(&k, name) {
            let ghost before = kept@;
            kept.push((headers[i].0.clone(), headers[i].1.clone()));
            assert(pairs_view(kept@) =~= pairs_view(before).push(hs[i as int]));
        }
        i += 1;
    }
    assert(hs.take(headers.len() as int) =~= hs);
    *headers = kept;
}

/// What a header list gives back of a write: after `set_header(n, v)`,
/// `get_header(n)` is `v`.
pub proof fn lemma_set_then_get(hs: Seq<(Seq<char>, Seq<char>)>, name: Seq<char>, value: Seq<char>)
    ensures
        spec_get_header(spec_set_header(hs, name, value), name) == Some(value),
{
    let out = spec_set_header(hs, name, value);
    if has_header(hs, name) {
        let i = header_pos(hs, name);
        assert(first_header_at(hs, name, i));
        assert(first_header_at(out, name, i));
        let p = header_pos(out, name);
        lemma_first_header_unique(out, name, i, p);
    } else {
        let n = hs.len() as int;
        assert forall|j: int| 0 <= j < n implies !eq_ic(#[trigger] out[j].0, name) by {
            if eq_ic(out[j].0, name) {
                lemma_some_first_header(hs, name, j);
            }
        }
        assert(first_header_at(out, name, n));
        let p = header_pos(out, name);
        lemma_first_header_unique(out, name, n, p);
    }
}

proof fn lemma_some_first_header(hs: Seq<(Seq<char>, Seq<char>)>, name: Seq<char>, j: int)
    requires
        0 <= j < hs.len(),
        eq_ic(hs[j].0, name),
    ensures
        has_header(hs, name),
    decreases j,
{
    if forall|m: int| 0 <= m < j ==> !eq_ic(#[trigger] hs[m].0, name) {
        assert(first_header_at(hs, name, j));
    } else {
        let m = choose|m: int| 0 <= m < j && eq_ic(#[trigger] hs[m].0, name);
        lemma_some_first_header(hs, name, m);
    }
}

/// After `remove_header(n)` no header is named `n`.
pub proof fn lemma_remove_then_get(hs: Seq<(Seq<char>, Seq<char>)>, name: Seq<char>)
    ensures
        spec_get_header(spec_remove_header(hs, name), name) is None,
{
    lemma_removed_names(hs, name);
    let out = spec_remove_header(hs, name);
    if has_header(out, name) {
        let p = header_pos(out, name);
        assert(first_header_at(out, name, p));
    }
}

proof fn lemma_removed_names(hs: Seq<(Seq<char>, Seq<char>)>, name: Seq<char>)
    ensures
        forall|j: int|
            0 <= j < spec_remove_header(hs, name).len() ==> !eq_ic(
                #[trigger] spec_remove_header(hs, name)[j].0,
                name,
            ),
    decreases hs.len(),
{
    if hs.len() > 0 {
        lemma_removed_names(hs.drop_last(), name);
        let rest = spec_remove_header(hs.drop_last(), name);
        let out = spec_remove_header(hs, name);
        assert forall|j: int| 0 <= j < out.len() implies !eq_ic(#[trigger] out[j].0, name) by {
            if j < rest.len() {
                assert(out[j] == rest[j]);
            }
        }
    }
}

// ---------------------------------------------------------------------------
// Rewriting a request head
// ---------------------------------------------------------------------------

pub open spec fn crlf() -> Seq<char> {
    seq!['\r', '\n']
}

/// `str::split("\r\n")`: the pieces between the line breaks, in order.
pub open spec fn split_crlf(s: Seq<char>) -> Seq<Seq<char>>
    decreases s.len(),
{
    match find_sub(s, crlf()) {
        Some(i) => if 0 <= i && i + 2 <= s.len() {
            seq![s.subrange(0, i)] + split_crlf(s.subrange(i + 2, s.len() as int))
        } else {
            seq![s]
        },
        None => seq![s],
    }
}

/// The `name: value` lines up to the first empty one, names and values
/// trimmed; lines without a colon are skipped.
pub open spec fn parse_header_lines(ls: Seq<Seq<char>>) -> Seq<(Seq<char>, Seq<char>)>
    decreases ls.len(),
{
    if ls.len() == 0 || ls[0].len() == 0 {
        Seq::empty()
    } else {
        let rest = parse_header_lines(ls.drop_first());
        match split_once(ls[0], ':') {
            Some((k, v)) => seq![(trim(k), trim(v))] + rest,
            None => rest,
        }
    }
}

/// Each `name: value` line of `changes`, in order, set on the headers.
pub open spec fn apply_header_changes(hs: Seq<(Seq<char>, Seq<char>)>, changes: Seq<Seq<char>>) -> Seq<(Seq<char>, Seq<char>)>
    decreases changes.len(),
{
    if changes.len() == 0 {
        hs
    } else {
        let before = apply_header_changes(hs, changes.drop_last());
        match split_once(changes.last(), ':') {
            Some((k, v)) => spec_set_header(before, trim(k), trim(v)),
            None => before,
        }
    }
}

/// The address up to its first `:`.
pub open spec fn addr_host_part(addr: Seq<char>) -> Seq<char> {
    match find_char(addr, ':') {
        Some(i) => addr.subrange(0, i),
        None => addr,
    }
}

/// The client address reported to the backend: the IP of the socket
/// address when `remote_addr` parses as one, else the text before the
/// first colon.
pub open spec fn origin_ip(remote_addr: Seq<char>, peer_ip: Option<Seq<char>>) -> Seq<char> {
    match peer_ip {
        Some(ip) => ip,
        None => addr_host_part(remote_addr),
    }
}

/// `X-Forwarded-For` extended with `ip` (or started) and `X-Real-IP` set.
pub open spec fn with_origin(hs: Seq<(Seq<char>, Seq<char>)>, ip: Seq<char>) -> Seq<(Seq<char>, Seq<char>)> {
    let forwarded = match spec_get_header(hs, "X-Forwarded-For"@) {
        Some(e) => if e.len() > 0 {
            e + ", "@ + ip
        } else {
            ip
        },
        None => ip,
    };
    spec_set_header(spec_set_header(hs, "X-Forwarded-For"@, forwarded), "X-Real-IP"@, ip)
}

/// `name: value\r\n` for each header, in order.
pub open spec fn render_headers(hs: Seq<(Seq<char>, Seq<char>)>) -> Seq<char>
    decreases hs.len(),
{
    if hs.len() == 0 {
        Seq::empty()
    } else {
        render_headers(hs.drop_last()) + hs.last().0 + ": "@ + hs.last().1 + crlf()
    }
}

pub open spec fn opt_view(o: Option<&str>) -> Option<Seq<char>> {
    match o {
        Some(s) => Some(s@),
        None => None,
    }
}

/// The headers of a rewritten request: the head's own, then the host
/// override (when not blank), the configured changes, the origin headers
/// and `Connection: close`, each step as asked.
pub open spec fn rewritten_headers(
    t: Seq<char>,
    host_override: Option<Seq<char>>,
    header_change: Seq<char>,
    remote_addr: Seq<char>,
    peer_ip: Option<Seq<char>>,
    add_origin_header: bool,
    force_close: bool,
) -> Seq<(Seq<char>, Seq<char>)> {
    let hs0 = parse_header_lines(split_crlf(t).drop_first());
    let hs1 = match host_override {
        Some(h) => if trim(h).len() > 0 {
            spec_set_header(hs0, "Host"@, trim(h))
        } else {
            hs0
        },
        None => hs0,
    };
    let hs2 = apply_header_changes(hs1, trimmed_nonempty(lines(header_change)));
    let hs3 = if add_origin_header {
        with_origin(hs2, origin_ip(remote_addr, peer_ip))
    } else {
        hs2
    };
    if force_close {
        spec_set_header(spec_remove_header(hs3, "Proxy-Connection"@), "Connection"@, "close"@)
    } else {
        hs3
    }
}

/// The text of a rewritten request head: the request line as received, the
/// rewritten headers and the blank line.
pub open spec fn spec_rewrite_head(
    t: Seq<char>,
    host_override: Option<Seq<char>>,
    header_change: Seq<char>,
    remote_addr: Seq<char>,
    peer_ip: Option<Seq<char>>,
    add_origin_header: bool,
    force_close: bool,
) -> Seq<char> {
    split_crlf(t)[0] + crlf() + render_headers(
        rewritten_headers(
            t,
            host_override,
            header_change,
            remote_addr,
            peer_ip,
            add_origin_header,
            force_close,
        ),
    ) + crlf()
}

fn crlf_vec() -> (r: Vec<char>)
    ensures
        r@ == crlf(),
{
    let mut v: Vec<char> = Vec::new();
    v.push('\r');
    v.push('\n');
    assert(v@ =~= crlf());
    v
}

fn split_crlf_exec(s: &Vec<char>) -> (r: Vec<Vec<char>>)
    ensures
        views(r@) == split_crlf(s@),
        r@.len() >= 1,
{
    let pat = crlf_vec();
    let mut out: Vec<Vec<char>> = Vec::new();
    let mut pos: usize = 0;
    assert(s@.subrange(0, s@.len() as int) =~= s@);
    loop
        invariant
            pos <= s.len(),
            pat@ == crlf(),
            split_crlf(s@) == views(out@) + split_crlf(s@.subrange(pos as int, s@.len() as int)),
        decreases s.len() - pos,
    {
        let rest = slice(s, pos, s.len());
        match find_sub_exec(&rest, &pat) {
            Some(i) => {
                let piece = slice(&rest, 0, i);
                let ghost before = out@;
                out.push(piece);
                assert(views(out@) =~= views(before).push(piece@));
                assert(rest@.subrange(i + 2, rest@.len() as int) =~= s@.subrange(
                    pos + i + 2,
                    s@.len() as int,
                ));
                assert(views(out@) + split_crlf(s@.subrange(pos + i + 2, s@.len() as int))
                    =~= views(before) + split_crlf(rest@));
                pos = pos + i + 2;
            },
            None => {
                let ghost before = out@;
                out.push(rest);
                assert(views(out@) =~= views(before) + split_crlf(rest@));
                return out;
            },
        }
    }
}

fn parse_header_lines_exec(pieces: &Vec<Vec<char>>) -> (r: Vec<(String, String)>)
    requires
        pieces@.len() >= 1,
    ensures
        pairs_view(r@) == parse_header_lines(views(pieces@).drop_first()),
{
    let ghost all = views(pieces@);
    let mut out: Vec<(String, String)> = Vec::new();
    let mut i: usize = 1;
    assert(all.subrange(1, pieces.len() as int) =~= all.drop_first());
    while i < pieces.len() && pieces[i].len() > 0
        invariant
            all == views(pieces@),
            1 <= i <= pieces.len(),
            parse_header_lines(all.drop_first()) == pairs_view(out@) + parse_header_lines(
                all.subrange(i as int, pieces.len() as int),
            ),
        decreases pieces.len() - i,
    {
        let ghost rest = all.subrange(i as int, pieces.len() as int);
        assert(rest[0] == pieces@[i as int]@);
        assert(rest.drop_first() =~= all.subrange(i + 1, pieces.len() as int));
        match split_once_exec(&pieces[i], ':') {
            Some((k, v)) => {
                let ghost before = out@;
                out.push((string_of(&trim_vec(&k)), string_of(&trim_vec(&v))));
                assert(pairs_view(out@) =~= pairs_view(before).push((trim(k@), trim(v@))));
                assert(pairs_view(out@) + parse_header_lines(rest.drop_first()) =~= pairs_view(
                    before,
                ) + (seq![(trim(k@), trim(v@))] + parse_header_lines(rest.drop_first())));
            },
            None => {},
        }
        i += 1;
    }
    assert(parse_header_lines(all.subrange(i as int, pieces.len() as int)) =~= Seq::empty());
    assert(pairs_view(out@) + Seq::empty() =~= pairs_view(out@));
    out
}

fn apply_header_changes_exec(headers: &mut Vec<(String, String)>, header_change: &str)
    ensures
        pairs_view(final(headers)@) == apply_header_changes(
            pairs_view(old(headers)@),
            trimmed_nonempty(lines(header_change@)),
        ),
{
    let hc = chars_of(header_change);
    let ls = lines_exec(&hc);
    let changes = trimmed_nonempty_exec(&ls);
    let ghost cs = views(changes@);
    let ghost start = pairs_view(headers@);
    let mut i: usize = 0;
    while i < changes.len()
        invariant
            cs == views(changes@),
            cs == trimmed_nonempty(lines(header_change@)),
            start == pairs_view(old(headers)@),
            i <= changes.len(),
            pairs_view(headers@) == apply_header_changes(start, cs.take(i as int)),
        decreases changes.len() - i,
    {
        assert(cs.take(i + 1).drop_last() =~= cs.take(i as int));
        assert(cs.take(i + 1).last() == changes@[i as int]@);
        match split_once_exec(&changes[i], ':') {
            Some((k, v)) => {
                let name = string_of(&trim_vec(&k));
                let value = string_of(&trim_vec(&v));
                set_header(headers, name.as_str(), value.as_str());
            },
            None => {},
        }
        i += 1;
    }
    assert(cs.take(changes.len() as int) =~= cs);
}

fn add_origin_headers(headers: &mut Vec<(String, String)>, ip: &Vec<char>)
    ensures
        pairs_view(final(headers)@) == with_origin(pairs_view(old(headers)@), ip@),
{
    assert(ip@.subrange(0, ip@.len() as int) =~= ip@);
    let forwarded: Vec<char> = match get_header(headers, "X-Forwarded-For") {
        Some(e) => {
            let ec = chars_of(e.as_str());
            if ec.len() > 0 {
                let mut f = ec;
                append_str(&mut f, ", ");
                append(&mut f, ip);
                f
            } else {
                slice(ip, 0, ip.len())
            }
        },
        None => slice(ip, 0, ip.len()),
    };
    let fs = string_of(&forwarded);
    let ghost hs = pairs_view(headers@);
    assert(fs@ == match spec_get_header(hs, "X-Forwarded-For"@) {
        Some(e) => if e.len() > 0 {
            e + ", "@ + ip@
        } else {
            ip@
        },
        None => ip@,
    });
    set_header(headers, "X-Forwarded-For", fs.as_str());
    let is = string_of(ip);
    set_header(headers, "X-Real-IP", is.as_str());
}

fn render_head(request_line: &Vec<char>, headers: &Vec<(String, String)>) -> (r: Vec<char>)
    ensures
        r@ == request_line@ + crlf() + render_headers(pairs_view(headers@)) + crlf(),
{
    let ghost hs = pairs_view(headers@);
    let mut body: Vec<char> = Vec::new();
    let mut i: usize = 0;
    while i < headers.len()
        invariant
            hs == pairs_view(headers@),
            i <= headers.len(),
            body@ == render_headers(hs.take(i as int)),
        decreases headers.len() - i,
    {
        assert(hs.take(i + 1).drop_last() =~= hs.take(i as int));
        assert(hs.take(i + 1).last() == hs[i as int]);
        append_str(&mut body, headers[i].0.as_str());
        append_str(&mut body, ": ");
        append_str(&mut body, headers[i].1.as_str());
        append(&mut body, &crlf_vec());
        i += 1;
    }
    assert(hs.take(headers.len() as int) =~= hs);
    let mut out = slice(request_line, 0, request_line.len());
    append(&mut out, &crlf_vec());
    append(&mut out, &body);
    append(&mut out, &crlf_vec());
    out
}

/// [`rewrite_http_request_head`] on text already decoded.
pub fn rewrite_head_text(
    t: &Vec<char>,
    host_override: Option<&str>,
    header_change: &str,
    remote_addr: &str,
    peer_ip: Option<&str>,
    add_origin_header: bool,
    force_close: bool,
) -> (r: Vec<char>)
    ensures
        r@ == spec_rewrite_head(
            t@,
            opt_view(host_override),
            header_change@,
            remote_addr@,
            opt_view(peer_ip),
            add_origin_header,
            force_close,
        ),
{
    let pieces = split_crlf_exec(t);
    let mut headers = parse_header_lines_exec(&pieces);
    match host_override {
        Some(h) => {
            let th = crate::text::trim_str(h);
            if th.len() > 0 {
                let hs = string_of(&th);
                set_header(&mut headers, "Host", hs.as_str());
            }
        },
        None => {},
    }
    apply_header_changes_exec(&mut headers, header_change);
    if add_origin_header {
        let ip: Vec<char> = match peer_ip {
            Some(p) => chars_of(p),
            None => {
                let ra = chars_of(remote_addr);
                proof {
                    crate::text::lemma_find_char_props(ra@, ':');
                }
                match find_char_exec(&ra, ':') {
                    Some(i) => slice(&ra, 0, i),
                    None => ra,
                }
            },
        };
        add_origin_headers(&mut headers, &ip);
    }
    if force_close {
        remove_header(&mut headers, "Proxy-Connection");
        set_header(&mut headers, "Connection", "close");
    }
    render_head(&pieces[0], &headers)
}

/// Rewrites the headers of a request head for the backend: host override,
/// configured header changes, `X-Forwarded-For` / `X-Real-IP`, and
/// `Connection: close`. `peer_ip` is the IP of `remote_addr` when it parses
/// as a socket address.
pub fn rewrite_http_request_head(
    head: &[u8],
    host_override: Option<&str>,
    header_change: &str,
    remote_addr: &str,
    peer_ip: Option<&str>,
    add_origin_header: bool,
    force_close: bool,
) -> (r: Vec<u8>)
    ensures
        r@ == encode_utf8(
            spec_rewrite_head(
                lossy_text(head@),
                opt_view(host_override),
                header_change@,
                remote_addr@,
                opt_view(peer_ip),
                add_origin_header,
                force_close,
            ),
        ),
{
    let t = utf8_lossy(head);
    let out = rewrite_head_text(
        &t,
        host_override,
        header_change,
        remote_addr,
        peer_ip,
        add_origin_header,
        force_close,
    );
    let s = string_of(&out);
    utf8_bytes(s.as_str())
}

// ---------------------------------------------------------------------------
// Basic authentication
// ---------------------------------------------------------------------------

/// The bytes that `BASE64_STANDARD.decode` gives for the text, or `None`
/// where it fails.
pub uninterp spec fn base64_standard_decode(s: Seq<char>) -> Option<Seq<u8>>;

/// `base64::prelude::BASE64_STANDARD.decode`: the bytes that a standard,
/// padded base64 text stands for, `None` on a decode error. The decoding
/// itself is left to the name.
#[verifier::external_body]
fn base64_decode(s: &str) -> (r: Option<Vec<u8>>)
    ensures
        match r {
            Some(v) => base64_standard_decode(s@) == Some(v@),
            None => base64_standard_decode(s@) is None,
        },
{
    match BASE64_STANDARD.decode(s) {
        Ok(v) => Some(v),
        Err(_) => None,
    }
}

/// `splitn(2, ' ')` of a header value: the text before the first space and
/// the text after it (empty without a space).
pub open spec fn auth_parts(v: Seq<char>) -> (Seq<char>, Seq<char>) {
    match find_char(v, ' ') {
        Some(i) => (v.subrange(0, i), v.subrange(i + 1, v.len() as int)),
        None => (v, Seq::empty()),
    }
}

/// The UTF-8 bytes of `user:passwd`.
pub open spec fn credentials(user: Seq<char>, passwd: Seq<char>) -> Seq<u8> {
    encode_utf8(user + seq![':'] + passwd)
}

/// The header `name` carries a `Basic` token that decodes to `expected`.
pub open spec fn header_grants(t: Seq<char>, name: Seq<char>, expected: Seq<u8>) -> bool {
    match spec_header_value(t, name) {
        Some(v) => eq_ic(auth_parts(v).0, "Basic"@) && base64_standard_decode(trim(auth_parts(v).1))
            == Some(expected),
        None => false,
    }
}

/// `Authorization` or `Proxy-Authorization` grants `user:passwd`.
pub open spec fn spec_basic_auth(t: Seq<char>, user: Seq<char>, passwd: Seq<char>) -> bool {
    header_grants(t, "Authorization"@, credentials(user, passwd)) || header_grants(
        t,
        "Proxy-Authorization"@,
        credentials(user, passwd),
    )
}

/// Whether what a `Basic` token decoded to is `user:passwd`.
pub fn credentials_match(decoded: &Option<Vec<u8>>, user: &str, passwd: &str) -> (r: bool)
    ensures
        r == (decoded matches Some(d) && d@ == credentials(user@, passwd@)),
{
    match decoded {
        Some(d) => {
            let mut c = chars_of(user);
            c.push(':');
            let p = chars_of(passwd);
            append(&mut c, &p);
            assert(c@ =~= user@ + seq![':'] + passwd@);
            let cs = string_of(&c);
            let expected = utf8_bytes(cs.as_str());
            bytes_eq(d.as_slice(), expected.as_slice())
        },
        None => false,
    }
}

fn header_grants_exec(t: &Vec<char>, name: &str, user: &str, passwd: &str) -> (r: bool)
    ensures
        r == header_grants(t@, name@, credentials(user@, passwd@)),
{
    let value = match header_value_of(t, name) {
        Some(v) => v,
        None => return false,
    };
    let vc = chars_of(value.as_str());
    proof {
        crate::text::lemma_find_char_props(vc@, ' ');
    }
    let (scheme, token) = match find_char_exec(&vc, ' ') {
        Some(i) => (slice(&vc, 0, i), slice(&vc, i + 1, vc.len())),
        None => (slice(&vc, 0, vc.len()), Vec::new()),
    };
    assert(vc@.subrange(0, vc@.len() as int) =~= vc@);
    if !eq_ignore_case_str(&scheme, "Basic") {
        return false;
    }
    let tt = string_of(&trim_vec(&token));
    let decoded = base64_decode(tt.as_str());
    credentials_match(&decoded, user, passwd)
}

/// [`check_http_basic_auth`] on text already decoded.
pub fn basic_auth_of(t: &Vec<char>, user: &str, passwd: &str) -> (r: bool)
    ensures
        r == spec_basic_auth(t@, user@, passwd@),
{
    header_grants_exec(t, "Authorization", user, passwd) || header_grants_exec(
        t,
        "Proxy-Authorization",
        user,
        passwd,
    )
}

/// Whether the `Authorization` or `Proxy-Authorization` header carries
/// `Basic` credentials equal to `user:passwd`.
pub fn check_http_basic_auth(head: &[u8], user: &str, passwd: &str) -> (r: bool)
    ensures
        r == spec_basic_auth(lossy_text(head@), user@, passwd@),
{
    let t = utf8_lossy(head);
    basic_auth_of(&t, user, passwd)
}

// ---------------------------------------------------------------------------
// Responses
// ---------------------------------------------------------------------------

/// The head of a plain response with a body of `len` bytes.
pub open spec fn response_head(status: Seq<char>, content_type: Seq<char>, len: nat) -> Seq<char> {
    "HTTP/1.1 "@ + status + "\r\nContent-Type: "@ + content_type + "\r\nContent-Length: "@ + dec(len)
        + "\r\nConnection: close\r\n\r\n"@
}

/// Writes a complete `Connection: close` response to `out`.
pub fn write_http_response(out: &mut Vec<u8>, status: &str, content_type: &str, body: &[u8])
    ensures
        final(out)@ == old(out)@ + encode_utf8(response_head(status@, content_type@, body@.len()))
            + body@,
{
    let mut h: Vec<char> = Vec::new();
    append_str(&mut h, "HTTP/1.1 ");
    append_str(&mut h, status);
    append_str(&mut h, "\r\nContent-Type: ");
    append_str(&mut h, content_type);
    append_str(&mut h, "\r\nContent-Length: ");
    let d = dec_exec(body.len() as u64);
    append(&mut h, &d);
    append_str(&mut h, "\r\nConnection: close\r\n\r\n");
    let hs = string_of(&h);
    let hb = utf8_bytes(hs.as_str());
    extend_bytes(out, hb.as_slice());
    extend_bytes(out, body);
}

// ---------------------------------------------------------------------------
// Reading a head
// ---------------------------------------------------------------------------

/// The bytes end with the blank line that closes a head.
pub open spec fn head_done(b: Seq<u8>) -> bool {
    b.len() >= 4 && b.subrange(b.len() - 4, b.len() as int) == seq![13u8, 10u8, 13u8, 10u8]
}

/// What reading one more byte of a head led to.
#[derive(PartialEq, Eq, Structural, Clone, Copy, Debug)]
pub enum HeadStep {
    /// The head is complete.
    Complete,
    /// `max` bytes were read without completing the head.
    TooLong,
    /// More bytes are needed.
    More,
}

pub open spec fn head_step(b: Seq<u8>, max: nat) -> HeadStep {
    if head_done(b) {
        HeadStep::Complete
    } else if b.len() >= max {
        HeadStep::TooLong
    } else {
        HeadStep::More
    }
}

/// Appends one byte read from the stream to a head being read and says
/// whether the head is complete, too long, or needs more bytes.
pub fn feed_head_byte(buf: &mut Vec<u8>, byte: u8, max: usize) -> (r: HeadStep)
    requires
        old(buf)@.len() < max,
    ensures
        final(buf)@ == old(buf)@.push(byte),
        r == head_step(final(buf)@, max as nat),
{
    buf.push(byte);
    let n = buf.len();
    if n >= 4 && buf[n - 4] == 13 && buf[n - 3] == 10 && buf[n - 2] == 13 && buf[n - 1] == 10 {
        assert(buf@.subrange(n - 4, n as int) =~= seq![13u8, 10u8, 13u8, 10u8]);
        HeadStep::Complete
    } else {
        proof {
            if n >= 4 {
                let t = buf@.subrange(n - 4, n as int);
                if t == seq![13u8, 10u8, 13u8, 10u8] {
                    assert(t[0] == buf@[n - 4]);
                    assert(t[1] == buf@[n - 3]);
                    assert(t[2] == buf@[n - 2]);
                    assert(t[3] == buf@[n - 1]);
                }
            }
        }
        if n >= max {
            HeadStep::TooLong
        } else {
            HeadStep::More
        }
    }
}

/// What feeding the bytes `rest`, one at a time, to a head already holding
/// `buf` gives: the head once it is complete; none once it is too long or
/// the bytes run out first.
pub open spec fn feed_head(buf: Seq<u8>, rest: Seq<u8>, max: nat) -> Option<Seq<u8>>
    decreases rest.len(),
{
    if buf.len() >= max || rest.len() == 0 {
        None
    } else {
        let b = buf.push(rest[0]);
        match head_step(b, max) {
            HeadStep::Complete => Some(b),
            HeadStep::TooLong => None,
            HeadStep::More => feed_head(b, rest.drop_first(), max),
        }
    }
}

proof fn lemma_feed_head_from(input: Seq<u8>, k: int, max: nat)
    requires
        0 <= k <= input.len(),
        forall|n: int| 0 <= n <= k ==> !head_done(#[trigger] input.take(n)),
    ensures
        match feed_head(input.take(k), input.skip(k), max) {
            Some(p) => p.len() <= max && p.len() <= input.len() && p == input.take(p.len() as int) && head_done(p)
                && forall|n: int| 0 <= n < p.len() ==> !head_done(#[trigger] input.take(n)),
            None => forall|n: int| 0 <= n <= input.len() && n <= max ==> !head_done(#[trigger] input.take(n)),
        },
    decreases input.len() - k,
{
    if k < max && k < input.len() {
        assert(input.take(k).push(input.skip(k)[0]) =~= input.take(k + 1));
        assert(input.skip(k).drop_first() =~= input.skip(k + 1));
        let b = input.take(k + 1);
        if head_done(b) {
            assert(b.len() == k + 1);
        } else {
            assert(forall|n: int| 0 <= n <= k + 1 ==> !head_done(#[trigger] input.take(n)));
            if b.len() < max {
                lemma_feed_head_from(input, k + 1, max);
            }
        }
    }
}

/// Reading a head byte by byte with [`feed_head_byte`] gives the shortest
/// prefix of the input that ends with the blank line, if one of at most
/// `max` bytes exists, and nothing otherwise.
pub proof fn lemma_feed_head_shortest(input: Seq<u8>, max: nat)
    ensures
        match feed_head(Seq::empty(), input, max) {
            Some(p) => p.len() <= max && p == input.take(p.len() as int) && head_done(p) && forall|n: int|
                0 <= n < p.len() ==> !head_done(#[trigger] input.take(n)),
            None => forall|n: int| 0 <= n <= input.len() && n <= max ==> !head_done(#[trigger] input.take(n)),
        },
{
    assert(input.take(0) =~= Seq::<u8>::empty());
    assert(input.skip(0) =~= input);
    assert forall|n: int| 0 <= n <= 0 implies !head_done(#[trigger] input.take(n)) by {}
    lemma_feed_head_from(input, 0, max);
}

// ---------------------------------------------------------------------------
// Digests
// ---------------------------------------------------------------------------

/// The MD5 digest of the bytes.
pub uninterp spec fn md5_of(b: Seq<u8>) -> Seq<u8>;

/// `md5::compute`: the 16-byte MD5 digest of the bytes (the algorithm is
/// left to the name; its length is the type's).
#[verifier::external_body]
fn md5_digest(b: &[u8]) -> (r: Vec<u8>)
    ensures
        r@ == md5_of(b@),
        r@.len() == 16,
{
    md5::compute(b).0.to_vec()
}

/// A lowercase hexadecimal digit.
pub open spec fn hex_digit(n: nat) -> char {
    if n < 10 {
        (48 + n) as char
    } else {
        (87 + n) as char
    }
}

/// Two lowercase hexadecimal digits per byte, in order.
pub open spec fn hex_lower(b: Seq<u8>) -> Seq<char>
    decreases b.len(),
{
    if b.len() == 0 {
        Seq::empty()
    } else {
        hex_lower(b.drop_last()) + seq![
            hex_digit((b.last() / 16) as nat),
            hex_digit((b.last() % 16) as nat),
        ]
    }
}

fn hex_digit_exec(n: u8) -> (r: char)
    requires
        n < 16,
    ensures
        r == hex_digit(n as nat),
{
    if n < 10 {
        (48 + n) as char
    } else {
        (87 + n) as char
    }
}

/// Lowercase hexadecimal text of the bytes.
pub fn hex_lower_of(b: &[u8]) -> (r: String)
    ensures
        r@ == hex_lower(b@),
        r@.len() == 2 * b@.len(),
{
    let mut out: Vec<char> = Vec::new();
    let mut i: usize = 0;
    while i < b.len()
        invariant
            i <= b@.len(),
            out@ == hex_lower(b@.take(i as int)),
            out@.len() == 2 * i,
        decreases b@.len() - i,
    {
        assert(b@.take(i + 1).drop_last() =~= b@.take(i as int));
        assert(b@.take(i + 1).last() == b@[i as int]);
        out.push(hex_digit_exec(b[i] / 16));
        out.push(hex_digit_exec(b[i] % 16));
        i += 1;
    }
    assert(b@.take(b@.len() as int) =~= b@);
    string_of(&out)
}

/// The MD5 digest of the string's UTF-8 bytes, as 32 lowercase hex digits.
pub fn md5_hex(s: &str) -> (r: String)
    ensures
        r@ == hex_lower(md5_of(encode_utf8(s@))),
        r@.len() == 32,
{
    let b = utf8_bytes(s);
    let d = md5_digest(b.as_slice());
    hex_lower_of(d.as_slice())
}

} // verus!
