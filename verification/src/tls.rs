//! Host patterns of TLS certificates and the choice of a certificate for
//! a server name.
use vstd::prelude::*;
use crate::model::{strings_of, strings_view};
use crate::kv::strip_trailing;
use crate::text::{
    chars_of, ends_with, ends_with_vec, is_ws, is_ws_char, lower, lower_vec, slice, starts_with, starts_with_str,
    string_of, trim, trim_str, trimmed_nonempty, trimmed_nonempty_exec, views,
};

verus! {

/// A character that separates host patterns: `,`, newline, `;` or white
/// space.
pub open spec fn is_pattern_sep(c: char) -> bool {
    c == ',' || c == '\n' || c == ';' || is_ws(c)
}

/// Left-to-right scan of a host list: pieces closed so far and the piece
/// being built.
pub open spec fn pattern_scan(s: Seq<char>) -> (Seq<Seq<char>>, Seq<char>)
    decreases s.len(),
{
    if s.len() == 0 {
        (Seq::empty(), Seq::empty())
    } else {
        let (done, cur) = pattern_scan(s.drop_last());
        if is_pattern_sep(s.last()) {
            (done.push(cur), Seq::empty())
        } else {
            (done, cur.push(s.last()))
        }
    }
}

/// The host patterns of a list, in order, empty pieces dropped.
pub open spec fn spec_host_patterns(s: Seq<char>) -> Seq<Seq<char>> {
    let (done, cur) = pattern_scan(s);
    trimmed_nonempty(done.push(cur))
}

/// Splits a certificate's host list into patterns.
pub fn split_host_patterns(hosts: &str) -> (r: Vec<String>)
    ensures
        strings_view(r@) == spec_host_patterns(hosts@),
{
    let c = chars_of(hosts);
    let mut done: Vec<Vec<char>> = Vec::new();
    let mut cur: Vec<char> = Vec::new();
    let mut i: usize = 0;
    while i < c.len()
        invariant
            c@ == hosts@,
            i <= c.len(),
            (views(done@), cur@) == pattern_scan(c@.take(i as int)),
        decreases c.len() - i,
    {
        assert(c@.take(i + 1).drop_last() =~= c@.take(i as int));
        assert(c@.take(i + 1).last() == c@[i as int]);
        let ch = c[i];
        if ch == ',' || ch == '\n' || ch == ';' || is_ws_char(ch) {
            let ghost before = done@;
            let piece = cur;
            done.push(piece);
            cur = Vec::new();
            assert(views(done@) =~= views(before).push(piece@));
        } else {
            cur.push(ch);
        }
        i += 1;
    }
    assert(c@.take(c.len() as int) =~= c@);
    let ghost before = done@;
    done.push(cur);
    assert(views(done@) =~= views(before).push(cur@));
    strings_of(&trimmed_nonempty_exec(&done))
}


// ---------------------------------------------------------------------------
// Choosing a certificate
// ---------------------------------------------------------------------------

/// Where the certificates serve: exact names and wildcard suffixes (each
/// with the number of its certificate), and the certificate used when no
/// name matches.
#[derive(Debug)]
pub struct CertIndex {
    pub exact: Vec<(String, usize)>,
    pub wildcard: Vec<(String, usize)>,
    pub default: Option<usize>,
}

pub struct CertIndexView {
    pub exact: Seq<(Seq<char>, usize)>,
    pub wildcard: Seq<(Seq<char>, usize)>,
    pub default: Option<usize>,
}

pub open spec fn named_view(v: Seq<(String, usize)>) -> Seq<(Seq<char>, usize)> {
    Seq::new(v.len(), |i: int| (v[i].0@, v[i].1))
}

impl View for CertIndex {
    type V = CertIndexView;

    open spec fn view(&self) -> CertIndexView {
        CertIndexView { exact: named_view(self.exact@), wildcard: named_view(self.wildcard@), default: self.default }
    }
}

/// The exact names among a certificate's patterns, lowercased, in order.
pub open spec fn exact_names(ds: Seq<Seq<char>>, n: usize) -> Seq<(Seq<char>, usize)>
    decreases ds.len(),
{
    if ds.len() == 0 {
        Seq::empty()
    } else if starts_with(ds.last(), "*."@) {
        exact_names(ds.drop_last(), n)
    } else {
        exact_names(ds.drop_last(), n).push((lower(ds.last()), n))
    }
}

/// The suffixes of a certificate's `*.suffix` patterns, lowercased, in
/// order.
pub open spec fn wildcard_suffixes(ds: Seq<Seq<char>>, n: usize) -> Seq<(Seq<char>, usize)>
    decreases ds.len(),
{
    if ds.len() == 0 {
        Seq::empty()
    } else if starts_with(ds.last(), "*."@) {
        wildcard_suffixes(ds.drop_last(), n).push((lower(ds.last().skip(2)), n))
    } else {
        wildcard_suffixes(ds.drop_last(), n)
    }
}

/// The index over the hosts that have a certificate, given in order as
/// their host list and the number of their certificate: a host without
/// patterns adds nothing; the first host with patterns gives the default.
pub open spec fn spec_cert_index(hs: Seq<(Seq<char>, usize)>) -> CertIndexView
    decreases hs.len(),
{
    if hs.len() == 0 {
        CertIndexView { exact: Seq::empty(), wildcard: Seq::empty(), default: None }
    } else {
        let prev = spec_cert_index(hs.drop_last());
        let n = hs.last().1;
        let ds = spec_host_patterns(hs.last().0);
        if ds.len() == 0 {
            prev
        } else {
            CertIndexView {
                exact: prev.exact + exact_names(ds, n),
                wildcard: prev.wildcard + wildcard_suffixes(ds, n),
                default: if prev.default is Some {
                    prev.default
                } else {
                    Some(n)
                },
            }
        }
    }
}

fn add_patterns(ds: &Vec<String>, n: usize, exact: &mut Vec<(String, usize)>, wildcard: &mut Vec<(String, usize)>)
    ensures
        named_view(final(exact)@) == named_view(old(exact)@) + exact_names(strings_view(ds@), n),
        named_view(final(wildcard)@) == named_view(old(wildcard)@) + wildcard_suffixes(strings_view(ds@), n),
{
    let ghost dv = strings_view(ds@);
    let ghost e0 = named_view(exact@);
    let ghost w0 = named_view(wildcard@);
    let mut i: usize = 0;
    assert(dv.take(0) =~= Seq::<Seq<char>>::empty());
    assert(e0 + exact_names(dv.take(0), n) =~= e0);
    assert(w0 + wildcard_suffixes(dv.take(0), n) =~= w0);
    while i < ds.len()
        invariant
            dv == strings_view(ds@),
            i <= ds.len(),
            named_view(exact@) == e0 + exact_names(dv.take(i as int), n),
            named_view(wildcard@) == w0 + wildcard_suffixes(dv.take(i as int), n),
        decreases ds.len() - i,
    {
        assert(dv.take(i + 1).drop_last() =~= dv.take(i as int));
        assert(dv.take(i + 1).last() == ds@[i as int]@);
        let d = chars_of(ds[i].as_str());
        if starts_with_str(&d, "*.") {
            proof {
                reveal_strlit("*.");
            }
            let suffix = lower_vec(&slice(&d, 2, d.len()));
            assert(d@.subrange(2, d@.len() as int) =~= d@.skip(2));
            let ghost before = named_view(wildcard@);
            wildcard.push((string_of(&suffix), n));
            assert(named_view(wildcard@) =~= before.push((lower(d@.skip(2)), n)));
            assert(e0 + exact_names(dv.take(i + 1), n) =~= e0 + exact_names(dv.take(i as int), n));
            assert(w0 + wildcard_suffixes(dv.take(i + 1), n) =~= (w0 + wildcard_suffixes(dv.take(i as int), n)).push((lower(d@.skip(2)), n)));
        } else {
            let name = lower_vec(&d);
            let ghost before = named_view(exact@);
            exact.push((string_of(&name), n));
            assert(named_view(exact@) =~= before.push((lower(d@), n)));
            assert(e0 + exact_names(dv.take(i + 1), n) =~= (e0 + exact_names(dv.take(i as int), n)).push((lower(d@), n)));
            assert(w0 + wildcard_suffixes(dv.take(i + 1), n) =~= w0 + wildcard_suffixes(dv.take(i as int), n));
        }
        i += 1;
    }
    assert(dv.take(ds.len() as int) =~= dv);
}

/// Builds the index over the hosts that have a certificate: each given as
/// its host list and the number of its certificate.
pub fn cert_index(hosts: &Vec<(String, usize)>) -> (r: CertIndex)
    ensures
        r@ == spec_cert_index(named_view(hosts@)),
{
    let ghost hv = named_view(hosts@);
    let mut exact: Vec<(String, usize)> = Vec::new();
    let mut wildcard: Vec<(String, usize)> = Vec::new();
    let mut default: Option<usize> = None;
    let mut i: usize = 0;
    assert(hv.take(0) =~= Seq::<(Seq<char>, usize)>::empty());
    assert(named_view(exact@) =~= Seq::<(Seq<char>, usize)>::empty());
    assert(named_view(wildcard@) =~= Seq::<(Seq<char>, usize)>::empty());
    while i < hosts.len()
        invariant
            hv == named_view(hosts@),
            i <= hosts.len(),
            (CertIndexView { exact: named_view(exact@), wildcard: named_view(wildcard@), default: default })
                == spec_cert_index(hv.take(i as int)),
        decreases hosts.len() - i,
    {
        assert(hv.take(i + 1).drop_last() =~= hv.take(i as int));
        assert(hv.take(i + 1).last() == (hosts@[i as int].0@, hosts@[i as int].1));
        let ds = split_host_patterns(hosts[i].0.as_str());
        if ds.len() > 0 {
            let n = hosts[i].1;
            if default.is_none() {
                default = Some(n);
            }
            add_patterns(&ds, n, &mut exact, &mut wildcard);
        }
        i += 1;
    }
    assert(hv.take(hosts.len() as int) =~= hv);
    CertIndex { exact, wildcard, default }
}

impl CertIndex {
    /// Whether the index serves no certificate.
    pub fn is_empty(&self) -> (r: bool)
        ensures
            r == (self.exact@.len() == 0 && self.wildcard@.len() == 0 && self.default is None),
    {
        self.exact.len() == 0 && self.wildcard.len() == 0 && self.default.is_none()
    }
}

/// A server name as it is compared: without surrounding spaces and
/// trailing dots, lowercased.
pub open spec fn sni_key(name: Seq<char>) -> Seq<char> {
    lower(strip_trailing(trim(name), '.'))
}

/// The certificate of the first exact name equal to `k`.
pub open spec fn first_exact(es: Seq<(Seq<char>, usize)>, k: Seq<char>) -> Option<usize>
    decreases es.len(),
{
    if es.len() == 0 {
        None
    } else if es[0].0 == k {
        Some(es[0].1)
    } else {
        first_exact(es.drop_first(), k)
    }
}

/// The certificate of the first suffix that `k` ends with.
pub open spec fn first_suffix(ws: Seq<(Seq<char>, usize)>, k: Seq<char>) -> Option<usize>
    decreases ws.len(),
{
    if ws.len() == 0 {
        None
    } else if ends_with(k, ws[0].0) {
        Some(ws[0].1)
    } else {
        first_suffix(ws.drop_first(), k)
    }
}

/// The certificate for a TLS server name: the first exact name equal to
/// it, else the first wildcard suffix it ends with, else the default;
/// none for a handshake without a server name.
pub open spec fn spec_select_cert(ix: CertIndexView, name: Option<Seq<char>>) -> Option<usize> {
    match name {
        None => None,
        Some(n) => match first_exact(ix.exact, sni_key(n)) {
            Some(c) => Some(c),
            None => match first_suffix(ix.wildcard, sni_key(n)) {
                Some(c) => Some(c),
                None => ix.default,
            },
        },
    }
}

proof fn lemma_first_exact_at(es: Seq<(Seq<char>, usize)>, k: Seq<char>, i: int)
    requires
        0 <= i < es.len(),
        es[i].0 == k,
        forall|j: int| 0 <= j < i ==> (#[trigger] es[j]).0 != k,
    ensures
        first_exact(es, k) == Some(es[i].1),
    decreases i,
{
    if i > 0 {
        let t = es.drop_first();
        assert forall|j: int| 0 <= j < i - 1 implies (#[trigger] t[j]).0 != k by {
            assert(t[j] == es[j + 1]);
        }
        lemma_first_exact_at(t, k, i - 1);
    }
}

proof fn lemma_first_exact_none(es: Seq<(Seq<char>, usize)>, k: Seq<char>)
    requires
        forall|j: int| 0 <= j < es.len() ==> (#[trigger] es[j]).0 != k,
    ensures
        first_exact(es, k) is None,
    decreases es.len(),
{
    if es.len() > 0 {
        let t = es.drop_first();
        assert forall|j: int| 0 <= j < t.len() implies (#[trigger] t[j]).0 != k by {
            assert(t[j] == es[j + 1]);
        }
        lemma_first_exact_none(t, k);
    }
}

proof fn lemma_first_suffix_at(ws: Seq<(Seq<char>, usize)>, k: Seq<char>, i: int)
    requires
        0 <= i < ws.len(),
        ends_with(k, ws[i].0),
        forall|j: int| 0 <= j < i ==> !ends_with(k, (#[trigger] ws[j]).0),
    ensures
        first_suffix(ws, k) == Some(ws[i].1),
    decreases i,
{
    if i > 0 {
        let t = ws.drop_first();
        assert forall|j: int| 0 <= j < i - 1 implies !ends_with(k, (#[trigger] t[j]).0) by {
            assert(t[j] == ws[j + 1]);
        }
        lemma_first_suffix_at(t, k, i - 1);
    }
}

proof fn lemma_first_suffix_none(ws: Seq<(Seq<char>, usize)>, k: Seq<char>)
    requires
        forall|j: int| 0 <= j < ws.len() ==> !ends_with(k, (#[trigger] ws[j]).0),
    ensures
        first_suffix(ws, k) is None,
    decreases ws.len(),
{
    if ws.len() > 0 {
        let t = ws.drop_first();
        assert forall|j: int| 0 <= j < t.len() implies !ends_with(k, (#[trigger] t[j]).0) by {
            assert(t[j] == ws[j + 1]);
        }
        lemma_first_suffix_none(t, k);
    }
}

/// An exact name wins: when the index names the server name exactly (its
/// first such entry at `i`), that entry's certificate is chosen, whatever
/// wildcard suffixes the name also ends with.
pub proof fn lemma_exact_name_wins(ix: CertIndexView, name: Seq<char>, i: int)
    requires
        0 <= i < ix.exact.len(),
        ix.exact[i].0 == sni_key(name),
        forall|j: int| 0 <= j < i ==> (#[trigger] ix.exact[j]).0 != sni_key(name),
    ensures
        spec_select_cert(ix, Some(name)) == Some(ix.exact[i].1),
{
    lemma_first_exact_at(ix.exact, sni_key(name), i);
}

/// A wildcard serves a name no exact entry names: the first suffix (at
/// `i`) that the server name ends with gives the certificate.
pub proof fn lemma_wildcard_when_no_exact(ix: CertIndexView, name: Seq<char>, i: int)
    requires
        forall|j: int| 0 <= j < ix.exact.len() ==> (#[trigger] ix.exact[j]).0 != sni_key(name),
        0 <= i < ix.wildcard.len(),
        ends_with(sni_key(name), ix.wildcard[i].0),
        forall|j: int| 0 <= j < i ==> !ends_with(sni_key(name), (#[trigger] ix.wildcard[j]).0),
    ensures
        spec_select_cert(ix, Some(name)) == Some(ix.wildcard[i].1),
{
    lemma_first_exact_none(ix.exact, sni_key(name));
    lemma_first_suffix_at(ix.wildcard, sni_key(name), i);
}

/// A name that no entry names or covers gets the default certificate.
pub proof fn lemma_default_otherwise(ix: CertIndexView, name: Seq<char>)
    requires
        forall|j: int| 0 <= j < ix.exact.len() ==> (#[trigger] ix.exact[j]).0 != sni_key(name),
        forall|j: int| 0 <= j < ix.wildcard.len() ==> !ends_with(sni_key(name), (#[trigger] ix.wildcard[j]).0),
    ensures
        spec_select_cert(ix, Some(name)) == ix.default,
{
    lemma_first_exact_none(ix.exact, sni_key(name));
    lemma_first_suffix_none(ix.wildcard, sni_key(name));
}

proof fn lemma_lower_char_keeps(c: char)
    ensures
        crate::text::is_ws(crate::text::lower_char(c)) == crate::text::is_ws(c),
        (crate::text::lower_char(c) == '.') == (c == '.'),
        crate::text::lower_char(crate::text::lower_char(c)) == crate::text::lower_char(c),
{
}

proof fn lemma_lower_trim_start(s: Seq<char>)
    ensures
        crate::text::trim_start(lower(s)) == lower(crate::text::trim_start(s)),
    decreases s.len(),
{
    if s.len() > 0 {
        lemma_lower_char_keeps(s[0]);
        assert(lower(s).drop_first() =~= lower(s.drop_first()));
        lemma_lower_trim_start(s.drop_first());
    }
}

proof fn lemma_lower_trim_end(s: Seq<char>)
    ensures
        crate::text::trim_end(lower(s)) == lower(crate::text::trim_end(s)),
    decreases s.len(),
{
    if s.len() > 0 {
        lemma_lower_char_keeps(s.last());
        assert(lower(s).drop_last() =~= lower(s.drop_last()));
        lemma_lower_trim_end(s.drop_last());
    }
}

proof fn lemma_lower_strip_dots(s: Seq<char>)
    ensures
        strip_trailing(lower(s), '.') == lower(strip_trailing(s, '.')),
    decreases s.len(),
{
    if s.len() > 0 {
        lemma_lower_char_keeps(s.last());
        assert(lower(s).drop_last() =~= lower(s.drop_last()));
        lemma_lower_strip_dots(s.drop_last());
    }
}

/// Server names are compared without regard to ASCII case: a name and its
/// lowercase form get the same certificate.
pub proof fn lemma_select_ignores_case(ix: CertIndexView, name: Seq<char>)
    ensures
        spec_select_cert(ix, Some(lower(name))) == spec_select_cert(ix, Some(name)),
{
    lemma_lower_trim_start(name);
    lemma_lower_trim_end(crate::text::trim_start(name));
    let t = trim(name);
    assert(trim(lower(name)) == lower(t));
    lemma_lower_strip_dots(t);
    let u = strip_trailing(t, '.');
    assert forall|i: int| 0 <= i < u.len() implies lower(lower(u))[i] == lower(u)[i] by {
        lemma_lower_char_keeps(u[i]);
    }
    assert(lower(lower(u)) =~= lower(u));
    assert(sni_key(lower(name)) == sni_key(name));
}

/// Trailing dots of a server name do not change its certificate.
pub proof fn lemma_select_ignores_trailing_dot(ix: CertIndexView, name: Seq<char>)
    requires
        name.len() > 0,
        !crate::text::is_ws(name[0]),
        !crate::text::is_ws(name.last()),
    ensures
        spec_select_cert(ix, Some(name.push('.'))) == spec_select_cert(ix, Some(name)),
{
    let d = name.push('.');
    assert(d[0] == name[0]);
    crate::text::lemma_trim_fixed(d);
    crate::text::lemma_trim_fixed(name);
    assert(d.drop_last() =~= name);
    assert(strip_trailing(d, '.') == strip_trailing(name, '.'));
}

/// Chooses the certificate for a TLS server name.
pub fn select_cert(index: &CertIndex, server_name: Option<&str>) -> (r: Option<usize>)
    ensures
        r == spec_select_cert(index@, match server_name {
            Some(n) => Some(n@),
            None => None,
        }),
{
    match server_name {
        Some(name) => select_named(index, name),
        None => None,
    }
}

fn select_named(index: &CertIndex, name: &str) -> (r: Option<usize>)
    ensures
        r == spec_select_cert(index@, Some(name@)),
{
    let key = lower_vec(&crate::policy::strip_trailing_dots(&trim_str(name)));
    let ghost es = named_view(index.exact@);
    let mut i: usize = 0;
    assert(es.subrange(0, es.len() as int) =~= es);
    while i < index.exact.len()
        invariant
            es == named_view(index.exact@),
            i <= index.exact.len(),
            key@ == sni_key(name@),
            first_exact(es, key@) == first_exact(es.subrange(i as int, es.len() as int), key@),
        decreases index.exact.len() - i,
    {
        let ghost rest = es.subrange(i as int, es.len() as int);
        assert(rest[0] == es[i as int]);
        assert(rest.drop_first() =~= es.subrange(i + 1, es.len() as int));
        if crate::text::eq(&chars_of(index.exact[i].0.as_str()), &key) {
            assert(first_exact(rest, key@) == Some(rest[0].1));
            assert(index@.exact == es);
            return Some(index.exact[i].1);
        }
        i += 1;
    }
    let ghost ws = named_view(index.wildcard@);
    let mut j: usize = 0;
    assert(ws.subrange(0, ws.len() as int) =~= ws);
    while j < index.wildcard.len()
        invariant
            ws == named_view(index.wildcard@),
            es == named_view(index.exact@),
            j <= index.wildcard.len(),
            key@ == sni_key(name@),
            first_exact(es, key@) is None,
            first_suffix(ws, key@) == first_suffix(ws.subrange(j as int, ws.len() as int), key@),
        decreases index.wildcard.len() - j,
    {
        let ghost rest = ws.subrange(j as int, ws.len() as int);
        assert(rest[0] == ws[j as int]);
        assert(rest.drop_first() =~= ws.subrange(j + 1, ws.len() as int));
        if ends_with_vec(&key, &chars_of(index.wildcard[j].0.as_str())) {
            assert(first_suffix(rest, key@) == Some(rest[0].1));
            assert(index@.wildcard == ws);
            return Some(index.wildcard[j].1);
        }
        j += 1;
    }
    index.default
}


// ---------------------------------------------------------------------------
// The server name of a client hello
// ---------------------------------------------------------------------------

/// What rustls's `Acceptor` reads from the first bytes of a connection:
/// the server name of a complete client hello (none when it names none or
/// the hello is not complete yet), or the text of the error it reports.
pub uninterp spec fn client_hello_server_name(b: Seq<u8>) -> Result<Option<Seq<char>>, Seq<char>>;

/// `rustls::server::Acceptor::read_tls` and `accept` on the bytes, then
/// the `server_name` of the accepted client hello: the contract ties the
/// result to the bytes through [`client_hello_server_name`] and leaves the
/// parsing to rustls. An incomplete hello and a hello without a server name
/// both give no name; a read or accept error gives its text.
#[verifier::external_body]
fn parse_client_hello(b: &[u8]) -> (r: Result<Option<String>, String>)
    ensures
        match r {
            Ok(Some(n)) => client_hello_server_name(b@) == Ok::<Option<Seq<char>>, Seq<char>>(Some(n@)),
            Ok(None) => client_hello_server_name(b@) == Ok::<Option<Seq<char>>, Seq<char>>(None),
            Err(e) => client_hello_server_name(b@) == Err::<Option<Seq<char>>, Seq<char>>(e@),
        },
{
    let mut acceptor = rustls::server::Acceptor::default();
    if let Err(err) = acceptor.read_tls(&mut std::io::Cursor::new(b)) {
        return Err(err.to_string());
    }
    match acceptor.accept() {
        Ok(Some(accepted)) => Ok(accepted.client_hello().server_name().map(|name| name.to_string())),
        Ok(None) => Ok(None),
        Err(err) => Err(format!("{err:?}")),
    }
}

/// The server name as the HTTPS proxy routes by it: lowercased; an error's
/// text is passed on.
pub open spec fn spec_sni_of(parsed: Result<Option<Seq<char>>, Seq<char>>) -> Result<Option<Seq<char>>, Seq<char>> {
    match parsed {
        Ok(Some(n)) => Ok(Some(lower(n))),
        Ok(None) => Ok(None),
        Err(e) => Err(e),
    }
}

/// Turns what the client hello parser read into the server name the HTTPS
/// proxy routes by.
pub fn sni_of_parsed(parsed: Result<Option<String>, String>) -> (r: Result<Option<String>, String>)
    ensures
        spec_sni_of(match parsed {
            Ok(Some(n)) => Ok(Some(n@)),
            Ok(None) => Ok(None),
            Err(e) => Err(e@),
        }) == match r {
            Ok(Some(n)) => Ok::<Option<Seq<char>>, Seq<char>>(Some(n@)),
            Ok(None) => Ok(None),
            Err(e) => Err(e@),
        },
{
    match parsed {
        Ok(Some(n)) => Ok(Some(string_of(&lower_vec(&chars_of(n.as_str()))))),
        Ok(None) => Ok(None),
        Err(e) => Err(e),
    }
}

/// The server name a TLS client asks for, lowercased, read from the first
/// bytes it sent: none when the hello names none or is not complete yet;
/// the parser's error text when the bytes are not a TLS client hello.
pub fn sni_from_client_hello(first_bytes: &[u8]) -> (r: Result<Option<String>, String>)
    ensures
        spec_sni_of(client_hello_server_name(first_bytes@)) == match r {
            Ok(Some(n)) => Ok::<Option<Seq<char>>, Seq<char>>(Some(n@)),
            Ok(None) => Ok(None),
            Err(e) => Err(e@),
        },
{
    sni_of_parsed(parse_client_hello(first_bytes))
}

} // verus!
