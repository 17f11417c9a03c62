//! The web manager's request handling logic: form parameters, sessions,
//! client and route forms, login, captcha pictures and dashboard counts.
use vstd::prelude::*;
use vstd::utf8::encode_utf8;
use crate::kv::{is_truthy, kv_get, kv_insert, kv_remove, KvView, SectionMap};
use crate::model::{ClientInfo, ClientInfoView, ClientRuntimeConfig, FlowCounter, Host, ServerConfig, Target, Tunnel, strings_of, strings_view};
use crate::text::{
    append, append_str, chars_of, dec, dec_exec, eq_ic, eq_str, eq_ignore_case, eq_ignore_case_str, lines,
    lines_exec, lower, lower_vec, owned, parse_u64, parse_uint, parse_usize, slice, starts_with,
    string_of, trim, trim_str, trimmed_nonempty, trimmed_nonempty_exec, upper, upper_vec, views,
};
use crate::http::{hex_lower, md5_hex, md5_of};

verus! {

broadcast use vstd::string::group_string_axioms;

// ---------------------------------------------------------------------------
// Form parameters
// ---------------------------------------------------------------------------

/// A parameter's value, empty when absent.
pub open spec fn spec_param(m: KvView, key: Seq<char>) -> Seq<char> {
    match kv_get(m, key) {
        Some(v) => v,
        None => Seq::empty(),
    }
}

/// The value of a form parameter, empty when absent.
pub fn param(params: &SectionMap, key: &str) -> (r: String)
    ensures
        r@ == spec_param(params@, key@),
{
    match params.get_str(key) {
        Some(v) => v,
        None => String::new(),
    }
}

/// A parameter is `1`, `true`, `yes` or `on` (ASCII case ignored).
pub open spec fn spec_param_bool(m: KvView, key: Seq<char>) -> bool {
    is_truthy(lower(spec_param(m, key)))
}

/// Whether a form parameter reads as true.
pub fn param_bool(params: &SectionMap, key: &str) -> (r: bool)
    ensures
        r == spec_param_bool(params@, key@),
{
    let v = lower_vec(&chars_of(param(params, key).as_str()));
    crate::text::eq_str(&v, "1") || crate::text::eq_str(&v, "true") || crate::text::eq_str(&v, "yes")
        || crate::text::eq_str(&v, "on")
}

/// The first non-empty value among the keys, else empty.
pub open spec fn spec_param_any(m: KvView, keys: Seq<Seq<char>>) -> Seq<char>
    decreases keys.len(),
{
    if keys.len() == 0 {
        Seq::empty()
    } else if spec_param(m, keys[0]).len() > 0 {
        spec_param(m, keys[0])
    } else {
        spec_param_any(m, keys.drop_first())
    }
}

pub open spec fn key_views(keys: Seq<&str>) -> Seq<Seq<char>> {
    keys.map_values(|k: &str| k@)
}

/// The first non-empty parameter among `keys`.
pub fn param_any(params: &SectionMap, keys: &[&str]) -> (r: String)
    ensures
        r@ == spec_param_any(params@, key_views(keys@)),
{
    let ghost ks = key_views(keys@);
    let mut i: usize = 0;
    assert(ks.subrange(0, ks.len() as int) =~= ks);
    while i < keys.len()
        invariant
            ks == key_views(keys@),
            i <= keys@.len(),
            spec_param_any(params@, ks) == spec_param_any(params@, ks.subrange(i as int, ks.len() as int)),
        decreases keys@.len() - i,
    {
        let ghost rest = ks.subrange(i as int, ks.len() as int);
        assert(rest[0] == keys@[i as int]@);
        assert(rest.drop_first() =~= ks.subrange(i + 1, ks.len() as int));
        let v = param(params, keys[i]);
        if v.as_str().is_empty() == false {
            return v;
        }
        i += 1;
    }
    String::new()
}

/// Some key reads as true.
pub open spec fn spec_param_bool_any(m: KvView, keys: Seq<Seq<char>>) -> bool {
    exists|i: int| 0 <= i < keys.len() && spec_param_bool(m, #[trigger] keys[i])
}

/// Whether any of `keys` reads as true.
pub fn param_bool_any(params: &SectionMap, keys: &[&str]) -> (r: bool)
    ensures
        r == spec_param_bool_any(params@, key_views(keys@)),
{
    let ghost ks = key_views(keys@);
    let mut i: usize = 0;
    while i < keys.len()
        invariant
            ks == key_views(keys@),
            i <= keys@.len(),
            forall|j: int| 0 <= j < i ==> !spec_param_bool(params@, #[trigger] ks[j]),
        decreases keys@.len() - i,
    {
        if param_bool(params, keys[i]) {
            assert(spec_param_bool(params@, ks[i as int]));
            return true;
        }
        i += 1;
    }
    false
}

/// A number parameter, 0 when it does not parse.
pub open spec fn spec_param_uint(m: KvView, key: Seq<char>, max: nat) -> nat {
    match parse_uint(spec_param(m, key), max) {
        Some(n) => n,
        None => 0,
    }
}

/// A number parameter as `str::parse::<u64>` reads it, 0 when it does not
/// parse.
pub fn param_u64(params: &SectionMap, key: &str) -> (r: u64)
    ensures
        r == spec_param_uint(params@, key@, u64::MAX as nat),
{
    match parse_u64(&chars_of(param(params, key).as_str())) {
        Some(n) => n,
        None => 0,
    }
}

fn param_usize(params: &SectionMap, key: &str) -> (r: usize)
    ensures
        r == spec_param_uint(params@, key@, usize::MAX as nat),
{
    match parse_usize(&chars_of(param(params, key).as_str())) {
        Some(n) => n,
        None => 0,
    }
}

/// The non-blank lines of a parameter, trimmed.
pub open spec fn param_lines(v: Seq<char>) -> Seq<Seq<char>> {
    trimmed_nonempty(lines(v))
}

fn lines_of(v: &str) -> (r: Vec<String>)
    ensures
        strings_view(r@) == param_lines(v@),
{
    strings_of(&trimmed_nonempty_exec(&lines_exec(&chars_of(v))))
}

// ---------------------------------------------------------------------------
// Sessions
// ---------------------------------------------------------------------------

/// A signed-in user of the web manager.
#[derive(Debug)]
pub struct WebSession {
    pub is_admin: bool,
    pub client_id: Option<u64>,
    pub username: String,
}

impl WebSession {
    /// The administrator's session.
    pub fn admin(username: &str) -> (r: Self)
        ensures
            r.is_admin,
            r.client_id is None,
            r.username@ == username@,
    {
        WebSession { is_admin: true, client_id: None, username: owned(username) }
    }

    /// The session of a client's user.
    pub fn client(client_id: u64, username: &str) -> (r: Self)
        ensures
            !r.is_admin,
            r.client_id == Some(client_id),
            r.username@ == username@,
    {
        WebSession { is_admin: false, client_id: Some(client_id), username: owned(username) }
    }
}

/// The client a listing is restricted to: none for the administrator, the
/// session's own client otherwise.
pub fn scope_client_id(session: &WebSession) -> (r: Option<u64>)
    ensures
        r == (if session.is_admin {
            None
        } else {
            session.client_id
        }),
{
    if session.is_admin {
        None
    } else {
        session.client_id
    }
}

/// The client id a page works on, as text: the requested one (or `0`) for
/// the administrator, the session's own (or `0`) otherwise.
pub fn scoped_client_id(session: &WebSession, requested: Option<String>) -> (r: String)
    ensures
        r@ == (if session.is_admin {
            match requested {
                Some(q) => q@,
                None => "0"@,
            }
        } else {
            match session.client_id {
                Some(id) => dec(id as nat),
                None => "0"@,
            }
        }),
{
    if session.is_admin {
        match requested {
            Some(q) => q,
            None => owned("0"),
        }
    } else {
        match session.client_id {
            Some(id) => string_of(&dec_exec(id)),
            None => {
                proof {
                    reveal_strlit("0");
                }
                let r = owned("0");
                r
            },
        }
    }
}

/// A client user's parameters always name the user's own client.
pub fn scoped_params(session: &WebSession, params: SectionMap) -> (r: SectionMap)
    ensures
        r@ == (if !session.is_admin && session.client_id is Some {
            crate::kv::kv_insert(params@, "client_id"@, dec(session.client_id.unwrap() as nat))
        } else {
            params@
        }),
{
    let mut params = params;
    if !session.is_admin {
        match session.client_id {
            Some(id) => {
                params.insert(&chars_of("client_id"), &dec_exec(id));
            },
            None => {},
        }
    }
    params
}

/// `selected` when the option is the current value (ASCII case ignored).
pub fn selected(current: &str, expected: &str) -> (r: &'static str)
    ensures
        r@ == (if eq_ic(current@, expected@) {
            "selected"@
        } else {
            ""@
        }),
{
    if eq_ignore_case_str(&chars_of(current), expected) {
        "selected"
    } else {
        ""
    }
}

/// The HTML escape of a character: `&`, `<`, `>`, `"` and `'`.
pub open spec fn escape_char(c: char) -> Seq<char> {
    if c == '&' {
        "&amp;"@
    } else if c == '<' {
        "&lt;"@
    } else if c == '>' {
        "&gt;"@
    } else if c == '\u{22}' {
        "&quot;"@
    } else if c == '\u{27}' {
        "&#39;"@
    } else {
        seq![c]
    }
}

/// Every character escaped, in order.
pub open spec fn spec_html_escape(s: Seq<char>) -> Seq<char>
    decreases s.len(),
{
    if s.len() == 0 {
        Seq::empty()
    } else {
        spec_html_escape(s.drop_last()) + escape_char(s.last())
    }
}

/// Escapes text for an HTML attribute or element.
pub fn html_escape(s: &str) -> (r: String)
    ensures
        r@ == spec_html_escape(s@),
{
    let c = chars_of(s);
    let mut out: Vec<char> = Vec::new();
    let mut i: usize = 0;
    while i < c.len()
        invariant
            i <= c.len(),
            c@ == s@,
            out@ == spec_html_escape(c@.take(i as int)),
        decreases c.len() - i,
    {
        assert(c@.take(i + 1).drop_last() =~= c@.take(i as int));
        assert(c@.take(i + 1).last() == c@[i as int]);
        let ch = c[i];
        if ch == '&' {
            append_str(&mut out, "&amp;");
        } else if ch == '<' {
            append_str(&mut out, "&lt;");
        } else if ch == '>' {
            append_str(&mut out, "&gt;");
        } else if ch == '\u{22}' {
            append_str(&mut out, "&quot;");
        } else if ch == '\u{27}' {
            append_str(&mut out, "&#39;");
        } else {
            out.push(ch);
        }
        i += 1;
    }
    assert(c@.take(c.len() as int) =~= c@);
    string_of(&out)
}

// ---------------------------------------------------------------------------
// Forms
// ---------------------------------------------------------------------------

/// A client's settings after the client form of the web manager: the
/// form's values, keeping the key, status and web login, and keeping the
/// config-connection flag unless the form names it.
pub open spec fn spec_client_form(old: ClientInfoView, m: KvView) -> ClientInfoView {
    ClientInfoView {
        remark: spec_param(m, "remark"@),
        basic_username: spec_param(m, "u"@),
        basic_password: spec_param(m, "p"@),
        compress: spec_param_bool(m, "compress"@),
        crypt: spec_param_bool(m, "crypt"@),
        rate_limit_kb: spec_param_uint(m, "rate_limit"@, u64::MAX as nat) as u64,
        flow_limit_mb: spec_param_uint(m, "flow_limit"@, u64::MAX as nat) as u64,
        max_conn: spec_param_uint(m, "max_conn"@, usize::MAX as nat) as usize,
        max_tunnel_num: spec_param_uint(m, "max_tunnel"@, usize::MAX as nat) as usize,
        ip_white: spec_param_bool(m, "ipwhite"@),
        ip_white_pass: spec_param_any(m, seq!["ipwhitepass"@, "ip_white_pass"@]),
        ip_white_list: param_lines(spec_param_any(m, seq!["ipwhitelist"@, "ip_white_list"@])),
        black_ip_list: param_lines(spec_param_any(m, seq!["blackiplist"@, "black_ip_list"@])),
        config_conn_allow: match kv_get(m, "config_conn_allow"@) {
            Some(v) => is_truthy(lower(v)),
            None => old.config_conn_allow,
        },
        ..old
    }
}

/// Applies the client form of the web manager to a client's settings.
pub fn apply_client_form(info: &mut ClientInfo, params: &SectionMap)
    ensures
        final(info)@ == spec_client_form(old(info)@, params@),
{
    info.remark = param(params, "remark");
    info.basic_username = param(params, "u");
    info.basic_password = param(params, "p");
    info.compress = param_bool(params, "compress");
    info.crypt = param_bool(params, "crypt");
    info.rate_limit_kb = param_u64(params, "rate_limit");
    info.flow_limit_mb = param_u64(params, "flow_limit");
    info.max_conn = param_usize(params, "max_conn");
    info.max_tunnel_num = param_usize(params, "max_tunnel");
    info.ip_white = param_bool(params, "ipwhite");
    let pass_keys = ["ipwhitepass", "ip_white_pass"];
    let list_keys = ["ipwhitelist", "ip_white_list"];
    let black_keys = ["blackiplist", "black_ip_list"];
    assert(key_views(pass_keys@) =~= seq!["ipwhitepass"@, "ip_white_pass"@]);
    assert(key_views(list_keys@) =~= seq!["ipwhitelist"@, "ip_white_list"@]);
    assert(key_views(black_keys@) =~= seq!["blackiplist"@, "black_ip_list"@]);
    info.ip_white_pass = param_any(params, &pass_keys);
    info.ip_white_list = lines_of(param_any(params, &list_keys).as_str());
    info.black_ip_list = lines_of(param_any(params, &black_keys).as_str());
    match params.get_str("config_conn_allow") {
        Some(v) => {
            let l = lower_vec(&chars_of(v.as_str()));
            info.config_conn_allow = crate::text::eq_str(&l, "1") || crate::text::eq_str(&l, "true")
                || crate::text::eq_str(&l, "yes") || crate::text::eq_str(&l, "on");
        },
        None => {},
    }
}

/// A route location as entered: `/` when blank, with `/` put in front.
pub open spec fn form_location(v: Seq<char>) -> Seq<char> {
    if v.len() == 0 {
        "/"@
    } else if v[0] == '/' {
        v
    } else {
        seq!['/'] + v
    }
}

/// A host route after the host form `m` was applied to it: every field the
/// form holds is taken from it; the id, key, stored and closed flags stay.
pub open spec fn spec_host_form(h: crate::model::HostView, m: KvView) -> crate::model::HostView {
    crate::model::HostView {
        host: spec_param(m, "host"@),
        target: crate::model::TargetView {
            target_str: spec_param(m, "target"@),
            local_proxy: spec_param_bool(m, "local_proxy"@),
        },
        header_change: spec_param(m, "header"@),
        host_change: spec_param(m, "hostchange"@),
        remark: spec_param(m, "remark"@),
        cert_file_path: spec_param_any(m, seq!["cert_file_path"@, "certFilePath"@]),
        key_file_path: spec_param_any(m, seq!["key_file_path"@, "keyFilePath"@]),
        auto_https: spec_param_bool_any(m, seq!["auto_https"@, "AutoHttps"@]),
        location: form_location(spec_param(m, "location"@)),
        scheme: if spec_param(m, "scheme"@).len() == 0 {
            "all"@
        } else {
            spec_param(m, "scheme"@)
        },
        ..h
    }
}

/// Fills a host route from the host form of the web manager.
pub fn fill_host_from_params(host: &mut Host, params: &SectionMap)
    ensures
        final(host)@ == spec_host_form(old(host)@, params@),
        final(host).host@ == spec_param(params@, "host"@),
        final(host).target.target_str@ == spec_param(params@, "target"@),
        final(host).target.local_proxy == spec_param_bool(params@, "local_proxy"@),
        final(host).header_change@ == spec_param(params@, "header"@),
        final(host).host_change@ == spec_param(params@, "hostchange"@),
        final(host).remark@ == spec_param(params@, "remark"@),
        final(host).cert_file_path@ == spec_param_any(params@, seq!["cert_file_path"@, "certFilePath"@]),
        final(host).key_file_path@ == spec_param_any(params@, seq!["key_file_path"@, "keyFilePath"@]),
        final(host).auto_https == spec_param_bool_any(params@, seq!["auto_https"@, "AutoHttps"@]),
        final(host).location@ == form_location(spec_param(params@, "location"@)),
        final(host).scheme@ == (if spec_param(params@, "scheme"@).len() == 0 {
            "all"@
        } else {
            spec_param(params@, "scheme"@)
        }),
        final(host).id == old(host).id,
        final(host).client_vkey@ == old(host).client_vkey@,
        final(host).no_store == old(host).no_store,
        final(host).is_close == old(host).is_close,
{
    host.host = param(params, "host");
    host.target.target_str = param(params, "target");
    host.target.local_proxy = param_bool(params, "local_proxy");
    host.header_change = param(params, "header");
    host.host_change = param(params, "hostchange");
    host.remark = param(params, "remark");
    let cert_keys = ["cert_file_path", "certFilePath"];
    let key_keys = ["key_file_path", "keyFilePath"];
    let https_keys = ["auto_https", "AutoHttps"];
    assert(key_views(cert_keys@) =~= seq!["cert_file_path"@, "certFilePath"@]);
    assert(key_views(key_keys@) =~= seq!["key_file_path"@, "keyFilePath"@]);
    assert(key_views(https_keys@) =~= seq!["auto_https"@, "AutoHttps"@]);
    host.cert_file_path = param_any(params, &cert_keys);
    host.key_file_path = param_any(params, &key_keys);
    host.auto_https = param_bool_any(params, &https_keys);
    let location = chars_of(param(params, "location").as_str());
    host.location = if location.len() == 0 {
        owned("/")
    } else if location[0] == '/' {
        string_of(&location)
    } else {
        let mut l: Vec<char> = Vec::new();
        l.push('/');
        append(&mut l, &location);
        assert(l@ =~= seq!['/'] + location@);
        string_of(&l)
    };
    let scheme = param(params, "scheme");
    host.scheme = if scheme.as_str().is_empty() {
        owned("all")
    } else {
        scheme
    };
}

/// The key of the client with the given id, the first in table order.
pub open spec fn spec_client_vkey_by_id(clients: Seq<ClientRuntimeConfig>, id: u64) -> Option<Seq<char>>
    decreases clients.len(),
{
    if clients.len() == 0 {
        None
    } else if clients[0].id == id {
        Some(clients[0].common.vkey@)
    } else {
        spec_client_vkey_by_id(clients.drop_first(), id)
    }
}

/// The verification key of the client with id `id`.
pub fn client_vkey_by_id(clients: &Vec<ClientRuntimeConfig>, id: u64) -> (r: Option<String>)
    ensures
        match r {
            Some(k) => spec_client_vkey_by_id(clients@, id) == Some(k@),
            None => spec_client_vkey_by_id(clients@, id) is None,
        },
{
    let mut i: usize = 0;
    assert(clients@.subrange(0, clients@.len() as int) =~= clients@);
    while i < clients.len()
        invariant
            i <= clients.len(),
            spec_client_vkey_by_id(clients@, id) == spec_client_vkey_by_id(
                clients@.subrange(i as int, clients@.len() as int),
                id,
            ),
        decreases clients.len() - i,
    {
        let ghost rest = clients@.subrange(i as int, clients@.len() as int);
        assert(rest[0] == clients@[i as int]);
        assert(rest.drop_first() =~= clients@.subrange(i + 1, clients@.len() as int));
        if clients[i].id == id {
            return Some(clients[i].common.vkey.clone());
        }
        i += 1;
    }
    None
}

// ---------------------------------------------------------------------------
// Login
// ---------------------------------------------------------------------------

/// A client's user may sign in: the client is enabled and shown, and the
/// credentials are its web login, or `user` with the client key when it
/// has no web login.
pub open spec fn client_login_ok(c: ClientRuntimeConfig, username: Seq<char>, password: Seq<char>) -> bool {
    let info = c.common.client;
    &&& info.status
    &&& !c.no_display
    &&& ((info.web_username@.len() == 0 && info.web_password@.len() == 0 && username == "user"@
        && password == c.common.vkey@) || (info.web_username@.len() > 0 && info.web_username@
        == username && info.web_password@ == password))
}

/// The first client whose user may sign in with the credentials.
pub open spec fn login_client(clients: Seq<ClientRuntimeConfig>, username: Seq<char>, password: Seq<char>) -> Option<u64>
    decreases clients.len(),
{
    if clients.len() == 0 {
        None
    } else if client_login_ok(clients[0], username, password) {
        Some(clients[0].id)
    } else {
        login_client(clients.drop_first(), username, password)
    }
}

fn client_login_ok_exec(c: &ClientRuntimeConfig, username: &str, password: &str) -> (r: bool)
    ensures
        r == client_login_ok(*c, username@, password@),
{
    let info = &c.common.client;
    if !info.status || c.no_display {
        return false;
    }
    let u = chars_of(username);
    let p = chars_of(password);
    let wu = chars_of(info.web_username.as_str());
    let wp = chars_of(info.web_password.as_str());
    let default_login = wu.len() == 0 && wp.len() == 0 && crate::text::eq_str(&u, "user")
        && crate::text::eq(&p, &chars_of(c.common.vkey.as_str()));
    let explicit_login = wu.len() > 0 && crate::text::eq(&wu, &u) && crate::text::eq(&wp, &p);
    default_login || explicit_login
}

/// Signs a user in: the administrator by the server's web login, else
/// (where user login is allowed) the first client whose login matches.
pub fn authenticate_web_user(server: &ServerConfig, clients: &Vec<ClientRuntimeConfig>, username: &str, password: &str) -> (r: Option<WebSession>)
    ensures
        username@ == server.web_username@ && password@ == server.web_password@ ==> (r matches Some(s)
            && s.is_admin && s.username@ == username@),
        !(username@ == server.web_username@ && password@ == server.web_password@) ==> match r {
            Some(s) => server.allow_user_login && !s.is_admin && s.username@ == username@
                && login_client(clients@, username@, password@) == s.client_id,
            None => !server.allow_user_login || login_client(clients@, username@, password@) is None,
        },
{
    if crate::text::eq(&chars_of(username), &chars_of(server.web_username.as_str())) && crate::text::eq(
        &chars_of(password),
        &chars_of(server.web_password.as_str()),
    ) {
        return Some(WebSession::admin(username));
    }
    if !server.allow_user_login {
        return None;
    }
    let mut i: usize = 0;
    assert(clients@.subrange(0, clients@.len() as int) =~= clients@);
    while i < clients.len()
        invariant
            i <= clients.len(),
            !(username@ == server.web_username@ && password@ == server.web_password@),
            server.allow_user_login,
            login_client(clients@, username@, password@) == login_client(
                clients@.subrange(i as int, clients@.len() as int),
                username@,
                password@,
            ),
        decreases clients.len() - i,
    {
        let ghost rest = clients@.subrange(i as int, clients@.len() as int);
        assert(rest[0] == clients@[i as int]);
        assert(rest.drop_first() =~= clients@.subrange(i + 1, clients@.len() as int));
        if client_login_ok_exec(&clients[i], username, password) {
            return Some(WebSession::client(clients[i].id, username));
        }
        i += 1;
    }
    None
}

// ---------------------------------------------------------------------------
// Captcha
// ---------------------------------------------------------------------------

/// The code a captcha token shows: the first five characters of the
/// uppercased MD5 of the token.
pub open spec fn spec_captcha_code(token: Seq<char>) -> Seq<char> {
    upper(hex_lower(md5_of(encode_utf8(token)))).take(5)
}

/// The code shown for a captcha token.
pub fn captcha_code_from_token(token: &str) -> (r: String)
    ensures
        r@ == spec_captcha_code(token@),
{
    let d = upper_vec(&chars_of(md5_hex(token).as_str()));
    string_of(&slice(&d, 0, 5))
}

/// Whether a typed captcha answer matches the code that was issued: the
/// answer is taken without surrounding whitespace, must not be empty, and
/// ASCII letters compare without regard to case.
pub open spec fn spec_captcha_accepts(code: Seq<char>, answer: Seq<char>) -> bool {
    trim(answer).len() > 0 && eq_ic(code, trim(answer))
}

/// Checks a typed captcha answer against the issued code.
pub fn captcha_answer_accepted(code: &str, answer: &str) -> (r: bool)
    ensures
        r == spec_captcha_accepts(code@, answer@),
{
    let typed = trim_str(answer);
    if typed.len() == 0 {
        return false;
    }
    eq_ignore_case(&chars_of(code), &typed)
}

/// The next byte of a seed, or 0 once the seed is used up.
pub fn next_seed(seed: &[u8], pos: &mut usize) -> (r: u32)
    ensures
        *old(pos) < seed@.len() ==> r == seed@[*old(pos) as int] && *final(pos) == *old(pos) + 1,
        *old(pos) >= seed@.len() ==> r == 0 && *final(pos) == *old(pos),
{
    if *pos < seed.len() {
        let b = seed[*pos];
        *pos = *pos + 1;
        b as u32
    } else {
        0
    }
}

/// The seed bytes of a captcha picture: the MD5 hex text of the code.
pub open spec fn captcha_seed(code: Seq<char>) -> Seq<u8> {
    encode_utf8(hex_lower(md5_of(encode_utf8(code))))
}

pub open spec fn seed_at(s: Seq<u8>, k: int) -> nat {
    if 0 <= k < s.len() {
        s[k] as nat
    } else {
        0
    }
}

/// The `i`th noise line of a captcha picture.
pub open spec fn noise_line(s: Seq<u8>, i: int) -> Seq<char> {
    "<line x1=\""@ + dec(seed_at(s, 4 * i) % 140) + "\" y1=\""@ + dec(seed_at(s, 4 * i + 1) % 44)
        + "\" x2=\""@ + dec(seed_at(s, 4 * i + 2) % 140) + "\" y2=\""@ + dec(seed_at(s, 4 * i + 3) % 44)
        + "\" stroke=\"#c8c8c8\" stroke-width=\"1\" />"@
}

pub open spec fn noise_lines(s: Seq<u8>, n: nat) -> Seq<char>
    decreases n,
{
    if n == 0 {
        Seq::empty()
    } else {
        noise_lines(s, (n - 1) as nat) + noise_line(s, n - 1)
    }
}

pub open spec fn svg_head() -> Seq<char> {
    "<svg xmlns=\"http://www.w3.org/2000/svg\" width=\"140\" height=\"44\" viewBox=\"0 0 140 44\"><rect x=\"0\" y=\"0\" width=\"140\" height=\"44\" rx=\"4\" fill=\"#f8fafc\" stroke=\"#d6d8de\"/>"@
}

pub open spec fn svg_text_open() -> Seq<char> {
    "<text x=\"50%\" y=\"58%\" dominant-baseline=\"middle\" text-anchor=\"middle\" font-family=\"Arial, Helvetica, sans-serif\" font-size=\"24\" font-weight=\"700\" fill=\"#1f2937\" letter-spacing=\"4\">"@
}

/// The SVG picture of a captcha code: five grey noise lines placed by the
/// code's digest, and the code.
pub open spec fn spec_captcha_svg(code: Seq<char>) -> Seq<char> {
    svg_head() + noise_lines(captcha_seed(code), 5) + svg_text_open() + code + "</text></svg>"@
}

pub open spec fn min_nat(a: int, b: int) -> int {
    if a < b {
        a
    } else {
        b
    }
}

fn take_seed(seed: &[u8], pos: &mut usize, modulus: u32, Ghost(k): Ghost<int>) -> (r: u32)
    requires
        modulus > 0,
        k >= 0,
        *old(pos) == min_nat(k, seed@.len() as int),
    ensures
        r == seed_at(seed@, k) % (modulus as nat),
        *final(pos) == min_nat(k + 1, seed@.len() as int),
{
    next_seed(seed, pos) % modulus
}

fn noise_line_exec(seed: &[u8], pos: &mut usize, Ghost(i): Ghost<int>) -> (r: Vec<char>)
    requires
        i >= 0,
        *old(pos) == min_nat(4 * i, seed@.len() as int),
    ensures
        r@ == noise_line(seed@, i),
        *final(pos) == min_nat(4 * i + 4, seed@.len() as int),
{
    let x1 = take_seed(seed, pos, 140, Ghost(4 * i));
    let y1 = take_seed(seed, pos, 44, Ghost(4 * i + 1));
    let x2 = take_seed(seed, pos, 140, Ghost(4 * i + 2));
    let y2 = take_seed(seed, pos, 44, Ghost(4 * i + 3));
    let mut line = chars_of("<line x1=\"");
    append(&mut line, &dec_exec(x1 as u64));
    append_str(&mut line, "\" y1=\"");
    append(&mut line, &dec_exec(y1 as u64));
    append_str(&mut line, "\" x2=\"");
    append(&mut line, &dec_exec(x2 as u64));
    append_str(&mut line, "\" y2=\"");
    append(&mut line, &dec_exec(y2 as u64));
    append_str(&mut line, "\" stroke=\"#c8c8c8\" stroke-width=\"1\" />");
    line
}

/// Draws the captcha picture of a code.
pub fn render_captcha_svg(code: &str) -> (r: String)
    ensures
        r@ == spec_captcha_svg(code@),
{
    let digest = md5_hex(code);
    let seed = digest.as_str().as_bytes();
    let mut pos: usize = 0;
    let mut noise: Vec<char> = Vec::new();
    let mut i: usize = 0;
    while i < 5
        invariant
            i <= 5,
            pos == min_nat(4 * i, seed@.len() as int),
            noise@ == noise_lines(seed@, i as nat),
        decreases 5 - i,
    {
        let line = noise_line_exec(seed, &mut pos, Ghost(i as int));
        append(&mut noise, &line);
        i += 1;
    }
    let mut out = chars_of("<svg xmlns=\"http://www.w3.org/2000/svg\" width=\"140\" height=\"44\" viewBox=\"0 0 140 44\"><rect x=\"0\" y=\"0\" width=\"140\" height=\"44\" rx=\"4\" fill=\"#f8fafc\" stroke=\"#d6d8de\"/>");
    append(&mut out, &noise);
    append_str(&mut out, "<text x=\"50%\" y=\"58%\" dominant-baseline=\"middle\" text-anchor=\"middle\" font-family=\"Arial, Helvetica, sans-serif\" font-size=\"24\" font-weight=\"700\" fill=\"#1f2937\" letter-spacing=\"4\">");
    append_str(&mut out, code);
    append_str(&mut out, "</text></svg>");
    string_of(&out)
}

// ---------------------------------------------------------------------------
// Command line
// ---------------------------------------------------------------------------

/// `--name=value` or `--name value`: the value of the first argument that
/// names `name`.
pub open spec fn spec_arg_value(args: Seq<Seq<char>>, name: Seq<char>) -> Option<Seq<char>>
    decreases args.len(),
{
    if args.len() == 0 {
        None
    } else {
        let a = args[0];
        let prefix = name + seq!['='];
        if starts_with(a, prefix) {
            Some(a.subrange(prefix.len() as int, a.len() as int))
        } else if a == name && args.len() > 1 {
            Some(args[1])
        } else {
            spec_arg_value(args.drop_first(), name)
        }
    }
}

/// The value given to a command line option.
pub fn arg_value(args: &Vec<String>, name: &str) -> (r: Option<String>)
    ensures
        match r {
            Some(v) => spec_arg_value(strings_view(args@), name@) == Some(v@),
            None => spec_arg_value(strings_view(args@), name@) is None,
        },
{
    let ghost all = strings_view(args@);
    let mut prefix = chars_of(name);
    prefix.push('=');
    let nc = chars_of(name);
    let mut i: usize = 0;
    assert(all.subrange(0, all.len() as int) =~= all);
    while i < args.len()
        invariant
            all == strings_view(args@),
            prefix@ == name@ + seq!['='],
            nc@ == name@,
            i <= args.len(),
            spec_arg_value(all, name@) == spec_arg_value(all.subrange(i as int, all.len() as int), name@),
        decreases args.len() - i,
    {
        let ghost rest = all.subrange(i as int, all.len() as int);
        assert(rest[0] == args@[i as int]@);
        assert(rest.drop_first() =~= all.subrange(i + 1, all.len() as int));
        let a = chars_of(args[i].as_str());
        if crate::text::starts_with_vec(&a, &prefix) {
            return Some(string_of(&slice(&a, prefix.len(), a.len())));
        }
        if crate::text::eq(&a, &nc) && i + 1 < args.len() {
            assert(rest[1] == args@[i + 1]@);
            return Some(args[i + 1].clone());
        }
        i += 1;
    }
    None
}

// ---------------------------------------------------------------------------
// Dashboard
// ---------------------------------------------------------------------------

/// The dashboard's counts over the clients in scope.
#[derive(PartialEq, Eq, Structural, Clone, Copy, Debug)]
pub struct DashboardCounts {
    pub client_count: u64,
    pub client_online_count: u64,
    pub host_count: u64,
    pub tunnel_count: u64,
    pub tcp_count: u64,
    pub udp_count: u64,
    pub socks5_count: u64,
    pub http_proxy_count: u64,
    pub secret_count: u64,
    pub p2p_count: u64,
    pub inlet_flow_count: u64,
    pub export_flow_count: u64,
}

/// The client is in the dashboard's scope: every client, or the one asked
/// for.
pub open spec fn in_scope(c: ClientRuntimeConfig, scope: Option<u64>) -> bool {
    match scope {
        Some(id) => c.id == id,
        None => true,
    }
}

/// Tunnels whose mode is `m` (ASCII case ignored).
pub open spec fn mode_count(ts: Seq<Tunnel>, m: Seq<char>) -> nat
    decreases ts.len(),
{
    if ts.len() == 0 {
        0
    } else {
        mode_count(ts.drop_last(), m) + if eq_ic(ts.last().mode@, m) {
            1nat
        } else {
            0nat
        }
    }
}

/// The sum of `f` over the first `n` clients in scope.
pub open spec fn scoped_total(
    cs: Seq<ClientRuntimeConfig>,
    fs: Seq<FlowCounter>,
    on: Seq<bool>,
    scope: Option<u64>,
    f: spec_fn(ClientRuntimeConfig, FlowCounter, bool) -> nat,
    n: nat,
) -> nat
    decreases n,
{
    if n == 0 {
        0
    } else {
        let k = n - 1;
        scoped_total(cs, fs, on, scope, f, k as nat) + if in_scope(cs[k], scope) {
            f(cs[k], fs[k], on[k])
        } else {
            0nat
        }
    }
}

/// A count, saturated at `u64::MAX`.
pub open spec fn capped(n: nat) -> u64 {
    if n > u64::MAX {
        u64::MAX
    } else {
        n as u64
    }
}

/// The dashboard count of `f` over every client in scope.
pub open spec fn dash(
    cs: Seq<ClientRuntimeConfig>,
    fs: Seq<FlowCounter>,
    on: Seq<bool>,
    scope: Option<u64>,
    f: spec_fn(ClientRuntimeConfig, FlowCounter, bool) -> nat,
) -> u64 {
    capped(scoped_total(cs, fs, on, scope, f, cs.len()))
}

fn sat(a: u64, b: u64) -> (r: u64)
    ensures
        r == crate::relay::sat_add(a, b),
{
    a.saturating_add(b)
}

proof fn lemma_capped_step(x: nat, y: nat)
    ensures
        crate::relay::sat_add(capped(x), capped(y)) == capped(x + y),
{
}

fn count_mode(ts: &Vec<Tunnel>, m: &str) -> (r: u64)
    ensures
        r == capped(mode_count(ts@, m@)),
{
    let mut n: u64 = 0;
    let mut i: usize = 0;
    while i < ts.len()
        invariant
            i <= ts.len(),
            n == capped(mode_count(ts@.take(i as int), m@)),
        decreases ts.len() - i,
    {
        assert(ts@.take(i + 1).drop_last() =~= ts@.take(i as int));
        assert(ts@.take(i + 1).last() == ts@[i as int]);
        let one: u64 = if eq_ignore_case_str(&chars_of(ts[i].mode.as_str()), m) {
            1
        } else {
            0
        };
        proof {
            lemma_capped_step(mode_count(ts@.take(i as int), m@), one as nat);
        }
        n = sat(n, one);
        i += 1;
    }
    assert(ts@.take(ts.len() as int) =~= ts@);
    n
}

/// The dashboard counts: clients, online clients, routes, tunnels by mode
/// and traffic, over the clients in scope; `flows` and `online` hold each
/// client's traffic counters and whether it is connected.
pub fn dashboard_counts(clients: &Vec<ClientRuntimeConfig>, flows: &Vec<FlowCounter>, online: &Vec<bool>, scope: Option<u64>) -> (r: DashboardCounts)
    requires
        flows@.len() == clients@.len(),
        online@.len() == clients@.len(),
    ensures
        r.client_count == dash(clients@, flows@, online@, scope, |c: ClientRuntimeConfig, f: FlowCounter, o: bool| 1nat),
        r.client_online_count == dash(clients@, flows@, online@, scope, |c: ClientRuntimeConfig, f: FlowCounter, o: bool| if o { 1nat } else { 0nat }),
        r.host_count == dash(clients@, flows@, online@, scope, |c: ClientRuntimeConfig, f: FlowCounter, o: bool| c.hosts@.len()),
        r.tunnel_count == dash(clients@, flows@, online@, scope, |c: ClientRuntimeConfig, f: FlowCounter, o: bool| c.tunnels@.len()),
        r.tcp_count == dash(clients@, flows@, online@, scope, |c: ClientRuntimeConfig, f: FlowCounter, o: bool| mode_count(c.tunnels@, "tcp"@)),
        r.udp_count == dash(clients@, flows@, online@, scope, |c: ClientRuntimeConfig, f: FlowCounter, o: bool| mode_count(c.tunnels@, "udp"@)),
        r.socks5_count == dash(clients@, flows@, online@, scope, |c: ClientRuntimeConfig, f: FlowCounter, o: bool| mode_count(c.tunnels@, "socks5"@)),
        r.http_proxy_count == dash(clients@, flows@, online@, scope, |c: ClientRuntimeConfig, f: FlowCounter, o: bool| mode_count(c.tunnels@, "httpProxy"@)),
        r.secret_count == dash(clients@, flows@, online@, scope, |c: ClientRuntimeConfig, f: FlowCounter, o: bool| mode_count(c.tunnels@, "secret"@)),
        r.p2p_count == dash(clients@, flows@, online@, scope, |c: ClientRuntimeConfig, f: FlowCounter, o: bool| mode_count(c.tunnels@, "p2p"@)),
        r.inlet_flow_count == dash(clients@, flows@, online@, scope, |c: ClientRuntimeConfig, f: FlowCounter, o: bool| f.inlet_flow as nat),
        r.export_flow_count == dash(clients@, flows@, online@, scope, |c: ClientRuntimeConfig, f: FlowCounter, o: bool| f.export_flow as nat),
{
    let ghost cs = clients@;
    let ghost fs = flows@;
    let ghost on = online@;
    let ghost f_client = |c: ClientRuntimeConfig, f: FlowCounter, o: bool| 1nat;
    let ghost f_online = |c: ClientRuntimeConfig, f: FlowCounter, o: bool| if o { 1nat } else { 0nat };
    let ghost f_host = |c: ClientRuntimeConfig, f: FlowCounter, o: bool| c.hosts@.len();
    let ghost f_tunnel = |c: ClientRuntimeConfig, f: FlowCounter, o: bool| c.tunnels@.len();
    let ghost f_tcp = |c: ClientRuntimeConfig, f: FlowCounter, o: bool| mode_count(c.tunnels@, "tcp"@);
    let ghost f_udp = |c: ClientRuntimeConfig, f: FlowCounter, o: bool| mode_count(c.tunnels@, "udp"@);
    let ghost f_socks = |c: ClientRuntimeConfig, f: FlowCounter, o: bool| mode_count(c.tunnels@, "socks5"@);
    let ghost f_http = |c: ClientRuntimeConfig, f: FlowCounter, o: bool| mode_count(c.tunnels@, "httpProxy"@);
    let ghost f_secret = |c: ClientRuntimeConfig, f: FlowCounter, o: bool| mode_count(c.tunnels@, "secret"@);
    let ghost f_p2p = |c: ClientRuntimeConfig, f: FlowCounter, o: bool| mode_count(c.tunnels@, "p2p"@);
    let ghost f_in = |c: ClientRuntimeConfig, f: FlowCounter, o: bool| f.inlet_flow as nat;
    let ghost f_out = |c: ClientRuntimeConfig, f: FlowCounter, o: bool| f.export_flow as nat;
    let mut r = DashboardCounts {
        client_count: 0,
        client_online_count: 0,
        host_count: 0,
        tunnel_count: 0,
        tcp_count: 0,
        udp_count: 0,
        socks5_count: 0,
        http_proxy_count: 0,
        secret_count: 0,
        p2p_count: 0,
        inlet_flow_count: 0,
        export_flow_count: 0,
    };
    let mut i: usize = 0;
    while i < clients.len()
        invariant
            cs == clients@,
            fs == flows@,
            on == online@,
            f_client == (|c: ClientRuntimeConfig, f: FlowCounter, o: bool| 1nat),
            f_online == (|c: ClientRuntimeConfig, f: FlowCounter, o: bool| if o { 1nat } else { 0nat }),
            f_host == (|c: ClientRuntimeConfig, f: FlowCounter, o: bool| c.hosts@.len()),
            f_tunnel == (|c: ClientRuntimeConfig, f: FlowCounter, o: bool| c.tunnels@.len()),
            f_tcp == (|c: ClientRuntimeConfig, f: FlowCounter, o: bool| mode_count(c.tunnels@, "tcp"@)),
            f_udp == (|c: ClientRuntimeConfig, f: FlowCounter, o: bool| mode_count(c.tunnels@, "udp"@)),
            f_socks == (|c: ClientRuntimeConfig, f: FlowCounter, o: bool| mode_count(c.tunnels@, "socks5"@)),
            f_http == (|c: ClientRuntimeConfig, f: FlowCounter, o: bool| mode_count(c.tunnels@, "httpProxy"@)),
            f_secret == (|c: ClientRuntimeConfig, f: FlowCounter, o: bool| mode_count(c.tunnels@, "secret"@)),
            f_p2p == (|c: ClientRuntimeConfig, f: FlowCounter, o: bool| mode_count(c.tunnels@, "p2p"@)),
            f_in == (|c: ClientRuntimeConfig, f: FlowCounter, o: bool| f.inlet_flow as nat),
            f_out == (|c: ClientRuntimeConfig, f: FlowCounter, o: bool| f.export_flow as nat),
            fs.len() == cs.len(),
            on.len() == cs.len(),
            i <= cs.len(),
            r.client_count == capped(scoped_total(cs, fs, on, scope, f_client, i as nat)),
            r.client_online_count == capped(scoped_total(cs, fs, on, scope, f_online, i as nat)),
            r.host_count == capped(scoped_total(cs, fs, on, scope, f_host, i as nat)),
            r.tunnel_count == capped(scoped_total(cs, fs, on, scope, f_tunnel, i as nat)),
            r.tcp_count == capped(scoped_total(cs, fs, on, scope, f_tcp, i as nat)),
            r.udp_count == capped(scoped_total(cs, fs, on, scope, f_udp, i as nat)),
            r.socks5_count == capped(scoped_total(cs, fs, on, scope, f_socks, i as nat)),
            r.http_proxy_count == capped(scoped_total(cs, fs, on, scope, f_http, i as nat)),
            r.secret_count == capped(scoped_total(cs, fs, on, scope, f_secret, i as nat)),
            r.p2p_count == capped(scoped_total(cs, fs, on, scope, f_p2p, i as nat)),
            r.inlet_flow_count == capped(scoped_total(cs, fs, on, scope, f_in, i as nat)),
            r.export_flow_count == capped(scoped_total(cs, fs, on, scope, f_out, i as nat)),
        decreases cs.len() - i,
    {
        let c = &clients[i];
        let take = match scope {
            Some(id) => c.id == id,
            None => true,
        };
        if take {
            let f = flows[i];
            proof {
                lemma_capped_step(scoped_total(cs, fs, on, scope, f_client, i as nat), 1);
                lemma_capped_step(scoped_total(cs, fs, on, scope, f_online, i as nat), if on[i as int] { 1nat } else { 0nat });
                lemma_capped_step(scoped_total(cs, fs, on, scope, f_host, i as nat), c.hosts@.len());
                lemma_capped_step(scoped_total(cs, fs, on, scope, f_tunnel, i as nat), c.tunnels@.len());
                lemma_capped_step(scoped_total(cs, fs, on, scope, f_tcp, i as nat), mode_count(c.tunnels@, "tcp"@));
                lemma_capped_step(scoped_total(cs, fs, on, scope, f_udp, i as nat), mode_count(c.tunnels@, "udp"@));
                lemma_capped_step(scoped_total(cs, fs, on, scope, f_socks, i as nat), mode_count(c.tunnels@, "socks5"@));
                lemma_capped_step(scoped_total(cs, fs, on, scope, f_http, i as nat), mode_count(c.tunnels@, "httpProxy"@));
                lemma_capped_step(scoped_total(cs, fs, on, scope, f_secret, i as nat), mode_count(c.tunnels@, "secret"@));
                lemma_capped_step(scoped_total(cs, fs, on, scope, f_p2p, i as nat), mode_count(c.tunnels@, "p2p"@));
                lemma_capped_step(scoped_total(cs, fs, on, scope, f_in, i as nat), f.inlet_flow as nat);
                lemma_capped_step(scoped_total(cs, fs, on, scope, f_out, i as nat), f.export_flow as nat);
            }
            r.client_count = sat(r.client_count, 1);
            r.client_online_count = sat(r.client_online_count, if online[i] { 1 } else { 0 });
            r.host_count = sat(r.host_count, c.hosts.len() as u64);
            r.tunnel_count = sat(r.tunnel_count, c.tunnels.len() as u64);
            r.tcp_count = sat(r.tcp_count, count_mode(&c.tunnels, "tcp"));
            r.udp_count = sat(r.udp_count, count_mode(&c.tunnels, "udp"));
            r.socks5_count = sat(r.socks5_count, count_mode(&c.tunnels, "socks5"));
            r.http_proxy_count = sat(r.http_proxy_count, count_mode(&c.tunnels, "httpProxy"));
            r.secret_count = sat(r.secret_count, count_mode(&c.tunnels, "secret"));
            r.p2p_count = sat(r.p2p_count, count_mode(&c.tunnels, "p2p"));
            r.inlet_flow_count = sat(r.inlet_flow_count, f.inlet_flow);
            r.export_flow_count = sat(r.export_flow_count, f.export_flow);
        }
        i += 1;
    }
    r
}

// ---------------------------------------------------------------------------
// Edited clients
// ---------------------------------------------------------------------------

/// What editing a client asks of its connection: it is ended, with the
/// reason given to it, and its tunnels are started again when the client
/// stays enabled.
#[derive(Debug)]
pub struct ClientRestart {
    pub reason: String,
    pub start: bool,
}

/// Whether an edit ends a client's connection: when its key changes (the
/// old key is no longer valid) or it is enabled or disabled.
pub fn client_edit_effect(old_vkey: &str, new_vkey: &str, was_enabled: bool, enabled: bool) -> (r: Option<ClientRestart>)
    ensures
        r is Some <==> (old_vkey@ != new_vkey@ || was_enabled != enabled),
        r matches Some(x) ==> x.start == enabled && x.reason@ == if old_vkey@ != new_vkey@ {
            "invalid verification key"@
        } else {
            "client disabled"@
        },
{
    let rotated = !eq_str(&chars_of(old_vkey), new_vkey);
    if !rotated && was_enabled == enabled {
        return None;
    }
    let reason = if rotated {
        String::from_str("invalid verification key")
    } else {
        String::from_str("client disabled")
    };
    Some(ClientRestart { reason, start: enabled })
}

// ---------------------------------------------------------------------------
// Listing pages
// ---------------------------------------------------------------------------

/// The rows `[start, end)` of a listing of `total` rows that a page shows:
/// it skips `offset` rows (0 when the parameter does not parse) and shows
/// at most `limit` rows (all of them, and at least one, when it does not
/// parse).
pub open spec fn spec_page_range(total: nat, m: KvView) -> (nat, nat) {
    let offset = spec_param_uint(m, "offset"@, usize::MAX as nat);
    let limit = match parse_uint(spec_param(m, "limit"@), usize::MAX as nat) {
        Some(n) => n,
        None => if total > 0 { total } else { 1 },
    };
    let start = if offset < total { offset } else { total };
    let end = if start + limit < total { start + limit } else { total };
    (start, end)
}

/// The range of rows that a listing page shows.
pub fn page_range(total: usize, params: &SectionMap) -> (r: (usize, usize))
    ensures
        r.0 <= r.1 <= total,
        (r.0 as nat, r.1 as nat) == spec_page_range(total as nat, params@),
{
    let offset = param_usize(params, "offset");
    let limit = match parse_usize(&chars_of(param(params, "limit").as_str())) {
        Some(n) => n,
        None => if total > 0 { total } else { 1 },
    };
    let start = if offset < total { offset } else { total };
    let end = if limit < total - start { start + limit } else { total };
    (start, end)
}

// ---------------------------------------------------------------------------
// Changes made by client users
// ---------------------------------------------------------------------------

/// A change the session may not make.
#[derive(PartialEq, Eq, Structural, Clone, Copy, Debug)]
pub enum MutationError {
    PermissionDenied,
}

impl MutationError {
    /// The message reported for the refusal.
    pub fn message(&self) -> (r: &'static str)
        ensures
            r@ == "permission denied"@,
    {
        "permission denied"
    }
}

/// The `id` parameter as a number, 0 when absent or not a number.
pub open spec fn spec_id_param(m: KvView) -> u64 {
    match kv_get(m, "id"@) {
        Some(v) => match parse_uint(v, u64::MAX as nat) {
            Some(n) => n as u64,
            None => 0,
        },
        None => 0,
    }
}

/// The client with id `client_id` has a tunnel with id `tunnel_id`.
pub open spec fn owns_tunnel(cs: Seq<ClientRuntimeConfig>, client_id: u64, tunnel_id: u64) -> bool {
    exists|i: int, j: int|
        0 <= i < cs.len() && cs[i].id == client_id && 0 <= j < cs[i].tunnels@.len() && (#[trigger] cs[i].tunnels@[j]).id
            == tunnel_id
}

/// The client with id `client_id` has a host route with id `host_id`.
pub open spec fn owns_host(cs: Seq<ClientRuntimeConfig>, client_id: u64, host_id: u64) -> bool {
    exists|i: int, j: int|
        0 <= i < cs.len() && cs[i].id == client_id && 0 <= j < cs[i].hosts@.len() && (#[trigger] cs[i].hosts@[j]).id
            == host_id
}

pub open spec fn is_tunnel_change(path: Seq<char>) -> bool {
    path == "/index/stop"@ || path == "/index/start"@ || path == "/index/del"@ || path == "/index/copy"@
        || path == "/index/edit"@
}

pub open spec fn is_host_change(path: Seq<char>) -> bool {
    path == "/index/hoststop"@ || path == "/index/hoststart"@ || path == "/index/delhost"@ || path
        == "/index/edithost"@
}

/// Which changes a session may make, and the parameters they then run
/// with: the administrator any change; a client user no client or global
/// change but the edit of its own client (without the key, and without
/// the user name unless renaming is allowed), additions for its own
/// client, and changes of its own tunnels and routes; other paths pass.
pub open spec fn spec_authorize_mutation(
    cs: Seq<ClientRuntimeConfig>,
    allow_user_change_username: bool,
    is_admin: bool,
    client_id: Option<u64>,
    path: Seq<char>,
    m: KvView,
) -> Option<KvView> {
    if is_admin {
        Some(m)
    } else {
        match client_id {
            None => None,
            Some(cid) => {
                let own = kv_insert(m, "client_id"@, dec(cid as nat));
                if path == "/client/add"@ || path == "/client/del"@ || path == "/client/changestatus"@ || path
                    == "/global/save"@ {
                    None
                } else if path == "/client/edit"@ {
                    if spec_id_param(m) != cid {
                        None
                    } else {
                        let without_key = kv_remove(m, "vkey"@);
                        Some(
                            if allow_user_change_username {
                                without_key
                            } else {
                                kv_remove(without_key, "web_username"@)
                            },
                        )
                    }
                } else if path == "/index/add"@ || path == "/index/addhost"@ {
                    Some(own)
                } else if is_tunnel_change(path) {
                    if owns_tunnel(cs, cid, spec_id_param(m)) {
                        Some(own)
                    } else {
                        None
                    }
                } else if is_host_change(path) {
                    if owns_host(cs, cid, spec_id_param(m)) {
                        Some(own)
                    } else {
                        None
                    }
                } else {
                    Some(m)
                }
            },
        }
    }
}

fn id_param(params: &SectionMap) -> (r: u64)
    ensures
        r == spec_id_param(params@),
{
    match params.get_str("id") {
        Some(v) => match parse_u64(&chars_of(v.as_str())) {
            Some(n) => n,
            None => 0,
        },
        None => 0,
    }
}

fn tunnel_owned(clients: &Vec<ClientRuntimeConfig>, client_id: u64, tunnel_id: u64) -> (r: bool)
    ensures
        r == owns_tunnel(clients@, client_id, tunnel_id),
{
    let mut i: usize = 0;
    while i < clients.len()
        invariant
            i <= clients.len(),
            forall|a: int, b: int|
                0 <= a < i && clients@[a].id == client_id && 0 <= b < clients@[a].tunnels@.len()
                    ==> (#[trigger] clients@[a].tunnels@[b]).id != tunnel_id,
        decreases clients.len() - i,
    {
        if clients[i].id == client_id {
            let ts = &clients[i].tunnels;
            let mut j: usize = 0;
            while j < ts.len()
                invariant
                    j <= ts.len(),
                    i < clients.len(),
                    clients@[i as int].id == client_id,
                    ts@ == clients@[i as int].tunnels@,
                    forall|a: int, b: int|
                        0 <= a < i && clients@[a].id == client_id && 0 <= b < clients@[a].tunnels@.len()
                            ==> (#[trigger] clients@[a].tunnels@[b]).id != tunnel_id,
                    forall|b: int| 0 <= b < j ==> (#[trigger] ts@[b]).id != tunnel_id,
                decreases ts.len() - j,
            {
                if ts[j].id == tunnel_id {
                    assert(clients@[i as int].tunnels@[j as int].id == tunnel_id);
                    return true;
                }
                j += 1;
            }
        }
        i += 1;
    }
    false
}

fn host_owned(clients: &Vec<ClientRuntimeConfig>, client_id: u64, host_id: u64) -> (r: bool)
    ensures
        r == owns_host(clients@, client_id, host_id),
{
    let mut i: usize = 0;
    while i < clients.len()
        invariant
            i <= clients.len(),
            forall|a: int, b: int|
                0 <= a < i && clients@[a].id == client_id && 0 <= b < clients@[a].hosts@.len()
                    ==> (#[trigger] clients@[a].hosts@[b]).id != host_id,
        decreases clients.len() - i,
    {
        if clients[i].id == client_id {
            let hs = &clients[i].hosts;
            let mut j: usize = 0;
            while j < hs.len()
                invariant
                    j <= hs.len(),
                    i < clients.len(),
                    clients@[i as int].id == client_id,
                    hs@ == clients@[i as int].hosts@,
                    forall|a: int, b: int|
                        0 <= a < i && clients@[a].id == client_id && 0 <= b < clients@[a].hosts@.len()
                            ==> (#[trigger] clients@[a].hosts@[b]).id != host_id,
                    forall|b: int| 0 <= b < j ==> (#[trigger] hs@[b]).id != host_id,
                decreases hs.len() - j,
            {
                if hs[j].id == host_id {
                    assert(clients@[i as int].hosts@[j as int].id == host_id);
                    return true;
                }
                j += 1;
            }
        }
        i += 1;
    }
    false
}

/// Checks a change a session asks for and gives the parameters it runs
/// with.
pub fn authorize_mutation(
    clients: &Vec<ClientRuntimeConfig>,
    allow_user_change_username: bool,
    session: &WebSession,
    path: &str,
    params: SectionMap,
) -> (r: Result<SectionMap, MutationError>)
    ensures
        match spec_authorize_mutation(
            clients@,
            allow_user_change_username,
            session.is_admin,
            session.client_id,
            path@,
            params@,
        ) {
            Some(m) => r matches Ok(p) && p@ == m,
            None => r == Err::<SectionMap, MutationError>(MutationError::PermissionDenied),
        },
{
    proof {
        reveal_strlit("/client/add");
        reveal_strlit("/client/del");
        reveal_strlit("/client/changestatus");
        reveal_strlit("/global/save");
        reveal_strlit("/client/edit");
        reveal_strlit("/index/add");
        reveal_strlit("/index/addhost");
        reveal_strlit("/index/stop");
        reveal_strlit("/index/start");
        reveal_strlit("/index/del");
        reveal_strlit("/index/copy");
        reveal_strlit("/index/edit");
        reveal_strlit("/index/hoststop");
        reveal_strlit("/index/hoststart");
        reveal_strlit("/index/delhost");
        reveal_strlit("/index/edithost");
    }
    if session.is_admin {
        return Ok(params);
    }
    let cid = match session.client_id {
        Some(c) => c,
        None => return Err(MutationError::PermissionDenied),
    };
    let p = chars_of(path);
    let mut params = params;
    if crate::text::eq_str(&p, "/client/add") || crate::text::eq_str(&p, "/client/del")
        || crate::text::eq_str(&p, "/client/changestatus") || crate::text::eq_str(&p, "/global/save") {
        return Err(MutationError::PermissionDenied);
    }
    if crate::text::eq_str(&p, "/client/edit") {
        if id_param(&params) != cid {
            return Err(MutationError::PermissionDenied);
        }
        params.remove("vkey");
        if !allow_user_change_username {
            params.remove("web_username");
        }
        return Ok(params);
    }
    if crate::text::eq_str(&p, "/index/add") || crate::text::eq_str(&p, "/index/addhost") {
        params.insert(&chars_of("client_id"), &dec_exec(cid));
        return Ok(params);
    }
    if crate::text::eq_str(&p, "/index/stop") || crate::text::eq_str(&p, "/index/start")
        || crate::text::eq_str(&p, "/index/del") || crate::text::eq_str(&p, "/index/copy")
        || crate::text::eq_str(&p, "/index/edit") {
        if !tunnel_owned(clients, cid, id_param(&params)) {
            return Err(MutationError::PermissionDenied);
        }
        params.insert(&chars_of("client_id"), &dec_exec(cid));
        return Ok(params);
    }
    if crate::text::eq_str(&p, "/index/hoststop") || crate::text::eq_str(&p, "/index/hoststart")
        || crate::text::eq_str(&p, "/index/delhost") || crate::text::eq_str(&p, "/index/edithost") {
        if !host_owned(clients, cid, id_param(&params)) {
            return Err(MutationError::PermissionDenied);
        }
        params.insert(&chars_of("client_id"), &dec_exec(cid));
        return Ok(params);
    }
    Ok(params)
}


// ---------------------------------------------------------------------------
// Form pages
// ---------------------------------------------------------------------------

/// Whether a user may open the form page posting to `action` for record
/// `id`: the administrator always; a client user never without a client,
/// never the new-client form, its own client's edit form only, the add
/// forms, the edit forms of its own tunnels and routes only, and any other
/// page.
pub open spec fn spec_form_allowed(cs: Seq<ClientRuntimeConfig>, session: WebSession, action: Seq<char>, id: u64) -> bool {
    if session.is_admin {
        true
    } else {
        match session.client_id {
            None => false,
            Some(cid) => if action == "/client/add"@ {
                false
            } else if action == "/client/edit"@ {
                id == cid
            } else if action == "/index/add"@ || action == "/index/addhost"@ {
                true
            } else if action == "/index/edit"@ {
                owns_tunnel(cs, cid, id)
            } else if action == "/index/edithost"@ {
                owns_host(cs, cid, id)
            } else {
                true
            },
        }
    }
}

/// Whether the session may open a form page (the page is forbidden
/// otherwise).
pub fn authorize_form(clients: &Vec<ClientRuntimeConfig>, session: &WebSession, action: &str, id: u64) -> (r: bool)
    ensures
        r == spec_form_allowed(clients@, *session, action@, id),
{
    if session.is_admin {
        return true;
    }
    let cid = match session.client_id {
        Some(c) => c,
        None => return false,
    };
    let a = chars_of(action);
    if eq_str(&a, "/client/add") {
        false
    } else if eq_str(&a, "/client/edit") {
        id == cid
    } else if eq_str(&a, "/index/add") || eq_str(&a, "/index/addhost") {
        true
    } else if eq_str(&a, "/index/edit") {
        tunnel_owned(clients, cid, id)
    } else if eq_str(&a, "/index/edithost") {
        host_owned(clients, cid, id)
    } else {
        true
    }
}


// ---------------------------------------------------------------------------
// The client form
// ---------------------------------------------------------------------------

/// Lines joined by newlines.
pub open spec fn join_lines(ls: Seq<Seq<char>>) -> Seq<char>
    decreases ls.len(),
{
    if ls.len() == 0 {
        Seq::empty()
    } else if ls.len() == 1 {
        ls[0]
    } else {
        join_lines(ls.drop_last()) + seq!['\n'] + ls.last()
    }
}

fn join_lines_exec(ls: &Vec<String>) -> (r: String)
    ensures
        r@ == join_lines(strings_view(ls@)),
{
    let ghost lv = strings_view(ls@);
    let mut out: Vec<char> = Vec::new();
    let mut i: usize = 0;
    assert(lv.take(0) =~= Seq::<Seq<char>>::empty());
    while i < ls.len()
        invariant
            lv == strings_view(ls@),
            i <= ls.len(),
            out@ == join_lines(lv.take(i as int)),
        decreases ls.len() - i,
    {
        assert(lv.take(i + 1).drop_last() =~= lv.take(i as int));
        assert(lv.take(i + 1).last() == ls@[i as int]@);
        if i == 0 {
            assert(lv.take(1) =~= seq![ls@[0]@]);
            out = chars_of(ls[0].as_str());
        } else {
            out.push('\n');
            append_str(&mut out, ls[i].as_str());
        }
        i += 1;
    }
    assert(lv.take(ls.len() as int) =~= lv);
    string_of(&out)
}

/// A form group: an optional element id, the label, then the control.
pub open spec fn spec_form_group(id: Seq<char>, label: Seq<char>, inner: Seq<char>) -> Seq<char> {
    "<div class=\"form-group\""@ + (if id.len() == 0 {
        Seq::empty()
    } else {
        " id=\""@ + id + "\""@
    }) + ">"@ + label + inner + "</div>"@
}

fn form_group(id: &str, label: &str, inner: &str) -> (r: String)
    ensures
        r@ == spec_form_group(id@, label@, inner@),
{
    let mut v: Vec<char> = Vec::new();
    append_str(&mut v, "<div class=\"form-group\"");
    let ghost start = v@;
    if !id.is_empty() {
        append_str(&mut v, " id=\"");
        append_str(&mut v, id);
        append_str(&mut v, "\"");
    }
    assert(v@ =~= start + (if id@.len() == 0 {
        Seq::empty()
    } else {
        " id=\""@ + id@ + "\""@
    }));
    append_str(&mut v, ">");
    append_str(&mut v, label);
    append_str(&mut v, inner);
    append_str(&mut v, "</div>");
    assert(v@ =~= spec_form_group(id@, label@, inner@));
    string_of(&v)
}

/// A label naming a language tag.
pub open spec fn spec_tag_label(tag: Seq<char>) -> Seq<char> {
    "<label langtag=\""@ + tag + "\"></label>"@
}

fn tag_label(tag: &str) -> (r: String)
    ensures
        r@ == spec_tag_label(tag@),
{
    let mut v: Vec<char> = Vec::new();
    append_str(&mut v, "<label langtag=\"");
    append_str(&mut v, tag);
    append_str(&mut v, "\"></label>");
    assert(v@ =~= spec_tag_label(tag@));
    string_of(&v)
}

/// A label of plain text.
pub open spec fn spec_text_label(text: Seq<char>) -> Seq<char> {
    "<label>"@ + text + "</label>"@
}

fn text_label(text: &str) -> (r: String)
    ensures
        r@ == spec_text_label(text@),
{
    let mut v: Vec<char> = Vec::new();
    append_str(&mut v, "<label>");
    append_str(&mut v, text);
    append_str(&mut v, "</label>");
    assert(v@ =~= spec_text_label(text@));
    string_of(&v)
}

/// A text input named `name` holding the escaped value.
pub open spec fn spec_input(name: Seq<char>, value: Seq<char>) -> Seq<char> {
    "<input class=\"form-control\" name=\""@ + name + "\" value=\""@ + spec_html_escape(value) + "\">"@
}

fn input_html(name: &str, value: &str) -> (r: String)
    ensures
        r@ == spec_input(name@, value@),
{
    let mut v: Vec<char> = Vec::new();
    append_str(&mut v, "<input class=\"form-control\" name=\"");
    append_str(&mut v, name);
    append_str(&mut v, "\" value=\"");
    append_str(&mut v, html_escape(value).as_str());
    append_str(&mut v, "\">");
    assert(v@ =~= spec_input(name@, value@));
    string_of(&v)
}

/// A read-only input holding the escaped value.
pub open spec fn spec_readonly(value: Seq<char>) -> Seq<char> {
    "<input class=\"form-control\" value=\""@ + spec_html_escape(value) + "\" readonly>"@
}

fn readonly_html(value: &str) -> (r: String)
    ensures
        r@ == spec_readonly(value@),
{
    let mut v: Vec<char> = Vec::new();
    append_str(&mut v, "<input class=\"form-control\" value=\"");
    append_str(&mut v, html_escape(value).as_str());
    append_str(&mut v, "\" readonly>");
    assert(v@ =~= spec_readonly(value@));
    string_of(&v)
}

/// A four-row text area named `name` holding the escaped value.
pub open spec fn spec_textarea(name: Seq<char>, value: Seq<char>) -> Seq<char> {
    "<textarea class=\"form-control\" rows=\"4\" name=\""@ + name + "\">"@ + spec_html_escape(value) + "</textarea>"@
}

fn textarea_html(name: &str, value: &str) -> (r: String)
    ensures
        r@ == spec_textarea(name@, value@),
{
    let mut v: Vec<char> = Vec::new();
    append_str(&mut v, "<textarea class=\"form-control\" rows=\"4\" name=\"");
    append_str(&mut v, name);
    append_str(&mut v, "\">");
    append_str(&mut v, html_escape(value).as_str());
    append_str(&mut v, "</textarea>");
    assert(v@ =~= spec_textarea(name@, value@));
    string_of(&v)
}

/// The `selected` mark of an option.
pub open spec fn spec_mark(on: bool) -> Seq<char> {
    if on {
        "selected"@
    } else {
        ""@
    }
}

/// A yes/no select named `name` with the element id `id` (when given);
/// yes comes first when `yes_first`, and the option for `flag` is
/// selected.
pub open spec fn spec_yes_no_select(name: Seq<char>, id: Seq<char>, flag: bool, yes_first: bool) -> Seq<char> {
    let yes = "<option value=\"1\" "@ + spec_mark(flag) + " langtag=\"word-yes\"></option>"@;
    let no = "<option value=\"0\" "@ + spec_mark(!flag) + " langtag=\"word-no\"></option>"@;
    "<select class=\"form-control\""@ + (if id.len() == 0 {
        Seq::empty()
    } else {
        " id=\""@ + id + "\""@
    }) + " name=\""@ + name + "\">"@ + (if yes_first {
        yes + no
    } else {
        no + yes
    }) + "</select>"@
}

fn mark(on: bool) -> (r: &'static str)
    ensures
        r@ == spec_mark(on),
{
    if on {
        "selected"
    } else {
        ""
    }
}

fn yes_no_select(name: &str, id: &str, flag: bool, yes_first: bool) -> (r: String)
    ensures
        r@ == spec_yes_no_select(name@, id@, flag, yes_first),
{
    let mut yes: Vec<char> = Vec::new();
    append_str(&mut yes, "<option value=\"1\" ");
    append_str(&mut yes, mark(flag));
    append_str(&mut yes, " langtag=\"word-yes\"></option>");
    let mut no: Vec<char> = Vec::new();
    append_str(&mut no, "<option value=\"0\" ");
    append_str(&mut no, mark(!flag));
    append_str(&mut no, " langtag=\"word-no\"></option>");
    let mut v: Vec<char> = Vec::new();
    append_str(&mut v, "<select class=\"form-control\"");
    let ghost start = v@;
    if !id.is_empty() {
        append_str(&mut v, " id=\"");
        append_str(&mut v, id);
        append_str(&mut v, "\"");
    }
    assert(v@ =~= start + (if id@.len() == 0 {
        Seq::empty()
    } else {
        " id=\""@ + id@ + "\""@
    }));
    append_str(&mut v, " name=\"");
    append_str(&mut v, name);
    append_str(&mut v, "\">");
    if yes_first {
        append(&mut v, &yes);
        append(&mut v, &no);
    } else {
        append(&mut v, &no);
        append(&mut v, &yes);
    }
    append_str(&mut v, "</select>");
    assert(v@ =~= spec_yes_no_select(name@, id@, flag, yes_first));
    string_of(&v)
}

/// A checkbox named `name` with value `1`, checked when `checked`, and its
/// text.
pub open spec fn spec_checkbox(name: Seq<char>, checked: bool, text: Seq<char>) -> Seq<char> {
    "<div><label><input type=\"checkbox\" name=\""@ + name + "\" value=\"1\" "@ + (if checked {
        "checked"@
    } else {
        ""@
    }) + "> "@ + text + "</label></div>"@
}

fn checkbox_html(name: &str, checked: bool, text: &str) -> (r: String)
    ensures
        r@ == spec_checkbox(name@, checked, text@),
{
    let mut v: Vec<char> = Vec::new();
    append_str(&mut v, "<div><label><input type=\"checkbox\" name=\"");
    append_str(&mut v, name);
    append_str(&mut v, "\" value=\"1\" ");
    let ghost start = v@;
    if checked {
        append_str(&mut v, "checked");
    } else {
        append_str(&mut v, "");
    }
    append_str(&mut v, "> ");
    append_str(&mut v, text);
    append_str(&mut v, "</label></div>");
    assert(v@ =~= spec_checkbox(name@, checked, text@));
    string_of(&v)
}

/// A unit shown after a limit.
pub open spec fn spec_unit(unit: Seq<char>) -> Seq<char> {
    "<span class=\"help-block m-b-none\">"@ + unit + "</span>"@
}

fn unit_html(unit: &str) -> (r: String)
    ensures
        r@ == spec_unit(unit@),
{
    let mut v: Vec<char> = Vec::new();
    append_str(&mut v, "<span class=\"help-block m-b-none\">");
    append_str(&mut v, unit);
    append_str(&mut v, "</span>");
    assert(v@ =~= spec_unit(unit@));
    string_of(&v)
}


/// What the client form shows of a client: its texts (numbers in decimal,
/// lists one per line) and flags; empty texts, and only the config
/// connection allowed, for a new client.
pub struct ClientFormView {
    pub vkey: Seq<char>,
    pub remark: Seq<char>,
    pub user: Seq<char>,
    pub pass: Seq<char>,
    pub web_user: Seq<char>,
    pub web_pass: Seq<char>,
    pub flow: Seq<char>,
    pub rate: Seq<char>,
    pub max_conn: Seq<char>,
    pub max_tunnel: Seq<char>,
    pub ip_pass: Seq<char>,
    pub ip_list: Seq<char>,
    pub black_list: Seq<char>,
    pub config_conn_allow: bool,
    pub compress: bool,
    pub crypt: bool,
    pub ip_white: bool,
}

pub open spec fn client_form_view(c: Option<ClientRuntimeConfig>) -> ClientFormView {
    match c {
        Some(x) => ClientFormView {
            vkey: x.common.vkey@,
            remark: x.common.client.remark@,
            user: x.common.client.basic_username@,
            pass: x.common.client.basic_password@,
            web_user: x.common.client.web_username@,
            web_pass: x.common.client.web_password@,
            flow: dec(x.common.client.flow_limit_mb as nat),
            rate: dec(x.common.client.rate_limit_kb as nat),
            max_conn: dec(x.common.client.max_conn as nat),
            max_tunnel: dec(x.common.client.max_tunnel_num as nat),
            ip_pass: x.common.client.ip_white_pass@,
            ip_list: join_lines(strings_view(x.common.client.ip_white_list@)),
            black_list: join_lines(strings_view(x.common.client.black_ip_list@)),
            config_conn_allow: x.common.client.config_conn_allow,
            compress: x.common.client.compress,
            crypt: x.common.client.crypt,
            ip_white: x.common.client.ip_white,
        },
        None => ClientFormView {
            vkey: Seq::empty(),
            remark: Seq::empty(),
            user: Seq::empty(),
            pass: Seq::empty(),
            web_user: Seq::empty(),
            web_pass: Seq::empty(),
            flow: Seq::empty(),
            rate: Seq::empty(),
            max_conn: Seq::empty(),
            max_tunnel: Seq::empty(),
            ip_pass: Seq::empty(),
            ip_list: Seq::empty(),
            black_list: Seq::empty(),
            config_conn_allow: true,
            compress: false,
            crypt: false,
            ip_white: false,
        },
    }
}

/// The limit fields an administrator sees, each when the server lets
/// clients be limited that way: traffic (MB), rate (KB/s), connections,
/// tunnels.
pub open spec fn spec_limit_fields(v: ClientFormView, is_admin: bool, flow: bool, rate: bool, conn: bool, tunnels: bool) -> Seq<char> {
    if !is_admin {
        Seq::empty()
    } else {
        (if flow {
            spec_form_group(""@, spec_tag_label("word-flowlimit"@), spec_input("flow_limit"@, v.flow) + spec_unit("MB"@))
        } else {
            Seq::empty()
        }) + (if rate {
            spec_form_group(""@, spec_tag_label("word-ratelimit"@), spec_input("rate_limit"@, v.rate) + spec_unit("KB/s"@))
        } else {
            Seq::empty()
        }) + (if conn {
            spec_form_group(""@, spec_tag_label("word-maxconnections"@), spec_input("max_conn"@, v.max_conn))
        } else {
            Seq::empty()
        }) + (if tunnels {
            spec_form_group(""@, spec_tag_label("word-maxtunnels"@), spec_input("max_tunnel"@, v.max_tunnel))
        } else {
            Seq::empty()
        })
    }
}

/// The script that shows the white-list fields only when the white list
/// is on.
pub open spec fn ip_white_script() -> Seq<char> {
    "<script>(function(){function syncIpWhite(){var enabled=$('#ipwhite').val()==='1';$('#ip_white_pass_group').toggle(enabled);$('#ip_white_list_group').toggle(enabled);$('#black_ip_list_group').toggle(!enabled);}$('#ipwhite').on('change',syncIpWhite);syncIpWhite();})();</script>"@
}

/// The fields of the client form, in order: the key (editable by the
/// administrator only), remark, the limits (administrator only), basic
/// auth user and password, web user (editable by the administrator or
/// when users may change their names), web password, the config
/// connection switch, compression and encryption, the IP white list
/// switch, its password, its list and the black list, and the script that
/// shows the white-list fields as the switch says.
pub open spec fn spec_client_fields(
    v: ClientFormView,
    is_admin: bool,
    flow: bool,
    rate: bool,
    conn: bool,
    tunnels: bool,
    change_username: bool,
) -> Seq<char> {
    (if is_admin {
        spec_form_group(""@, spec_text_label("VKey"@), spec_input("vkey"@, v.vkey))
    } else {
        spec_form_group(""@, spec_text_label("VKey"@), spec_readonly(v.vkey))
    }) + spec_form_group(""@, spec_tag_label("word-remark"@), spec_input("remark"@, v.remark))
        + spec_limit_fields(v, is_admin, flow, rate, conn, tunnels)
        + spec_form_group(""@, spec_tag_label("word-basicusername"@), spec_input("u"@, v.user))
        + spec_form_group(""@, spec_tag_label("word-basicpassword"@), spec_input("p"@, v.pass))
        + (if is_admin || change_username {
        spec_form_group(""@, spec_tag_label("word-webusername"@), spec_input("web_username"@, v.web_user))
    } else {
        spec_form_group(""@, spec_tag_label("word-webusername"@), spec_readonly(v.web_user))
    }) + spec_form_group(""@, spec_tag_label("word-webpassword"@), spec_input("web_password"@, v.web_pass))
        + spec_form_group(""@, spec_tag_label("word-connectbyconfig"@), spec_yes_no_select("config_conn_allow"@, ""@, v.config_conn_allow, true))
        + spec_form_group(""@, spec_text_label("Compress"@), spec_checkbox("compress"@, v.compress, "snappy"@))
        + spec_form_group(""@, spec_text_label("Crypt"@), spec_checkbox("crypt"@, v.crypt, "TLS relay"@))
        + spec_form_group(""@, spec_tag_label("word-ipwhite"@), spec_yes_no_select("ipwhite"@, "ipwhite"@, v.ip_white, false))
        + spec_form_group("ip_white_pass_group"@, spec_tag_label("word-ipwhitepass"@), spec_input("ipwhitepass"@, v.ip_pass) + "<span class=\"help-block m-b-none\" langtag=\"info-ipwhitepass\"></span>"@)
        + spec_form_group("ip_white_list_group"@, spec_tag_label("word-ipwhitelist"@), spec_textarea("ipwhitelist"@, v.ip_list))
        + spec_form_group("black_ip_list_group"@, spec_tag_label("word-blackiplist"@), spec_textarea("blackiplist"@, v.black_list))
        + ip_white_script()
}

fn concat2(a: &str, b: &str) -> (r: String)
    ensures
        r@ == a@ + b@,
{
    let mut v = chars_of(a);
    append_str(&mut v, b);
    string_of(&v)
}

fn limit_fields(
    v: &ClientFormText,
    is_admin: bool,
    flow: bool,
    rate: bool,
    conn: bool,
    tunnels: bool,
) -> (r: String)
    ensures
        r@ == spec_limit_fields(v@, is_admin, flow, rate, conn, tunnels),
{
    if !is_admin {
        return String::new();
    }
    let mut out: Vec<char> = Vec::new();
        if flow {
        let inner = concat2(input_html("flow_limit", v.flow.as_str()).as_str(), unit_html("MB").as_str());
        append_str(&mut out, form_group("", tag_label("word-flowlimit").as_str(), inner.as_str()).as_str());
    }
    if rate {
        let inner = concat2(input_html("rate_limit", v.rate.as_str()).as_str(), unit_html("KB/s").as_str());
        append_str(&mut out, form_group("", tag_label("word-ratelimit").as_str(), inner.as_str()).as_str());
    }
    if conn {
        append_str(&mut out, form_group("", tag_label("word-maxconnections").as_str(), input_html("max_conn", v.max_conn.as_str()).as_str()).as_str());
    }
    if tunnels {
        append_str(&mut out, form_group("", tag_label("word-maxtunnels").as_str(), input_html("max_tunnel", v.max_tunnel.as_str()).as_str()).as_str());
    }
    assert(out@ =~= spec_limit_fields(v@, is_admin, flow, rate, conn, tunnels));
    string_of(&out)
}

/// The texts and flags the client form shows.
pub struct ClientFormText {
    pub vkey: String,
    pub remark: String,
    pub user: String,
    pub pass: String,
    pub web_user: String,
    pub web_pass: String,
    pub flow: String,
    pub rate: String,
    pub max_conn: String,
    pub max_tunnel: String,
    pub ip_pass: String,
    pub ip_list: String,
    pub black_list: String,
    pub config_conn_allow: bool,
    pub compress: bool,
    pub crypt: bool,
    pub ip_white: bool,
}

impl View for ClientFormText {
    type V = ClientFormView;

    open spec fn view(&self) -> ClientFormView {
        ClientFormView {
            vkey: self.vkey@,
            remark: self.remark@,
            user: self.user@,
            pass: self.pass@,
            web_user: self.web_user@,
            web_pass: self.web_pass@,
            flow: self.flow@,
            rate: self.rate@,
            max_conn: self.max_conn@,
            max_tunnel: self.max_tunnel@,
            ip_pass: self.ip_pass@,
            ip_list: self.ip_list@,
            black_list: self.black_list@,
            config_conn_allow: self.config_conn_allow,
            compress: self.compress,
            crypt: self.crypt,
            ip_white: self.ip_white,
        }
    }
}

fn client_form_text(client: Option<&ClientRuntimeConfig>) -> (r: ClientFormText)
    ensures
        r@ == client_form_view(match client {
            Some(c) => Some(*c),
            None => None,
        }),
{
    match client {
        Some(c) => {
            let info = &c.common.client;
            ClientFormText {
                vkey: c.common.vkey.clone(),
                remark: info.remark.clone(),
                user: info.basic_username.clone(),
                pass: info.basic_password.clone(),
                web_user: info.web_username.clone(),
                web_pass: info.web_password.clone(),
                flow: string_of(&dec_exec(info.flow_limit_mb)),
                rate: string_of(&dec_exec(info.rate_limit_kb)),
                max_conn: string_of(&dec_exec(info.max_conn as u64)),
                max_tunnel: string_of(&dec_exec(info.max_tunnel_num as u64)),
                ip_pass: info.ip_white_pass.clone(),
                ip_list: join_lines_exec(&info.ip_white_list),
                black_list: join_lines_exec(&info.black_ip_list),
                config_conn_allow: info.config_conn_allow,
                compress: info.compress,
                crypt: info.crypt,
                ip_white: info.ip_white,
            }
        },
        None => ClientFormText {
            vkey: String::new(),
            remark: String::new(),
            user: String::new(),
            pass: String::new(),
            web_user: String::new(),
            web_pass: String::new(),
            flow: String::new(),
            rate: String::new(),
            max_conn: String::new(),
            max_tunnel: String::new(),
            ip_pass: String::new(),
            ip_list: String::new(),
            black_list: String::new(),
            config_conn_allow: true,
            compress: false,
            crypt: false,
            ip_white: false,
        },
    }
}

/// The fields of the client form for a client (none for a new one): see
/// [`spec_client_fields`].
pub fn client_fields_html(
    client: Option<&ClientRuntimeConfig>,
    is_admin: bool,
    allow_flow_limit: bool,
    allow_rate_limit: bool,
    allow_connection_num_limit: bool,
    allow_tunnel_num_limit: bool,
    allow_user_change_username: bool,
) -> (r: String)
    ensures
        r@ == spec_client_fields(
            client_form_view(match client {
                Some(c) => Some(*c),
                None => None,
            }),
            is_admin,
            allow_flow_limit,
            allow_rate_limit,
            allow_connection_num_limit,
            allow_tunnel_num_limit,
            allow_user_change_username,
        ),
{
    let v = client_form_text(client);
    let mut out: Vec<char> = Vec::new();
    let vkey_control = if is_admin {
        input_html("vkey", v.vkey.as_str())
    } else {
        readonly_html(v.vkey.as_str())
    };
    append_str(&mut out, form_group("", text_label("VKey").as_str(), vkey_control.as_str()).as_str());
    append_str(&mut out, form_group("", tag_label("word-remark").as_str(), input_html("remark", v.remark.as_str()).as_str()).as_str());
    append_str(&mut out, limit_fields(&v, is_admin, allow_flow_limit, allow_rate_limit, allow_connection_num_limit, allow_tunnel_num_limit).as_str());
    append_str(&mut out, form_group("", tag_label("word-basicusername").as_str(), input_html("u", v.user.as_str()).as_str()).as_str());
    append_str(&mut out, form_group("", tag_label("word-basicpassword").as_str(), input_html("p", v.pass.as_str()).as_str()).as_str());
    let web_user_control = if is_admin || allow_user_change_username {
        input_html("web_username", v.web_user.as_str())
    } else {
        readonly_html(v.web_user.as_str())
    };
    append_str(&mut out, form_group("", tag_label("word-webusername").as_str(), web_user_control.as_str()).as_str());
    append_str(&mut out, form_group("", tag_label("word-webpassword").as_str(), input_html("web_password", v.web_pass.as_str()).as_str()).as_str());
    append_str(&mut out, form_group("", tag_label("word-connectbyconfig").as_str(), yes_no_select("config_conn_allow", "", v.config_conn_allow, true).as_str()).as_str());
    append_str(&mut out, form_group("", text_label("Compress").as_str(), checkbox_html("compress", v.compress, "snappy").as_str()).as_str());
    append_str(&mut out, form_group("", text_label("Crypt").as_str(), checkbox_html("crypt", v.crypt, "TLS relay").as_str()).as_str());
    append_str(&mut out, form_group("", tag_label("word-ipwhite").as_str(), yes_no_select("ipwhite", "ipwhite", v.ip_white, false).as_str()).as_str());
    let pass_inner = concat2(input_html("ipwhitepass", v.ip_pass.as_str()).as_str(), "<span class=\"help-block m-b-none\" langtag=\"info-ipwhitepass\"></span>");
    append_str(&mut out, form_group("ip_white_pass_group", tag_label("word-ipwhitepass").as_str(), pass_inner.as_str()).as_str());
    append_str(&mut out, form_group("ip_white_list_group", tag_label("word-ipwhitelist").as_str(), textarea_html("ipwhitelist", v.ip_list.as_str()).as_str()).as_str());
    append_str(&mut out, form_group("black_ip_list_group", tag_label("word-blackiplist").as_str(), textarea_html("blackiplist", v.black_list.as_str()).as_str()).as_str());
    append_str(&mut out, "<script>(function(){function syncIpWhite(){var enabled=$('#ipwhite').val()==='1';$('#ip_white_pass_group').toggle(enabled);$('#ip_white_list_group').toggle(enabled);$('#black_ip_list_group').toggle(!enabled);}$('#ipwhite').on('change',syncIpWhite);syncIpWhite();})();</script>");
    assert(out@ =~= spec_client_fields(v@, is_admin, allow_flow_limit, allow_rate_limit, allow_connection_num_limit, allow_tunnel_num_limit, allow_user_change_username));
    string_of(&out)
}


} // verus!
