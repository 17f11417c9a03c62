//! Client-side decisions: the command line, server replies, proxy protocol
//! headers, file routes and what to run.
use vstd::prelude::*;
use vstd::utf8::encode_utf8;
use crate::kv::is_truthy;
use crate::model::{strings_view, HealthCheck, LocalServer};
use crate::text::{
    append, append_str, chars_of, contains, contains_str, dec, dec_exec, eq_str, lower, lower_vec,
    owned, parse_u16, parse_u32, parse_uint, slice, starts_with, starts_with_str, starts_with_vec,
    string_of, trim, trim_str, trim_vec,
};

verus! {

broadcast use vstd::string::group_string_axioms;

// ---------------------------------------------------------------------------
// Command line
// ---------------------------------------------------------------------------

/// The options of `npc`.
#[derive(Debug)]
pub struct Args {
    pub server: String,
    pub vkey: String,
    pub config: String,
    pub conn_type: String,
    pub password: String,
    pub target: String,
    pub local_port: u16,
    pub local_type: String,
    pub register_hours: u32,
    pub command: String,
    pub tls_enable: bool,
    pub console_log_level: String,
    pub log_path: String,
}

#[verifier::ext_equal]
pub struct ArgsView {
    pub server: Seq<char>,
    pub vkey: Seq<char>,
    pub config: Seq<char>,
    pub conn_type: Seq<char>,
    pub password: Seq<char>,
    pub target: Seq<char>,
    pub local_port: u16,
    pub local_type: Seq<char>,
    pub register_hours: u32,
    pub command: Seq<char>,
    pub tls_enable: bool,
    pub console_log_level: Seq<char>,
    pub log_path: Seq<char>,
}

impl View for Args {
    type V = ArgsView;

    open spec fn view(&self) -> ArgsView {
        ArgsView {
            server: self.server@,
            vkey: self.vkey@,
            config: self.config@,
            conn_type: self.conn_type@,
            password: self.password@,
            target: self.target@,
            local_port: self.local_port,
            local_type: self.local_type@,
            register_hours: self.register_hours,
            command: self.command@,
            tls_enable: self.tls_enable,
            console_log_level: self.console_log_level@,
            log_path: self.log_path@,
        }
    }
}

/// `1`, `true`, `yes` or `on`, ASCII case ignored.
pub open spec fn spec_parse_bool(v: Seq<char>) -> bool {
    is_truthy(lower(v))
}

/// Whether an option value reads as true.
pub fn parse_bool(v: &str) -> (r: bool)
    ensures
        r == spec_parse_bool(v@),
{
    let l = lower_vec(&chars_of(v));
    eq_str(&l, "1") || eq_str(&l, "true") || eq_str(&l, "yes") || eq_str(&l, "on")
}

/// The value of `name=value`.
pub open spec fn spec_value_of(item: Seq<char>, name: Seq<char>) -> Option<Seq<char>> {
    let p = name + seq!['='];
    if starts_with(item, p) {
        Some(item.subrange(p.len() as int, item.len() as int))
    } else {
        None
    }
}

/// The value of an `name=value` argument.
pub fn value_of(item: &str, name: &str) -> (r: Option<String>)
    ensures
        match r {
            Some(v) => spec_value_of(item@, name@) == Some(v@),
            None => spec_value_of(item@, name@) is None,
        },
{
    let mut p = chars_of(name);
    p.push('=');
    assert(p@ =~= name@ + seq!['=']);
    let it = chars_of(item);
    if starts_with_vec(&it, &p) {
        Some(string_of(&slice(&it, p.len(), it.len())))
    } else {
        None
    }
}

/// An option slot after one argument: `name=value` sets the value, a bare
/// `name` takes the next argument.
pub open spec fn assigned(slot: Seq<char>, item: Seq<char>, name: Seq<char>, next: Seq<char>) -> Seq<char> {
    match spec_value_of(item, name) {
        Some(v) => v,
        None => if item == name {
            next
        } else {
            slot
        },
    }
}

/// Sets a string option from one argument.
pub fn assign_arg(item: &str, name: &str, next: &str, slot: &mut String)
    ensures
        final(slot)@ == assigned(old(slot)@, item@, name@, next@),
{
    match value_of(item, name) {
        Some(v) => {
            *slot = v;
        },
        None => {
            if crate::text::eq(&chars_of(item), &chars_of(name)) {
                *slot = owned(next);
            }
        },
    }
}

/// The value of the first of two spellings of an option.
pub open spec fn either_value(item: Seq<char>, a: Seq<char>, b: Seq<char>) -> Option<Seq<char>> {
    match spec_value_of(item, a) {
        Some(v) => Some(v),
        None => spec_value_of(item, b),
    }
}

/// A bare flag followed by nothing or by another option counts as set.
pub open spec fn flag_next(next: Seq<char>) -> bool {
    next.len() == 0 || starts_with(next, "-"@) || spec_parse_bool(next)
}

/// The options after one more argument.
pub open spec fn arg_step(a: ArgsView, item: Seq<char>, next: Seq<char>) -> ArgsView {
    let level = assigned(
        assigned(
            assigned(assigned(a.console_log_level, item, "-console_log_level"@, next), item, "--console-log-level"@, next),
            item,
            "-log_level"@,
            next,
        ),
        item,
        "--log-level"@,
        next,
    );
    let lp1 = match either_value(item, "-local_port"@, "--local-port"@) {
        Some(v) => match parse_uint(v, 0xffff) {
            Some(n) => n as u16,
            None => a.local_port,
        },
        None => a.local_port,
    };
    let lp2 = if item == "-local_port"@ || item == "--local-port"@ {
        match parse_uint(next, 0xffff) {
            Some(n) => n as u16,
            None => lp1,
        }
    } else {
        lp1
    };
    let rh1 = match either_value(item, "-time"@, "--time"@) {
        Some(v) => match parse_uint(v, 0xffff_ffff) {
            Some(n) => n as u32,
            None => a.register_hours,
        },
        None => a.register_hours,
    };
    let rh2 = if item == "-time"@ || item == "--time"@ {
        match parse_uint(next, 0xffff_ffff) {
            Some(n) => n as u32,
            None => rh1,
        }
    } else {
        rh1
    };
    let t1 = match either_value(item, "-tls_enable"@, "--tls-enable"@) {
        Some(v) => spec_parse_bool(v),
        None => a.tls_enable,
    };
    let t2 = if item == "-tls_enable"@ || item == "--tls-enable"@ {
        flag_next(next)
    } else {
        t1
    };
    let d1 = if item == "-debug"@ || item == "--debug"@ {
        if flag_next(next) {
            "debug"@
        } else {
            "info"@
        }
    } else {
        level
    };
    let d2 = match either_value(item, "-debug"@, "--debug"@) {
        Some(v) => if spec_parse_bool(v) {
            "debug"@
        } else {
            "info"@
        },
        None => d1,
    };
    ArgsView {
        server: assigned(assigned(a.server, item, "-server"@, next), item, "--server"@, next),
        vkey: assigned(assigned(a.vkey, item, "-vkey"@, next), item, "--vkey"@, next),
        config: assigned(assigned(a.config, item, "-config"@, next), item, "--config"@, next),
        conn_type: assigned(assigned(a.conn_type, item, "-type"@, next), item, "--type"@, next),
        password: assigned(assigned(a.password, item, "-password"@, next), item, "--password"@, next),
        target: assigned(assigned(a.target, item, "-target"@, next), item, "--target"@, next),
        local_port: lp2,
        local_type: assigned(assigned(a.local_type, item, "-local_type"@, next), item, "--local-type"@, next),
        register_hours: rh2,
        command: a.command,
        tls_enable: t2,
        console_log_level: d2,
        log_path: assigned(assigned(a.log_path, item, "-log_path"@, next), item, "--log-path"@, next),
    }
}

/// The options before any argument is read.
pub open spec fn default_args(command: Seq<char>) -> ArgsView {
    ArgsView {
        server: Seq::empty(),
        vkey: Seq::empty(),
        config: Seq::empty(),
        conn_type: "tcp"@,
        password: Seq::empty(),
        target: Seq::empty(),
        local_port: 2000,
        local_type: "p2p"@,
        register_hours: 2,
        command: command,
        tls_enable: false,
        console_log_level: "info"@,
        log_path: Seq::empty(),
    }
}

/// The argument after position `k`, empty at the end.
pub open spec fn next_arg(raw: Seq<Seq<char>>, k: int) -> Seq<char> {
    if k + 1 < raw.len() {
        raw[k + 1]
    } else {
        Seq::empty()
    }
}

/// The options after the first `n` arguments.
pub open spec fn args_after(raw: Seq<Seq<char>>, start: ArgsView, n: nat) -> ArgsView
    decreases n,
{
    if n == 0 {
        start
    } else {
        arg_step(args_after(raw, start, (n - 1) as nat), raw[n - 1], next_arg(raw, n - 1))
    }
}

pub open spec fn any_of(raw: Seq<Seq<char>>, words: Seq<Seq<char>>) -> bool {
    exists|i: int, j: int| 0 <= i < raw.len() && 0 <= j < words.len() && #[trigger] raw[i] == #[trigger] words[j]
}

/// `npc`'s options from its arguments: help and version win over
/// everything; a leading `register`, `status` or `nat` is the command;
/// every argument is then read in order.
pub open spec fn spec_parse_args(raw: Seq<Seq<char>>) -> ArgsView {
    if any_of(raw, seq!["-h"@, "--help"@, "help"@]) {
        default_args("help"@)
    } else if any_of(raw, seq!["-version"@, "--version"@]) {
        default_args("version"@)
    } else {
        let command = if raw.len() > 0 && (raw[0] == "register"@ || raw[0] == "status"@ || raw[0]
            == "nat"@) {
            raw[0]
        } else {
            Seq::empty()
        };
        args_after(raw, default_args(command), raw.len())
    }
}

fn default_args_exec(command: String) -> (r: Args)
    ensures
        r@ == default_args(command@),
{
    Args {
        server: String::new(),
        vkey: String::new(),
        config: String::new(),
        conn_type: owned("tcp"),
        password: String::new(),
        target: String::new(),
        local_port: 2000,
        local_type: owned("p2p"),
        register_hours: 2,
        command,
        tls_enable: false,
        console_log_level: owned("info"),
        log_path: String::new(),
    }
}

fn either_value_exec(item: &str, a: &str, b: &str) -> (r: Option<String>)
    ensures
        match r {
            Some(v) => either_value(item@, a@, b@) == Some(v@),
            None => either_value(item@, a@, b@) is None,
        },
{
    match value_of(item, a) {
        Some(v) => Some(v),
        None => value_of(item, b),
    }
}

fn is_either(item: &str, a: &str, b: &str) -> (r: bool)
    ensures
        r == (item@ == a@ || item@ == b@),
{
    let it = chars_of(item);
    eq_str(&it, a) || eq_str(&it, b)
}

fn flag_next_exec(next: &str) -> (r: bool)
    ensures
        r == flag_next(next@),
{
    let n = chars_of(next);
    n.len() == 0 || starts_with_str(&n, "-") || parse_bool(next)
}

fn apply_arg(a: &mut Args, item: &str, next: &str)
    ensures
        final(a)@ == arg_step(old(a)@, item@, next@),
{
    assign_arg(item, "-server", next, &mut a.server);
    assign_arg(item, "--server", next, &mut a.server);
    assign_arg(item, "-vkey", next, &mut a.vkey);
    assign_arg(item, "--vkey", next, &mut a.vkey);
    assign_arg(item, "-config", next, &mut a.config);
    assign_arg(item, "--config", next, &mut a.config);
    assign_arg(item, "-type", next, &mut a.conn_type);
    assign_arg(item, "--type", next, &mut a.conn_type);
    assign_arg(item, "-password", next, &mut a.password);
    assign_arg(item, "--password", next, &mut a.password);
    assign_arg(item, "-target", next, &mut a.target);
    assign_arg(item, "--target", next, &mut a.target);
    assign_arg(item, "-local_type", next, &mut a.local_type);
    assign_arg(item, "--local-type", next, &mut a.local_type);
    assign_arg(item, "-console_log_level", next, &mut a.console_log_level);
    assign_arg(item, "--console-log-level", next, &mut a.console_log_level);
    assign_arg(item, "-log_level", next, &mut a.console_log_level);
    assign_arg(item, "--log-level", next, &mut a.console_log_level);
    assign_arg(item, "-log_path", next, &mut a.log_path);
    assign_arg(item, "--log-path", next, &mut a.log_path);
    match either_value_exec(item, "-local_port", "--local-port") {
        Some(v) => {
            match parse_u16(&chars_of(v.as_str())) {
                Some(n) => a.local_port = n,
                None => {},
            }
        },
        None => {},
    }
    if is_either(item, "-local_port", "--local-port") {
        match parse_u16(&chars_of(next)) {
            Some(n) => a.local_port = n,
            None => {},
        }
    }
    match either_value_exec(item, "-time", "--time") {
        Some(v) => {
            match parse_u32(&chars_of(v.as_str())) {
                Some(n) => a.register_hours = n,
                None => {},
            }
        },
        None => {},
    }
    if is_either(item, "-time", "--time") {
        match parse_u32(&chars_of(next)) {
            Some(n) => a.register_hours = n,
            None => {},
        }
    }
    match either_value_exec(item, "-tls_enable", "--tls-enable") {
        Some(v) => a.tls_enable = parse_bool(v.as_str()),
        None => {},
    }
    if is_either(item, "-tls_enable", "--tls-enable") {
        a.tls_enable = flag_next_exec(next);
    }
    if is_either(item, "-debug", "--debug") {
        a.console_log_level = if flag_next_exec(next) {
            owned("debug")
        } else {
            owned("info")
        };
    }
    match either_value_exec(item, "-debug", "--debug") {
        Some(v) => {
            a.console_log_level = if parse_bool(v.as_str()) {
                owned("debug")
            } else {
                owned("info")
            };
        },
        None => {},
    }
    assert(a@ =~= arg_step(old(a)@, item@, next@));
}

fn any_of_exec(raw: &Vec<String>, words: &[&str]) -> (r: bool)
    ensures
        r == any_of(strings_view(raw@), words@.map_values(|w: &str| w@)),
{
    let ghost rv = strings_view(raw@);
    let ghost ws = words@.map_values(|w: &str| w@);
    let mut i: usize = 0;
    while i < raw.len()
        invariant
            rv == strings_view(raw@),
            ws == words@.map_values(|w: &str| w@),
            i <= raw.len(),
            forall|a: int, b: int| 0 <= a < i && 0 <= b < ws.len() ==> rv[a] != ws[b],
        decreases raw.len() - i,
    {
        let it = chars_of(raw[i].as_str());
        let mut j: usize = 0;
        while j < words.len()
            invariant
                rv == strings_view(raw@),
                ws == words@.map_values(|w: &str| w@),
                i < raw.len(),
                it@ == rv[i as int],
                j <= words.len(),
                forall|a: int, b: int| 0 <= a < i && 0 <= b < ws.len() ==> rv[a] != ws[b],
                forall|b: int| 0 <= b < j ==> rv[i as int] != ws[b],
            decreases words.len() - j,
        {
            if eq_str(&it, words[j]) {
                assert(rv[i as int] == ws[j as int]);
                return true;
            }
            j += 1;
        }
        i += 1;
    }
    false
}

/// Reads `npc`'s options from its arguments (without the program name).
pub fn parse_args(raw: &Vec<String>) -> (r: Args)
    ensures
        r@ == spec_parse_args(strings_view(raw@)),
{
    let ghost rv = strings_view(raw@);
    let help = ["-h", "--help", "help"];
    let version = ["-version", "--version"];
    assert(help@.map_values(|w: &str| w@) =~= seq!["-h"@, "--help"@, "help"@]);
    assert(version@.map_values(|w: &str| w@) =~= seq!["-version"@, "--version"@]);
    if any_of_exec(raw, &help) {
        return default_args_exec(owned("help"));
    }
    if any_of_exec(raw, &version) {
        return default_args_exec(owned("version"));
    }
    let mut command = String::new();
    if raw.len() > 0 {
        let first = chars_of(raw[0].as_str());
        if eq_str(&first, "register") || eq_str(&first, "status") || eq_str(&first, "nat") {
            command = raw[0].clone();
        }
    }
    let ghost start = default_args(command@);
    let mut args = default_args_exec(command);
    let mut i: usize = 0;
    while i < raw.len()
        invariant
            rv == strings_view(raw@),
            i <= raw.len(),
            args@ == args_after(rv, start, i as nat),
        decreases raw.len() - i,
    {
        let next: String = if i + 1 < raw.len() {
            raw[i + 1].clone()
        } else {
            String::new()
        };
        assert(next@ == next_arg(rv, i as int));
        apply_arg(&mut args, raw[i].as_str(), next.as_str());
        i += 1;
    }
    args
}

// ---------------------------------------------------------------------------
// Server replies
// ---------------------------------------------------------------------------

/// The message tells of a wrong verification key.
pub open spec fn spec_invalid_vkey_message(m: Seq<char>) -> bool {
    let l = lower(m);
    contains(l, "invalid verification key"@) || contains(l, "validation key"@) || contains(
        l,
        "key incorrect"@,
    ) || contains(m, "\u{5bc6}\u{94a5}\u{9519}\u{8bef}"@)
}

/// Whether a server message reports a wrong verification key.
pub fn is_invalid_vkey_message(message: &str) -> (r: bool)
    ensures
        r == spec_invalid_vkey_message(message@),
{
    let m = chars_of(message);
    let l = lower_vec(&m);
    contains_str(&l, "invalid verification key") || contains_str(&l, "validation key")
        || contains_str(&l, "key incorrect") || contains_str(&m, "\u{5bc6}\u{94a5}\u{9519}\u{8bef}")
}

/// The message ends the client for good.
pub open spec fn spec_fatal_server_message(m: Seq<char>) -> bool {
    let l = lower(m);
    spec_invalid_vkey_message(m) || contains(l, "client disabled"@) || contains(l, "client deleted"@)
        || contains(l, "config connection is disabled"@)
}

/// Whether a server message means the client must stop.
pub fn is_fatal_server_message(message: &str) -> (r: bool)
    ensures
        r == spec_fatal_server_message(message@),
{
    let l = lower_vec(&chars_of(message));
    is_invalid_vkey_message(message) || contains_str(&l, "client disabled") || contains_str(
        &l,
        "client deleted",
    ) || contains_str(&l, "config connection is disabled")
}

/// How the client treats an error message from the server.
#[derive(Debug)]
pub enum ServerError {
    /// The key was refused; the message asks to reconfigure it.
    InvalidKey(String),
    /// The client may not go on; the server's message.
    Fatal(String),
    /// Any other error; the server's message.
    Other(String),
}

/// Sorts a server error: a refused key, a fatal refusal, or another error.
pub fn classify_server_error(message: String) -> (r: ServerError)
    ensures
        spec_invalid_vkey_message(message@) ==> (r matches ServerError::InvalidKey(m) && m@
            == "Invalid verification key, connection failed, please reconfigure the vkey parameter."@),
        !spec_invalid_vkey_message(message@) && spec_fatal_server_message(message@) ==> (r matches ServerError::Fatal(m) && m@ == message@),
        !spec_fatal_server_message(message@) ==> (r matches ServerError::Other(m) && m@ == message@),
{
    if is_invalid_vkey_message(message.as_str()) {
        return ServerError::InvalidKey(
            owned("Invalid verification key, connection failed, please reconfigure the vkey parameter."),
        );
    }
    if is_fatal_server_message(message.as_str()) {
        return ServerError::Fatal(message);
    }
    ServerError::Other(message)
}

/// What a client logs for an error answer to its configuration.
pub open spec fn spec_config_error_text(m: Seq<char>) -> Seq<char> {
    let l = lower(m);
    if contains(l, "web_user"@) && contains(l, "occupied"@) {
        "the web_user may have been occupied!"@
    } else if contains(l, "occupied"@) || contains(l, "already in use"@) || contains(l, "not allowed"@)
        || contains(l, "validation list"@) || contains(l, "allow"@) {
        "The server returned an error, which port or host may have been occupied or not allowed to open."@
    } else {
        m
    }
}

/// The log line for an error answer to a client's configuration.
pub fn log_config_mode_server_error(message: &str) -> (r: String)
    ensures
        r@ == spec_config_error_text(message@),
{
    let l = lower_vec(&chars_of(message));
    if contains_str(&l, "web_user") && contains_str(&l, "occupied") {
        return owned("the web_user may have been occupied!");
    }
    if contains_str(&l, "occupied") || contains_str(&l, "already in use") || contains_str(&l, "not allowed")
        || contains_str(&l, "validation list") || contains_str(&l, "allow") {
        return owned(
            "The server returned an error, which port or host may have been occupied or not allowed to open.",
        );
    }
    owned(message)
}

// ---------------------------------------------------------------------------
// Health checks
// ---------------------------------------------------------------------------

/// How a health target is probed: over HTTP (true) or TCP, and the
/// timeout in seconds (at least one).
pub fn probe_health_target(health: &HealthCheck) -> (r: (bool, u64))
    ensures
        r.0 == (lower(health.kind@) == "http"@),
        r.1 == if health.timeout_secs > 1 {
            health.timeout_secs
        } else {
            1
        },
{
    let k = lower_vec(&chars_of(health.kind.as_str()));
    (eq_str(&k, "http"), if health.timeout_secs > 1 {
        health.timeout_secs
    } else {
        1
    })
}

/// What one probe of a health target leads to.
#[derive(PartialEq, Eq, Structural, Clone, Copy, Debug)]
pub enum HealthStep {
    /// The target answered after reaching the failure limit: it is
    /// reported up, and its failures are cleared once the report went
    /// through.
    Restore,
    /// The target answered: its failures are cleared.
    Clear,
    /// The target failed: its new failure count (saturating), reported
    /// down whenever the count is a multiple of the limit.
    Failed { failures: u32, report: bool },
}

/// The failure count after one more failure.
pub open spec fn next_failures(failures: u32) -> u32 {
    if failures == u32::MAX {
        u32::MAX
    } else {
        (failures + 1) as u32
    }
}

/// Decides what a probe of a target with `failures` earlier failures leads
/// to, under a failure limit of `max_failed`.
pub fn health_step(failures: u32, ok: bool, max_failed: u32) -> (r: HealthStep)
    requires
        max_failed > 0,
    ensures
        ok && failures >= max_failed ==> r == HealthStep::Restore,
        ok && failures < max_failed ==> r == HealthStep::Clear,
        !ok ==> r == (HealthStep::Failed {
            failures: next_failures(failures),
            report: next_failures(failures) % max_failed == 0,
        }),
{
    if ok {
        if failures >= max_failed {
            HealthStep::Restore
        } else {
            HealthStep::Clear
        }
    } else {
        let next = match failures.checked_add(1) {
            Some(n) => n,
            None => u32::MAX,
        };
        HealthStep::Failed { failures: next, report: next % max_failed == 0 }
    }
}

// ---------------------------------------------------------------------------
// Files and text
// ---------------------------------------------------------------------------

/// `default` for a blank value.
pub fn empty_to(value: &str, default: &str) -> (r: String)
    ensures
        r@ == if trim(value@).len() == 0 {
            default@
        } else {
            value@
        },
{
    if trim_str(value).len() == 0 {
        owned(default)
    } else {
        owned(value)
    }
}

/// The HTML escape of a character for a directory listing.
pub open spec fn listing_escape_char(c: char) -> Seq<char> {
    if c == '&' {
        "&amp;"@
    } else if c == '<' {
        "&lt;"@
    } else if c == '>' {
        "&gt;"@
    } else if c == '\u{22}' {
        "&quot;"@
    } else {
        seq![c]
    }
}

pub open spec fn spec_listing_escape(s: Seq<char>) -> Seq<char>
    decreases s.len(),
{
    if s.len() == 0 {
        Seq::empty()
    } else {
        spec_listing_escape(s.drop_last()) + listing_escape_char(s.last())
    }
}

/// Escapes `&`, `<`, `>` and `"` for a directory listing.
pub fn html_escape(s: &str) -> (r: String)
    ensures
        r@ == spec_listing_escape(s@),
{
    let c = chars_of(s);
    let mut out: Vec<char> = Vec::new();
    let mut i: usize = 0;
    while i < c.len()
        invariant
            i <= c.len(),
            c@ == s@,
            out@ == spec_listing_escape(c@.take(i as int)),
        decreases c.len() - i,
    {
        assert(c@.take(i + 1).drop_last() =~= c@.take(i as int));
        assert(c@.take(i + 1).last() == c@[i as int]);
        let ch = c[i];
        if ch == '&' {
            append_str(&mut out, "&amp;");
        } else if ch == '<' {
            append_str(&mut out, "&lt;");
        } else if ch == '>' {
            append_str(&mut out, "&gt;");
        } else if ch == '\u{22}' {
            append_str(&mut out, "&quot;");
        } else {
            out.push(ch);
        }
        i += 1;
    }
    assert(c@.take(c.len() as int) =~= c@);
    string_of(&out)
}

/// The path of a request line (its second word).
pub open spec fn spec_request_path(t: Seq<char>) -> Option<Seq<char>> {
    let ls = crate::text::lines(t);
    if ls.len() == 0 {
        None
    } else {
        let w = crate::text::split_ws(ls[0]);
        if w.len() > 1 {
            Some(w[1])
        } else {
            None
        }
    }
}

/// [`parse_request_path`] on text already decoded.
pub fn request_path_of(t: &Vec<char>) -> (r: Option<String>)
    ensures
        match r {
            Some(p) => spec_request_path(t@) == Some(p@),
            None => spec_request_path(t@) is None,
        },
{
    let ls = crate::text::lines_exec(t);
    if ls.len() == 0 {
        return None;
    }
    let w = crate::text::split_ws_exec(&ls[0]);
    if w.len() > 1 {
        Some(string_of(&w[1]))
    } else {
        None
    }
}

/// The path of a request head.
pub fn parse_request_path(head: &[u8]) -> (r: Option<String>)
    ensures
        match r {
            Some(p) => spec_request_path(crate::http::lossy_text(head@)) == Some(p@),
            None => spec_request_path(crate::http::lossy_text(head@)) is None,
        },
{
    let t = crate::http::utf8_lossy(head);
    request_path_of(&t)
}

/// The part of a path before its query, without leading slashes.
pub open spec fn plain_path(p: Seq<char>) -> Seq<char> {
    crate::kv::strip_leading(crate::text::split_char(p, '?')[0], '/')
}

/// The file a file tunnel request names, relative to the served directory:
/// the path without query and leading slashes, with the tunnel's prefix
/// (leading slashes dropped) removed when the path starts with it.
pub open spec fn spec_file_relative(path: Option<Seq<char>>, strip_pre: Seq<char>) -> Seq<char> {
    let p = plain_path(
        match path {
            Some(x) => x,
            None => "/"@,
        },
    );
    let strip = crate::kv::strip_leading(strip_pre, '/');
    if strip.len() > 0 && starts_with(p, strip) {
        crate::kv::strip_leading(p.subrange(strip.len() as int, p.len() as int), '/')
    } else {
        p
    }
}

fn strip_leading_slashes(s: &Vec<char>) -> (r: Vec<char>)
    ensures
        r@ == crate::kv::strip_leading(s@, '/'),
{
    let mut i: usize = 0;
    assert(s@.subrange(0, s@.len() as int) =~= s@);
    while i < s.len() && s[i] == '/'
        invariant
            i <= s.len(),
            crate::kv::strip_leading(s@, '/') == crate::kv::strip_leading(
                s@.subrange(i as int, s@.len() as int),
                '/',
            ),
        decreases s.len() - i,
    {
        assert(s@.subrange(i as int, s@.len() as int).drop_first() =~= s@.subrange(
            i + 1,
            s@.len() as int,
        ));
        i += 1;
    }
    slice(s, i, s.len())
}

/// The requested file of a file tunnel, relative to its directory.
pub fn file_relative_path(path: Option<String>, strip_pre: &str) -> (r: String)
    ensures
        r@ == spec_file_relative(
            match path {
                Some(x) => Some(x@),
                None => None,
            },
            strip_pre@,
        ),
{
    let raw = match path {
        Some(x) => chars_of(x.as_str()),
        None => chars_of("/"),
    };
    let pieces = crate::text::split_char_exec(&raw, '?');
    assert(crate::text::split_char(raw@, '?').len() >= 1);
    assert(crate::text::views(pieces@)[0] == pieces@[0]@);
    let p = strip_leading_slashes(&pieces[0]);
    let strip = strip_leading_slashes(&chars_of(strip_pre));
    if strip.len() > 0 && starts_with_vec(&p, &strip) {
        string_of(&strip_leading_slashes(&slice(&p, strip.len(), p.len())))
    } else {
        string_of(&p)
    }
}

/// The pieces of a relative path between slashes, empty and `.` pieces
/// skipped.
pub open spec fn path_parts(ps: Seq<Seq<char>>) -> Seq<Seq<char>>
    decreases ps.len(),
{
    if ps.len() == 0 {
        Seq::empty()
    } else {
        let rest = path_parts(ps.drop_last());
        let p = ps.last();
        if p.len() == 0 || p == "."@ {
            rest
        } else {
            rest.push(p)
        }
    }
}

/// The components to join under a served directory: none when the path is
/// absolute or climbs with `..`.
pub open spec fn spec_safe_join(relative: Seq<char>) -> Option<Seq<Seq<char>>> {
    let ps = crate::text::split_char(relative, '/');
    if relative.len() > 0 && relative[0] == '/' {
        None
    } else if exists|i: int| 0 <= i < ps.len() && #[trigger] ps[i] == ".."@ {
        None
    } else {
        Some(path_parts(ps))
    }
}

/// The components of a request path inside the served directory, or none
/// when it would leave the directory.
pub fn safe_join(relative: &str) -> (r: Option<Vec<String>>)
    ensures
        match r {
            Some(v) => spec_safe_join(relative@) == Some(strings_view(v@)),
            None => spec_safe_join(relative@) is None,
        },
{
    let rc = chars_of(relative);
    if rc.len() > 0 && rc[0] == '/' {
        return None;
    }
    let pieces = crate::text::split_char_exec(&rc, '/');
    let ghost ps = crate::text::views(pieces@);
    let mut out: Vec<String> = Vec::new();
    let mut i: usize = 0;
    while i < pieces.len()
        invariant
            ps == crate::text::views(pieces@),
            ps == crate::text::split_char(relative@, '/'),
            i <= pieces.len(),
            strings_view(out@) == path_parts(ps.take(i as int)),
            forall|j: int| 0 <= j < i ==> ps[j] != ".."@,
        decreases pieces.len() - i,
    {
        assert(ps.take(i + 1).drop_last() =~= ps.take(i as int));
        assert(ps.take(i + 1).last() == pieces@[i as int]@);
        if eq_str(&pieces[i], "..") {
            assert(ps[i as int] == ".."@);
            return None;
        }
        if pieces[i].len() > 0 && !eq_str(&pieces[i], ".") {
            let ghost before = out@;
            out.push(string_of(&pieces[i]));
            assert(strings_view(out@) =~= strings_view(before).push(pieces@[i as int]@));
        }
        i += 1;
    }
    assert(ps.take(pieces.len() as int) =~= ps);
    Some(out)
}

/// The extension of a path's file name: the text after its last dot,
/// when the dot is not the name's first character.
pub open spec fn path_extension(path: Seq<char>) -> Option<Seq<char>> {
    let parts = path_parts(crate::text::split_char(path, '/'));
    if parts.len() == 0 || parts.last() == ".."@ {
        None
    } else {
        let name = parts.last();
        match crate::text::rfind_char(name, '.') {
            Some(i) => if i > 0 {
                Some(name.subrange(i + 1, name.len() as int))
            } else {
                None
            },
            None => None,
        }
    }
}

/// The `Content-Type` of a file by its extension.
pub open spec fn spec_content_type(path: Seq<char>) -> Seq<char> {
    let e = match path_extension(path) {
        Some(x) => lower(x),
        None => Seq::empty(),
    };
    if e == "html"@ || e == "htm"@ {
        "text/html; charset=utf-8"@
    } else if e == "css"@ {
        "text/css; charset=utf-8"@
    } else if e == "js"@ {
        "application/javascript; charset=utf-8"@
    } else if e == "json"@ {
        "application/json"@
    } else if e == "png"@ {
        "image/png"@
    } else if e == "jpg"@ || e == "jpeg"@ {
        "image/jpeg"@
    } else if e == "gif"@ {
        "image/gif"@
    } else if e == "svg"@ {
        "image/svg+xml"@
    } else if e == "txt"@ || e == "log"@ {
        "text/plain; charset=utf-8"@
    } else {
        "application/octet-stream"@
    }
}

fn path_extension_exec(path: &Vec<char>) -> (r: Option<Vec<char>>)
    ensures
        match r {
            Some(e) => path_extension(path@) == Some(e@),
            None => path_extension(path@) is None,
        },
{
    let pieces = crate::text::split_char_exec(path, '/');
    let ghost ps = crate::text::views(pieces@);
    let mut last: Option<usize> = None;
    let mut i: usize = 0;
    while i < pieces.len()
        invariant
            ps == crate::text::views(pieces@),
            i <= pieces.len(),
            match last {
                Some(k) => k < i && path_parts(ps.take(i as int)).len() > 0 && path_parts(
                    ps.take(i as int),
                ).last() == ps[k as int],
                None => path_parts(ps.take(i as int)).len() == 0,
            },
        decreases pieces.len() - i,
    {
        assert(ps.take(i + 1).drop_last() =~= ps.take(i as int));
        assert(ps.take(i + 1).last() == pieces@[i as int]@);
        if pieces[i].len() > 0 && !eq_str(&pieces[i], ".") {
            last = Some(i);
        }
        i += 1;
    }
    assert(ps.take(pieces.len() as int) =~= ps);
    let k = match last {
        Some(k) => k,
        None => return None,
    };
    let name = &pieces[k];
    if eq_str(name, "..") {
        return None;
    }
    let found = crate::text::rfind_char_exec(name, '.');
    proof {
        crate::text::lemma_rfind_char_props(name@, '.');
    }
    match found {
        Some(d) => if d > 0 {
            Some(slice(name, d + 1, name.len()))
        } else {
            None
        },
        None => None,
    }
}

/// The `Content-Type` for a served file.
pub fn content_type(path: &str) -> (r: &'static str)
    ensures
        r@ == spec_content_type(path@),
{
    let e = match path_extension_exec(&chars_of(path)) {
        Some(x) => lower_vec(&x),
        None => Vec::new(),
    };
    if eq_str(&e, "html") || eq_str(&e, "htm") {
        "text/html; charset=utf-8"
    } else if eq_str(&e, "css") {
        "text/css; charset=utf-8"
    } else if eq_str(&e, "js") {
        "application/javascript; charset=utf-8"
    } else if eq_str(&e, "json") {
        "application/json"
    } else if eq_str(&e, "png") {
        "image/png"
    } else if eq_str(&e, "jpg") || eq_str(&e, "jpeg") {
        "image/jpeg"
    } else if eq_str(&e, "gif") {
        "image/gif"
    } else if eq_str(&e, "svg") {
        "image/svg+xml"
    } else if eq_str(&e, "txt") || eq_str(&e, "log") {
        "text/plain; charset=utf-8"
    } else {
        "application/octet-stream"
    }
}

// ---------------------------------------------------------------------------
// PROXY protocol
// ---------------------------------------------------------------------------

/// A socket address as the PROXY protocol writes it: the family, the IP in
/// text form, its octets (4 or 16) and the port.
#[derive(Debug)]
pub struct PeerAddr {
    pub v6: bool,
    pub ip_text: String,
    pub octets: Vec<u8>,
    pub port: u16,
}

impl PeerAddr {
    /// The octets are those of the family: 16 for IPv6, 4 for IPv4.
    pub open spec fn well_formed(&self) -> bool {
        self.octets@.len() == if self.v6 {
            16nat
        } else {
            4nat
        }
    }
}

/// The version-one text header: `PROXY TCP4|TCP6 src dst sport dport`.
pub open spec fn spec_proxy_v1(remote: PeerAddr, local: PeerAddr) -> Option<Seq<char>> {
    if remote.v6 != local.v6 {
        None
    } else {
        Some(
            "PROXY "@ + (if remote.v6 {
                "TCP6"@
            } else {
                "TCP4"@
            }) + seq![' '] + remote.ip_text@ + seq![' '] + local.ip_text@ + seq![' '] + dec(
                remote.port as nat,
            ) + seq![' '] + dec(local.port as nat) + "\r\n"@,
        )
    }
}

/// The version-two binary signature.
pub open spec fn proxy_v2_signature() -> Seq<u8> {
    seq![0x0du8, 0x0a, 0x0d, 0x0a, 0x00, 0x0d, 0x0a, 0x51, 0x55, 0x49, 0x54, 0x0a]
}

pub open spec fn be16(v: u16) -> Seq<u8> {
    seq![(v / 256) as u8, (v % 256) as u8]
}

/// The version-two binary header: signature, command, family, address
/// length, source and destination addresses and ports.
pub open spec fn spec_proxy_v2(remote: PeerAddr, local: PeerAddr) -> Option<Seq<u8>> {
    if remote.v6 != local.v6 {
        None
    } else {
        Some(
            proxy_v2_signature() + seq![0x21u8] + (if remote.v6 {
                seq![0x21u8]
            } else {
                seq![0x11u8]
            }) + be16(
                if remote.v6 {
                    36
                } else {
                    12
                },
            ) + remote.octets@ + local.octets@ + be16(remote.port) + be16(local.port),
        )
    }
}

fn push_be16(out: &mut Vec<u8>, v: u16)
    ensures
        final(out)@ == old(out)@ + be16(v),
{
    out.push((v / 256) as u8);
    out.push((v % 256) as u8);
    assert(out@ =~= old(out)@ + be16(v));
}

/// The PROXY protocol v1 header for a connection, when both ends are of
/// one family.
pub fn proxy_protocol_v1(remote: &PeerAddr, local: &PeerAddr) -> (r: Option<Vec<u8>>)
    ensures
        match spec_proxy_v1(*remote, *local) {
            Some(t) => r matches Some(b) && b@ == encode_utf8(t),
            None => r is None,
        },
{
    if remote.v6 != local.v6 {
        return None;
    }
    let mut t = chars_of("PROXY ");
    if remote.v6 {
        append_str(&mut t, "TCP6");
    } else {
        append_str(&mut t, "TCP4");
    }
    t.push(' ');
    append_str(&mut t, remote.ip_text.as_str());
    t.push(' ');
    append_str(&mut t, local.ip_text.as_str());
    t.push(' ');
    append(&mut t, &dec_exec(remote.port as u64));
    t.push(' ');
    append(&mut t, &dec_exec(local.port as u64));
    append_str(&mut t, "\r\n");
    assert(t@ =~= spec_proxy_v1(*remote, *local).unwrap());
    let ts = string_of(&t);
    Some(crate::http::utf8_bytes(ts.as_str()))
}

/// The PROXY protocol v2 header for a connection, when both ends are of
/// one family.
pub fn proxy_protocol_v2(remote: &PeerAddr, local: &PeerAddr) -> (r: Option<Vec<u8>>)
    requires
        remote.well_formed(),
        local.well_formed(),
    ensures
        match spec_proxy_v2(*remote, *local) {
            Some(b) => r matches Some(v) && v@ == b,
            None => r is None,
        },
{
    if remote.v6 != local.v6 {
        return None;
    }
    let mut f: Vec<u8> = Vec::new();
    let sig: [u8; 12] = [0x0d, 0x0a, 0x0d, 0x0a, 0x00, 0x0d, 0x0a, 0x51, 0x55, 0x49, 0x54, 0x0a];
    crate::bytes::extend_bytes(&mut f, &sig);
    assert(sig@ =~= proxy_v2_signature());
    f.push(0x21);
    if remote.v6 {
        f.push(0x21);
        push_be16(&mut f, 36);
    } else {
        f.push(0x11);
        push_be16(&mut f, 12);
    }
    crate::bytes::extend_bytes(&mut f, remote.octets.as_slice());
    crate::bytes::extend_bytes(&mut f, local.octets.as_slice());
    push_be16(&mut f, remote.port);
    push_be16(&mut f, local.port);
    assert(f@ =~= spec_proxy_v2(*remote, *local).unwrap());
    Some(f)
}

/// The bytes to send before relaying to a target: the PROXY header the
/// tunnel asks for (`V1` or `V2`, case and spaces ignored), or nothing
/// when it asks for none, names another version, or the remote address did
/// not parse (`remote` is none).
pub open spec fn spec_proxy_header(proto_version: Seq<char>, remote: Option<PeerAddr>, local: PeerAddr) -> Seq<u8> {
    let v = crate::text::upper(trim(proto_version));
    match remote {
        None => Seq::empty(),
        Some(rm) => if v == "V1"@ {
            match spec_proxy_v1(rm, local) {
                Some(t) => encode_utf8(t),
                None => Seq::empty(),
            }
        } else if v == "V2"@ {
            match spec_proxy_v2(rm, local) {
                Some(b) => b,
                None => Seq::empty(),
            }
        } else {
            Seq::empty()
        },
    }
}

/// What must be written to the target before the relayed bytes.
pub fn write_proxy_protocol_if_needed(proto_version: &str, remote: Option<&PeerAddr>, local: &PeerAddr) -> (r: Vec<u8>)
    requires
        remote matches Some(a) ==> a.well_formed(),
        local.well_formed(),
    ensures
        r@ == spec_proxy_header(
            proto_version@,
            match remote {
                Some(p) => Some(*p),
                None => None,
            },
            *local,
        ),
{
    let v = crate::text::upper_vec(&trim_str(proto_version));
    let rm = match remote {
        Some(p) => p,
        None => return Vec::new(),
    };
    if eq_str(&v, "V1") {
        match proxy_protocol_v1(rm, local) {
            Some(b) => b,
            None => Vec::new(),
        }
    } else if eq_str(&v, "V2") {
        match proxy_protocol_v2(rm, local) {
            Some(b) => b,
            None => Vec::new(),
        }
    } else {
        Vec::new()
    }
}

// ---------------------------------------------------------------------------
// Control connection
// ---------------------------------------------------------------------------

/// What a client does with a message on its control connection.
#[derive(Debug)]
pub enum ControlAction {
    /// Open the link in a new worker.
    Open { link_id: u64, link: crate::protocol::Link },
    /// Answer a ping with `pong`.
    Pong,
    /// Stop the control loop with the sorted error.
    Stop(ServerError),
    /// Nothing to do.
    Ignore,
}

/// The client's answer to a control message.
pub fn control_action(msg: crate::protocol::ServerMessage) -> (r: ControlAction)
    ensures
        match msg {
            crate::protocol::ServerMessage::Open { link_id, link } => r == (ControlAction::Open {
                link_id,
                link,
            }),
            crate::protocol::ServerMessage::Ping => r is Pong,
            crate::protocol::ServerMessage::Stop { reason } => (r matches ControlAction::Stop(e) && (
            spec_invalid_vkey_message(reason@) ==> e is InvalidKey) && (!spec_invalid_vkey_message(
                reason@,
            ) && spec_fatal_server_message(reason@) ==> (e matches ServerError::Fatal(m) && m@
                == reason@)) && (!spec_fatal_server_message(reason@) ==> (e matches ServerError::Other(m)
                && m@ == reason@))),
            _ => r is Ignore,
        },
{
    match msg {
        crate::protocol::ServerMessage::Open { link_id, link } => ControlAction::Open { link_id, link },
        crate::protocol::ServerMessage::Ping => ControlAction::Pong,
        crate::protocol::ServerMessage::Stop { reason } => ControlAction::Stop(classify_server_error(reason)),
        _ => ControlAction::Ignore,
    }
}

/// How the server answered a request: accepted (with its message),
/// refused (with its message), or with something unexpected.
#[derive(Debug)]
pub enum Reply {
    Accepted(String),
    Refused(String),
    Unexpected,
}

/// Reads a reply: `ok` accepts, `error` refuses, anything else is
/// unexpected.
pub fn reply_of(msg: crate::protocol::ServerMessage) -> (r: Reply)
    ensures
        match msg {
            crate::protocol::ServerMessage::Success { message } => (r matches Reply::Accepted(m) && m
                == message),
            crate::protocol::ServerMessage::Error { message } => (r matches Reply::Refused(m) && m
                == message),
            _ => r is Unexpected,
        },
{
    match msg {
        crate::protocol::ServerMessage::Success { message } => Reply::Accepted(message),
        crate::protocol::ServerMessage::Error { message } => Reply::Refused(message),
        _ => Reply::Unexpected,
    }
}

/// How a link is served once its stream is wrapped.
#[derive(PartialEq, Eq, Structural, Clone, Copy, Debug)]
pub enum LinkService {
    Udp,
    File,
    Http,
    Tcp,
}

/// The service for a link's kind: UDP and files have their own, HTTP
/// reads the request head first, everything else is relayed as TCP.
pub fn serve_link(kind: crate::protocol::LinkKind) -> (r: LinkService)
    ensures
        r == match kind {
            crate::protocol::LinkKind::Udp => LinkService::Udp,
            crate::protocol::LinkKind::File => LinkService::File,
            crate::protocol::LinkKind::Http => LinkService::Http,
            _ => LinkService::Tcp,
        },
{
    match kind {
        crate::protocol::LinkKind::Udp => LinkService::Udp,
        crate::protocol::LinkKind::File => LinkService::File,
        crate::protocol::LinkKind::Http => LinkService::Http,
        _ => LinkService::Tcp,
    }
}

// ---------------------------------------------------------------------------
// What to run
// ---------------------------------------------------------------------------

/// The configuration file `npc` tries: the one given, else `default_conf`;
/// none when a server and key are given without a file.
pub fn config_candidate(args: &Args, default_conf: &str) -> (r: Option<String>)
    ensures
        (args.config@.len() != 0 || args.server@.len() == 0 || args.vkey@.len() == 0) ==> (r matches Some(p) && p@ == (if args.config@.len() == 0 {
            default_conf@
        } else {
            args.config@
        })),
        !(args.config@.len() != 0 || args.server@.len() == 0 || args.vkey@.len() == 0) ==> r is None,
{
    if !args.config.as_str().is_empty() || args.server.as_str().is_empty() || args.vkey.as_str().is_empty() {
        if args.config.as_str().is_empty() {
            Some(owned(default_conf))
        } else {
            Some(args.config.clone())
        }
    } else {
        None
    }
}

/// What `npc` runs.
#[derive(Debug)]
pub enum RunPlan {
    /// A local visitor of a secret or p2p tunnel.
    Visitor { server: String, local: LocalServer },
    /// The client described by a configuration file.
    ConfigFile(String),
    /// A client given by `-server` and `-vkey`.
    Direct(crate::model::ClientRuntimeConfig),
    /// Neither a file nor a server and key.
    MissingServer,
}

/// Chooses what to run: a visitor when a password is given, else the
/// configuration file when it exists (`config_found`), else the client of
/// the command line, which needs a server and a key.
pub fn run(args: &Args, config_found: Option<String>) -> (r: RunPlan)
    ensures
        args.password@.len() != 0 ==> (r matches RunPlan::Visitor { server, local } && server@
            == args.server@ && local@.kind == (if args.local_type@.len() == 0 {
            "p2p"@
        } else {
            args.local_type@
        }) && local@.ip == "127.0.0.1"@ && local@.port == args.local_port && local@.password
            == args.password@ && local@.target == args.target@),
        args.password@.len() == 0 && config_found is Some ==> (r matches RunPlan::ConfigFile(p)
            && p == config_found.unwrap()),
        args.password@.len() == 0 && config_found is None && (args.server@.len() == 0
            || args.vkey@.len() == 0) ==> r is MissingServer,
        args.password@.len() == 0 && config_found is None && args.server@.len() != 0
            && args.vkey@.len() != 0 ==> (r matches RunPlan::Direct(c) && c@.common.server_addr
            == args.server@ && c@.common.vkey == args.vkey@ && c@.common.conn_type == (if args.conn_type@.len() == 0 {
            "tcp"@
        } else {
            args.conn_type@
        }) && c@.common.tls_enable == args.tls_enable && c@.common.client.verify_key == args.vkey@
            && c@.hosts.len() == 0 && c@.tunnels.len() == 0),
{
    if !args.password.as_str().is_empty() {
        let local = LocalServer {
            kind: if args.local_type.as_str().is_empty() {
                owned("p2p")
            } else {
                args.local_type.clone()
            },
            ip: owned("127.0.0.1"),
            port: args.local_port,
            password: args.password.clone(),
            target: args.target.clone(),
        };
        return RunPlan::Visitor { server: args.server.clone(), local };
    }
    match config_found {
        Some(p) => return RunPlan::ConfigFile(p),
        None => {},
    }
    if args.server.as_str().is_empty() || args.vkey.as_str().is_empty() {
        return RunPlan::MissingServer;
    }
    let mut config = crate::model::ClientRuntimeConfig::default();
    config.common.server_addr = args.server.clone();
    config.common.vkey = args.vkey.clone();
    config.common.conn_type = if args.conn_type.as_str().is_empty() {
        owned("tcp")
    } else {
        args.conn_type.clone()
    };
    config.common.tls_enable = args.tls_enable;
    config.common.client.verify_key = args.vkey.clone();
    RunPlan::Direct(config)
}

} // verus!
