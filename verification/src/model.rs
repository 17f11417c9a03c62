//! Configuration and runtime records shared by the server and the client,
//! each with a mathematical view.
use vstd::prelude::*;
use crate::text::{
    chars_of, owned, split_char, split_char_exec, string_of, trimmed_nonempty,
    trimmed_nonempty_exec, views,
};

verus! {

// ---------------------------------------------------------------------------
// Views
// ---------------------------------------------------------------------------

#[verifier::ext_equal]
pub struct TargetView {
    pub target_str: Seq<char>,
    pub local_proxy: bool,
}

#[verifier::ext_equal]
pub struct TunnelView {
    pub id: u64,
    pub mode: Seq<char>,
    pub remark: Seq<char>,
    pub server_ip: Seq<char>,
    pub server_port: u16,
    pub status: bool,
    pub run_status: bool,
    pub ports: Seq<char>,
    pub target: TargetView,
    pub target_addr: Seq<char>,
    pub password: Seq<char>,
    pub local_path: Seq<char>,
    pub strip_pre: Seq<char>,
    pub multi_account: Seq<(Seq<char>, Seq<char>)>,
    pub proto_version: Seq<char>,
    pub client_vkey: Seq<char>,
    pub no_store: bool,
}

#[verifier::ext_equal]
pub struct HostView {
    pub id: u64,
    pub host: Seq<char>,
    pub header_change: Seq<char>,
    pub host_change: Seq<char>,
    pub location: Seq<char>,
    pub remark: Seq<char>,
    pub scheme: Seq<char>,
    pub cert_file_path: Seq<char>,
    pub key_file_path: Seq<char>,
    pub target: TargetView,
    pub client_vkey: Seq<char>,
    pub no_store: bool,
    pub is_close: bool,
    pub auto_https: bool,
}

#[verifier::ext_equal]
pub struct ClientInfoView {
    pub verify_key: Seq<char>,
    pub remark: Seq<char>,
    pub status: bool,
    pub compress: bool,
    pub crypt: bool,
    pub basic_username: Seq<char>,
    pub basic_password: Seq<char>,
    pub web_username: Seq<char>,
    pub web_password: Seq<char>,
    pub config_conn_allow: bool,
    pub rate_limit_kb: u64,
    pub flow_limit_mb: u64,
    pub max_conn: usize,
    pub max_tunnel_num: usize,
    pub black_ip_list: Seq<Seq<char>>,
    pub ip_white: bool,
    pub ip_white_pass: Seq<char>,
    pub ip_white_list: Seq<Seq<char>>,
}

#[verifier::ext_equal]
pub struct CommonConfigView {
    pub server_addr: Seq<char>,
    pub conn_type: Seq<char>,
    pub vkey: Seq<char>,
    pub auto_reconnection: bool,
    pub tls_enable: bool,
    pub proxy_url: Seq<char>,
    pub disconnect_timeout: u64,
    pub client: ClientInfoView,
}

#[verifier::ext_equal]
pub struct HealthCheckView {
    pub remark: Seq<char>,
    pub timeout_secs: u64,
    pub max_failed: u32,
    pub interval_secs: u64,
    pub http_url: Seq<char>,
    pub kind: Seq<char>,
    pub targets: Seq<Seq<char>>,
}

#[verifier::ext_equal]
pub struct LocalServerView {
    pub kind: Seq<char>,
    pub ip: Seq<char>,
    pub port: u16,
    pub password: Seq<char>,
    pub target: Seq<char>,
}

#[verifier::ext_equal]
pub struct ClientRuntimeConfigView {
    pub id: u64,
    pub no_store: bool,
    pub no_display: bool,
    pub create_time: Seq<char>,
    pub last_online_time: Seq<char>,
    pub last_online_addr: Seq<char>,
    pub common: CommonConfigView,
    pub hosts: Seq<HostView>,
    pub tunnels: Seq<TunnelView>,
    pub healths: Seq<HealthCheckView>,
    pub local_servers: Seq<LocalServerView>,
}

#[verifier::ext_equal]
pub struct GlobalConfigView {
    pub black_ip_list: Seq<Seq<char>>,
    pub server_url: Seq<char>,
}

// ---------------------------------------------------------------------------
// Records
// ---------------------------------------------------------------------------

/// Server side configuration, with the field names of `nps.conf`.
#[derive(Debug)]
pub struct ServerConfig {
    pub appname: String,
    pub runmode: String,
    pub http_proxy_ip: String,
    pub http_proxy_port: u16,
    pub https_proxy_port: u16,
    pub https_just_proxy: bool,
    pub bridge_type: String,
    pub bridge_ip: String,
    pub bridge_port: u16,
    pub public_vkey: String,
    pub web_ip: String,
    pub web_port: u16,
    pub web_username: String,
    pub web_password: String,
    pub web_base_url: String,
    pub allow_user_login: bool,
    pub allow_user_register: bool,
    pub open_captcha: bool,
    pub allow_user_change_username: bool,
    pub allow_flow_limit: bool,
    pub allow_rate_limit: bool,
    pub allow_tunnel_num_limit: bool,
    pub allow_connection_num_limit: bool,
    pub allow_ports: String,
    pub allow_local_proxy: bool,
    pub allow_multi_ip: bool,
    pub http_cache: bool,
    pub http_cache_length: usize,
    pub http_add_origin_header: bool,
    pub ip_limit: bool,
    pub disconnect_timeout: u64,
    pub tls_enable: bool,
    pub tls_bridge_port: u16,
    pub p2p_ip: String,
    pub p2p_port: u16,
    pub log_level: String,
    pub log_path: String,
}

impl Default for ServerConfig {
    fn default() -> (r: Self)
        ensures
            r.appname@ == "nps"@,
            r.runmode@ == "dev"@,
            r.http_proxy_ip@ == "0.0.0.0"@,
            r.http_proxy_port == 80,
            r.https_proxy_port == 443,
            r.https_just_proxy,
            r.bridge_type@ == "tcp"@,
            r.bridge_ip@ == "0.0.0.0"@,
            r.bridge_port == 8024,
            r.public_vkey@ == "123"@,
            r.web_ip@ == "0.0.0.0"@,
            r.web_port == 8081,
            r.web_username@ == "admin"@,
            r.web_password@ == "123"@,
            r.web_base_url@ == Seq::<char>::empty(),
            r.allow_user_login,
            !r.allow_user_register,
            !r.open_captcha,
            r.allow_user_change_username,
            !r.allow_flow_limit,
            !r.allow_rate_limit,
            !r.allow_tunnel_num_limit,
            !r.allow_connection_num_limit,
            r.allow_ports@ == Seq::<char>::empty(),
            !r.allow_local_proxy,
            r.allow_multi_ip,
            !r.http_cache,
            r.http_cache_length == 100,
            r.http_add_origin_header,
            !r.ip_limit,
            r.disconnect_timeout == 60,
            !r.tls_enable,
            r.tls_bridge_port == 8025,
            r.p2p_ip@ == "127.0.0.1"@,
            r.p2p_port == 6000,
            r.log_level@ == "7"@,
            r.log_path@ == Seq::<char>::empty(),
    {
        ServerConfig {
            appname: owned("nps"),
            runmode: owned("dev"),
            http_proxy_ip: owned("0.0.0.0"),
            http_proxy_port: 80,
            https_proxy_port: 443,
            https_just_proxy: true,
            bridge_type: owned("tcp"),
            bridge_ip: owned("0.0.0.0"),
            bridge_port: 8024,
            public_vkey: owned("123"),
            web_ip: owned("0.0.0.0"),
            web_port: 8081,
            web_username: owned("admin"),
            web_password: owned("123"),
            web_base_url: String::new(),
            allow_user_login: true,
            allow_user_register: false,
            open_captcha: false,
            allow_user_change_username: true,
            allow_flow_limit: false,
            allow_rate_limit: false,
            allow_tunnel_num_limit: false,
            allow_connection_num_limit: false,
            allow_ports: String::new(),
            allow_local_proxy: false,
            allow_multi_ip: true,
            http_cache: false,
            http_cache_length: 100,
            http_add_origin_header: true,
            ip_limit: false,
            disconnect_timeout: 60,
            tls_enable: false,
            tls_bridge_port: 8025,
            p2p_ip: owned("127.0.0.1"),
            p2p_port: 6000,
            log_level: owned("7"),
            log_path: String::new(),
        }
    }
}

/// Round-robin target list: one target per line of `target_str`.
#[derive(Debug)]
pub struct Target {
    pub target_str: String,
    pub local_proxy: bool,
}

impl View for Target {
    type V = TargetView;

    open spec fn view(&self) -> TargetView {
        TargetView { target_str: self.target_str@, local_proxy: self.local_proxy }
    }
}

/// The targets of a target list: its lines, trimmed, without empty ones.
pub open spec fn target_items(target_str: Seq<char>) -> Seq<Seq<char>> {
    trimmed_nonempty(split_char(target_str, '\n'))
}

impl Default for Target {
    fn default() -> (r: Self)
        ensures
            r@.target_str == Seq::<char>::empty(),
            !r@.local_proxy,
    {
        Target { target_str: String::new(), local_proxy: false }
    }
}

impl Target {
    /// A copy with the same view.
    pub fn duplicate(&self) -> (r: Self)
        ensures
            r@ == self@,
    {
        Target { target_str: self.target_str.clone(), local_proxy: self.local_proxy }
    }

    /// Picks the target at `cursor` modulo the number of targets, and the
    /// cursor that follows it; `None` when the list holds no target.
    pub fn pick(&self, cursor: usize) -> (r: Option<(String, usize)>)
        ensures
            target_items(self.target_str@).len() == 0 <==> r is None,
            r matches Some((t, next)) ==> {
                let items = target_items(self.target_str@);
                let idx = cursor as int % items.len() as int;
                &&& t@ == items[idx]
                &&& next == idx + 1
            },
    {
        let chars = chars_of(self.target_str.as_str());
        let pieces = split_char_exec(&chars, '\n');
        let items = trimmed_nonempty_exec(&pieces);
        if items.len() == 0 {
            return None;
        }
        let index = cursor % items.len();
        Some((string_of(&items[index]), index + 1))
    }
}

/// Copies a list of strings.
pub fn copy_strings(v: &Vec<String>) -> (r: Vec<String>)
    ensures
        strings_view(r@) == strings_view(v@),
{
    let mut r: Vec<String> = Vec::new();
    let mut i: usize = 0;
    while i < v.len()
        invariant
            i <= v.len(),
            r@.len() == i,
            forall|j: int| 0 <= j < i ==> (#[trigger] r@[j])@ == v@[j]@,
        decreases v.len() - i,
    {
        r.push(v[i].clone());
        i += 1;
    }
    assert(strings_view(r@) =~= strings_view(v@));
    r
}

/// The views of a list of strings.
pub open spec fn strings_view(v: Seq<String>) -> Seq<Seq<char>> {
    Seq::new(v.len(), |i: int| v[i]@)
}

/// The views of a list of string pairs.
pub open spec fn pairs_view(v: Seq<(String, String)>) -> Seq<(Seq<char>, Seq<char>)> {
    Seq::new(v.len(), |i: int| (v[i].0@, v[i].1@))
}

/// Copies a list of string pairs.
pub fn copy_pairs(v: &Vec<(String, String)>) -> (r: Vec<(String, String)>)
    ensures
        pairs_view(r@) == pairs_view(v@),
{
    let mut r: Vec<(String, String)> = Vec::new();
    let mut i: usize = 0;
    while i < v.len()
        invariant
            i <= v.len(),
            r@.len() == i,
            forall|j: int|
                0 <= j < i ==> (#[trigger] r@[j]).0@ == v@[j].0@ && r@[j].1@ == v@[j].1@,
        decreases v.len() - i,
    {
        let (a, b) = (v[i].0.clone(), v[i].1.clone());
        r.push((a, b));
        i += 1;
    }
    assert(pairs_view(r@) =~= pairs_view(v@));
    r
}

/// Strings from character vectors.
pub fn strings_of(v: &Vec<Vec<char>>) -> (r: Vec<String>)
    ensures
        strings_view(r@) == views(v@),
{
    let mut r: Vec<String> = Vec::new();
    let mut i: usize = 0;
    while i < v.len()
        invariant
            i <= v.len(),
            r@.len() == i,
            forall|j: int| 0 <= j < i ==> (#[trigger] r@[j])@ == v@[j]@,
        decreases v.len() - i,
    {
        r.push(string_of(&v[i]));
        i += 1;
    }
    assert(strings_view(r@) =~= views(v@));
    r
}

/// A TCP, UDP, SOCKS5, HTTP proxy, file, secret or p2p tunnel.
#[derive(Debug)]
pub struct Tunnel {
    pub id: u64,
    pub mode: String,
    pub remark: String,
    pub server_ip: String,
    pub server_port: u16,
    pub status: bool,
    pub run_status: bool,
    pub ports: String,
    pub target: Target,
    pub target_addr: String,
    pub password: String,
    pub local_path: String,
    pub strip_pre: String,
    pub multi_account: Vec<(String, String)>,
    pub proto_version: String,
    pub client_vkey: String,
    pub no_store: bool,
}

impl View for Tunnel {
    type V = TunnelView;

    open spec fn view(&self) -> TunnelView {
        TunnelView {
            id: self.id,
            mode: self.mode@,
            remark: self.remark@,
            server_ip: self.server_ip@,
            server_port: self.server_port,
            status: self.status,
            run_status: self.run_status,
            ports: self.ports@,
            target: self.target@,
            target_addr: self.target_addr@,
            password: self.password@,
            local_path: self.local_path@,
            strip_pre: self.strip_pre@,
            multi_account: pairs_view(self.multi_account@),
            proto_version: self.proto_version@,
            client_vkey: self.client_vkey@,
            no_store: self.no_store,
        }
    }
}

impl Default for Tunnel {
    fn default() -> (r: Self)
        ensures
            r@.id == 0,
            r@.mode == "tcp"@,
            r@.remark == Seq::<char>::empty(),
            r@.server_ip == "0.0.0.0"@,
            r@.server_port == 0,
            r@.status,
            r@.run_status,
            r@.ports == Seq::<char>::empty(),
            r@.target.target_str == Seq::<char>::empty(),
            !r@.target.local_proxy,
            r@.target_addr == Seq::<char>::empty(),
            r@.password == Seq::<char>::empty(),
            r@.local_path == Seq::<char>::empty(),
            r@.strip_pre == Seq::<char>::empty(),
            r@.multi_account.len() == 0,
            r@.proto_version == Seq::<char>::empty(),
            r@.client_vkey == Seq::<char>::empty(),
            r@.no_store,
    {
        let r = Tunnel {
            id: 0,
            mode: owned("tcp"),
            remark: String::new(),
            server_ip: owned("0.0.0.0"),
            server_port: 0,
            status: true,
            run_status: true,
            ports: String::new(),
            target: Target::default(),
            target_addr: String::new(),
            password: String::new(),
            local_path: String::new(),
            strip_pre: String::new(),
            multi_account: Vec::new(),
            proto_version: String::new(),
            client_vkey: String::new(),
            no_store: true,
        };
        assert(pairs_view(r.multi_account@).len() == 0);
        r
    }
}

impl Tunnel {
    /// A copy with the same view.
    pub fn duplicate(&self) -> (r: Self)
        ensures
            r@ == self@,
    {
        Tunnel {
            id: self.id,
            mode: self.mode.clone(),
            remark: self.remark.clone(),
            server_ip: self.server_ip.clone(),
            server_port: self.server_port,
            status: self.status,
            run_status: self.run_status,
            ports: self.ports.clone(),
            target: self.target.duplicate(),
            target_addr: self.target_addr.clone(),
            password: self.password.clone(),
            local_path: self.local_path.clone(),
            strip_pre: self.strip_pre.clone(),
            multi_account: copy_pairs(&self.multi_account),
            proto_version: self.proto_version.clone(),
            client_vkey: self.client_vkey.clone(),
            no_store: self.no_store,
        }
    }
}

/// A domain route of the HTTP/HTTPS host proxy.
#[derive(Debug)]
pub struct Host {
    pub id: u64,
    pub host: String,
    pub header_change: String,
    pub host_change: String,
    pub location: String,
    pub remark: String,
    pub scheme: String,
    pub cert_file_path: String,
    pub key_file_path: String,
    pub target: Target,
    pub client_vkey: String,
    pub no_store: bool,
    pub is_close: bool,
    pub auto_https: bool,
}

impl View for Host {
    type V = HostView;

    open spec fn view(&self) -> HostView {
        HostView {
            id: self.id,
            host: self.host@,
            header_change: self.header_change@,
            host_change: self.host_change@,
            location: self.location@,
            remark: self.remark@,
            scheme: self.scheme@,
            cert_file_path: self.cert_file_path@,
            key_file_path: self.key_file_path@,
            target: self.target@,
            client_vkey: self.client_vkey@,
            no_store: self.no_store,
            is_close: self.is_close,
            auto_https: self.auto_https,
        }
    }
}

impl Default for Host {
    fn default() -> (r: Self)
        ensures
            r@.id == 0,
            r@.host == Seq::<char>::empty(),
            r@.header_change == Seq::<char>::empty(),
            r@.host_change == Seq::<char>::empty(),
            r@.location == "/"@,
            r@.remark == Seq::<char>::empty(),
            r@.scheme == "all"@,
            r@.cert_file_path == Seq::<char>::empty(),
            r@.key_file_path == Seq::<char>::empty(),
            r@.target.target_str == Seq::<char>::empty(),
            !r@.target.local_proxy,
            r@.client_vkey == Seq::<char>::empty(),
            r@.no_store,
            !r@.is_close,
            !r@.auto_https,
    {
        Host {
            id: 0,
            host: String::new(),
            header_change: String::new(),
            host_change: String::new(),
            location: owned("/"),
            remark: String::new(),
            scheme: owned("all"),
            cert_file_path: String::new(),
            key_file_path: String::new(),
            target: Target::default(),
            client_vkey: String::new(),
            no_store: true,
            is_close: false,
            auto_https: false,
        }
    }
}

impl Host {
    /// A copy with the same view.
    pub fn duplicate(&self) -> (r: Self)
        ensures
            r@ == self@,
    {
        Host {
            id: self.id,
            host: self.host.clone(),
            header_change: self.header_change.clone(),
            host_change: self.host_change.clone(),
            location: self.location.clone(),
            remark: self.remark.clone(),
            scheme: self.scheme.clone(),
            cert_file_path: self.cert_file_path.clone(),
            key_file_path: self.key_file_path.clone(),
            target: self.target.duplicate(),
            client_vkey: self.client_vkey.clone(),
            no_store: self.no_store,
            is_close: self.is_close,
            auto_https: self.auto_https,
        }
    }
}

/// Runtime client metadata.
#[derive(Debug)]
pub struct ClientInfo {
    pub verify_key: String,
    pub remark: String,
    pub status: bool,
    pub compress: bool,
    pub crypt: bool,
    pub basic_username: String,
    pub basic_password: String,
    pub web_username: String,
    pub web_password: String,
    pub config_conn_allow: bool,
    pub rate_limit_kb: u64,
    pub flow_limit_mb: u64,
    pub max_conn: usize,
    pub max_tunnel_num: usize,
    pub black_ip_list: Vec<String>,
    pub ip_white: bool,
    pub ip_white_pass: String,
    pub ip_white_list: Vec<String>,
}

impl View for ClientInfo {
    type V = ClientInfoView;

    open spec fn view(&self) -> ClientInfoView {
        ClientInfoView {
            verify_key: self.verify_key@,
            remark: self.remark@,
            status: self.status,
            compress: self.compress,
            crypt: self.crypt,
            basic_username: self.basic_username@,
            basic_password: self.basic_password@,
            web_username: self.web_username@,
            web_password: self.web_password@,
            config_conn_allow: self.config_conn_allow,
            rate_limit_kb: self.rate_limit_kb,
            flow_limit_mb: self.flow_limit_mb,
            max_conn: self.max_conn,
            max_tunnel_num: self.max_tunnel_num,
            black_ip_list: strings_view(self.black_ip_list@),
            ip_white: self.ip_white,
            ip_white_pass: self.ip_white_pass@,
            ip_white_list: strings_view(self.ip_white_list@),
        }
    }
}

/// The value `config_conn_allow` takes when a stored record leaves it out.
pub fn default_config_conn_allow() -> (r: bool)
    ensures
        r,
{
    true
}

impl Default for ClientInfo {
    fn default() -> (r: Self)
        ensures
            r@.verify_key == Seq::<char>::empty(),
            r@.remark == Seq::<char>::empty(),
            r@.status,
            !r@.compress,
            !r@.crypt,
            r@.basic_username == Seq::<char>::empty(),
            r@.basic_password == Seq::<char>::empty(),
            r@.web_username == "user"@,
            r@.web_password == Seq::<char>::empty(),
            r@.config_conn_allow,
            r@.rate_limit_kb == 0,
            r@.flow_limit_mb == 0,
            r@.max_conn == 0,
            r@.max_tunnel_num == 0,
            r@.black_ip_list.len() == 0,
            !r@.ip_white,
            r@.ip_white_pass == Seq::<char>::empty(),
            r@.ip_white_list.len() == 0,
    {
        ClientInfo {
            verify_key: String::new(),
            remark: String::new(),
            status: true,
            compress: false,
            crypt: false,
            basic_username: String::new(),
            basic_password: String::new(),
            web_username: owned("user"),
            web_password: String::new(),
            config_conn_allow: default_config_conn_allow(),
            rate_limit_kb: 0,
            flow_limit_mb: 0,
            max_conn: 0,
            max_tunnel_num: 0,
            black_ip_list: Vec::new(),
            ip_white: false,
            ip_white_pass: String::new(),
            ip_white_list: Vec::new(),
        }
    }
}

impl ClientInfo {
    /// A copy with the same view.
    pub fn duplicate(&self) -> (r: Self)
        ensures
            r@ == self@,
    {
        ClientInfo {
            verify_key: self.verify_key.clone(),
            remark: self.remark.clone(),
            status: self.status,
            compress: self.compress,
            crypt: self.crypt,
            basic_username: self.basic_username.clone(),
            basic_password: self.basic_password.clone(),
            web_username: self.web_username.clone(),
            web_password: self.web_password.clone(),
            config_conn_allow: self.config_conn_allow,
            rate_limit_kb: self.rate_limit_kb,
            flow_limit_mb: self.flow_limit_mb,
            max_conn: self.max_conn,
            max_tunnel_num: self.max_tunnel_num,
            black_ip_list: copy_strings(&self.black_ip_list),
            ip_white: self.ip_white,
            ip_white_pass: self.ip_white_pass.clone(),
            ip_white_list: copy_strings(&self.ip_white_list),
        }
    }
}

/// The `[common]` section of `npc.conf`.
#[derive(Debug)]
pub struct CommonConfig {
    pub server_addr: String,
    pub conn_type: String,
    pub vkey: String,
    pub auto_reconnection: bool,
    pub tls_enable: bool,
    pub proxy_url: String,
    pub disconnect_timeout: u64,
    pub client: ClientInfo,
}

impl View for CommonConfig {
    type V = CommonConfigView;

    open spec fn view(&self) -> CommonConfigView {
        CommonConfigView {
            server_addr: self.server_addr@,
            conn_type: self.conn_type@,
            vkey: self.vkey@,
            auto_reconnection: self.auto_reconnection,
            tls_enable: self.tls_enable,
            proxy_url: self.proxy_url@,
            disconnect_timeout: self.disconnect_timeout,
            client: self.client@,
        }
    }
}

impl Default for CommonConfig {
    fn default() -> (r: Self)
        ensures
            r@.server_addr == "127.0.0.1:8024"@,
            r@.conn_type == "tcp"@,
            r@.vkey == "123"@,
            r@.auto_reconnection,
            !r@.tls_enable,
            r@.proxy_url == Seq::<char>::empty(),
            r@.disconnect_timeout == 60,
            r@.client.verify_key == Seq::<char>::empty(),
            r@.client.remark == Seq::<char>::empty(),
            r@.client.status,
            !r@.client.compress,
            !r@.client.crypt,
            r@.client.basic_username == Seq::<char>::empty(),
            r@.client.basic_password == Seq::<char>::empty(),
            r@.client.web_username == "user"@,
            r@.client.web_password == Seq::<char>::empty(),
            r@.client.config_conn_allow,
            r@.client.rate_limit_kb == 0,
            r@.client.flow_limit_mb == 0,
            r@.client.max_conn == 0,
            r@.client.max_tunnel_num == 0,
            r@.client.black_ip_list.len() == 0,
            !r@.client.ip_white,
            r@.client.ip_white_pass == Seq::<char>::empty(),
            r@.client.ip_white_list.len() == 0,
    {
        CommonConfig {
            server_addr: owned("127.0.0.1:8024"),
            conn_type: owned("tcp"),
            vkey: owned("123"),
            auto_reconnection: true,
            tls_enable: false,
            proxy_url: String::new(),
            disconnect_timeout: 60,
            client: ClientInfo::default(),
        }
    }
}

/// A health check rule of the client.
#[derive(Debug)]
pub struct HealthCheck {
    pub remark: String,
    pub timeout_secs: u64,
    pub max_failed: u32,
    pub interval_secs: u64,
    pub http_url: String,
    pub kind: String,
    pub targets: Vec<String>,
}

impl View for HealthCheck {
    type V = HealthCheckView;

    open spec fn view(&self) -> HealthCheckView {
        HealthCheckView {
            remark: self.remark@,
            timeout_secs: self.timeout_secs,
            max_failed: self.max_failed,
            interval_secs: self.interval_secs,
            http_url: self.http_url@,
            kind: self.kind@,
            targets: strings_view(self.targets@),
        }
    }
}

impl Default for HealthCheck {
    fn default() -> (r: Self)
        ensures
            r@.remark == Seq::<char>::empty(),
            r@.timeout_secs == 0,
            r@.max_failed == 0,
            r@.interval_secs == 0,
            r@.http_url == Seq::<char>::empty(),
            r@.kind == Seq::<char>::empty(),
            r@.targets.len() == 0,
    {
        HealthCheck {
            remark: String::new(),
            timeout_secs: 0,
            max_failed: 0,
            interval_secs: 0,
            http_url: String::new(),
            kind: String::new(),
            targets: Vec::new(),
        }
    }
}

/// A local visitor listener for secret or p2p tunnels.
#[derive(Debug)]
pub struct LocalServer {
    pub kind: String,
    pub ip: String,
    pub port: u16,
    pub password: String,
    pub target: String,
}

impl View for LocalServer {
    type V = LocalServerView;

    open spec fn view(&self) -> LocalServerView {
        LocalServerView {
            kind: self.kind@,
            ip: self.ip@,
            port: self.port,
            password: self.password@,
            target: self.target@,
        }
    }
}

impl Default for LocalServer {
    fn default() -> (r: Self)
        ensures
            r@.kind == Seq::<char>::empty(),
            r@.ip == Seq::<char>::empty(),
            r@.port == 0,
            r@.password == Seq::<char>::empty(),
            r@.target == Seq::<char>::empty(),
    {
        LocalServer {
            kind: String::new(),
            ip: String::new(),
            port: 0,
            password: String::new(),
            target: String::new(),
        }
    }
}

/// Everything a client runs with: common settings, tunnels, host routes,
/// health checks and local visitors.
#[derive(Debug)]
pub struct ClientRuntimeConfig {
    pub id: u64,
    pub no_store: bool,
    pub no_display: bool,
    pub create_time: String,
    pub last_online_time: String,
    pub last_online_addr: String,
    pub common: CommonConfig,
    pub hosts: Vec<Host>,
    pub tunnels: Vec<Tunnel>,
    pub healths: Vec<HealthCheck>,
    pub local_servers: Vec<LocalServer>,
}

pub open spec fn hosts_view(v: Seq<Host>) -> Seq<HostView> {
    Seq::new(v.len(), |i: int| v[i]@)
}

pub open spec fn tunnels_view(v: Seq<Tunnel>) -> Seq<TunnelView> {
    Seq::new(v.len(), |i: int| v[i]@)
}

pub open spec fn healths_view(v: Seq<HealthCheck>) -> Seq<HealthCheckView> {
    Seq::new(v.len(), |i: int| v[i]@)
}

pub open spec fn locals_view(v: Seq<LocalServer>) -> Seq<LocalServerView> {
    Seq::new(v.len(), |i: int| v[i]@)
}

pub open spec fn configs_view(v: Seq<ClientRuntimeConfig>) -> Seq<ClientRuntimeConfigView> {
    Seq::new(v.len(), |i: int| v[i]@)
}

impl View for ClientRuntimeConfig {
    type V = ClientRuntimeConfigView;

    open spec fn view(&self) -> ClientRuntimeConfigView {
        ClientRuntimeConfigView {
            id: self.id,
            no_store: self.no_store,
            no_display: self.no_display,
            create_time: self.create_time@,
            last_online_time: self.last_online_time@,
            last_online_addr: self.last_online_addr@,
            common: self.common@,
            hosts: hosts_view(self.hosts@),
            tunnels: tunnels_view(self.tunnels@),
            healths: healths_view(self.healths@),
            local_servers: locals_view(self.local_servers@),
        }
    }
}

impl HealthCheck {
    /// A copy with the same view.
    pub fn duplicate(&self) -> (r: Self)
        ensures
            r@ == self@,
    {
        HealthCheck {
            remark: self.remark.clone(),
            timeout_secs: self.timeout_secs,
            max_failed: self.max_failed,
            interval_secs: self.interval_secs,
            http_url: self.http_url.clone(),
            kind: self.kind.clone(),
            targets: copy_strings(&self.targets),
        }
    }
}

impl LocalServer {
    /// A copy with the same view.
    pub fn duplicate(&self) -> (r: Self)
        ensures
            r@ == self@,
    {
        LocalServer {
            kind: self.kind.clone(),
            ip: self.ip.clone(),
            port: self.port,
            password: self.password.clone(),
            target: self.target.clone(),
        }
    }
}

/// A copy of host routes with the same views.
pub fn copy_hosts(v: &Vec<Host>) -> (r: Vec<Host>)
    ensures
        hosts_view(r@) == hosts_view(v@),
{
    let mut r: Vec<Host> = Vec::new();
    let mut i: usize = 0;
    while i < v.len()
        invariant
            i <= v.len(),
            hosts_view(r@) == hosts_view(v@.take(i as int)),
        decreases v.len() - i,
    {
        let ghost before = r@;
        r.push(v[i].duplicate());
        assert(hosts_view(r@) =~= hosts_view(before).push(v@[i as int]@));
        assert(hosts_view(v@.take(i + 1)) =~= hosts_view(v@.take(i as int)).push(v@[i as int]@));
        i += 1;
    }
    assert(v@.take(v.len() as int) =~= v@);
    r
}

/// A copy of tunnels with the same views.
pub fn copy_tunnels(v: &Vec<Tunnel>) -> (r: Vec<Tunnel>)
    ensures
        tunnels_view(r@) == tunnels_view(v@),
{
    let mut r: Vec<Tunnel> = Vec::new();
    let mut i: usize = 0;
    while i < v.len()
        invariant
            i <= v.len(),
            tunnels_view(r@) == tunnels_view(v@.take(i as int)),
        decreases v.len() - i,
    {
        let ghost before = r@;
        r.push(v[i].duplicate());
        assert(tunnels_view(r@) =~= tunnels_view(before).push(v@[i as int]@));
        assert(tunnels_view(v@.take(i + 1)) =~= tunnels_view(v@.take(i as int)).push(v@[i as int]@));
        i += 1;
    }
    assert(v@.take(v.len() as int) =~= v@);
    r
}

/// A copy of health checks with the same views.
pub fn copy_healths(v: &Vec<HealthCheck>) -> (r: Vec<HealthCheck>)
    ensures
        healths_view(r@) == healths_view(v@),
{
    let mut r: Vec<HealthCheck> = Vec::new();
    let mut i: usize = 0;
    while i < v.len()
        invariant
            i <= v.len(),
            healths_view(r@) == healths_view(v@.take(i as int)),
        decreases v.len() - i,
    {
        let ghost before = r@;
        r.push(v[i].duplicate());
        assert(healths_view(r@) =~= healths_view(before).push(v@[i as int]@));
        assert(healths_view(v@.take(i + 1)) =~= healths_view(v@.take(i as int)).push(v@[i as int]@));
        i += 1;
    }
    assert(v@.take(v.len() as int) =~= v@);
    r
}

/// A copy of local visitors with the same views.
pub fn copy_locals(v: &Vec<LocalServer>) -> (r: Vec<LocalServer>)
    ensures
        locals_view(r@) == locals_view(v@),
{
    let mut r: Vec<LocalServer> = Vec::new();
    let mut i: usize = 0;
    while i < v.len()
        invariant
            i <= v.len(),
            locals_view(r@) == locals_view(v@.take(i as int)),
        decreases v.len() - i,
    {
        let ghost before = r@;
        r.push(v[i].duplicate());
        assert(locals_view(r@) =~= locals_view(before).push(v@[i as int]@));
        assert(locals_view(v@.take(i + 1)) =~= locals_view(v@.take(i as int)).push(v@[i as int]@));
        i += 1;
    }
    assert(v@.take(v.len() as int) =~= v@);
    r
}

impl ClientRuntimeConfig {
    /// A copy with the same view.
    pub fn duplicate(&self) -> (r: Self)
        ensures
            r@ == self@,
    {
        ClientRuntimeConfig {
            id: self.id,
            no_store: self.no_store,
            no_display: self.no_display,
            create_time: self.create_time.clone(),
            last_online_time: self.last_online_time.clone(),
            last_online_addr: self.last_online_addr.clone(),
            common: self.common.duplicate(),
            hosts: copy_hosts(&self.hosts),
            tunnels: copy_tunnels(&self.tunnels),
            healths: copy_healths(&self.healths),
            local_servers: copy_locals(&self.local_servers),
        }
    }
}

impl Default for ClientRuntimeConfig {
    fn default() -> (r: Self)
        ensures
            r@.id == 0,
            !r@.no_store,
            !r@.no_display,
            r@.create_time == Seq::<char>::empty(),
            r@.last_online_time == Seq::<char>::empty(),
            r@.last_online_addr == Seq::<char>::empty(),
            r@.common == CommonConfig::default_view(),
            r@.hosts.len() == 0,
            r@.tunnels.len() == 0,
            r@.healths.len() == 0,
            r@.local_servers.len() == 0,
    {
        let common = CommonConfig::default();
        proof {
            CommonConfig::lemma_default_view(common);
        }
        ClientRuntimeConfig {
            id: 0,
            no_store: false,
            no_display: false,
            create_time: String::new(),
            last_online_time: String::new(),
            last_online_addr: String::new(),
            common,
            hosts: Vec::new(),
            tunnels: Vec::new(),
            healths: Vec::new(),
            local_servers: Vec::new(),
        }
    }
}

impl CommonConfig {
    /// A copy with the same view.
    pub fn duplicate(&self) -> (r: Self)
        ensures
            r@ == self@,
    {
        CommonConfig {
            server_addr: self.server_addr.clone(),
            conn_type: self.conn_type.clone(),
            vkey: self.vkey.clone(),
            auto_reconnection: self.auto_reconnection,
            tls_enable: self.tls_enable,
            proxy_url: self.proxy_url.clone(),
            disconnect_timeout: self.disconnect_timeout,
            client: self.client.duplicate(),
        }
    }

    /// The view of `CommonConfig::default()`.
    pub open spec fn default_view() -> CommonConfigView {
        CommonConfigView {
            server_addr: "127.0.0.1:8024"@,
            conn_type: "tcp"@,
            vkey: "123"@,
            auto_reconnection: true,
            tls_enable: false,
            proxy_url: Seq::empty(),
            disconnect_timeout: 60,
            client: ClientInfoView {
                verify_key: Seq::empty(),
                remark: Seq::empty(),
                status: true,
                compress: false,
                crypt: false,
                basic_username: Seq::empty(),
                basic_password: Seq::empty(),
                web_username: "user"@,
                web_password: Seq::empty(),
                config_conn_allow: true,
                rate_limit_kb: 0,
                flow_limit_mb: 0,
                max_conn: 0,
                max_tunnel_num: 0,
                black_ip_list: Seq::empty(),
                ip_white: false,
                ip_white_pass: Seq::empty(),
                ip_white_list: Seq::empty(),
            },
        }
    }

    /// A value whose fields are those of the default has the default view.
    pub proof fn lemma_default_view(c: CommonConfig)
        requires
            c@.server_addr == "127.0.0.1:8024"@,
            c@.conn_type == "tcp"@,
            c@.vkey == "123"@,
            c@.auto_reconnection,
            !c@.tls_enable,
            c@.proxy_url == Seq::<char>::empty(),
            c@.disconnect_timeout == 60,
            c@.client.verify_key == Seq::<char>::empty(),
            c@.client.remark == Seq::<char>::empty(),
            c@.client.status,
            !c@.client.compress,
            !c@.client.crypt,
            c@.client.basic_username == Seq::<char>::empty(),
            c@.client.basic_password == Seq::<char>::empty(),
            c@.client.web_username == "user"@,
            c@.client.web_password == Seq::<char>::empty(),
            c@.client.config_conn_allow,
            c@.client.rate_limit_kb == 0,
            c@.client.flow_limit_mb == 0,
            c@.client.max_conn == 0,
            c@.client.max_tunnel_num == 0,
            c@.client.black_ip_list.len() == 0,
            !c@.client.ip_white,
            c@.client.ip_white_pass == Seq::<char>::empty(),
            c@.client.ip_white_list.len() == 0,
        ensures
            c@ == Self::default_view(),
    {
        assert(c@.client.black_ip_list =~= Seq::empty());
        assert(c@.client.ip_white_list =~= Seq::empty());
    }
}

/// Traffic counters of one client, in bytes.
#[derive(Debug, Clone, Copy, PartialEq, Eq, Structural, Default)]
pub struct FlowCounter {
    pub inlet_flow: u64,
    pub export_flow: u64,
}

/// Server wide settings kept by the web manager.
#[derive(Debug)]
pub struct GlobalConfig {
    pub black_ip_list: Vec<String>,
    pub server_url: String,
}

impl View for GlobalConfig {
    type V = GlobalConfigView;

    open spec fn view(&self) -> GlobalConfigView {
        GlobalConfigView {
            black_ip_list: strings_view(self.black_ip_list@),
            server_url: self.server_url@,
        }
    }
}

impl Default for GlobalConfig {
    fn default() -> (r: Self)
        ensures
            r@.black_ip_list.len() == 0,
            r@.server_url == Seq::<char>::empty(),
    {
        GlobalConfig { black_ip_list: Vec::new(), server_url: String::new() }
    }
}

} // verus!
