//! Verified core of a NAT-traversal proxy: configuration parsing, wire
//! framing, HTTP head handling, tunnel bookkeeping and access policy.
pub mod bridge;
pub mod bytes;
pub mod captcha;
pub mod cache;
pub mod config;
pub mod grants;
pub mod http;
pub mod kv;
pub mod listing;
pub mod logging;
pub mod model;
pub mod mux;
pub mod npc;
pub mod policy;
pub mod protocol;
pub mod registry;
pub mod relay;
pub mod slots;
pub mod socks5;
pub mod store;
pub mod table;
pub mod text;
pub mod tls;
pub mod web;
