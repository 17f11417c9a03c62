//! The SOCKS5 handshake of a socks5 tunnel: no authentication, `CONNECT`
//! only. The steps read fixed-size pieces of the stream and decide.
use vstd::prelude::*;
use vstd::utf8::encode_utf8;
use crate::text::{append, append_str, chars_of, dec, dec_exec, string_of};
use crate::http::{hex_lower, hex_lower_of};

verus! {

broadcast use vstd::string::group_string_axioms;

/// Why a SOCKS5 handshake failed.
#[derive(PartialEq, Eq, Structural, Clone, Copy, Debug)]
pub enum Socks5Error {
    /// The first byte is not version 5.
    NotSocks5,
    /// The client offers no "no authentication" method.
    NoSupportedAuth,
    /// The request is not a version 5 `CONNECT`.
    OnlyConnect,
    /// The address type is not IPv4, domain or IPv6.
    UnsupportedAddressType,
}

impl Socks5Error {
    /// The message reported for the error.
    pub fn message(&self) -> (r: &'static str)
        ensures
            r@ == match *self {
                Socks5Error::NotSocks5 => "not socks5"@,
                Socks5Error::NoSupportedAuth => "no supported auth"@,
                Socks5Error::OnlyConnect => "only CONNECT is supported"@,
                Socks5Error::UnsupportedAddressType => "unsupported address type"@,
            },
    {
        match *self {
            Socks5Error::NotSocks5 => "not socks5",
            Socks5Error::NoSupportedAuth => "no supported auth",
            Socks5Error::OnlyConnect => "only CONNECT is supported",
            Socks5Error::UnsupportedAddressType => "unsupported address type",
        }
    }
}

/// The greeting `[version, nmethods]`: the number of method bytes that
/// follow.
pub fn socks5_greeting(version: u8, nmethods: u8) -> (r: Result<usize, Socks5Error>)
    ensures
        version == 5 ==> r == Ok::<usize, Socks5Error>(nmethods as usize),
        version != 5 ==> r == Err::<usize, Socks5Error>(Socks5Error::NotSocks5),
{
    if version != 0x05 {
        return Err(Socks5Error::NotSocks5);
    }
    Ok(nmethods as usize)
}

/// The method reply: `[5, 0]` when "no authentication" is offered, else
/// `[5, 0xff]` and the handshake fails.
pub fn socks5_method_reply(methods: &[u8]) -> (r: (Vec<u8>, Result<(), Socks5Error>))
    ensures
        methods@.contains(0u8) ==> r.0@ == seq![5u8, 0u8] && r.1 is Ok,
        !methods@.contains(0u8) ==> r.0@ == seq![5u8, 0xffu8] && r.1 == Err::<(), Socks5Error>(
            Socks5Error::NoSupportedAuth,
        ),
{
    let mut found = false;
    let mut i: usize = 0;
    while i < methods.len()
        invariant
            i <= methods@.len(),
            found <==> exists|j: int| 0 <= j < i && methods@[j] == 0u8,
        decreases methods@.len() - i,
    {
        if methods[i] == 0 {
            found = true;
        }
        i += 1;
    }
    let mut reply: Vec<u8> = Vec::new();
    reply.push(5);
    if found {
        reply.push(0);
        assert(reply@ =~= seq![5u8, 0u8]);
        (reply, Ok(()))
    } else {
        reply.push(0xff);
        assert(reply@ =~= seq![5u8, 0xffu8]);
        assert(!methods@.contains(0u8)) by {
            if methods@.contains(0u8) {
                let j = choose|j: int| 0 <= j < methods@.len() && methods@[j] == 0u8;
                assert(exists|k: int| 0 <= k < i && methods@[k] == 0u8);
            }
        }
        (reply, Err(Socks5Error::NoSupportedAuth))
    }
}

/// The address of a request.
#[derive(PartialEq, Eq, Structural, Clone, Copy, Debug)]
pub enum Socks5Address {
    /// Four bytes follow.
    V4,
    /// A length byte and that many name bytes follow.
    Domain,
    /// Sixteen bytes follow.
    V6,
}

/// The request head `[version, command, reserved, address type]`.
pub fn socks5_request(version: u8, command: u8, atyp: u8) -> (r: Result<Socks5Address, Socks5Error>)
    ensures
        (version != 5 || command != 1) ==> r == Err::<Socks5Address, Socks5Error>(Socks5Error::OnlyConnect),
        version == 5 && command == 1 ==> r == match atyp {
            1u8 => Ok::<Socks5Address, Socks5Error>(Socks5Address::V4),
            3u8 => Ok(Socks5Address::Domain),
            4u8 => Ok(Socks5Address::V6),
            _ => Err(Socks5Error::UnsupportedAddressType),
        },
{
    if version != 0x05 || command != 0x01 {
        return Err(Socks5Error::OnlyConnect);
    }
    match atyp {
        0x01 => Ok(Socks5Address::V4),
        0x03 => Ok(Socks5Address::Domain),
        0x04 => Ok(Socks5Address::V6),
        _ => Err(Socks5Error::UnsupportedAddressType),
    }
}

/// Dotted decimal of four bytes.
pub open spec fn spec_ipv4_text(b: Seq<u8>) -> Seq<char> {
    dec(b[0] as nat) + seq!['.'] + dec(b[1] as nat) + seq!['.'] + dec(b[2] as nat) + seq!['.'] + dec(
        b[3] as nat,
    )
}

/// The host of an IPv4 address.
pub fn socks5_ipv4_host(b: &[u8]) -> (r: String)
    requires
        b@.len() == 4,
    ensures
        r@ == spec_ipv4_text(b@),
{
    let mut t = dec_exec(b[0] as u64);
    t.push('.');
    append(&mut t, &dec_exec(b[1] as u64));
    t.push('.');
    append(&mut t, &dec_exec(b[2] as u64));
    t.push('.');
    append(&mut t, &dec_exec(b[3] as u64));
    assert(t@ =~= spec_ipv4_text(b@));
    string_of(&t)
}

/// Eight groups of four lowercase hex digits joined by `:`.
pub open spec fn spec_ipv6_text(b: Seq<u8>) -> Seq<char>
    decreases b.len(),
{
    if b.len() <= 2 {
        hex_lower(b)
    } else {
        spec_ipv6_text(b.subrange(0, b.len() - 2)) + seq![':'] + hex_lower(b.subrange(b.len() - 2, b.len() as int))
    }
}

/// The host of an IPv6 address: every two bytes as four hex digits,
/// joined by `:` (not shortened).
pub fn socks5_ipv6_host(b: &[u8]) -> (r: String)
    requires
        b@.len() == 16,
    ensures
        r@ == spec_ipv6_text(b@),
{
    let mut t: Vec<char> = Vec::new();
    let mut k: usize = 0;
    while k < 8
        invariant
            b@.len() == 16,
            k <= 8,
            k == 0 ==> t@.len() == 0,
            k > 0 ==> t@ == spec_ipv6_text(b@.subrange(0, 2 * k as int)),
        decreases 8 - k,
    {
        let pair = crate::bytes::sub_bytes(b, 2 * k, 2 * k + 2);
        let h = hex_lower_of(pair.as_slice());
        let hc = chars_of(h.as_str());
        if k > 0 {
            t.push(':');
        }
        append(&mut t, &hc);
        proof {
            let s = b@.subrange(0, 2 * k + 2);
            assert(s.subrange(0, s.len() - 2) =~= b@.subrange(0, 2 * k as int));
            assert(s.subrange(s.len() - 2, s.len() as int) =~= pair@);
            if k == 0 {
                assert(t@ =~= hex_lower(pair@));
            }
        }
        k += 1;
    }
    assert(b@.subrange(0, 16) =~= b@);
    string_of(&t)
}

/// The host of a domain address, read as `String::from_utf8_lossy` reads it.
pub fn socks5_domain_host(name: &[u8]) -> (r: String)
    ensures
        r@ == crate::http::lossy_text(name@),
{
    string_of(&crate::http::utf8_lossy(name))
}

/// `host:port` of a request, the port in network byte order.
pub fn socks5_target(host: &str, port_hi: u8, port_lo: u8) -> (r: String)
    ensures
        r@ == host@ + seq![':'] + dec(port_hi as nat * 256 + port_lo as nat),
{
    let mut t = chars_of(host);
    t.push(':');
    let port: u64 = port_hi as u64 * 256 + port_lo as u64;
    append(&mut t, &dec_exec(port));
    string_of(&t)
}

/// The success reply, bound to `0.0.0.0:0`: the real connection is made by
/// the client.
pub fn socks5_success_reply() -> (r: Vec<u8>)
    ensures
        r@ == seq![5u8, 0u8, 0u8, 1u8, 0u8, 0u8, 0u8, 0u8, 0u8, 0u8],
{
    let r: Vec<u8> = vec![0x05, 0x00, 0x00, 0x01, 0, 0, 0, 0, 0, 0];
    assert(r@ =~= seq![5u8, 0u8, 0u8, 1u8, 0u8, 0u8, 0u8, 0u8, 0u8, 0u8]);
    r
}

} // verus!
