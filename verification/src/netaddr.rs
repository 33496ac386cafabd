//! IP addresses and networks as plain numbers, and the resolution of a
//! request's client address behind trusted reverse proxies. Reading and
//! writing addresses as text is left to the caller.

use vstd::prelude::*;
use crate::seqs::split_on;
use crate::text::{trim_ws, trim_whitespace, chars_of, string_from_chars};

verus! {

/// An IP address: IPv4 as a 32-bit number, IPv6 as a 128-bit number, both in
/// network byte order.
#[derive(Clone, Copy, Debug, PartialEq, Eq, Structural)]
pub enum IpAddress {
    V4(u32),
    V6(u128),
}

/// An IP network: an address and a prefix length of at most 32 (IPv4) or 128
/// (IPv6) bits.
#[derive(Clone, Copy, Debug, PartialEq, Eq, Structural)]
pub enum IpNetwork {
    /// An IPv4 network: address and prefix length.
    V4(u32, u8),
    /// An IPv6 network: address and prefix length.
    V6(u128, u8),
}

/// The prefix length fits the address family.
pub open spec fn net_wf(n: IpNetwork) -> bool {
    match n {
        IpNetwork::V4(_, prefix) => prefix <= 32,
        IpNetwork::V6(_, prefix) => prefix <= 128,
    }
}

/// `Ipv6Addr::to_ipv4_mapped`: an address `::ffff:a.b.c.d` as IPv4, other
/// addresses as they are.
pub open spec fn normalize_ip_spec(ip: IpAddress) -> IpAddress {
    if ip matches IpAddress::V6(v) && 0xffff_0000_0000 <= v < 0x1_0000_0000_0000 {
        IpAddress::V4((ip->V6_0 - 0xffff_0000_0000) as u32)
    } else {
        ip
    }
}

/// Treats an IPv4-mapped IPv6 address as the IPv4 address it carries.
pub fn normalize_ip(ip: IpAddress) -> (r: IpAddress)
    ensures r == normalize_ip_spec(ip),
{
    match ip {
        IpAddress::V6(v) => if v / 0x1_0000_0000 == 0xffff {
            IpAddress::V4((v % 0x1_0000_0000) as u32)
        } else {
            ip
        },
        IpAddress::V4(_) => ip,
    }
}

/// The first and the last address of a network, as ipnet computes them: the
/// address with its host bits cleared, and with them set.
pub open spec fn v4_bounds(addr: u32, prefix: u8) -> (u32, u32) {
    let mask: u32 = if prefix == 0 { 0 } else { (0xffff_ffffu32 << ((32 - prefix) as u32)) as u32 };
    let host: u32 = if prefix == 32 { 0 } else { (0xffff_ffffu32 >> (prefix as u32)) as u32 };
    ((addr & mask) as u32, (addr | host) as u32)
}

pub open spec fn v6_bounds(addr: u128, prefix: u8) -> (u128, u128) {
    let mask: u128 = if prefix == 0 { 0 } else { (u128::MAX << ((128 - prefix) as u32)) as u128 };
    let host: u128 = if prefix == 128 { 0 } else { (u128::MAX >> (prefix as u32)) as u128 };
    ((addr & mask) as u128, (addr | host) as u128)
}

/// `ipnet::IpNet::contains` for an address: same family, and between the
/// network's first and last address.
pub open spec fn net_contains_spec(n: IpNetwork, ip: IpAddress) -> bool {
    match (n, ip) {
        (IpNetwork::V4(addr, prefix), IpAddress::V4(v)) => v4_bounds(addr, prefix).0 <= v <= v4_bounds(addr, prefix).1,
        (IpNetwork::V6(addr, prefix), IpAddress::V6(v)) => v6_bounds(addr, prefix).0 <= v <= v6_bounds(addr, prefix).1,
        _ => false,
    }
}

/// Whether the network `n` holds `ip`, as `ipnet::IpNet::contains` decides:
/// same family, and between the network's first and last address.
pub fn net_contains(n: IpNetwork, ip: IpAddress) -> (r: bool)
    requires net_wf(n),
    ensures r == net_contains_spec(n, ip),
{
    match (n, ip) {
        (IpNetwork::V4(addr, prefix), IpAddress::V4(v)) => {
            let mask: u32 = if prefix == 0 { 0 } else { 0xffff_ffffu32 << ((32 - prefix) as u32) };
            let host: u32 = if prefix == 32 { 0 } else { 0xffff_ffffu32 >> (prefix as u32) };
            (addr & mask) <= v && v <= (addr | host)
        },
        (IpNetwork::V6(addr, prefix), IpAddress::V6(v)) => {
            let mask: u128 = if prefix == 0 { 0 } else { u128::MAX << ((128 - prefix) as u32) };
            let host: u128 = if prefix == 128 { 0 } else { u128::MAX >> (prefix as u32) };
            (addr & mask) <= v && v <= (addr | host)
        },
        _ => false,
    }
}

/// The entry `o` names a network that holds `ip`.
pub open spec fn net_holds(o: Option<IpNetwork>, ip: IpAddress) -> bool {
    match o {
        Some(n) => net_contains_spec(n, ip),
        None => false,
    }
}

/// Some trusted network holds `ip`.
pub open spec fn is_trusted(nets: Seq<Option<IpNetwork>>, ip: IpAddress) -> bool {
    exists|i: int| 0 <= i < nets.len() && net_holds(#[trigger] nets[i], ip)
}

/// The client address of a request. `forwarded` is the first entry of its
/// `X-Forwarded-For` header when it has one, read as an address where it is
/// one; `trusted` holds the networks of the configured trusted proxies (an
/// entry that names none is `None`). The connecting address counts unless
/// proxies are trusted, the trusted list is not empty, one of its networks
/// holds the connecting address, and the forwarded entry is an address.
pub open spec fn client_ip_spec(socket: IpAddress, trust_proxy: bool, forwarded: Option<Option<IpAddress>>, trusted: Option<Seq<Option<IpNetwork>>>) -> IpAddress {
    let s = normalize_ip_spec(socket);
    if !trust_proxy {
        s
    } else {
        match forwarded {
            None => s,
            Some(first) => match trusted {
                None => s,
                Some(nets) => if nets.len() == 0 || !is_trusted(nets, s) {
                    s
                } else {
                    match first {
                        Some(ip) => normalize_ip_spec(ip),
                        None => s,
                    }
                },
            },
        }
    }
}

/// The entry names no network, or one that fits its address family.
pub open spec fn opt_net_wf(o: Option<IpNetwork>) -> bool {
    match o {
        Some(n) => net_wf(n),
        None => true,
    }
}

/// Every network of the list fits its address family.
pub open spec fn nets_wf(nets: Seq<Option<IpNetwork>>) -> bool {
    forall|i: int| 0 <= i < nets.len() ==> opt_net_wf(#[trigger] nets[i])
}

/// Resolves the client address of a request from its connecting address and,
/// when the connecting address is a trusted proxy, its `X-Forwarded-For`
/// header. Without a non-empty trusted list the header is ignored.
pub fn resolve_client_ip(socket: IpAddress, trust_proxy: bool, forwarded: Option<Option<IpAddress>>, trusted: Option<&Vec<Option<IpNetwork>>>) -> (r: IpAddress)
    requires
        trusted matches Some(l) ==> nets_wf(l@),
    ensures
        r == client_ip_spec(socket, trust_proxy, forwarded, match trusted { Some(l) => Some(l@), None => None }),
{
    let socket_ip = normalize_ip(socket);
    if !trust_proxy {
        return socket_ip;
    }
    let first = match forwarded {
        None => return socket_ip,
        Some(f) => f,
    };
    let nets = match trusted {
        None => return socket_ip,
        Some(l) => l,
    };
    if nets.len() == 0 {
        return socket_ip;
    }
    let mut found = false;
    let mut i: usize = 0;
    while i < nets.len()
        invariant
            nets_wf(nets@),
            i <= nets@.len(),
            found ==> is_trusted(nets@, socket_ip),
            !found ==> forall|k: int| 0 <= k < i ==> !net_holds(#[trigger] nets@[k], socket_ip),
        decreases nets@.len() - i,
    {
        match nets[i] {
            Some(n) => {
                assert(opt_net_wf(nets@[i as int]));
                if net_contains(n, socket_ip) {
                    found = true;
                }
            },
            None => {},
        }
        i = i + 1;
    }
    if !found {
        return socket_ip;
    }
    match first {
        Some(ip) => normalize_ip(ip),
        None => socket_ip,
    }
}

/// The first entry of an `X-Forwarded-For` header, trimmed.
pub open spec fn first_forwarded(h: Seq<char>) -> Seq<char> {
    trim_ws(split_on(h, ',', ',')[0])
}

/// The first entry of an `X-Forwarded-For` header, trimmed of white space.
pub fn first_forwarded_entry(h: &str) -> (r: String)
    ensures r@ == first_forwarded(h@),
{
    let v = chars_of(h);
    let mut i: usize = 0;
    while i < v.len() && v[i] != ','
        invariant
            v@ == h@,
            i <= v@.len(),
            forall|k: int| 0 <= k < i ==> v@[k] != ',',
        decreases v@.len() - i,
    {
        i = i + 1;
    }
    proof { crate::seqs::lemma_split_on_first(h@, ',', ',', i as int); }
    let first = string_from_chars(&crate::seqs::slice_chars(&v, 0, i));
    trim_whitespace(first.as_str())
}

/// When proxies are not trusted, the client address is the connecting one,
/// whatever the headers say.
pub proof fn law_untrusted_proxy_ignores_header(socket: IpAddress, forwarded: Option<Option<IpAddress>>, trusted: Option<Seq<Option<IpNetwork>>>)
    ensures client_ip_spec(socket, false, forwarded, trusted) == normalize_ip_spec(socket),
{
}

/// Without a configured, non-empty list of trusted proxies, `X-Forwarded-For`
/// is ignored.
pub proof fn law_no_trusted_list_ignores_header(socket: IpAddress, trust_proxy: bool, forwarded: Option<Option<IpAddress>>)
    ensures
        client_ip_spec(socket, trust_proxy, forwarded, None) == normalize_ip_spec(socket),
        client_ip_spec(socket, trust_proxy, forwarded, Some(Seq::empty())) == normalize_ip_spec(socket),
{
}

/// A connecting address outside every trusted network cannot name another
/// client address.
pub proof fn law_untrusted_socket_ignores_header(socket: IpAddress, forwarded: Option<Option<IpAddress>>, nets: Seq<Option<IpNetwork>>)
    requires !is_trusted(nets, normalize_ip_spec(socket)),
    ensures client_ip_spec(socket, true, forwarded, Some(nets)) == normalize_ip_spec(socket),
{
}

/// The resolved address is the connecting one or the forwarded one.
pub proof fn law_client_ip_is_socket_or_forwarded(socket: IpAddress, trust_proxy: bool, forwarded: Option<Option<IpAddress>>, trusted: Option<Seq<Option<IpNetwork>>>)
    ensures
        client_ip_spec(socket, trust_proxy, forwarded, trusted) == normalize_ip_spec(socket)
            || (forwarded matches Some(Some(ip)) && client_ip_spec(socket, trust_proxy, forwarded, trusted) == normalize_ip_spec(ip)),
{
}


proof fn lemma_v4_range_is_prefix(a: u32, v: u32, p: u32)
    by (bit_vector)
    requires 1 <= p <= 32,
    ensures
        ((a & (0xffff_ffffu32 << ((32 - p) as u32))) <= v && v <= (a | (if p == 32 { 0u32 } else { 0xffff_ffffu32 >> p })))
            <==> (v >> ((32 - p) as u32)) == (a >> ((32 - p) as u32)),
{
}

#[verifier::rlimit(100)]
#[verifier::spinoff_prover]
proof fn lemma_v6_range_is_prefix(a: u128, v: u128, p: u32)
    by (bit_vector)
    requires 1 <= p <= 128,
    ensures
        ((a & (0xffff_ffff_ffff_ffff_ffff_ffff_ffff_ffffu128 << ((128 - p) as u32))) <= v
            && v <= (a | (if p == 128 { 0u128 } else { 0xffff_ffff_ffff_ffff_ffff_ffff_ffff_ffffu128 >> p })))
            <==> (v >> ((128 - p) as u32)) == (a >> ((128 - p) as u32)),
{
}

/// A network holds exactly the addresses of its family whose first `prefix`
/// bits are those of the network's address; a prefix of 0 holds every
/// address of the family, and no network holds an address of the other
/// family.
pub proof fn law_network_holds_its_prefix(n: IpNetwork, ip: IpAddress)
    requires net_wf(n),
    ensures
        net_contains_spec(n, ip) <==> match (n, ip) {
            (IpNetwork::V4(a, p), IpAddress::V4(v)) =>
                p == 0 || (v >> ((32 - p) as u32)) == (a >> ((32 - p) as u32)),
            (IpNetwork::V6(a, p), IpAddress::V6(v)) =>
                p == 0 || (v >> ((128 - p) as u32)) == (a >> ((128 - p) as u32)),
            _ => false,
        },
{
    match (n, ip) {
        (IpNetwork::V4(a, p), IpAddress::V4(v)) => {
            if p == 0 {
                assert((0xffff_ffffu32 >> 0u32) == 0xffff_ffffu32) by (bit_vector);
                assert((a & 0u32) == 0u32 && (a | 0xffff_ffffu32) == 0xffff_ffffu32) by (bit_vector);
            } else {
                let q = p as u32;
                lemma_v4_range_is_prefix(a, v, q);
                assert((32 - p) as u32 == (32 - q) as u32);
            }
        },
        (IpNetwork::V6(a, p), IpAddress::V6(v)) => {
            if p == 0 {
                assert((0xffff_ffff_ffff_ffff_ffff_ffff_ffff_ffffu128 >> 0u32) == 0xffff_ffff_ffff_ffff_ffff_ffff_ffff_ffffu128) by (bit_vector);
                assert((a & 0u128) == 0u128 && (a | 0xffff_ffff_ffff_ffff_ffff_ffff_ffff_ffffu128) == 0xffff_ffff_ffff_ffff_ffff_ffff_ffff_ffffu128) by (bit_vector);
            } else {
                let q = p as u32;
                lemma_v6_range_is_prefix(a, v, q);
                assert((128 - p) as u32 == (128 - q) as u32);
            }
        },
        _ => {},
    }
}
} // verus!
