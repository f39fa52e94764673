//! Notation of socket addresses: `a.b.c.d:port` and `[groups]:port`.

use crate::inet::{IpAddr, Ipv6Addr, SocketAddr};
use crate::ipv4_text::{
    ipv4_of_text, ipv4_text, lemma_ipv4_text_chars, lemma_ipv4_text_round_trip, parse_ipv4,
    push_ipv4,
};
use crate::ipv6_round_trip::{lemma_groups_text_chars, lemma_ipv6_text_round_trip};
use crate::ipv6_text::{ipv6_of_text, ipv6_text, parse_ipv6, push_ipv6};
use crate::numeral::{dec_text, dec_value, is_dec_numeral, lemma_dec_text, parse_dec, push_dec};
use crate::text::{lemma_split_append, lemma_split_whole, split, split_chars};
use vstd::prelude::*;

verus! {

/// `s` is the numeral of a port: decimal digits that stand for a number of
/// at most 65535. Leading zeros are allowed.
pub open spec fn is_port_text(s: Seq<char>) -> bool {
    is_dec_numeral(s, 65535)
}

/// The IPv4 endpoint that `s` denotes, if it denotes one: an address in
/// dotted-quad notation, a colon and a port.
pub open spec fn socket_addr_v4_of_text(s: Seq<char>) -> Option<SocketAddr> {
    let p = split(s, ':');
    if p.len() == 2 && is_port_text(p[1]) {
        match ipv4_of_text(p[0]) {
            Some(ip) => Some(SocketAddr { ip: IpAddr::V4(ip), port: dec_value(p[1]) as u16 }),
            None => None,
        }
    } else {
        None
    }
}

/// The IPv6 endpoint that `s` denotes, if it denotes one: an address in
/// colon-hexadecimal notation between square brackets, a colon and a port.
pub open spec fn socket_addr_v6_of_text(s: Seq<char>) -> Option<SocketAddr> {
    if s.len() >= 1 && s[0] == '[' {
        let p = split(s.drop_first(), ']');
        if p.len() == 2 && p[1].len() >= 1 && p[1][0] == ':' && is_port_text(p[1].drop_first()) {
            match ipv6_of_text(p[0]) {
                Some(ip) => Some(
                    SocketAddr { ip: IpAddr::V6(ip), port: dec_value(p[1].drop_first()) as u16 },
                ),
                None => None,
            }
        } else {
            None
        }
    } else {
        None
    }
}

/// The endpoint that `s` denotes in numeric notation, if it denotes one.
pub open spec fn socket_addr_of_text(s: Seq<char>) -> Option<SocketAddr> {
    if s.len() >= 1 && s[0] == '[' {
        socket_addr_v6_of_text(s)
    } else {
        socket_addr_v4_of_text(s)
    }
}

/// The canonical notation of `a`: `ip:port`, with square brackets around an
/// IPv6 address.
pub open spec fn socket_addr_text(a: SocketAddr) -> Seq<char> {
    match a.ip {
        IpAddr::V4(ip) => ipv4_text(ip).push(':') + dec_text(a.port as nat),
        IpAddr::V6(ip) => seq!['['] + ipv6_text(ip) + seq![']', ':'] + dec_text(a.port as nat),
    }
}

/// The canonical notation of an IPv6 address holds no closing bracket.
pub proof fn lemma_ipv6_text_no_bracket(ip: Ipv6Addr)
    ensures
        forall|j: int| 0 <= j < ipv6_text(ip).len() ==> ipv6_text(ip)[j] != ']',
{
    lemma_groups_text_chars(ip.segments@);
}

/// Reading the canonical notation of an endpoint gives the endpoint back.
pub proof fn lemma_socket_addr_text_round_trip(a: SocketAddr)
    ensures
        socket_addr_of_text(socket_addr_text(a)) == Some(a),
{
    let t = socket_addr_text(a);
    let port = dec_text(a.port as nat);
    lemma_dec_text(a.port as nat);
    match a.ip {
        IpAddr::V4(ip) => {
            let quad = ipv4_text(ip);
            lemma_ipv4_text_chars(ip);
            lemma_ipv4_text_round_trip(ip);
            lemma_split_whole(quad, ':');
            lemma_split_append(quad, port, ':');
        },
        IpAddr::V6(ip) => {
            let body = ipv6_text(ip);
            lemma_ipv6_text_no_bracket(ip);
            lemma_ipv6_text_round_trip(ip);
            let rest = seq![':'] + port;
            assert(t.drop_first() =~= body.push(']') + rest);
            lemma_split_whole(body, ']');
            lemma_split_append(body, rest, ']');
            assert(rest.drop_first() =~= port);
        },
    }
}

/// Reads `s` as the numeral of a port.
pub fn parse_port(s: &[char]) -> (r: Option<u16>)
    ensures
        r == (if is_port_text(s@) {
            Some(dec_value(s@) as u16)
        } else {
            None
        }),
{
    match parse_dec(s, 65535) {
        Some(v) => Some(v as u16),
        None => None,
    }
}

/// Reads `s` as an endpoint in numeric notation.
pub fn parse_socket_addr(s: &[char]) -> (r: Option<SocketAddr>)
    ensures
        r == socket_addr_of_text(s@),
{
    if s.len() >= 1 && s[0] == '[' {
        let parts = split_chars(&s[1..s.len()], ']');
        if parts.len() != 2 {
            return None;
        }
        let rest = parts[1].as_slice();
        if rest.len() == 0 || rest[0] != ':' {
            return None;
        }
        let port = match parse_port(&rest[1..rest.len()]) {
            Some(v) => v,
            None => { return None; },
        };
        match parse_ipv6(parts[0].as_slice()) {
            Some(ip) => Some(SocketAddr { ip: IpAddr::V6(ip), port }),
            None => None,
        }
    } else {
        let parts = split_chars(s, ':');
        if parts.len() != 2 {
            return None;
        }
        let port = match parse_port(parts[1].as_slice()) {
            Some(v) => v,
            None => { return None; },
        };
        match parse_ipv4(parts[0].as_slice()) {
            Some(ip) => Some(SocketAddr { ip: IpAddr::V4(ip), port }),
            None => None,
        }
    }
}

/// Appends the canonical notation of `a` to `out`.
pub fn push_socket_addr(out: &mut String, a: &SocketAddr)
    ensures
        final(out)@ == old(out)@ + socket_addr_text(*a),
{
    match &a.ip {
        IpAddr::V4(ip) => {
            push_ipv4(out, ip);
            out.push(':');
            push_dec(out, a.port as u32);
        },
        IpAddr::V6(ip) => {
            out.push('[');
            push_ipv6(out, ip);
            out.push(']');
            out.push(':');
            push_dec(out, a.port as u32);
            proof {
                assert(out@ =~= old(out)@ + (seq!['['] + ipv6_text(*ip) + seq![']', ':']
                    + dec_text(a.port as nat)));
            }
        },
    }
}

} // verus!
