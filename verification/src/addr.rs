//! The address of a stream endpoint: an IP socket address or the path of a
//! local-domain socket.

use crate::inet::{IpAddr, SocketAddr};
use crate::ipv4_text::lemma_ipv4_text_chars;
use crate::socket_text::{
    lemma_socket_addr_text_round_trip, parse_socket_addr, push_socket_addr, socket_addr_of_text,
    socket_addr_text,
};
use crate::text::chars_of;
use vstd::prelude::*;
use vstd::std_specs::cmp::PartialEqSpecImpl;
use vstd::std_specs::convert::FromSpecImpl;

verus! {

/// Address of a stream endpoint.
#[derive(Debug, Hash)]
pub enum Addr {
    /// An IP socket address.
    Inet(SocketAddr),
    /// The path of a local-domain socket.
    Unix(String),
}

/// What an `Addr` stands for: the endpoint, or the text of the path.
pub enum AddrView {
    Inet(SocketAddr),
    Unix(Seq<char>),
}

impl View for Addr {
    type V = AddrView;

    open spec fn view(&self) -> AddrView {
        match self {
            Addr::Inet(a) => AddrView::Inet(*a),
            Addr::Unix(p) => AddrView::Unix(p@),
        }
    }
}

/// Why a text gave no address.
#[derive(Debug)]
pub enum AddrError<E> {
    /// Name resolution succeeded and found no address.
    NotAvailable,
    /// Name resolution failed with this error.
    Resolver(E),
}

/// `text` names a local-domain socket: it starts with `/` or with `./`.
pub open spec fn is_local_path(text: Seq<char>) -> bool {
    (text.len() >= 1 && text[0] == '/') || (text.len() >= 2 && text[0] == '.' && text[1] == '/')
}

/// The address that `text` denotes by itself, if it denotes one: a local
/// path stands for itself, and an endpoint in numeric notation for that
/// endpoint. Any other text is a host and port for name resolution.
pub open spec fn addr_of_literal(text: Seq<char>) -> Option<AddrView> {
    if is_local_path(text) {
        Some(AddrView::Unix(text))
    } else {
        match socket_addr_of_text(text) {
            Some(a) => Some(AddrView::Inet(a)),
            None => None,
        }
    }
}

/// The text of an address: the canonical `ip:port` notation of an endpoint,
/// or the path as it is.
pub open spec fn addr_text(a: AddrView) -> Seq<char> {
    match a {
        AddrView::Inet(s) => socket_addr_text(s),
        AddrView::Unix(p) => p,
    }
}

/// The path that stands for a local-domain socket without a name.
pub open spec fn unnamed_path() -> Seq<char> {
    "unnamed"@
}

/// `r` is what the answer `resolved` of name resolution gives: its first
/// address, no address where it is empty, and its error where it failed.
pub open spec fn is_first_resolved<E>(
    resolved: Result<Vec<SocketAddr>, E>,
    r: Result<Addr, AddrError<E>>,
) -> bool {
    match resolved {
        Ok(found) => if found@.len() > 0 {
            r matches Ok(a) && a@ == AddrView::Inet(found@[0])
        } else {
            r matches Err(AddrError::NotAvailable)
        },
        Err(e) => r matches Err(AddrError::Resolver(x)) && x == e,
    }
}

impl Addr {
    /// Reads `text` as a local path or as an endpoint in numeric notation.
    /// `None` says that `text` is neither, and is left to name resolution.
    pub fn from_literal(text: &str) -> (r: Option<Addr>)
        ensures
            match addr_of_literal(text@) {
                Some(v) => r matches Some(a) && a@ == v,
                None => r is None,
            },
    {
        let chars = chars_of(text);
        let n = chars.len();
        if (n >= 1 && chars[0] == '/') || (n >= 2 && chars[0] == '.' && chars[1] == '/') {
            return Some(Addr::Unix(text.to_owned()));
        }
        match parse_socket_addr(chars.as_slice()) {
            Some(a) => Some(Addr::Inet(a)),
            None => None,
        }
    }

    /// Picks the address out of the answer of name resolution: the first
    /// candidate wins, and the others are dropped.
    pub fn from_resolved<E>(resolved: Result<Vec<SocketAddr>, E>) -> (r: Result<
        Addr,
        AddrError<E>,
    >)
        ensures
            is_first_resolved(resolved, r),
    {
        match resolved {
            Ok(found) => {
                if found.len() > 0 {
                    Ok(Addr::Inet(found[0]))
                } else {
                    Err(AddrError::NotAvailable)
                }
            },
            Err(e) => Err(AddrError::Resolver(e)),
        }
    }

    /// Reads `text` as an address. A local path and an endpoint in numeric
    /// notation are taken as they are, and `resolve` is not called. Any
    /// other text is handed to `resolve` once, as it is, and the answer
    /// decides.
    pub fn parse_with<E, F>(text: &str, resolve: F) -> (r: Result<Addr, AddrError<E>>) where
        F: FnOnce(&str) -> Result<Vec<SocketAddr>, E>,

        requires
            resolve.requires((text,)),
        ensures
            match addr_of_literal(text@) {
                Some(v) => r matches Ok(a) && a@ == v,
                None => exists|resolved: Result<Vec<SocketAddr>, E>|
                    resolve.ensures((text,), resolved) && is_first_resolved(resolved, r),
            },
    {
        match Addr::from_literal(text) {
            Some(a) => Ok(a),
            None => {
                let resolved = resolve(text);
                Addr::from_resolved(resolved)
            },
        }
    }

    /// The address of a local-domain socket as the system reports it:
    /// its path, or a fixed stand-in where the socket has no name.
    pub fn from_pathname(pathname: Option<String>) -> (r: Addr)
        ensures
            r@ == (match pathname {
                Some(p) => AddrView::Unix(p@),
                None => AddrView::Unix(unnamed_path()),
            }),
    {
        match pathname {
            Some(p) => Addr::Unix(p),
            None => Addr::Unix("unnamed".to_owned()),
        }
    }

    /// The text of this address.
    pub fn to_text(&self) -> (r: String)
        ensures
            r@ == addr_text(self@),
    {
        match self {
            Addr::Inet(a) => {
                let mut out = String::new();
                push_socket_addr(&mut out, a);
                out
            },
            Addr::Unix(p) => p.clone(),
        }
    }
}

impl Clone for Addr {
    fn clone(&self) -> (r: Self)
        ensures
            r@ == self@,
    {
        match self {
            Addr::Inet(a) => Addr::Inet(*a),
            Addr::Unix(p) => Addr::Unix(p.clone()),
        }
    }
}

impl PartialEq for Addr {
    fn eq(&self, other: &Self) -> (r: bool) {
        match (self, other) {
            (Addr::Inet(a), Addr::Inet(b)) => *a == *b,
            (Addr::Unix(a), Addr::Unix(b)) => *a == *b,
            _ => false,
        }
    }
}

impl Eq for Addr {

}

impl PartialEqSpecImpl for Addr {
    open spec fn obeys_eq_spec() -> bool {
        true
    }

    open spec fn eq_spec(&self, other: &Self) -> bool {
        self@ == other@
    }
}

impl From<SocketAddr> for Addr {
    fn from(s: SocketAddr) -> (r: Addr) {
        Addr::Inet(s)
    }
}

impl FromSpecImpl<SocketAddr> for Addr {
    open spec fn obeys_from_spec() -> bool {
        true
    }

    open spec fn from_spec(s: SocketAddr) -> Addr {
        Addr::Inet(s)
    }
}

impl From<String> for Addr {
    fn from(s: String) -> (r: Addr) {
        Addr::Unix(s)
    }
}

impl FromSpecImpl<String> for Addr {
    open spec fn obeys_from_spec() -> bool {
        true
    }

    open spec fn from_spec(s: String) -> Addr {
        Addr::Unix(s)
    }
}

/// Reading and writing agree. The text of an address that a literal denotes
/// denotes the same address again, so it is the canonical form of the
/// literal. A local path is written exactly as it was read.
pub proof fn lemma_literal_round_trip(text: Seq<char>)
    requires
        addr_of_literal(text) is Some,
    ensures
        addr_of_literal(addr_text(addr_of_literal(text)->0)) == addr_of_literal(text),
        is_local_path(text) ==> addr_text(addr_of_literal(text)->0) == text,
{
    match addr_of_literal(text)->0 {
        AddrView::Inet(a) => {
            lemma_endpoint_text_round_trip(a);
        },
        AddrView::Unix(p) => {},
    }
}

/// The text of an endpoint is no local path, and reading it gives the
/// endpoint back.
pub proof fn lemma_endpoint_text_round_trip(a: SocketAddr)
    ensures
        !is_local_path(socket_addr_text(a)),
        addr_of_literal(addr_text(AddrView::Inet(a))) == Some(AddrView::Inet(a)),
{
    lemma_socket_addr_text_round_trip(a);
    if let IpAddr::V4(ip) = a.ip {
        lemma_ipv4_text_chars(ip);
    }
}

/// What `==` computes on addresses: two addresses are equal exactly if
/// they are of one kind and hold the same endpoint or the same path. An IP
/// address never equals a local path.
pub proof fn lemma_eq_is_structural(a: Addr, b: Addr)
    ensures
        vstd::std_specs::cmp::PartialEqSpec::eq_spec(&a, &b) == (match (a, b) {
            (Addr::Inet(x), Addr::Inet(y)) => x == y,
            (Addr::Unix(p), Addr::Unix(q)) => p@ == q@,
            _ => false,
        }),
        vstd::std_specs::cmp::PartialEqSpec::eq_spec(&a, &b) == (a@ == b@),
{
}

} // verus!
