//! Addresses of stream endpoints, for code that talks to TCP sockets and to
//! Unix sockets alike.
//!
//! An [`Addr`] is an IP socket address or the path of a Unix socket. This
//! library reads an address from text, writes it back in canonical form and
//! compares addresses. It does no input or output: name resolution is
//! handed in by the caller, and what the operating system reports of a
//! socket comes in as plain values.
//!
//! - [`addr`]: the address itself, its text, and how the answer of name
//!   resolution becomes an address.
//! - [`inet`]: IP addresses and socket addresses as plain values.
//! - [`socket_text`], [`ipv4_text`], [`ipv6_text`]: the numeric notations,
//!   read and written.
//! - [`ipv6_round_trip`]: reading undoes writing for IPv6 addresses.
//! - [`numeral`], [`text`]: digits, and splitting text at a separator.
//! - [`listener`]: what a listener removes when it goes away.

pub mod addr;
pub mod inet;
pub mod ipv4_text;
pub mod ipv6_round_trip;
pub mod ipv6_text;
pub mod listener;
pub mod numeral;
pub mod socket_text;
pub mod text;

pub use addr::{Addr, AddrError};
pub use inet::{IpAddr, Ipv4Addr, Ipv6Addr, SocketAddr};
