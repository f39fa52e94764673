//! Numeric internet addresses as plain values.

use vstd::prelude::*;
use vstd::std_specs::cmp::PartialEqSpecImpl;

verus! {

/// An IPv4 address: its four octets, the most significant first.
#[derive(Clone, Copy, Debug, Hash)]
pub struct Ipv4Addr {
    pub octets: [u8; 4],
}

/// An IPv6 address: its eight groups of sixteen bits, the most significant
/// first.
#[derive(Clone, Copy, Debug, Hash)]
pub struct Ipv6Addr {
    pub segments: [u16; 8],
}

/// An IP address of either family.
#[derive(Clone, Copy, Debug, Hash)]
pub enum IpAddr {
    V4(Ipv4Addr),
    V6(Ipv6Addr),
}

/// An IP address together with a port.
#[derive(Clone, Copy, Debug, Hash)]
pub struct SocketAddr {
    pub ip: IpAddr,
    pub port: u16,
}

impl Ipv4Addr {
    /// The address `a.b.c.d`.
    pub fn new(a: u8, b: u8, c: u8, d: u8) -> (r: Ipv4Addr)
        ensures
            r.octets@ == seq![a, b, c, d],
    {
        Ipv4Addr { octets: [a, b, c, d] }
    }

    /// True for the addresses of `127.0.0.0/8`.
    pub fn is_loopback(&self) -> (r: bool)
        ensures
            r == (self.octets[0] == 127),
    {
        self.octets[0] == 127
    }
}

impl Ipv6Addr {
    /// The address with the given groups.
    pub fn new(segments: [u16; 8]) -> (r: Ipv6Addr)
        ensures
            r.segments == segments,
    {
        Ipv6Addr { segments }
    }

    /// True for the address `::1`.
    pub fn is_loopback(&self) -> (r: bool)
        ensures
            r == (self.segments@ == seq![0u16, 0u16, 0u16, 0u16, 0u16, 0u16, 0u16, 1u16]),
    {
        let s = &self.segments;
        let r = s[0] == 0 && s[1] == 0 && s[2] == 0 && s[3] == 0 && s[4] == 0 && s[5] == 0 && s[6]
            == 0 && s[7] == 1;
        proof {
            if r {
                assert(self.segments@ =~= seq![0u16, 0u16, 0u16, 0u16, 0u16, 0u16, 0u16, 1u16]);
            }
        }
        r
    }
}

impl SocketAddr {
    /// The endpoint `ip` with `port`.
    pub fn new(ip: IpAddr, port: u16) -> (r: SocketAddr)
        ensures
            r.ip == ip,
            r.port == port,
    {
        SocketAddr { ip, port }
    }
}

impl PartialEq for Ipv4Addr {
    fn eq(&self, other: &Self) -> (r: bool) {
        let r = self.octets[0] == other.octets[0] && self.octets[1] == other.octets[1]
            && self.octets[2] == other.octets[2] && self.octets[3] == other.octets[3];
        proof {
            if r {
                assert(self.octets =~= other.octets);
            }
        }
        r
    }
}

impl Eq for Ipv4Addr {

}

impl PartialEqSpecImpl for Ipv4Addr {
    open spec fn obeys_eq_spec() -> bool {
        true
    }

    open spec fn eq_spec(&self, other: &Self) -> bool {
        *self == *other
    }
}

impl PartialEq for Ipv6Addr {
    fn eq(&self, other: &Self) -> (r: bool) {
        let mut i: usize = 0;
        while i < 8
            invariant
                i <= 8,
                forall|j: int| 0 <= j < i ==> self.segments[j] == other.segments[j],
            decreases 8 - i,
        {
            if self.segments[i] != other.segments[i] {
                return false;
            }
            i += 1;
        }
        proof {
            assert(self.segments =~= other.segments);
        }
        true
    }
}

impl Eq for Ipv6Addr {

}

impl PartialEqSpecImpl for Ipv6Addr {
    open spec fn obeys_eq_spec() -> bool {
        true
    }

    open spec fn eq_spec(&self, other: &Self) -> bool {
        *self == *other
    }
}

impl PartialEq for IpAddr {
    fn eq(&self, other: &Self) -> (r: bool) {
        match (self, other) {
            (IpAddr::V4(a), IpAddr::V4(b)) => *a == *b,
            (IpAddr::V6(a), IpAddr::V6(b)) => *a == *b,
            _ => false,
        }
    }
}

impl Eq for IpAddr {

}

impl PartialEqSpecImpl for IpAddr {
    open spec fn obeys_eq_spec() -> bool {
        true
    }

    open spec fn eq_spec(&self, other: &Self) -> bool {
        *self == *other
    }
}

impl PartialEq for SocketAddr {
    fn eq(&self, other: &Self) -> (r: bool) {
        self.ip == other.ip && self.port == other.port
    }
}

impl Eq for SocketAddr {

}

impl PartialEqSpecImpl for SocketAddr {
    open spec fn obeys_eq_spec() -> bool {
        true
    }

    open spec fn eq_spec(&self, other: &Self) -> bool {
        *self == *other
    }
}

} // verus!
