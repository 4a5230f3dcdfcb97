//! Internet addresses as plain numbers.
use vstd::prelude::*;

verus! {

/// An IP address; the integer is the address in network byte order.
#[derive(Clone, Copy, Debug, PartialEq, Eq, Structural)]
pub enum IpAddr {
    V4(u32),
    V6(u128),
}

/// A transport address. `scope_id` is the zone of a link-local IPv6 address
/// and zero otherwise.
#[derive(Clone, Copy, Debug, PartialEq, Eq, Structural)]
pub struct SocketAddr {
    pub ip: IpAddr,
    pub port: u16,
    pub scope_id: u32,
}

/// First address of `::ffff:0:0/96`, the block of IPv4-mapped addresses.
pub const V4_MAPPED_FIRST: u128 = 0xffff_0000_0000;

/// Last address of that block.
pub const V4_MAPPED_LAST: u128 = 0xffff_ffff_ffff;

/// The IPv4 address an IPv6 address stands for, if it is an IPv4-mapped one.
pub open spec fn spec_to_ipv4_mapped(v6: u128) -> Option<u32> {
    if V4_MAPPED_FIRST <= v6 <= V4_MAPPED_LAST {
        Some((v6 - V4_MAPPED_FIRST) as u32)
    } else {
        None
    }
}

/// The address with an IPv4-mapped IPv6 address in its IPv4 form.
pub open spec fn canonical_ip(ip: IpAddr) -> IpAddr {
    match ip {
        IpAddr::V4(v4) => IpAddr::V4(v4),
        IpAddr::V6(v6) => match spec_to_ipv4_mapped(v6) {
            Some(v4) => IpAddr::V4(v4),
            None => IpAddr::V6(v6),
        },
    }
}

impl IpAddr {
    pub fn v4(a: u8, b: u8, c: u8, d: u8) -> (ip: IpAddr)
        ensures
            ip == IpAddr::V4((a * 0x100_0000 + b * 0x1_0000 + c * 0x100 + d) as u32),
    {
        IpAddr::V4(a as u32 * 0x100_0000 + b as u32 * 0x1_0000 + c as u32 * 0x100 + d as u32)
    }

    pub fn canonical(&self) -> (ip: IpAddr)
        ensures
            ip == canonical_ip(*self),
    {
        match *self {
            IpAddr::V4(v4) => IpAddr::V4(v4),
            IpAddr::V6(v6) => {
                if V4_MAPPED_FIRST <= v6 && v6 <= V4_MAPPED_LAST {
                    IpAddr::V4((v6 - V4_MAPPED_FIRST) as u32)
                } else {
                    IpAddr::V6(v6)
                }
            },
        }
    }

    /// `0.0.0.0` or `::`.
    pub fn is_unspecified(&self) -> (b: bool)
        ensures
            b == (*self == IpAddr::V4(0) || *self == IpAddr::V6(0)),
    {
        match *self {
            IpAddr::V4(v4) => v4 == 0,
            IpAddr::V6(v6) => v6 == 0,
        }
    }
}

impl SocketAddr {
    pub fn new(ip: IpAddr, port: u16) -> (a: SocketAddr)
        ensures
            a == (SocketAddr { ip: ip, port: port, scope_id: 0 }),
    {
        SocketAddr { ip, port, scope_id: 0 }
    }
}

} // verus!
