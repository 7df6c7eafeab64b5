//! Plain-value network addresses used across the library.
use vstd::prelude::*;

verus! {

/// An IPv4 or IPv6 address, as the number whose big-endian bytes are its octets.
#[derive(Debug, Clone, Copy, PartialEq, Eq, Hash, Structural)]
pub enum IpAddress {
    V4(u32),
    V6(u128),
}

/// An address prefix: an address and the number of its leading bits that count.
#[derive(Debug, Clone, Copy, PartialEq, Eq, Hash, Structural)]
pub struct IpConfig {
    pub ip: IpAddress,
    pub prefix: u32,
}

/// An Ethernet MAC address.
#[derive(Debug, Clone, Copy, PartialEq, Eq, Hash, Structural)]
pub struct MacAddr(pub u8, pub u8, pub u8, pub u8, pub u8, pub u8);

impl MacAddr {
    pub fn new(a: u8, b: u8, c: u8, d: u8, e: u8, f: u8) -> (r: MacAddr)
        ensures
            r == MacAddr(a, b, c, d, e, f),
    {
        MacAddr(a, b, c, d, e, f)
    }

    pub fn octets(&self) -> (r: [u8; 6])
        ensures
            r@ == seq![self.0, self.1, self.2, self.3, self.4, self.5],
    {
        let r = [self.0, self.1, self.2, self.3, self.4, self.5];
        assert(r@ =~= seq![self.0, self.1, self.2, self.3, self.4, self.5]);
        r
    }
}

impl IpAddress {
    pub fn is_ipv4(&self) -> (r: bool)
        ensures
            r == (*self is V4),
    {
        match self {
            IpAddress::V4(_) => true,
            IpAddress::V6(_) => false,
        }
    }
}

} // verus!
