//! Scan targets as plain values.

use vstd::prelude::*;

verus! {

/// An IP address, held as the integer that its octets spell in network order.
#[derive(Clone, Copy, Debug, PartialEq, Eq, Hash, Structural)]
pub enum IpAddress {
    /// An IPv4 address; `127.0.0.1` is `0x7f00_0001`.
    V4(u32),
    /// An IPv6 address; `::1` is `1`.
    V6(u128),
}

/// One address and one port: the unit of work of a scan.
#[derive(Clone, Copy, Debug, PartialEq, Eq, Hash, Structural)]
pub struct SocketTarget {
    pub ip: IpAddress,
    pub port: u16,
}

impl SocketTarget {
    /// Pairs an address with a port.
    pub fn new(ip: IpAddress, port: u16) -> (target: SocketTarget)
        ensures
            target == (SocketTarget { ip, port }),
    {
        SocketTarget { ip, port }
    }
}

} // verus!
