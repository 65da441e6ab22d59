//! Network addresses as plain values.
use crate::table::Key;
use vstd::prelude::*;

verus! {

/// An IP address: the value of its 4 or 16 bytes in network order.
#[derive(Debug, Clone, Copy, PartialEq, Eq, Structural)]
pub enum IpAddress {
    V4(u32),
    V6(u128),
}

/// The address of a peer. The flow information and the scope are those of an IPv6
/// address, and zero for an IPv4 address.
#[derive(Debug, Clone, Copy, PartialEq, Eq, Structural)]
pub struct PeerAddress {
    pub ip: IpAddress,
    pub port: u16,
    pub flow_info: u32,
    pub scope_id: u32,
}

impl View for PeerAddress {
    type V = PeerAddress;

    open spec fn view(&self) -> PeerAddress {
        *self
    }
}

impl Key for PeerAddress {
    fn same(&self, other: &PeerAddress) -> (r: bool) {
        *self == *other
    }
}

} // verus!
