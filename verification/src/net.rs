//! Addresses and datagram records.

use vstd::prelude::*;

verus! {

/// A transport address: an IP address with a port.
///
/// The scheduler never looks into an address. It only compares addresses, and
/// two are equal exactly when all their fields are.
#[derive(Clone, Copy, Debug, PartialEq, Eq, Hash, Structural)]
pub enum Address {
    /// An IPv4 address, its four octets as one number in network order, and a
    /// port.
    V4 { octets: u32, port: u16 },
    /// An IPv6 address, its sixteen octets as one number in network order, a
    /// port, and the flow information and scope identifier that belong to the
    /// address.
    V6 { segments: u128, port: u16, flowinfo: u32, scope_id: u32 },
}

/// A datagram record: the local address, the remote address and the payload.
pub type Datagram = (Address, Address, Vec<u8>);

/// Whether a datagram record is one for `local` and, where `remote` is given,
/// from exactly that remote address.
pub open spec fn matches_addresses(d: Datagram, local: Address, remote: Option<Address>) -> bool {
    d.0 == local && (remote matches Some(r) ==> d.1 == r)
}

} // verus!
