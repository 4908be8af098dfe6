//! Which kernel route a deletion targets.
use vstd::prelude::*;
use crate::net::IpAddress;

verus! {

/// Whether a kernel route's destination (address and prefix, when it has one)
/// is exactly `dest/prefix`.
pub fn is_route_to(destination: Option<(IpAddress, u8)>, dest: u32, prefix: u8) -> (r: bool)
    ensures
        r == (destination == Some((IpAddress::V4(dest), prefix))),
{
    match destination {
        Some((IpAddress::V4(a), p)) => a == dest && p == prefix,
        _ => false,
    }
}

} // verus!
