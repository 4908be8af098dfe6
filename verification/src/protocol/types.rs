//! The protocol's messages and the state it keeps about neighbours and routes.
use vstd::prelude::*;
use crate::net::IpAddress;
use crate::router::RouterInfo;
use crate::routing_table::RouteEntry;

verus! {

/// A periodic advertisement of a router's table.
#[derive(Debug)]
pub struct RoutingUpdate {
    pub router_id: String,
    pub sequence: u64,
    pub routes: Vec<RouteInfo>,
}

/// One advertised route, in text form.
#[derive(Debug)]
pub struct RouteInfo {
    /// A network in CIDR notation.
    pub destination: String,
    pub metric: u32,
    /// A dotted-quad address; `0.0.0.0` for a directly connected network.
    pub next_hop: String,
}

impl RouteInfo {
    pub fn duplicate(&self) -> (r: RouteInfo)
        ensures
            r == *self,
    {
        RouteInfo {
            destination: self.destination.clone(),
            metric: self.metric,
            next_hop: self.next_hop.clone(),
        }
    }
}

/// A router's periodic greeting: its identity and, per interface, its address text.
#[derive(Debug)]
pub struct HelloMessage {
    pub router_id: String,
    pub interfaces: Vec<(String, String)>,
}

/// A request, broadcast, for the neighbours of `target_router_id`.
#[derive(Debug)]
pub struct NeighborRequest {
    pub requesting_router_id: String,
    pub request_id: String,
    pub target_router_id: String,
}

/// The answer to a `NeighborRequest`.
#[derive(Debug)]
pub struct NeighborResponse {
    pub responding_router_id: String,
    pub request_id: String,
    pub neighbors: Vec<NeighborResponseInfo>,
}

/// One neighbour as reported in a `NeighborResponse`.
#[derive(Debug)]
pub struct NeighborResponseInfo {
    pub router_id: String,
    pub ip_address: String,
    pub last_seen: String,
    pub is_alive: bool,
    pub interfaces: Vec<String>,
}

/// A request for another router's neighbours that still waits for its answer.
#[derive(Debug, Clone, Copy)]
pub struct PendingNeighborRequest {
    /// When it was made, in nanoseconds since the Unix epoch.
    pub timestamp: u64,
}

/// A UDP peer address.
#[derive(Debug, Clone, Copy, PartialEq, Eq, Structural)]
pub struct SocketAddress {
    pub ip: IpAddress,
    pub port: u16,
}

/// What we know of a neighbour.
#[derive(Debug)]
pub struct NeighborInfo {
    pub router_info: RouterInfo,
    /// When it was last heard from, in nanoseconds of a monotonic clock.
    pub last_seen: u64,
    pub socket_addr: SocketAddress,
    pub is_alive: bool,
}

/// A route learnt from a neighbour, and when it was last advertised.
#[derive(Debug)]
pub struct RouteState {
    pub route: RouteEntry,
    /// In nanoseconds of a monotonic clock.
    pub last_advertised: u64,
    pub advertising_neighbor: String,
}

impl RouteState {
    pub fn duplicate(&self) -> (r: RouteState)
        ensures
            r == *self,
    {
        RouteState {
            route: self.route.duplicate(),
            last_advertised: self.last_advertised,
            advertising_neighbor: self.advertising_neighbor.clone(),
        }
    }
}

} // verus!
