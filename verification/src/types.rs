//! The data exchanged by the capacity-aware variant of the protocol.
use vstd::prelude::*;
use crate::net::{IpAddress, IpNet};

verus! {

/// A router as seen in routing messages.
#[derive(Debug)]
pub struct Router {
    pub id: IpAddress,
    pub hostname: String,
    /// When it was last seen, in milliseconds since the Unix epoch.
    pub last_seen: u64,
    pub active: bool,
}

/// A link between two routers.
#[derive(Debug)]
pub struct Link {
    pub from: IpAddress,
    pub to: IpAddress,
    /// Nominal bandwidth in Mbps.
    pub capacity: u64,
    /// Available bandwidth in Mbps.
    pub available: u64,
    pub active: bool,
    pub interface: String,
}

/// A route with its path.
#[derive(Debug)]
pub struct Route {
    pub destination: IpNet,
    pub next_hop: IpAddress,
    pub metric: u32,
    pub hop_count: u32,
    pub path: Vec<IpAddress>,
}

/// A routing message.
#[derive(Debug)]
pub struct RoutingMessage {
    pub sender: IpAddress,
    pub sequence: u32,
    /// In milliseconds since the Unix epoch.
    pub timestamp: u64,
    pub routes: Vec<Route>,
    pub neighbors: Vec<Router>,
}

/// What a router knows of the network.
#[derive(Debug)]
pub struct NetworkTopology {
    /// Routers keyed by address.
    pub routers: Vec<(IpAddress, Router)>,
    pub links: Vec<Link>,
    /// Routes keyed by destination.
    pub routes: Vec<(IpNet, Route)>,
}

} // verus!
