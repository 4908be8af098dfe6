//! A link-state style routing daemon core: IPv4/IPv6 network model, routing
//! tables, shortest paths, neighbour tracking and the protocol's decision logic.
pub mod net;
pub mod routing_table;
pub mod network;
pub mod router;
pub mod protocol;
pub mod algorithms;
pub mod routing;
pub mod config;
pub mod neighbor;
pub mod message;
pub mod messages;
pub mod text;
pub mod types;
pub mod system;
pub mod interfaces;
pub mod netlink;
pub mod control_server;
pub mod neighbors;

use vstd::prelude::*;
use crate::network::interface::NetworkInterface;
use crate::network::topology::Topology;
use crate::protocol::neighbor::Neighbor;
use crate::protocol::routing_table::RoutingTable;

verus! {

/// The state of a router of the link-state protocol.
#[derive(Debug)]
pub struct RouterState {
    pub id: String,
    pub enabled: bool,
    pub is_default_router: bool,
    /// Interfaces keyed by name.
    pub interfaces: Vec<(String, NetworkInterface)>,
    /// Neighbours keyed by router identifier.
    pub neighbors: Vec<(String, Neighbor)>,
    pub routing_table: RoutingTable,
    pub topology: Topology,
}

impl RouterState {
    /// A disabled, non-default router that knows nothing yet.
    pub fn new(id: String) -> (r: RouterState)
        ensures
            r.id == id,
            !r.enabled,
            !r.is_default_router,
            r.interfaces@.len() == 0,
            r.neighbors@.len() == 0,
            r.routing_table@.len() == 0,
            r.routing_table.wf(),
            r.topology.routers@.len() == 0,
            r.topology.links@.len() == 0,
            r.topology.wf(),
    {
        RouterState {
            id,
            enabled: false,
            is_default_router: false,
            interfaces: Vec::new(),
            neighbors: Vec::new(),
            routing_table: RoutingTable::new(),
            topology: Topology::new(),
        }
    }
}

} // verus!
