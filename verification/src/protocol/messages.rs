//! The link-state messages that routers exchange.
use vstd::prelude::*;
use crate::net::{IpAddress, IpNet};
use crate::protocol::neighbor::Neighbor;

verus! {

/// A message of the link-state protocol.
#[derive(Debug)]
pub enum ProtocolMessage {
    Hello(HelloMessage),
    /// A link state advertisement.
    LSA(LSAMessage),
}

/// A greeting sent on one interface.
#[derive(Debug)]
pub struct HelloMessage {
    pub router_id: String,
    pub router_name: String,
    pub interface_ip: IpAddress,
    pub network: IpNet,
    pub bandwidth: u64,
    pub sequence: u32,
}

/// A router's neighbours and networks.
#[derive(Debug)]
pub struct LSAMessage {
    pub router_id: String,
    pub sequence: u32,
    pub neighbors: Vec<Neighbor>,
    pub networks: Vec<IpNet>,
}

} // verus!
