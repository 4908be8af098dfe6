//! The messages of the OSPF-style protocol: hellos and link state advertisements.
use vstd::prelude::*;
use crate::net::IpAddress;
use crate::protocol::neighbor::unix_now_nanos;

verus! {

/// A protocol message.
#[derive(Debug)]
pub enum ProtocolMessage {
    Hello(HelloMessage),
    LinkStateAdvertisement(LSAMessage),
    LinkStateRequest(LSRMessage),
    LinkStateUpdate(LSUMessage),
    LinkStateAcknowledgment(LSAckMessage),
}

/// A hello, sent periodically on every interface.
#[derive(Debug)]
pub struct HelloMessage {
    pub router_id: String,
    pub router_name: String,
    pub area_id: u32,
    pub hello_interval: u32,
    pub dead_interval: u32,
    pub neighbors: Vec<String>,
    pub designated_router: Option<String>,
    pub backup_designated_router: Option<String>,
    /// When it was made, in nanoseconds since the Unix epoch.
    pub timestamp: i64,
}

/// A link state advertisement.
#[derive(Debug)]
pub struct LSAMessage {
    pub lsa_type: LSAType,
    pub link_state_id: String,
    pub advertising_router: String,
    pub sequence_number: u32,
    pub checksum: u16,
    pub age: u16,
    pub data: LSAData,
    /// When it was made, in nanoseconds since the Unix epoch.
    pub timestamp: i64,
}

#[derive(Debug, Clone, Copy, PartialEq, Eq, Structural)]
pub enum LSAType {
    RouterLSA,
    NetworkLSA,
    SummaryLSA,
    ExternalLSA,
}

/// What an advertisement describes.
#[derive(Debug)]
pub enum LSAData {
    Router(RouterLSAData),
    Network(NetworkLSAData),
    Summary(SummaryLSAData),
    External(ExternalLSAData),
}

#[derive(Debug)]
pub struct RouterLSAData {
    pub flags: u8,
    pub links: Vec<LinkData>,
}

#[derive(Debug)]
pub struct LinkData {
    pub link_id: String,
    pub link_data: IpAddress,
    pub link_type: u8,
    pub metric: u32,
    pub bandwidth: u64,
    pub available_bandwidth: u64,
}

#[derive(Debug)]
pub struct NetworkLSAData {
    pub network_mask: IpAddress,
    pub attached_routers: Vec<String>,
}

#[derive(Debug)]
pub struct SummaryLSAData {
    pub network_mask: IpAddress,
    pub metric: u32,
}

#[derive(Debug)]
pub struct ExternalLSAData {
    pub network_mask: IpAddress,
    pub metric: u32,
    pub external_metric_type: u8,
    pub forwarding_address: Option<IpAddress>,
    pub external_route_tag: u32,
}

/// A request for advertisements.
#[derive(Debug)]
pub struct LSRMessage {
    pub requests: Vec<LSAHeader>,
}

/// What identifies an advertisement.
#[derive(Debug)]
pub struct LSAHeader {
    pub lsa_type: LSAType,
    pub link_state_id: String,
    pub advertising_router: String,
}

/// A batch of advertisements.
#[derive(Debug)]
pub struct LSUMessage {
    pub lsas: Vec<LSAMessage>,
}

/// An acknowledgement of advertisements.
#[derive(Debug)]
pub struct LSAckMessage {
    pub lsa_headers: Vec<LSAHeader>,
}

impl HelloMessage {
    /// A hello made at time `now`: area 0, no designated routers.
    pub fn new_at(
        router_id: String,
        router_name: String,
        hello_interval: u32,
        dead_interval: u32,
        neighbors: Vec<String>,
        now: i64,
    ) -> (r: HelloMessage)
        ensures
            r.router_id == router_id,
            r.router_name == router_name,
            r.area_id == 0,
            r.hello_interval == hello_interval,
            r.dead_interval == dead_interval,
            r.neighbors@ == neighbors@,
            r.designated_router is None,
            r.backup_designated_router is None,
            r.timestamp == now,
    {
        HelloMessage {
            router_id,
            router_name,
            area_id: 0,
            hello_interval,
            dead_interval,
            neighbors,
            designated_router: None,
            backup_designated_router: None,
            timestamp: now,
        }
    }

    /// A hello made now, by the clock (see `new_at`; the time is not stated).
    pub fn new(
        router_id: String,
        router_name: String,
        hello_interval: u32,
        dead_interval: u32,
        neighbors: Vec<String>,
    ) -> (r: HelloMessage)
        ensures
            r.router_id == router_id,
            r.router_name == router_name,
            r.area_id == 0,
            r.hello_interval == hello_interval,
            r.dead_interval == dead_interval,
            r.neighbors@ == neighbors@,
            r.designated_router is None,
            r.backup_designated_router is None,
    {
        Self::new_at(router_id, router_name, hello_interval, dead_interval, neighbors, unix_now_nanos())
    }
}

impl LSAMessage {
    /// A router advertisement made at time `now`: the router advertises itself
    /// with its links, flags, checksum and age zero.
    pub fn new_router_lsa_at(router_id: String, sequence_number: u32, links: Vec<LinkData>, now: i64) -> (r: LSAMessage)
        ensures
            r.lsa_type == LSAType::RouterLSA,
            r.link_state_id == router_id,
            r.advertising_router == router_id,
            r.sequence_number == sequence_number,
            r.checksum == 0,
            r.age == 0,
            r.data matches LSAData::Router(d) && d.flags == 0 && d.links@ == links@,
            r.timestamp == now,
    {
        LSAMessage {
            lsa_type: LSAType::RouterLSA,
            link_state_id: router_id.clone(),
            advertising_router: router_id,
            sequence_number,
            checksum: 0,
            age: 0,
            data: LSAData::Router(RouterLSAData { flags: 0, links }),
            timestamp: now,
        }
    }

    /// A router advertisement made now, by the clock (see `new_router_lsa_at`;
    /// the time is not stated).
    pub fn new_router_lsa(router_id: String, sequence_number: u32, links: Vec<LinkData>) -> (r: LSAMessage)
        ensures
            r.lsa_type == LSAType::RouterLSA,
            r.link_state_id == router_id,
            r.advertising_router == router_id,
            r.sequence_number == sequence_number,
            r.checksum == 0,
            r.age == 0,
            r.data matches LSAData::Router(d) && d.flags == 0 && d.links@ == links@,
    {
        Self::new_router_lsa_at(router_id, sequence_number, links, unix_now_nanos())
    }
}

} // verus!
