//! A configured network interface and the bandwidth it offers.
use vstd::prelude::*;
use crate::net::{IpAddress, IpNet};

verus! {

/// An interface as configured for the link-state protocol.
#[derive(Debug)]
pub struct NetworkInterface {
    pub name: String,
    pub ip_address: IpAddress,
    pub network: IpNet,
    /// In bits per second.
    pub bandwidth: u64,
    pub enabled: bool,
    pub include_in_routing: bool,
}

impl NetworkInterface {
    /// A new interface, enabled and included in routing.
    pub fn new(name: String, ip_address: IpAddress, network: IpNet, bandwidth: u64) -> (r: NetworkInterface)
        ensures
            r == (NetworkInterface { name, ip_address, network, bandwidth, enabled: true, include_in_routing: true }),
    {
        NetworkInterface { name, ip_address, network, bandwidth, enabled: true, include_in_routing: true }
    }

    pub fn enable(&mut self)
        ensures
            *final(self) == (NetworkInterface { enabled: true, ..*old(self) }),
    {
        self.enabled = true;
    }

    pub fn disable(&mut self)
        ensures
            *final(self) == (NetworkInterface { enabled: false, ..*old(self) }),
    {
        self.enabled = false;
    }

    pub fn set_routing_enabled(&mut self, enabled: bool)
        ensures
            *final(self) == (NetworkInterface { include_in_routing: enabled, ..*old(self) }),
    {
        self.include_in_routing = enabled;
    }

    /// The whole bandwidth while the interface is enabled, else nothing.
    pub fn available_bandwidth(&self) -> (r: u64)
        ensures
            r == (if self.enabled {
                self.bandwidth
            } else {
                0
            }),
    {
        if self.enabled {
            self.bandwidth
        } else {
            0
        }
    }

    /// An identical copy.
    pub fn duplicate(&self) -> (r: NetworkInterface)
        ensures
            r == *self,
    {
        NetworkInterface {
            name: self.name.clone(),
            ip_address: self.ip_address,
            network: self.network,
            bandwidth: self.bandwidth,
            enabled: self.enabled,
            include_in_routing: self.include_in_routing,
        }
    }
}

} // verus!
