//! A router's stored configuration: its identity and its interfaces.
use vstd::prelude::*;
use crate::net::{IpAddress, IpNet};
use crate::network::interface::NetworkInterface;
use crate::protocol::keyed::{spec_insert, spec_unique_keys, insert_keyed};

verus! {

/// The configuration of one interface.
#[derive(Debug)]
pub struct InterfaceConfig {
    pub name: String,
    pub ip_address: IpAddress,
    pub network: IpNet,
    pub bandwidth: u64,
    pub enabled: bool,
    pub include_in_routing: bool,
}

/// A router's configuration.
#[derive(Debug)]
pub struct RouterConfig {
    pub router_id: String,
    pub router_name: String,
    pub enabled: bool,
    pub is_default_router: bool,
    /// Interface configurations keyed by interface name.
    pub interfaces: Vec<(String, InterfaceConfig)>,
}

/// The interface that a configuration describes.
pub open spec fn spec_interface_of(c: InterfaceConfig) -> NetworkInterface {
    NetworkInterface {
        name: c.name,
        ip_address: c.ip_address,
        network: c.network,
        bandwidth: c.bandwidth,
        enabled: c.enabled,
        include_in_routing: c.include_in_routing,
    }
}

impl RouterConfig {
    /// A disabled, non-default router without interfaces.
    pub fn new(router_id: String, router_name: String) -> (r: RouterConfig)
        ensures
            r.router_id == router_id,
            r.router_name == router_name,
            !r.enabled,
            !r.is_default_router,
            r.interfaces@.len() == 0,
    {
        RouterConfig { router_id, router_name, enabled: false, is_default_router: false, interfaces: Vec::new() }
    }

    /// Stores an interface configuration under its name, replacing one of the same name.
    pub fn add_interface(&mut self, config: InterfaceConfig)
        requires
            spec_unique_keys(old(self).interfaces@),
        ensures
            spec_unique_keys(final(self).interfaces@),
            final(self).interfaces@ == spec_insert(old(self).interfaces@, config.name, config),
            final(self).router_id == old(self).router_id,
            final(self).router_name == old(self).router_name,
            final(self).enabled == old(self).enabled,
            final(self).is_default_router == old(self).is_default_router,
    {
        let name = config.name.clone();
        insert_keyed(&mut self.interfaces, name, config);
    }

    /// The interfaces the configuration describes, keyed as the configurations are.
    pub fn to_network_interfaces(&self) -> (r: Vec<(String, NetworkInterface)>)
        ensures
            r@.len() == self.interfaces@.len(),
            forall|i: int|
                0 <= i < r@.len() ==> (#[trigger] r@[i]).0 == self.interfaces@[i].0 && r@[i].1 == spec_interface_of(
                    self.interfaces@[i].1,
                ),
    {
        let mut out: Vec<(String, NetworkInterface)> = Vec::new();
        let mut i: usize = 0;
        while i < self.interfaces.len()
            invariant
                i <= self.interfaces@.len(),
                out@.len() == i,
                forall|j: int|
                    0 <= j < i ==> (#[trigger] out@[j]).0 == self.interfaces@[j].0 && out@[j].1 == spec_interface_of(
                        self.interfaces@[j].1,
                    ),
            decreases self.interfaces@.len() - i,
        {
            let (name, c) = (&self.interfaces[i].0, &self.interfaces[i].1);
            out.push(
                (
                    name.clone(),
                    NetworkInterface {
                        name: c.name.clone(),
                        ip_address: c.ip_address,
                        network: c.network,
                        bandwidth: c.bandwidth,
                        enabled: c.enabled,
                        include_in_routing: c.include_in_routing,
                    },
                ),
            );
            i += 1;
        }
        out
    }
}

} // verus!
