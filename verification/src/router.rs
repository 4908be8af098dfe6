//! A router: its identity, its interfaces and its forwarding table.
use vstd::prelude::*;
use crate::text::{spec_decimal, append_text, decimal_text, string_from_chars};
use crate::network::{
    InterfaceInfo, Network, NetworkError, SystemInterface, spec_unique_names, spec_lookup_interface,
    spec_discover, spec_local_networks, discover_local_networks, duplicate_interfaces, find_interface,
};
use crate::routing_table::{
    RouteEntry, RouteSource, RoutingTable, SystemRouteOp, spec_add_route, spec_find_dest, spec_via_hop,
    spec_not, spec_is_lookup, spec_has_lookup, spec_from_source, spec_replace_route, lemma_find_dest,
};

verus! {

/// What a router tells its neighbours about itself.
#[derive(Debug)]
pub struct RouterInfo {
    pub router_id: String,
    pub interfaces: Vec<InterfaceInfo>,
}

/// The direct route to the network of an interface.
pub open spec fn spec_direct_route(info: InterfaceInfo) -> RouteEntry {
    RouteEntry {
        destination: info.network,
        next_hop: 0,
        interface: info.name,
        metric: 0,
        source: RouteSource::Direct,
    }
}

/// Offers one route. When the table has a route towards the same destination
/// with a lower metric, or with the same metric through the same gateway, nothing
/// changes; with the same metric through another gateway, the new route takes
/// its place (failover, see `spec_replace_route`); otherwise the route is added
/// as `spec_add_route` says.
pub open spec fn spec_offer(routes: Seq<RouteEntry>, local: Seq<crate::net::Ipv4Net>, r: RouteEntry) -> (
    Seq<RouteEntry>,
    Seq<SystemRouteOp>,
) {
    match spec_find_dest(routes, r.destination) {
        Some(i) => if routes[i].metric < r.metric {
            (routes, seq![])
        } else if routes[i].metric == r.metric {
            if routes[i].next_hop != r.next_hop {
                spec_replace_route(routes, local, r)
            } else {
                (routes, seq![])
            }
        } else {
            spec_add_route(routes, local, r)
        },
        None => spec_add_route(routes, local, r),
    }
}

/// Offers the routes in order; the operations are concatenated.
pub open spec fn spec_offer_all(routes: Seq<RouteEntry>, local: Seq<crate::net::Ipv4Net>, new: Seq<RouteEntry>) -> (
    Seq<RouteEntry>,
    Seq<SystemRouteOp>,
)
    decreases new.len(),
{
    if new.len() == 0 {
        (routes, seq![])
    } else {
        let (t, ops) = spec_offer_all(routes, local, new.drop_last());
        let (t2, ops2) = spec_offer(t, local, new.last());
        (t2, ops + ops2)
    }
}

/// Adds the routes in order with `add_route`; the operations are concatenated.
pub open spec fn spec_add_all(routes: Seq<RouteEntry>, local: Seq<crate::net::Ipv4Net>, new: Seq<RouteEntry>) -> (
    Seq<RouteEntry>,
    Seq<SystemRouteOp>,
)
    decreases new.len(),
{
    if new.len() == 0 {
        (routes, seq![])
    } else {
        let (t, ops) = spec_add_all(routes, local, new.drop_last());
        let (t2, ops2) = spec_add_route(t, local, new.last());
        (t2, ops + ops2)
    }
}

/// The direct routes of a list of interfaces.
pub open spec fn spec_direct_routes(ifaces: Seq<InterfaceInfo>) -> Seq<RouteEntry> {
    ifaces.map_values(|i: InterfaceInfo| spec_direct_route(i))
}

/// The direct route to the network of an interface.
pub fn direct_route(info: &InterfaceInfo) -> (r: RouteEntry)
    ensures
        r == spec_direct_route(*info),
{
    RouteEntry {
        destination: info.network,
        next_hop: 0,
        interface: info.name.clone(),
        metric: 0,
        source: RouteSource::Direct,
    }
}

/// The text `"Routes: {total} total ({direct} direct, {protocol} protocol, {statics} static)"`.
pub open spec fn routing_stats_text(total: usize, direct: usize, protocol: usize, statics: usize) -> Seq<char> {
    "Routes: "@ + spec_decimal(total as nat) + " total ("@ + spec_decimal(direct as nat) + " direct, "@
        + spec_decimal(protocol as nat) + " protocol, "@ + spec_decimal(statics as nat) + " static)"@
}

/// The routing statistics line (`routing_stats_text`).
fn format_routing_stats(total: usize, direct: usize, protocol: usize, statics: usize) -> (r: String)
    ensures
        r@ == routing_stats_text(total, direct, protocol, statics),
{
    let mut cs: Vec<char> = Vec::new();
    append_text(&mut cs, "Routes: ");
    append_text(&mut cs, decimal_text(total as u64).as_str());
    append_text(&mut cs, " total (");
    append_text(&mut cs, decimal_text(direct as u64).as_str());
    append_text(&mut cs, " direct, ");
    append_text(&mut cs, decimal_text(protocol as u64).as_str());
    append_text(&mut cs, " protocol, ");
    append_text(&mut cs, decimal_text(statics as u64).as_str());
    append_text(&mut cs, " static)");
    let r = string_from_chars(&cs);
    assert(r@ =~= routing_stats_text(total, direct, protocol, statics));
    r
}

/// Whether `results` are the lookups of `names` in the snapshot `sys`, in order.
pub open spec fn spec_lookups(
    names: Seq<String>,
    sys: Seq<SystemInterface>,
    results: Seq<Result<InterfaceInfo, crate::network::InterfaceLookupError>>,
) -> bool {
    results.len() == names.len() && forall|i: int|
        0 <= i < names.len() ==> spec_lookup_interface(sys, names[i]@, #[trigger] results[i])
}

/// The names of the interfaces, in order.
pub open spec fn spec_interface_names(ifaces: Seq<InterfaceInfo>) -> Seq<String> {
    ifaces.map_values(|i: InterfaceInfo| i.name)
}

/// Whether `router` is what `Router::new` builds: identifier `id`, the interfaces
/// found by looking `names` up in `sys` on top of those already `found` (at
/// least one), and a table over the snapshot's local networks holding the
/// direct route of each interface.
pub open spec fn spec_router_built(
    router: Router,
    id: String,
    found: Seq<InterfaceInfo>,
    names: Seq<String>,
    sys: Seq<SystemInterface>,
) -> bool {
    &&& router.wf()
    &&& router.id == id
    &&& router.interfaces@ == router.discovered()
    &&& router.interfaces@.len() > 0
    &&& exists|results: Seq<Result<InterfaceInfo, crate::network::InterfaceLookupError>>|
        #[trigger] spec_lookups(names, sys, results) && router.interfaces@ == spec_discover(found, names, sys, results)
    &&& router.routing_table.local() == spec_local_networks(sys)
    &&& router.routing_table@ == spec_add_all(
        Seq::empty(),
        spec_local_networks(sys),
        spec_direct_routes(router.interfaces@),
    ).0
}

/// Whether looking `names` up in `sys`, on top of the interfaces already
/// `found`, leaves no interface at all.
pub open spec fn spec_nothing_found(found: Seq<InterfaceInfo>, names: Seq<String>, sys: Seq<SystemInterface>) -> bool {
    exists|results: Seq<Result<InterfaceInfo, crate::network::InterfaceLookupError>>|
        #[trigger] spec_lookups(names, sys, results) && spec_discover(found, names, sys, results).len() == 0
}

/// A router.
pub struct Router {
    pub id: String,
    pub interfaces: Vec<InterfaceInfo>,
    pub routing_table: RoutingTable,
    pub network: Network,
}

impl Router {
    /// The interfaces known to the router's network discovery.
    pub open spec fn discovered(&self) -> Seq<InterfaceInfo> {
        self.network@
    }

    pub open spec fn wf(&self) -> bool {
        &&& self.routing_table.wf()
        &&& spec_unique_names(self.interfaces@)
        &&& self.network.wf()
    }

    /// Looks the interfaces up in the snapshot `sys`, then builds a table over the
    /// snapshot's local networks that holds the direct route of each interface.
    /// Fails when no interface is known.
    pub fn new(id: String, network: Network, interface_names: Vec<String>, sys: &Vec<SystemInterface>) -> (r: Result<Router, NetworkError>)
        requires
            network.wf(),
        ensures
            match r {
                Ok(router) => spec_router_built(router, id, network@, interface_names@, sys@),
                Err(e) => e == NetworkError::NoValidInterfaces && spec_nothing_found(
                    network@,
                    interface_names@,
                    sys@,
                ),
            },
    {
        let mut network = network;
        let ghost before = network@;
        let found = network.discover_interfaces(&interface_names, sys);
        let ghost results = choose|results: Seq<Result<InterfaceInfo, crate::network::InterfaceLookupError>>|
            results.len() == interface_names@.len() && (forall|i: int|
                0 <= i < interface_names@.len() ==> spec_lookup_interface(
                    sys@,
                    interface_names@[i]@,
                    #[trigger] results[i],
                )) && network@ == spec_discover(before, interface_names@, sys@, results);
        assert(spec_lookups(interface_names@, sys@, results));
        if found.is_err() {
            return Err(NetworkError::NoValidInterfaces);
        }
        let interfaces = duplicate_interfaces(network.get_interfaces());
        let mut routing_table = RoutingTable::new(discover_local_networks(sys));
        let ghost local = routing_table.local();
        let mut i: usize = 0;
        while i < interfaces.len()
            invariant
                i <= interfaces@.len(),
                routing_table.wf(),
                routing_table.local() == local,
                routing_table@ == spec_add_all(Seq::empty(), local, spec_direct_routes(interfaces@).take(i as int)).0,
            decreases interfaces@.len() - i,
        {
            let route = direct_route(&interfaces[i]);
            proof {
                let d = spec_direct_routes(interfaces@);
                assert(d.take(i as int + 1).drop_last() =~= d.take(i as int));
                assert(d.take(i as int + 1).last() == route);
            }
            let _ops = routing_table.add_route(route);
            i += 1;
        }
        proof {
            let d = spec_direct_routes(interfaces@);
            assert(d.take(d.len() as int) =~= d);
        }
        Ok(Router { id, interfaces, routing_table, network })
    }

    /// The router's identity and interfaces.
    pub fn get_router_info(&self) -> (r: RouterInfo)
        ensures
            r.router_id == self.id,
            r.interfaces@ == self.interfaces@,
    {
        RouterInfo { router_id: self.id.clone(), interfaces: duplicate_interfaces(&self.interfaces) }
    }

    /// Offers each new route in turn (see `spec_offer` and `spec_offer_all`):
    /// a better route is added, one of equal metric through another gateway
    /// replaces the current one, and the others are skipped.
    pub fn update_routing_table(&mut self, new_routes: Vec<RouteEntry>) -> (ops: Vec<SystemRouteOp>)
        requires
            old(self).wf(),
        ensures
            final(self).wf(),
            final(self).id == old(self).id,
            final(self).interfaces == old(self).interfaces,
            final(self).network == old(self).network,
            final(self).routing_table.local() == old(self).routing_table.local(),
            final(self).routing_table@ == spec_offer_all(
                old(self).routing_table@,
                old(self).routing_table.local(),
                new_routes@,
            ).0,
            ops@ == spec_offer_all(old(self).routing_table@, old(self).routing_table.local(), new_routes@).1,
    {
        let ghost start = self.routing_table@;
        let ghost local = self.routing_table.local();
        let ghost all = new_routes@;
        let mut ops: Vec<SystemRouteOp> = Vec::new();
        let mut done: usize = 0;
        while done < new_routes.len()
            invariant
                done <= all.len(),
                new_routes@ == all,
                self.routing_table.wf(),
                spec_unique_names(self.interfaces@),
                self.network.wf(),
                self.id == old(self).id,
                self.interfaces == old(self).interfaces,
                self.network == old(self).network,
                self.routing_table.local() == local,
                self.routing_table@ == spec_offer_all(start, local, all.take(done as int)).0,
                ops@ == spec_offer_all(start, local, all.take(done as int)).1,
            decreases all.len() - done,
        {
            let route = new_routes[done].duplicate();
            proof {
                assert(all.take(done as int + 1).drop_last() =~= all.take(done as int));
                assert(all.take(done as int + 1).last() == route);
            }
            proof {
                lemma_find_dest(self.routing_table@, route.destination);
            }
            if !self.routing_table.has_better_route(&route) {
                let mut more = self.routing_table.add_route(route);
                ops.append(&mut more);
            } else {
                let failover = match self.routing_table.find_route(&route.destination) {
                    Some(existing) => existing.metric == route.metric && existing.next_hop != route.next_hop,
                    None => false,
                };
                if failover {
                    let mut more = self.routing_table.replace_route(route);
                    ops.append(&mut more);
                } else {
                    proof {
                        assert(ops@ =~= ops@ + Seq::<SystemRouteOp>::empty());
                    }
                }
            }
            done += 1;
        }
        proof {
            assert(all.take(all.len() as int) =~= all);
        }
        ops
    }

    /// Withdraws every protocol route through a dead neighbour; returns them in
    /// reverse table order (each must also leave the system table).
    pub fn handle_dead_neighbor(&mut self, neighbor_ip: u32) -> (removed: Vec<RouteEntry>)
        requires
            old(self).wf(),
        ensures
            final(self).wf(),
            final(self).id == old(self).id,
            final(self).interfaces == old(self).interfaces,
            final(self).network == old(self).network,
            final(self).routing_table.local() == old(self).routing_table.local(),
            final(self).routing_table@ == old(self).routing_table@.filter(spec_not(spec_via_hop(neighbor_ip))),
            removed@ == old(self).routing_table@.filter(spec_via_hop(neighbor_ip)).reverse(),
    {
        self.routing_table.remove_routes_via_nexthop(neighbor_ip)
    }

    /// `"Routes: {total} total ({direct} direct, {protocol} protocol, {static} static)"`.
    pub fn get_routing_stats(&self) -> (r: String)
        ensures
            r@ == routing_stats_text(
                self.routing_table@.len() as usize,
                self.routing_table@.filter(spec_from_source(RouteSource::Direct)).len() as usize,
                self.routing_table@.filter(spec_from_source(RouteSource::Protocol)).len() as usize,
                self.routing_table@.filter(spec_from_source(RouteSource::Static)).len() as usize,
            ),
    {
        let (d, p, s) = self.routing_table.get_stats();
        format_routing_stats(d + p + s, d, p, s)
    }

    /// The longest-prefix route for an address.
    pub fn find_best_route(&self, destination: u32) -> (r: Option<&RouteEntry>)
        ensures
            match r {
                Some(e) => exists|i: int| spec_is_lookup(self.routing_table@, destination, i) && *e
                    == self.routing_table@[i],
                None => !spec_has_lookup(self.routing_table@, destination),
            },
    {
        self.routing_table.lookup_route(destination)
    }

    /// Whether some route covers the address.
    pub fn can_reach(&self, destination: u32) -> (r: bool)
        ensures
            r == spec_has_lookup(self.routing_table@, destination),
    {
        self.routing_table.lookup_route(destination).is_some()
    }

    /// The gateway towards an address: the route's next hop, or the address itself
    /// when the route is direct (next hop `0.0.0.0`).
    pub fn get_next_hop(&self, destination: u32) -> (r: Option<u32>)
        ensures
            match r {
                Some(h) => exists|i: int|
                    spec_is_lookup(self.routing_table@, destination, i) && h == (if self.routing_table@[i].next_hop
                        == 0 {
                        destination
                    } else {
                        self.routing_table@[i].next_hop
                    }),
                None => !spec_has_lookup(self.routing_table@, destination),
            },
    {
        match self.routing_table.lookup_route(destination) {
            Some(route) => {
                if route.next_hop == 0 {
                    Some(destination)
                } else {
                    Some(route.next_hop)
                }
            },
            None => None,
        }
    }

    /// Whether the address lies in the network of one of our interfaces.
    pub fn is_neighbor_reachable(&self, neighbor_ip: u32) -> (r: bool)
        ensures
            r == exists|i: int|
                0 <= i < self.interfaces@.len() && self.interfaces@[i].network.spec_contains(neighbor_ip),
    {
        let mut i: usize = 0;
        while i < self.interfaces.len()
            invariant
                i <= self.interfaces@.len(),
                forall|j: int| 0 <= j < i ==> !self.interfaces@[j].network.spec_contains(neighbor_ip),
            decreases self.interfaces@.len() - i,
        {
            if self.interfaces[i].network.contains(neighbor_ip) {
                return true;
            }
            i += 1;
        }
        false
    }

    /// The interface named by the route towards an address.
    pub fn get_interface_for_destination(&self, destination: u32) -> (r: Option<&InterfaceInfo>)
        ensures
            match r {
                Some(info) => exists|i: int, k: int|
                    spec_is_lookup(self.routing_table@, destination, i) && 0 <= k < self.interfaces@.len()
                        && self.interfaces@[k] == *info && info.name@
                        == self.routing_table@[i].interface@,
                None => !spec_has_lookup(self.routing_table@, destination) || exists|i: int|
                    spec_is_lookup(self.routing_table@, destination, i) && forall|k: int|
                        0 <= k < self.interfaces@.len() ==> self.interfaces@[k].name@
                            != self.routing_table@[i].interface@,
            },
    {
        match self.routing_table.lookup_route(destination) {
            Some(route) => find_interface(&self.interfaces, &route.interface),
            None => None,
        }
    }

    /// Looks the current interfaces up again in a new snapshot, then offers the
    /// direct route of every interface now known (see `spec_offer_all`).
    pub fn refresh_direct_routes(&mut self, sys: &Vec<SystemInterface>) -> (r: Result<Vec<SystemRouteOp>, NetworkError>)
        requires
            old(self).wf(),
        ensures
            final(self).wf(),
            final(self).id == old(self).id,
            final(self).routing_table.local() == old(self).routing_table.local(),
            match r {
                Ok(ops) => {
                    &&& final(self).interfaces@ == final(self).discovered()
                    &&& exists|results: Seq<Result<InterfaceInfo, crate::network::InterfaceLookupError>>|
                        #[trigger] spec_lookups(spec_interface_names(old(self).interfaces@), sys@, results)
                            && final(self).discovered() == spec_discover(
                            old(self).discovered(),
                            spec_interface_names(old(self).interfaces@),
                            sys@,
                            results,
                        )
                    &&& final(self).routing_table@ == spec_offer_all(
                        old(self).routing_table@,
                        old(self).routing_table.local(),
                        spec_direct_routes(final(self).interfaces@),
                    ).0
                    &&& ops@ == spec_offer_all(
                        old(self).routing_table@,
                        old(self).routing_table.local(),
                        spec_direct_routes(final(self).interfaces@),
                    ).1
                },
                Err(e) => {
                    &&& e == NetworkError::NoValidInterfaces
                    &&& spec_nothing_found(old(self).discovered(), spec_interface_names(old(self).interfaces@), sys@)
                    &&& final(self).routing_table@ == old(self).routing_table@
                    &&& final(self).interfaces == old(self).interfaces
                },
            },
    {
        let mut names: Vec<String> = Vec::new();
        let mut i: usize = 0;
        while i < self.interfaces.len()
            invariant
                i <= self.interfaces@.len(),
                names@ == spec_interface_names(self.interfaces@.take(i as int)),
            decreases self.interfaces@.len() - i,
        {
            names.push(self.interfaces[i].name.clone());
            proof {
                assert(names@ =~= spec_interface_names(self.interfaces@.take(i as int + 1)));
            }
            i += 1;
        }
        proof {
            assert(self.interfaces@.take(self.interfaces@.len() as int) =~= self.interfaces@);
        }
        let ghost before = self.network@;
        let found = self.network.discover_interfaces(&names, sys);
        let ghost results = choose|results: Seq<Result<InterfaceInfo, crate::network::InterfaceLookupError>>|
            results.len() == names@.len() && (forall|i: int|
                0 <= i < names@.len() ==> spec_lookup_interface(sys@, names@[i]@, #[trigger] results[i]))
                && self.network@ == spec_discover(before, names@, sys@, results);
        assert(spec_lookups(names@, sys@, results));
        if found.is_err() {
            return Err(NetworkError::NoValidInterfaces);
        }
        self.interfaces = duplicate_interfaces(self.network.get_interfaces());
        let mut routes: Vec<RouteEntry> = Vec::new();
        let mut k: usize = 0;
        while k < self.interfaces.len()
            invariant
                k <= self.interfaces@.len(),
                routes@ == spec_direct_routes(self.interfaces@).take(k as int),
            decreases self.interfaces@.len() - k,
        {
            routes.push(direct_route(&self.interfaces[k]));
            proof {
                assert(routes@ =~= spec_direct_routes(self.interfaces@).take(k as int + 1));
            }
            k += 1;
        }
        proof {
            assert(routes@ =~= spec_direct_routes(self.interfaces@));
        }
        let ops = self.update_routing_table(routes);
        Ok(ops)
    }
}

} // verus!
