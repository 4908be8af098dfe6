//! Turning a neighbour's advertised routes into routes of our own table.
use vstd::prelude::*;
use crate::net::{
    IpAddress, Ipv4Net, v4_mask, ipv4_network_parse, ipv4_addr_parse, cidr_text, parse_ipv4_network,
    parse_ipv4_addr, format_cidr,
};
use crate::network::InterfaceInfo;
use crate::router::{Router, spec_offer_all};
use crate::routing_table::{RouteEntry, RouteSource, RoutingTable, SystemRouteOp, spec_find_dest, spec_delete_ops};
use crate::protocol::types::{NeighborInfo, RouteInfo, RouteState, RoutingUpdate};
use crate::protocol::keyed::{spec_insert, spec_remove, spec_get, spec_unique_keys, insert_keyed, remove_keyed, get_keyed, spec_key_views, spec_insert_view, lemma_insert_views};

verus! {

/// Why an update could not be processed.
#[derive(Debug, Clone, Copy, PartialEq, Eq, Structural)]
pub enum RouteUpdateError {
    /// Updates are accepted from IPv4 senders only.
    NotIpv4,
    /// A usable route carries the largest metric, which cannot be increased.
    MetricOverflow,
}

/// A destination text that is not CIDR notation.
#[derive(Debug, Clone, Copy, PartialEq, Eq, Structural)]
pub struct InvalidNetwork;

/// The destination text rewritten with its host bits cleared.
pub open spec fn spec_corrected_destination(text: Seq<char>) -> Option<Seq<char>> {
    match ipv4_network_parse(text) {
        Some((a, p)) => Some(cidr_text(a & v4_mask(p), p)),
        None => None,
    }
}

/// The destination network of an advertised route: the corrected text, parsed again.
pub open spec fn spec_route_destination(text: Seq<char>) -> Option<(u32, u8)> {
    match spec_corrected_destination(text) {
        Some(c) => ipv4_network_parse(c),
        None => None,
    }
}

/// Whether one of our interfaces has exactly this network.
pub open spec fn spec_is_our_network(dest: Ipv4Net, ifaces: Seq<InterfaceInfo>) -> bool {
    exists|k: int| 0 <= k < ifaces.len() && ifaces[k].network == dest
}

/// Whether interface `k` is the one that reaches `sender`: its network holds the
/// sender, its metric is below `u32::MAX` and is the least among those holding
/// the sender, and no earlier such interface has the same metric.
pub open spec fn spec_is_best_interface(ifaces: Seq<InterfaceInfo>, sender: u32, k: int) -> bool {
    &&& 0 <= k < ifaces.len()
    &&& ifaces[k].network.spec_contains(sender)
    &&& ifaces[k].metric < u32::MAX
    &&& forall|j: int|
        0 <= j < ifaces.len() && ifaces[j].network.spec_contains(sender) ==> ifaces[k].metric
            <= ifaces[j].metric
    &&& forall|j: int|
        0 <= j < k && ifaces[j].network.spec_contains(sender) ==> ifaces[k].metric < ifaces[j].metric
}

/// The interface that reaches `sender`, if any.
pub open spec fn spec_best_interface(ifaces: Seq<InterfaceInfo>, sender: u32) -> Option<int> {
    if exists|k: int| spec_is_best_interface(ifaces, sender, k) {
        Some(choose|k: int| spec_is_best_interface(ifaces, sender, k))
    } else {
        None
    }
}

/// At most one interface is the best.
pub proof fn lemma_best_interface_unique(ifaces: Seq<InterfaceInfo>, sender: u32, a: int, b: int)
    requires
        spec_is_best_interface(ifaces, sender, a),
        spec_is_best_interface(ifaces, sender, b),
    ensures
        a == b,
{
}

/// The gateway to use: the sender when the advertised hop is `0.0.0.0` or lies in
/// none of our networks, else the advertised hop.
pub open spec fn spec_next_hop(advertised: u32, sender: u32, ifaces: Seq<InterfaceInfo>) -> u32 {
    if advertised == 0 {
        sender
    } else if exists|k: int| 0 <= k < ifaces.len() && ifaces[k].network.spec_contains(advertised) {
        advertised
    } else {
        sender
    }
}

/// The route (and its bookkeeping) that an advertised route gives, if any: the
/// destination and next hop must parse, the destination must not be one of our
/// interface networks, and an interface must reach the sender. The metric grows by one.
pub open spec fn spec_single_route(
    ri: RouteInfo,
    advertising_router: String,
    sender: u32,
    ifaces: Seq<InterfaceInfo>,
    now: u64,
) -> Option<(RouteEntry, RouteState)> {
    match spec_route_destination(ri.destination@) {
        None => None,
        Some((a, p)) => match ipv4_addr_parse(ri.next_hop@) {
            None => None,
            Some(adv) => {
                let dest = Ipv4Net::spec_from_parts(a, p);
                if spec_is_our_network(dest, ifaces) {
                    None
                } else {
                    match spec_best_interface(ifaces, sender) {
                        None => None,
                        Some(k) => {
                            let route = RouteEntry {
                                destination: dest,
                                next_hop: spec_next_hop(adv, sender, ifaces),
                                interface: ifaces[k].name,
                                metric: (ri.metric + 1) as u32,
                                source: RouteSource::Protocol,
                            };
                            Some(
                                (
                                    route,
                                    RouteState {
                                        route,
                                        last_advertised: now,
                                        advertising_neighbor: advertising_router,
                                    },
                                ),
                            )
                        },
                    }
                }
            },
        },
    }
}

/// A learnt route is taken when no route to its destination exists, or when it
/// has a lower metric, or the same metric through another gateway.
pub open spec fn spec_should_accept(routes: Seq<RouteEntry>, route: RouteEntry) -> bool {
    match spec_find_dest(routes, route.destination) {
        Some(i) => route.metric < routes[i].metric || (route.metric == routes[i].metric
            && route.next_hop != routes[i].next_hop),
        None => true,
    }
}

/// The accepted routes of an update, each with the corrected destination text
/// (the key of its bookkeeping, see `spec_corrected_destination`), in the order
/// advertised.
pub open spec fn spec_accepted(
    infos: Seq<RouteInfo>,
    advertising_router: String,
    sender: u32,
    ifaces: Seq<InterfaceInfo>,
    table: Seq<RouteEntry>,
    now: u64,
) -> Seq<(Seq<char>, RouteEntry, RouteState)>
    decreases infos.len(),
{
    if infos.len() == 0 {
        seq![]
    } else {
        let prev = spec_accepted(infos.drop_last(), advertising_router, sender, ifaces, table, now);
        match spec_single_route(infos.last(), advertising_router, sender, ifaces, now) {
            Some((route, state)) => if spec_should_accept(table, route) {
                prev.push((spec_corrected_destination(infos.last().destination@).unwrap(), route, state))
            } else {
                prev
            },
            None => prev,
        }
    }
}

/// The bookkeeping (keys taken by their text) after recording each accepted
/// route under its key, in order.
pub open spec fn spec_record_states(
    states: Seq<(Seq<char>, RouteState)>,
    accepted: Seq<(Seq<char>, RouteEntry, RouteState)>,
) -> Seq<(Seq<char>, RouteState)>
    decreases accepted.len(),
{
    if accepted.len() == 0 {
        states
    } else {
        let before = spec_record_states(states, accepted.drop_last());
        spec_insert_view(before, accepted.last().0, accepted.last().2)
    }
}

/// The routes of the accepted triples.
pub open spec fn spec_accepted_routes(accepted: Seq<(Seq<char>, RouteEntry, RouteState)>) -> Seq<RouteEntry> {
    accepted.map_values(|t: (Seq<char>, RouteEntry, RouteState)| t.1)
}

/// Whether some advertised route would be used but cannot have its metric increased.
pub open spec fn spec_overflows(
    infos: Seq<RouteInfo>,
    advertising_router: String,
    sender: u32,
    ifaces: Seq<InterfaceInfo>,
    now: u64,
) -> bool {
    exists|k: int|
        0 <= k < infos.len() && spec_single_route(infos[k], advertising_router, sender, ifaces, now)
            is Some && infos[k].metric == u32::MAX
}

/// What processing an update does (see `process_routing_update`): from the router
/// and bookkeeping before it (`router0`, `states0`) to those after it, with result `r`.
pub open spec fn spec_update_processed(
    update: RoutingUpdate,
    sender: IpAddress,
    now: u64,
    router0: Router,
    states0: Seq<(String, RouteState)>,
    router1: Router,
    states1: Seq<(String, RouteState)>,
    r: Result<Vec<SystemRouteOp>, RouteUpdateError>,
) -> bool {
    match sender {
        IpAddress::V6(_) => r == Err::<Vec<SystemRouteOp>, RouteUpdateError>(RouteUpdateError::NotIpv4)
            && router1 == router0 && states1 == states0,
        IpAddress::V4(s) => {
            let ifaces = router0.interfaces@;
            if spec_overflows(update.routes@, update.router_id, s, ifaces, now) {
                r == Err::<Vec<SystemRouteOp>, RouteUpdateError>(RouteUpdateError::MetricOverflow)
                    && router1 == router0 && states1 == states0
            } else {
                let acc = spec_accepted(update.routes@, update.router_id, s, ifaces, router0.routing_table@, now);
                let offered = spec_offer_all(
                    router0.routing_table@,
                    router0.routing_table.local(),
                    spec_accepted_routes(acc),
                );
                &&& spec_key_views(states1) == spec_record_states(spec_key_views(states0), acc)
                &&& router1.routing_table@ == offered.0
                &&& r is Ok && r.unwrap()@ == offered.1
            }
        },
    }
}

/// Rewrites a CIDR text with its host bits cleared, e.g. `10.0.0.7/24` becomes
/// `10.0.0.0/24`.
pub fn host_to_network_route(text: &String) -> (r: Result<String, InvalidNetwork>)
    ensures
        match r {
            Ok(c) => spec_corrected_destination(text@) == Some(c@),
            Err(_) => spec_corrected_destination(text@) is None,
        },
{
    match parse_ipv4_network(text.as_str()) {
        Some(net) => {
            let p = net.prefix();
            Ok(format_cidr(net.network(), p))
        },
        None => Err(InvalidNetwork),
    }
}

/// Whether one of our interfaces has exactly this network.
pub fn is_our_network(dest: &Ipv4Net, ifaces: &Vec<InterfaceInfo>) -> (r: bool)
    ensures
        r == spec_is_our_network(*dest, ifaces@),
{
    let mut k: usize = 0;
    while k < ifaces.len()
        invariant
            k <= ifaces@.len(),
            forall|j: int| 0 <= j < k ==> ifaces@[j].network != *dest,
        decreases ifaces@.len() - k,
    {
        if ifaces[k].network == *dest {
            return true;
        }
        k += 1;
    }
    false
}

/// The interface that reaches `sender` (see `spec_is_best_interface`): its name
/// and a copy of it.
pub fn find_best_interface_for_sender(sender: u32, ifaces: &Vec<InterfaceInfo>) -> (r: Option<(String, InterfaceInfo)>)
    ensures
        match spec_best_interface(ifaces@, sender) {
            Some(k) => r is Some && r.unwrap().1 == ifaces@[k] && r.unwrap().0 == ifaces@[k].name,
            None => r is None,
        },
{
    let mut best: Option<usize> = None;
    let mut best_metric: u32 = u32::MAX;
    let mut k: usize = 0;
    while k < ifaces.len()
        invariant
            k <= ifaces@.len(),
            forall|j: int|
                0 <= j < k && ifaces@[j].network.spec_contains(sender) ==> best_metric <= ifaces@[j].metric,
            match best {
                Some(b) => {
                    &&& b < k
                    &&& ifaces@[b as int].network.spec_contains(sender)
                    &&& ifaces@[b as int].metric == best_metric
                    &&& best_metric < u32::MAX
                    &&& forall|j: int|
                        0 <= j < b && ifaces@[j].network.spec_contains(sender) ==> best_metric
                            < ifaces@[j].metric
                },
                None => best_metric == u32::MAX,
            },
        decreases ifaces@.len() - k,
    {
        if ifaces[k].network.contains(sender) {
            if ifaces[k].metric < best_metric {
                best = Some(k);
                best_metric = ifaces[k].metric;
            }
        }
        k += 1;
    }
    match best {
        Some(b) => {
            proof {
                assert(spec_is_best_interface(ifaces@, sender, b as int));
                let c = choose|c: int| spec_is_best_interface(ifaces@, sender, c);
                lemma_best_interface_unique(ifaces@, sender, b as int, c);
            }
            Some((ifaces[b].name.clone(), ifaces[b].duplicate()))
        },
        None => {
            proof {
                assert forall|c: int| !spec_is_best_interface(ifaces@, sender, c) by {
                    if spec_is_best_interface(ifaces@, sender, c) {
                        assert(ifaces@[c].metric < u32::MAX);
                    }
                }
            }
            None
        },
    }
}

/// The gateway to use (see `spec_next_hop`).
pub fn determine_next_hop(advertised: u32, sender: u32, ifaces: &Vec<InterfaceInfo>) -> (r: u32)
    ensures
        r == spec_next_hop(advertised, sender, ifaces@),
{
    if advertised == 0 {
        return sender;
    }
    let mut k: usize = 0;
    while k < ifaces.len()
        invariant
            k <= ifaces@.len(),
            advertised != 0,
            forall|j: int| 0 <= j < k ==> !ifaces@[j].network.spec_contains(advertised),
        decreases ifaces@.len() - k,
    {
        if ifaces[k].network.contains(advertised) {
            return advertised;
        }
        k += 1;
    }
    sender
}

/// The route an advertised route gives, if any (see `spec_single_route`).
pub fn process_single_route(
    route_info: &RouteInfo,
    advertising_router: &String,
    sender_ip: u32,
    ifaces: &Vec<InterfaceInfo>,
    now: u64,
) -> (r: Option<(RouteEntry, RouteState)>)
    requires
        spec_single_route(*route_info, *advertising_router, sender_ip, ifaces@, now) is Some
            ==> route_info.metric < u32::MAX,
    ensures
        r == spec_single_route(*route_info, *advertising_router, sender_ip, ifaces@, now),
{
    let corrected = match host_to_network_route(&route_info.destination) {
        Ok(c) => c,
        Err(_) => return None,
    };
    let destination = match parse_ipv4_network(corrected.as_str()) {
        Some(d) => d,
        None => return None,
    };
    let advertised = match parse_ipv4_addr(route_info.next_hop.as_str()) {
        Some(a) => a,
        None => return None,
    };
    proof {
        Ipv4Net::lemma_from_parts(destination.spec_addr(), destination.spec_prefix());
        Ipv4Net::lemma_eq(destination, Ipv4Net::spec_from_parts(destination.spec_addr(), destination.spec_prefix()));
    }
    if is_our_network(&destination, ifaces) {
        return None;
    }
    let (interface_name, _info) = match find_best_interface_for_sender(sender_ip, ifaces) {
        Some(found) => found,
        None => return None,
    };
    let next_hop = determine_next_hop(advertised, sender_ip, ifaces);
    let route = RouteEntry {
        destination,
        next_hop,
        interface: interface_name,
        metric: route_info.metric + 1,
        source: RouteSource::Protocol,
    };
    let state = RouteState {
        route: route.duplicate(),
        last_advertised: now,
        advertising_neighbor: advertising_router.clone(),
    };
    Some((route, state))
}

/// Whether an advertised route gives a route at all (see `spec_single_route`).
pub fn single_route_usable(route_info: &RouteInfo, advertising_router: &String, sender_ip: u32, ifaces: &Vec<InterfaceInfo>, now: u64) -> (r: bool)
    ensures
        r == spec_single_route(*route_info, *advertising_router, sender_ip, ifaces@, now) is Some,
{
    let corrected = match host_to_network_route(&route_info.destination) {
        Ok(c) => c,
        Err(_) => return false,
    };
    let destination = match parse_ipv4_network(corrected.as_str()) {
        Some(d) => d,
        None => return false,
    };
    let advertised = match parse_ipv4_addr(route_info.next_hop.as_str()) {
        Some(a) => a,
        None => return false,
    };
    proof {
        Ipv4Net::lemma_from_parts(destination.spec_addr(), destination.spec_prefix());
        Ipv4Net::lemma_eq(destination, Ipv4Net::spec_from_parts(destination.spec_addr(), destination.spec_prefix()));
    }
    if is_our_network(&destination, ifaces) {
        return false;
    }
    find_best_interface_for_sender(sender_ip, ifaces).is_some()
}

/// Whether a learnt route should replace what the table has (see `spec_should_accept`).
pub fn should_accept_route(route: &RouteEntry, table: &RoutingTable) -> (r: bool)
    ensures
        r == spec_should_accept(table@, *route),
{
    match table.find_route(&route.destination) {
        Some(existing) => route.metric < existing.metric || (route.metric == existing.metric
            && route.next_hop != existing.next_hop),
        None => true,
    }
}

/// Processes a neighbour's update: every advertised route that gives a route and
/// beats the current table (as it stood before the update) is accepted; its
/// bookkeeping is recorded under the corrected destination text, and the
/// accepted routes are then offered to the router's table. Nothing changes when
/// the sender is not IPv4, or when a usable route's metric cannot grow.
pub fn process_routing_update(
    update: &RoutingUpdate,
    sender: IpAddress,
    router: &mut Router,
    route_states: &mut Vec<(String, RouteState)>,
    now: u64,
) -> (r: Result<Vec<SystemRouteOp>, RouteUpdateError>)
    requires
        old(router).wf(),
        spec_unique_keys(old(route_states)@),
    ensures
        final(router).wf(),
        spec_unique_keys(final(route_states)@),
        final(router).id == old(router).id,
        final(router).interfaces == old(router).interfaces,
        final(router).network == old(router).network,
        final(router).routing_table.local() == old(router).routing_table.local(),
        spec_update_processed(
            *update,
            sender,
            now,
            *old(router),
            old(route_states)@,
            *final(router),
            final(route_states)@,
            r,
        ),
{
    let sender_ip = match sender {
        IpAddress::V4(s) => s,
        IpAddress::V6(_) => return Err(RouteUpdateError::NotIpv4),
    };
    let ghost ifaces = router.interfaces@;
    let ghost table = router.routing_table@;
    let ghost infos = update.routes@;
    // First make sure that no usable route would overflow its metric.
    let mut k: usize = 0;
    while k < update.routes.len()
        invariant
            k <= infos.len(),
            update.routes@ == infos,
            router.interfaces@ == ifaces,
            *router == *old(router),
            route_states@ == old(route_states)@,
            router.wf(),
            spec_unique_keys(route_states@),
            sender == IpAddress::V4(sender_ip),
            forall|j: int|
                0 <= j < k ==> !(spec_single_route(infos[j], update.router_id, sender_ip, ifaces, now) is Some
                    && infos[j].metric == u32::MAX),
        decreases infos.len() - k,
    {
        if update.routes[k].metric == u32::MAX {
            if single_route_usable(&update.routes[k], &update.router_id, sender_ip, &router.interfaces, now) {
                return Err(RouteUpdateError::MetricOverflow);
            }
        }
        k += 1;
    }
    let mut accepted: Vec<(String, RouteEntry, RouteState)> = Vec::new();
    let ghost mut acc_views: Seq<(Seq<char>, RouteEntry, RouteState)> = Seq::empty();
    let mut i: usize = 0;
    while i < update.routes.len()
        invariant
            i <= infos.len(),
            update.routes@ == infos,
            router.interfaces@ == ifaces,
            *router == *old(router),
            route_states@ == old(route_states)@,
            router.wf(),
            spec_unique_keys(route_states@),
            sender == IpAddress::V4(sender_ip),
            router.routing_table@ == table,
            !spec_overflows(infos, update.router_id, sender_ip, ifaces, now),
            acc_views == spec_accepted(infos.take(i as int), update.router_id, sender_ip, ifaces, table, now),
            acc_views == accepted@.map_values(|t: (String, RouteEntry, RouteState)| (t.0@, t.1, t.2)),
        decreases infos.len() - i,
    {
        proof {
            assert(infos.take(i as int + 1).drop_last() =~= infos.take(i as int));
            assert(infos.take(i as int + 1).last() == infos[i as int]);
        }
        let planned = process_single_route(&update.routes[i], &update.router_id, sender_ip, &router.interfaces, now);
        match planned {
            Some((route, state)) => {
                if should_accept_route(&route, &router.routing_table) {
                    match host_to_network_route(&update.routes[i].destination) {
                        Ok(key) => {
                            proof {
                                acc_views = acc_views.push((key@, route, state));
                            }
                            accepted.push((key, route, state));
                            proof {
                                assert(acc_views =~= accepted@.map_values(
                                    |t: (String, RouteEntry, RouteState)| (t.0@, t.1, t.2),
                                ));
                            }
                        },
                        Err(_) => {},
                    }
                }
            },
            None => {},
        }
        i += 1;
    }
    proof {
        assert(infos.take(infos.len() as int) =~= infos);
    }
    let ghost acc = acc_views;
    let ghost states0 = route_states@;
    let mut new_routes: Vec<RouteEntry> = Vec::new();
    let mut j: usize = 0;
    while j < accepted.len()
        invariant
            j <= acc.len(),
            acc == accepted@.map_values(|t: (String, RouteEntry, RouteState)| (t.0@, t.1, t.2)),
            *router == *old(router),
            spec_unique_keys(route_states@),
            spec_key_views(route_states@) == spec_record_states(spec_key_views(states0), acc.take(j as int)),
            new_routes@ == spec_accepted_routes(acc.take(j as int)),
        decreases acc.len() - j,
    {
        proof {
            assert(acc.take(j as int + 1).drop_last() =~= acc.take(j as int));
        }
        let key = accepted[j].0.clone();
        let state = accepted[j].2.duplicate();
        proof {
            lemma_insert_views(route_states@, key, state);
            assert(acc[j as int] == (key@, accepted@[j as int].1, state));
        }
        insert_keyed(route_states, key, state);
        new_routes.push(accepted[j].1.duplicate());
        proof {
            assert(new_routes@ =~= spec_accepted_routes(acc.take(j as int + 1)));
        }
        j += 1;
    }
    proof {
        assert(acc.take(acc.len() as int) =~= acc);
    }
    if new_routes.len() == 0 {
        proof {
            assert(spec_accepted_routes(acc) =~= Seq::<RouteEntry>::empty());
        }
        return Ok(Vec::new());
    }
    let ops = router.update_routing_table(new_routes);
    Ok(ops)
}

/// The table, the bookkeeping and the system operations after removing the
/// bookkeeping of each destination in turn, each time withdrawing the first
/// route towards the recorded route's destination.
pub open spec fn spec_remove_routes(
    table: Seq<RouteEntry>,
    states: Seq<(String, RouteState)>,
    destinations: Seq<String>,
) -> (Seq<RouteEntry>, Seq<(String, RouteState)>, Seq<SystemRouteOp>)
    decreases destinations.len(),
{
    if destinations.len() == 0 {
        (table, states, seq![])
    } else {
        let (t, s, o) = spec_remove_routes(table, states, destinations.drop_last());
        let d = destinations.last();
        match spec_get(s, d@) {
            Some(st) => match spec_find_dest(t, st.route.destination) {
                Some(i) => (t.remove(i), spec_remove(s, d@), o + spec_delete_ops(t[i])),
                None => (t, spec_remove(s, d@), o),
            },
            None => (t, s, o),
        }
    }
}

/// Forgets the learnt routes to the given destinations: each one's bookkeeping
/// is removed and its route withdrawn from the table (see `spec_remove_routes`).
/// Returns the system operations.
pub fn remove_routes_via_nexthop(
    destinations: &Vec<String>,
    router: &mut Router,
    route_states: &mut Vec<(String, RouteState)>,
) -> (ops: Vec<SystemRouteOp>)
    requires
        old(router).wf(),
        spec_unique_keys(old(route_states)@),
    ensures
        final(router).wf(),
        spec_unique_keys(final(route_states)@),
        final(router).id == old(router).id,
        final(router).interfaces == old(router).interfaces,
        final(router).network == old(router).network,
        final(router).routing_table.local() == old(router).routing_table.local(),
        ({
            let r = spec_remove_routes(old(router).routing_table@, old(route_states)@, destinations@);
            &&& final(router).routing_table@ == r.0
            &&& final(route_states)@ == r.1
            &&& ops@ == r.2
        }),
{
    let ghost t0 = router.routing_table@;
    let ghost s0 = route_states@;
    let ghost ds = destinations@;
    let mut ops: Vec<SystemRouteOp> = Vec::new();
    let mut i: usize = 0;
    while i < destinations.len()
        invariant
            i <= ds.len(),
            destinations@ == ds,
            router.wf(),
            spec_unique_keys(route_states@),
            router.id == old(router).id,
            router.interfaces == old(router).interfaces,
            router.network == old(router).network,
            router.routing_table.local() == old(router).routing_table.local(),
            router.routing_table@ == spec_remove_routes(t0, s0, ds.take(i as int)).0,
            route_states@ == spec_remove_routes(t0, s0, ds.take(i as int)).1,
            ops@ == spec_remove_routes(t0, s0, ds.take(i as int)).2,
        decreases ds.len() - i,
    {
        proof {
            assert(ds.take(i as int + 1).drop_last() =~= ds.take(i as int));
            assert(ds.take(i as int + 1).last() == ds[i as int]);
        }
        match remove_keyed(route_states, &destinations[i]) {
            Some(state) => {
                let mut more = router.routing_table.remove_route(&state.route);
                ops.append(&mut more);
            },
            None => {},
        }
        i += 1;
    }
    proof {
        assert(ds.take(ds.len() as int) =~= ds);
    }
    ops
}

/// The IPv4 address a neighbour was heard from, if it is known and IPv4.
pub fn get_neighbor_ip(neighbor_id: &String, neighbors: &Vec<(String, NeighborInfo)>) -> (r: Option<u32>)
    ensures
        r == match spec_get(neighbors@, neighbor_id@) {
            Some(n) => match n.socket_addr.ip {
                IpAddress::V4(a) => Some(a),
                IpAddress::V6(_) => None,
            },
            None => None::<u32>,
        },
{
    match get_keyed(neighbors, neighbor_id) {
        Some(n) => match n.socket_addr.ip {
            IpAddress::V4(a) => Some(a),
            IpAddress::V6(_) => None,
        },
        None => None,
    }
}

/// A route learnt from an advertisement costs one more than advertised, is a
/// protocol route, goes out through an interface that reaches the sender, and
/// never leads to one of our own interface networks.
pub proof fn law_learnt_route(ri: RouteInfo, advertising_router: String, sender: u32, ifaces: Seq<InterfaceInfo>, now: u64)
    requires
        spec_single_route(ri, advertising_router, sender, ifaces, now) is Some,
        ri.metric < u32::MAX,
    ensures
        ({
            let (route, state) = spec_single_route(ri, advertising_router, sender, ifaces, now).unwrap();
            &&& route.metric == ri.metric + 1
            &&& route.source == RouteSource::Protocol
            &&& !spec_is_our_network(route.destination, ifaces)
            &&& exists|k: int| spec_is_best_interface(ifaces, sender, k) && ifaces[k].name == route.interface
            &&& state.route == route
            &&& state.advertising_neighbor == advertising_router
            &&& state.last_advertised == now
        }),
{
}

/// The gateway of a learnt route is the sender, or the advertised hop when that
/// hop is not `0.0.0.0` and lies in one of our interface networks; a usable
/// advertised hop is always preferred to the sender.
pub proof fn law_gateway_choice(advertised: u32, sender: u32, ifaces: Seq<InterfaceInfo>)
    ensures
        spec_next_hop(advertised, sender, ifaces) == sender || (spec_next_hop(advertised, sender, ifaces)
            == advertised && advertised != 0 && exists|k: int|
            0 <= k < ifaces.len() && ifaces[k].network.spec_contains(advertised)),
        advertised != 0 && (exists|k: int| 0 <= k < ifaces.len() && ifaces[k].network.spec_contains(advertised))
            ==> spec_next_hop(advertised, sender, ifaces) == advertised,
        forall|k: int|
            0 <= k < ifaces.len() && ifaces[k].network.spec_contains(sender) ==> exists|j: int|
                0 <= j < ifaces.len() && ifaces[j].network.spec_contains(spec_next_hop(advertised, sender, ifaces)),
{
}

/// The gateway of a learnt route always lies in one of our interface networks:
/// it is the sender (reached through the route's interface) or an advertised
/// hop on one of our networks.
pub proof fn law_learnt_gateway_is_reachable(
    ri: RouteInfo,
    advertising_router: String,
    sender: u32,
    ifaces: Seq<InterfaceInfo>,
    now: u64,
)
    requires
        spec_single_route(ri, advertising_router, sender, ifaces, now) is Some,
    ensures
        ({
            let route = spec_single_route(ri, advertising_router, sender, ifaces, now).unwrap().0;
            &&& exists|k: int| 0 <= k < ifaces.len() && ifaces[k].network.spec_contains(route.next_hop)
            &&& route.next_hop == sender || ipv4_addr_parse(ri.next_hop@) == Some(route.next_hop)
        }),
{
    let k = spec_best_interface(ifaces, sender).unwrap();
    assert(spec_is_best_interface(ifaces, sender, k));
    law_gateway_choice(ipv4_addr_parse(ri.next_hop@).unwrap(), sender, ifaces);
}

} // verus!
