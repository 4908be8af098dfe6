//! The routing protocol: neighbour discovery, route exchange and the decisions
//! that the protocol's tasks take. The tasks themselves (timers, sockets,
//! channels) run outside this crate; they hand each event to
//! `SimpleRoutingProtocol` and carry out what it returns.
pub mod keyed;
pub mod types;
pub mod route_manager;
pub mod neighbor;
pub mod messages;
pub mod routing_table;
pub mod packet;

use vstd::prelude::*;
use crate::net::{
    IpAddress, Ipv4Net, ipv4_addr_text, ip_address_text, cidr_text, ipv4_network_parse, ipv4_addr_parse,
    format_ipv4_addr, format_ip_address, format_cidr, parse_ipv4_network, parse_ipv4_addr,
};
use crate::network::{
    InterfaceInfo, Network, NetworkError, SystemInterface, spec_insert_interface, spec_unique_names,
    insert_interface, duplicate_interfaces,
};
use crate::text::{chars_of, append_text, string_from_chars};
use crate::router::{Router, RouterInfo, spec_router_built, spec_nothing_found};
use crate::routing_table::{
    RouteEntry, RouteSource, SystemRouteOp, spec_find_dest, spec_delete_ops, spec_deletions, spec_via_hop, spec_not,
    deletions,
};
use crate::protocol::keyed::{
    spec_unique_keys, spec_get, spec_key_index, spec_insert, spec_remove, lemma_key_index, find_key, get_keyed,
    insert_keyed, remove_keyed,
};
use crate::protocol::route_manager::{
    RouteUpdateError, spec_update_processed, spec_remove_routes, process_routing_update,
};
use crate::protocol::types::{
    HelloMessage, NeighborInfo, NeighborRequest, NeighborResponse, NeighborResponseInfo, PendingNeighborRequest,
    RouteInfo, RouteState, RoutingUpdate, SocketAddress,
};

verus! {

/// A neighbour that has not been heard from for longer than this (in
/// nanoseconds: twelve seconds) is considered dead.
pub const NEIGHBOR_TIMEOUT_NS: u64 = 12_000_000_000;

/// A learnt route that has not been advertised for longer than this (in
/// nanoseconds: sixteen seconds) is withdrawn.
pub const ROUTE_TIMEOUT_NS: u64 = 16_000_000_000;

/// A request for another router's neighbours is forgotten after this long (in
/// nanoseconds: thirty seconds).
pub const PENDING_REQUEST_TIMEOUT_NS: u64 = 30_000_000_000;

/// Hello messages are sent this often (nanoseconds: four seconds).
pub const HELLO_INTERVAL_NS: u64 = 4_000_000_000;

/// Routing updates are sent this often (nanoseconds: eight seconds).
pub const UPDATE_INTERVAL_NS: u64 = 8_000_000_000;

/// The cleanup runs this often (nanoseconds: five seconds).
pub const CLEANUP_INTERVAL_NS: u64 = 5_000_000_000;

/// The text of a duration given in nanoseconds, as `Debug` of
/// `std::time::Duration` writes it.
pub uninterp spec fn duration_debug_text(ns: u64) -> Seq<char>;

/// Writes `Debug` of `Duration::from_nanos(ns)` with `format!("{:?}")`; the
/// result is the named text.
#[verifier::external_body]
fn format_duration_debug(ns: u64) -> (r: String)
    ensures
        r@ == duration_debug_text(ns),
{
    format!("{:?}", std::time::Duration::from_nanos(ns))
}

/// The text of a duration given in nanoseconds followed by `" ago"`.
pub open spec fn duration_ago_text(ns: u64) -> Seq<char> {
    duration_debug_text(ns) + " ago"@
}

/// The text `"{duration:?} ago"` of a duration given in nanoseconds.
pub fn format_duration_ago(ns: u64) -> (r: String)
    ensures
        r@ == duration_ago_text(ns),
{
    let mut cs = chars_of(format_duration_debug(ns).as_str());
    append_text(&mut cs, " ago");
    string_from_chars(&cs)
}

/// The time from `then` to `now`, zero when `now` is earlier (as the standard
/// library's `Instant::duration_since` saturates).
pub open spec fn spec_elapsed(now: u64, then: u64) -> int {
    if now >= then {
        now - then
    } else {
        0
    }
}

pub fn elapsed(now: u64, then: u64) -> (r: u64)
    ensures
        r == spec_elapsed(now, then),
{
    if now >= then {
        now - then
    } else {
        0
    }
}

/// The address texts of a router's interfaces, in order.
pub open spec fn spec_interface_texts(ifaces: Seq<InterfaceInfo>) -> Seq<Seq<char>> {
    ifaces.map_values(|i: InterfaceInfo| ipv4_addr_text(i.ip))
}

/// How a neighbour is reported: its identity, address, age and liveness, and its
/// interface addresses.
pub open spec fn spec_neighbor_report(id: String, n: NeighborInfo, now: u64, r: NeighborResponseInfo) -> bool {
    &&& r.router_id == id
    &&& r.ip_address@ == ip_address_text(n.socket_addr.ip)
    &&& r.last_seen@ == duration_ago_text(spec_elapsed(now, n.last_seen) as u64)
    &&& r.is_alive == n.is_alive
    &&& r.interfaces@.map_values(|s: String| s@) == spec_interface_texts(n.router_info.interfaces@)
}

/// The texts of an interface list's addresses.
pub fn interface_texts(ifaces: &Vec<InterfaceInfo>) -> (r: Vec<String>)
    ensures
        r@.map_values(|s: String| s@) == spec_interface_texts(ifaces@),
{
    let mut out: Vec<String> = Vec::new();
    let mut i: usize = 0;
    while i < ifaces.len()
        invariant
            i <= ifaces@.len(),
            out@.len() == i,
            forall|j: int| 0 <= j < i ==> (#[trigger] out@[j])@ == ipv4_addr_text(ifaces@[j].ip),
        decreases ifaces@.len() - i,
    {
        out.push(format_ipv4_addr(ifaces[i].ip));
        i += 1;
    }
    proof {
        assert(out@.map_values(|s: String| s@) =~= spec_interface_texts(ifaces@));
    }
    out
}

/// The report of one neighbour (see `spec_neighbor_report`).
pub fn neighbor_report(id: &String, n: &NeighborInfo, now: u64) -> (r: NeighborResponseInfo)
    ensures
        spec_neighbor_report(*id, *n, now, r),
{
    NeighborResponseInfo {
        router_id: id.clone(),
        ip_address: format_ip_address(n.socket_addr.ip),
        last_seen: format_duration_ago(elapsed(now, n.last_seen)),
        is_alive: n.is_alive,
        interfaces: interface_texts(&n.router_info.interfaces),
    }
}

/// How an advertised route is written: the destination in CIDR notation (with
/// the address as stored), the metric, and the gateway's address.
pub open spec fn spec_route_info(e: RouteEntry, r: RouteInfo) -> bool {
    &&& r.destination@ == cidr_text(e.destination.spec_addr(), e.destination.spec_prefix())
    &&& r.metric == e.metric
    &&& r.next_hop@ == ipv4_addr_text(e.next_hop)
}

/// A route of the table as the control interface shows it.
#[derive(Debug)]
pub struct RouteRow {
    pub destination: String,
    /// `"direct"` for a directly connected route, else the gateway's address.
    pub next_hop: String,
    pub interface: String,
    pub metric: u32,
    /// `"Direct"`, `"Protocol"` or `"Static"`.
    pub source: String,
}

/// The name of a route source.
pub open spec fn spec_source_name(s: RouteSource) -> Seq<char> {
    match s {
        RouteSource::Direct => seq!['D', 'i', 'r', 'e', 'c', 't'],
        RouteSource::Protocol => seq!['P', 'r', 'o', 't', 'o', 'c', 'o', 'l'],
        RouteSource::Static => seq!['S', 't', 'a', 't', 'i', 'c'],
    }
}

/// The text shown for a gateway: `"direct"` for `0.0.0.0`, else its address.
pub open spec fn spec_next_hop_text(next_hop: u32) -> Seq<char> {
    if next_hop == 0 {
        seq!['d', 'i', 'r', 'e', 'c', 't']
    } else {
        ipv4_addr_text(next_hop)
    }
}

/// How the control interface shows a route.
pub open spec fn spec_route_row(e: RouteEntry, r: RouteRow) -> bool {
    &&& r.destination@ == cidr_text(e.destination.spec_addr(), e.destination.spec_prefix())
    &&& r.next_hop@ == spec_next_hop_text(e.next_hop)
    &&& r.interface == e.interface
    &&& r.metric == e.metric
    &&& r.source@ == spec_source_name(e.source)
}

pub fn source_name(s: RouteSource) -> (r: String)
    ensures
        r@ == spec_source_name(s),
{
    let mut out = String::new();
    let text: &str = match s {
        RouteSource::Direct => "Direct",
        RouteSource::Protocol => "Protocol",
        RouteSource::Static => "Static",
    };
    proof {
        reveal_strlit("Direct");
        reveal_strlit("Protocol");
        reveal_strlit("Static");
    }
    out = text.to_owned();
    proof {
        match s {
            RouteSource::Direct => assert(out@ =~= spec_source_name(s)),
            RouteSource::Protocol => assert(out@ =~= spec_source_name(s)),
            RouteSource::Static => assert(out@ =~= spec_source_name(s)),
        }
    }
    out
}

/// The gateway's text (see `spec_next_hop_text`).
pub fn next_hop_text(next_hop: u32) -> (r: String)
    ensures
        r@ == spec_next_hop_text(next_hop),
{
    if next_hop == 0 {
        let s = "direct".to_owned();
        proof {
            reveal_strlit("direct");
            assert(s@ =~= spec_next_hop_text(next_hop));
        }
        s
    } else {
        format_ipv4_addr(next_hop)
    }
}

/// The text `"{ip}/32"`.
pub open spec fn spec_host_cidr(ip: Seq<char>) -> Seq<char> {
    ip + seq!['/', '3', '2']
}

/// The text `"{ip}/32"`.
pub fn format_host_cidr(ip: &str) -> (r: String)
    ensures
        r@ == spec_host_cidr(ip@),
{
    let mut cs = chars_of(ip);
    append_text(&mut cs, "/32");
    let r = string_from_chars(&cs);
    proof {
        reveal_strlit("/32");
        assert(r@ =~= spec_host_cidr(ip@));
    }
    r
}

/// Whether every interface address of a hello message reads as a host network.
pub open spec fn spec_hello_parses(h: HelloMessage) -> bool {
    forall|i: int|
        0 <= i < h.interfaces@.len() ==> ipv4_network_parse(spec_host_cidr((#[trigger] h.interfaces@[i]).1@)) is Some
}

/// The interface that a hello message announces under `name` with address text
/// `ip`: the address as read (`0.0.0.0` when it does not read), the host network
/// `"{ip}/32"`, metric 1.
pub open spec fn spec_hello_interface(name: String, ip: String) -> InterfaceInfo {
    let (a, p) = ipv4_network_parse(spec_host_cidr(ip@)).unwrap();
    InterfaceInfo {
        name,
        ip: match ipv4_addr_parse(ip@) {
            Some(x) => x,
            None => 0,
        },
        network: Ipv4Net::spec_from_parts(a, p),
        metric: 1,
    }
}

/// The interfaces of a hello message collected by name, a later entry replacing
/// an earlier one of the same name.
pub open spec fn spec_hello_interfaces(entries: Seq<(String, String)>) -> Seq<InterfaceInfo>
    decreases entries.len(),
{
    if entries.len() == 0 {
        seq![]
    } else {
        spec_insert_interface(
            spec_hello_interfaces(entries.drop_last()),
            spec_hello_interface(entries.last().0, entries.last().1),
        )
    }
}

/// The interface announced for one entry (see `spec_hello_interface`).
fn hello_interface(name: &String, ip: &String) -> (r: InterfaceInfo)
    requires
        ipv4_network_parse(spec_host_cidr(ip@)) is Some,
    ensures
        r == spec_hello_interface(*name, *ip),
{
    let host = format_host_cidr(ip.as_str());
    let network = match parse_ipv4_network(host.as_str()) {
        Some(n) => n,
        None => {
            return vstd::pervasive::unreached();
        },
    };
    let addr = match parse_ipv4_addr(ip.as_str()) {
        Some(x) => x,
        None => 0,
    };
    proof {
        Ipv4Net::lemma_from_parts(network.spec_addr(), network.spec_prefix());
        Ipv4Net::lemma_eq(network, Ipv4Net::spec_from_parts(network.spec_addr(), network.spec_prefix()));
    }
    InterfaceInfo { name: name.clone(), ip: addr, network, metric: 1 }
}

/// Whether every interface address of a hello message reads as a host network
/// (see `spec_hello_parses`).
pub fn hello_parses(h: &HelloMessage) -> (r: bool)
    ensures
        r == spec_hello_parses(*h),
{
    let mut i: usize = 0;
    while i < h.interfaces.len()
        invariant
            i <= h.interfaces@.len(),
            forall|j: int|
                0 <= j < i ==> ipv4_network_parse(spec_host_cidr((#[trigger] h.interfaces@[j]).1@)) is Some,
        decreases h.interfaces@.len() - i,
    {
        let host = format_host_cidr(h.interfaces[i].1.as_str());
        if parse_ipv4_network(host.as_str()).is_none() {
            return false;
        }
        i += 1;
    }
    true
}

/// The interfaces that a hello message announces (see `spec_hello_interfaces`).
pub fn hello_interfaces(h: &HelloMessage) -> (r: Vec<InterfaceInfo>)
    requires
        spec_hello_parses(*h),
    ensures
        r@ == spec_hello_interfaces(h.interfaces@),
        spec_unique_names(r@),
{
    let mut out: Vec<InterfaceInfo> = Vec::new();
    let mut i: usize = 0;
    while i < h.interfaces.len()
        invariant
            i <= h.interfaces@.len(),
            spec_hello_parses(*h),
            out@ == spec_hello_interfaces(h.interfaces@.take(i as int)),
            spec_unique_names(out@),
        decreases h.interfaces@.len() - i,
    {
        proof {
            assert(h.interfaces@.take(i as int + 1).drop_last() =~= h.interfaces@.take(i as int));
            assert(h.interfaces@.take(i as int + 1).last() == h.interfaces@[i as int]);
            assert(ipv4_network_parse(spec_host_cidr(h.interfaces@[i as int].1@)) is Some);
        }
        let info = hello_interface(&h.interfaces[i].0, &h.interfaces[i].1);
        insert_interface(&mut out, info);
        i += 1;
    }
    proof {
        assert(h.interfaces@.take(h.interfaces@.len() as int) =~= h.interfaces@);
    }
    out
}

/// A message from another router, decoded.
#[derive(Debug)]
pub enum IncomingMessage {
    Hello(HelloMessage),
    Update(RoutingUpdate),
    NeighborRequest(NeighborRequest),
    NeighborResponse(NeighborResponse),
}

/// What the protocol's tasks must do after a message.
#[derive(Debug)]
pub enum MessageOutcome {
    /// Nothing: the message is our own, or asks for another router's neighbours.
    Ignored,
    /// A neighbour was heard from; `was_dead` when it was unknown or dead before.
    NeighborSeen { was_dead: bool },
    /// An update was processed; the system's routing table must follow these operations.
    RoutesUpdated(Vec<SystemRouteOp>),
    /// A request for our neighbours: this answer goes back to the sender.
    Reply(NeighborResponse),
    /// The answer to one of our requests: these neighbours go to whoever waits for `request_id`.
    Deliver { request_id: String, neighbors: Vec<NeighborResponseInfo> },
    /// An answer to no request of ours.
    UnknownResponse,
}

/// Why a message could not be handled.
#[derive(Debug, Clone, Copy, PartialEq, Eq, Structural)]
pub enum MessageError {
    /// A hello message announces an interface address that does not read as a host network.
    BadInterfaceAddress,
    /// An update could not be processed.
    Route(RouteUpdateError),
}

/// The neighbour table after hearing from `id`: its entry, if any, is refreshed
/// (seen at `now`, alive).
pub open spec fn spec_refresh_neighbor(neighbors: Seq<(String, NeighborInfo)>, id: Seq<char>, now: u64) -> Seq<
    (String, NeighborInfo),
> {
    match spec_key_index(neighbors, id) {
        Some(i) => neighbors.update(
            i,
            (neighbors[i].0, NeighborInfo { last_seen: now, is_alive: true, ..neighbors[i].1 }),
        ),
        None => neighbors,
    }
}

/// What a hello message from another router does to the neighbour table: the
/// sender is recorded under its identifier with the announced interfaces, seen
/// at `now` from `sender`, alive.
pub open spec fn spec_hello_recorded(
    before: Seq<(String, NeighborInfo)>,
    after: Seq<(String, NeighborInfo)>,
    hello: HelloMessage,
    sender: SocketAddress,
    now: u64,
) -> bool {
    exists|info: NeighborInfo|
        after == spec_insert(before, hello.router_id, info) && info.router_info.router_id == hello.router_id
            && info.router_info.interfaces@ == spec_hello_interfaces(hello.interfaces@) && info.last_seen == now
            && info.socket_addr == sender && info.is_alive
}

/// Whether a neighbour was unknown or dead.
pub open spec fn spec_was_dead(neighbors: Seq<(String, NeighborInfo)>, id: Seq<char>) -> bool {
    match spec_get(neighbors, id) {
        Some(n) => !n.is_alive,
        None => true,
    }
}

impl NeighborInfo {
    /// An identical copy.
    pub fn duplicate(&self) -> (r: NeighborInfo)
        ensures
            r.router_info.router_id == self.router_info.router_id,
            r.router_info.interfaces@ == self.router_info.interfaces@,
            r.last_seen == self.last_seen,
            r.socket_addr == self.socket_addr,
            r.is_alive == self.is_alive,
    {
        NeighborInfo {
            router_info: RouterInfo {
                router_id: self.router_info.router_id.clone(),
                interfaces: duplicate_interfaces(&self.router_info.interfaces),
            },
            last_seen: self.last_seen,
            socket_addr: self.socket_addr,
            is_alive: self.is_alive,
        }
    }
}

/// A neighbour that was alive and has not been heard from for longer than the
/// timeout at `now`: it dies.
pub open spec fn spec_dies(now: u64) -> spec_fn((String, NeighborInfo)) -> bool {
    |e: (String, NeighborInfo)| spec_elapsed(now, e.1.last_seen) > NEIGHBOR_TIMEOUT_NS && e.1.is_alive
}

/// A neighbour that was dead and has been heard from within the timeout: it lives again.
pub open spec fn spec_revives(now: u64) -> spec_fn((String, NeighborInfo)) -> bool {
    |e: (String, NeighborInfo)| spec_elapsed(now, e.1.last_seen) <= NEIGHBOR_TIMEOUT_NS && !e.1.is_alive
}

/// A neighbour after the liveness check at `now`: alive exactly when heard from within the timeout.
pub open spec fn spec_checked(now: u64) -> spec_fn((String, NeighborInfo)) -> (String, NeighborInfo) {
    |e: (String, NeighborInfo)|
        (e.0, NeighborInfo { is_alive: spec_elapsed(now, e.1.last_seen) <= NEIGHBOR_TIMEOUT_NS, ..e.1 })
}

/// The identifiers of a list of neighbours.
pub open spec fn spec_ids(s: Seq<(String, NeighborInfo)>) -> Seq<String> {
    s.map_values(|e: (String, NeighborInfo)| e.0)
}

/// The addresses that a list of neighbours were heard from.
pub open spec fn spec_addrs(s: Seq<(String, NeighborInfo)>) -> Seq<IpAddress> {
    s.map_values(|e: (String, NeighborInfo)| e.1.socket_addr.ip)
}

/// A learnt route to withdraw: advertised by one of the `dead` neighbours, or not
/// advertised for longer than the route timeout at `now`.
pub open spec fn spec_removable(dead: Seq<String>, now: u64) -> spec_fn((String, RouteState)) -> bool {
    |e: (String, RouteState)|
        dead.map_values(|d: String| d@).contains(e.1.advertising_neighbor@) || spec_elapsed(now, e.1.last_advertised)
            > ROUTE_TIMEOUT_NS
}

/// The bookkeeping entries not selected by `p`.
pub open spec fn spec_not_state(p: spec_fn((String, RouteState)) -> bool) -> spec_fn((String, RouteState)) -> bool {
    |e: (String, RouteState)| !p(e)
}

/// Every element of a filtered sequence comes from the sequence.
pub proof fn lemma_filter_from<A>(s: Seq<A>, p: spec_fn(A) -> bool, i: int)
    requires
        0 <= i < s.filter(p).len(),
    ensures
        exists|j: int| 0 <= j < s.len() && s[j] == s.filter(p)[i],
    decreases s.len(),
{
    reveal(Seq::filter);
    if s.len() > 0 {
        let f = s.drop_last().filter(p);
        if i < f.len() {
            lemma_filter_from(s.drop_last(), p, i);
            let j = choose|j: int| 0 <= j < s.drop_last().len() && s.drop_last()[j] == f[i];
            assert(s[j] == s.filter(p)[i]);
        } else {
            assert(s[s.len() - 1] == s.filter(p)[i]);
        }
    }
}

/// The pending requests not selected by `p`.
pub open spec fn spec_not_pending(p: spec_fn((String, PendingNeighborRequest)) -> bool) -> spec_fn(
    (String, PendingNeighborRequest),
) -> bool {
    |e: (String, PendingNeighborRequest)| !p(e)
}

/// Filtering keeps keys unique.
pub proof fn lemma_filter_keeps_unique<V>(s: Seq<(String, V)>, p: spec_fn((String, V)) -> bool)
    requires
        spec_unique_keys(s),
    ensures
        spec_unique_keys(s.filter(p)),
    decreases s.len(),
{
    reveal(Seq::filter);
    if s.len() > 0 {
        lemma_filter_keeps_unique(s.drop_last(), p);
        let f = s.drop_last().filter(p);
        if p(s.last()) {
            assert forall|i: int| 0 <= i < f.len() implies f[i].0@ != s.last().0@ by {
                lemma_filter_from(s.drop_last(), p, i);
                let w = choose|w: int| 0 <= w < s.drop_last().len() && s.drop_last()[w] == f[i];
                assert(s[w] == f[i]);
            }
            assert(s.filter(p) == f.push(s.last()));
        }
    }
}

/// The table and the system operations after withdrawing the first route towards
/// the destination of `e`, if any (see `RoutingTable::remove_route`).
pub open spec fn spec_withdraw(routes: Seq<RouteEntry>, e: RouteEntry) -> (Seq<RouteEntry>, Seq<SystemRouteOp>) {
    match spec_find_dest(routes, e.destination) {
        Some(i) => (routes.remove(i), spec_delete_ops(routes[i])),
        None => (routes, seq![]),
    }
}

/// Withdrawing each route's destination in turn.
pub open spec fn spec_withdraw_all(routes: Seq<RouteEntry>, rs: Seq<RouteEntry>) -> (
    Seq<RouteEntry>,
    Seq<SystemRouteOp>,
)
    decreases rs.len(),
{
    if rs.len() == 0 {
        (routes, seq![])
    } else {
        let (t, o) = spec_withdraw_all(routes, rs.drop_last());
        let (t2, o2) = spec_withdraw(t, rs.last());
        (t2, o + o2)
    }
}

/// Withdrawing every protocol route through an IPv4 gateway (nothing for IPv6),
/// with the deletions in reverse table order.
pub open spec fn spec_drop_via(routes: Seq<RouteEntry>, a: IpAddress) -> (Seq<RouteEntry>, Seq<SystemRouteOp>) {
    match a {
        IpAddress::V4(x) => (
            routes.filter(spec_not(spec_via_hop(x))),
            spec_deletions(routes.filter(spec_via_hop(x)).reverse()),
        ),
        IpAddress::V6(_) => (routes, seq![]),
    }
}

/// Withdrawing the routes through each address in turn.
pub open spec fn spec_drop_via_all(routes: Seq<RouteEntry>, addrs: Seq<IpAddress>) -> (
    Seq<RouteEntry>,
    Seq<SystemRouteOp>,
)
    decreases addrs.len(),
{
    if addrs.len() == 0 {
        (routes, seq![])
    } else {
        let (t, o) = spec_drop_via_all(routes, addrs.drop_last());
        let (t2, o2) = spec_drop_via(t, addrs.last());
        (t2, o + o2)
    }
}

/// What a cleanup found: the neighbours that died and those that came back (by
/// identifier, in table order), and the system operations that follow.
#[derive(Debug)]
pub struct CleanupReport {
    pub dead: Vec<String>,
    pub revived: Vec<String>,
    pub ops: Vec<SystemRouteOp>,
}

/// Whether `name` is in the list.
pub fn contains_name(list: &Vec<String>, name: &String) -> (r: bool)
    ensures
        r == list@.map_values(|d: String| d@).contains(name@),
{
    let mut i: usize = 0;
    while i < list.len()
        invariant
            i <= list@.len(),
            forall|j: int| 0 <= j < i ==> list@[j]@ != name@,
        decreases list@.len() - i,
    {
        if list[i] == *name {
            proof {
                assert(list@.map_values(|d: String| d@)[i as int] == name@);
            }
            return true;
        }
        i += 1;
    }
    proof {
        let views = list@.map_values(|d: String| d@);
        assert forall|w: int| 0 <= w < views.len() implies views[w] != name@ by {
            assert(views[w] == list@[w]@);
        }
    }
    false
}

/// The state of the routing protocol on one router.
pub struct SimpleRoutingProtocol {
    pub router: Router,
    /// Neighbours keyed by router identifier.
    pub neighbors: Vec<(String, NeighborInfo)>,
    /// Learnt routes' bookkeeping, keyed by the advertised destination text.
    pub route_states: Vec<(String, RouteState)>,
    /// The sequence number of the last update sent.
    pub sequence: u64,
    pub port: u16,
    pub debug_mode: bool,
    /// Our interfaces' addresses: packets from them are our own.
    pub our_ips: std::collections::HashSet<u32>,
    pub is_running: bool,
    /// Requests for other routers' neighbours that wait for an answer, keyed by request id.
    pub pending_neighbor_requests: Vec<(String, PendingNeighborRequest)>,
}

impl SimpleRoutingProtocol {
    pub open spec fn wf(&self) -> bool {
        &&& self.router.wf()
        &&& spec_unique_keys(self.neighbors@)
        &&& spec_unique_keys(self.route_states@)
        &&& spec_unique_keys(self.pending_neighbor_requests@)
    }

    /// Builds the router over the interfaces found in the snapshot `sys`; nothing
    /// runs yet and nothing is known of neighbours. Fails as `Router::new` does.
    pub fn new(
        router_id: String,
        interface_names: Vec<String>,
        port: u16,
        network: Network,
        debug_mode: bool,
        sys: &Vec<SystemInterface>,
    ) -> (r: Result<SimpleRoutingProtocol, NetworkError>)
        requires
            network.wf(),
        ensures
            match r {
                Ok(p) => {
                    &&& p.wf()
                    &&& spec_router_built(p.router, router_id, network@, interface_names@, sys@)
                    &&& p.neighbors@.len() == 0
                    &&& p.route_states@.len() == 0
                    &&& p.pending_neighbor_requests@.len() == 0
                    &&& p.sequence == 0
                    &&& p.port == port
                    &&& p.debug_mode == debug_mode
                    &&& !p.is_running
                    &&& p.our_ips@ == p.router.interfaces@.map_values(|i: InterfaceInfo| i.ip).to_set()
                },
                Err(e) => e == NetworkError::NoValidInterfaces && spec_nothing_found(
                    network@,
                    interface_names@,
                    sys@,
                ),
            },
    {
        let router = match Router::new(router_id, network, interface_names, sys) {
            Ok(r) => r,
            Err(e) => return Err(e),
        };
        broadcast use vstd::std_specs::hash::group_hash_axioms;
        let mut our_ips: std::collections::HashSet<u32> = std::collections::HashSet::new();
        let mut i: usize = 0;
        while i < router.interfaces.len()
            invariant
                i <= router.interfaces@.len(),
                our_ips@ == router.interfaces@.take(i as int).map_values(|x: InterfaceInfo| x.ip).to_set(),
            decreases router.interfaces@.len() - i,
        {
            let ghost before = router.interfaces@.take(i as int).map_values(|x: InterfaceInfo| x.ip);
            our_ips.insert(router.interfaces[i].ip);
            proof {
                let after = router.interfaces@.take(i as int + 1).map_values(|x: InterfaceInfo| x.ip);
                assert(after =~= before.push(router.interfaces@[i as int].ip));
                assert(our_ips@ =~= after.to_set()) by {
                    assert forall|a: u32| our_ips@.contains(a) <==> after.to_set().contains(a) by {
                        if a == router.interfaces@[i as int].ip {
                            assert(after[i as int] == a);
                        }
                        if before.contains(a) {
                            let k = choose|k: int| 0 <= k < before.len() && before[k] == a;
                            assert(after[k] == a);
                        }
                        if after.contains(a) {
                            let k = choose|k: int| 0 <= k < after.len() && after[k] == a;
                            if k < i {
                                assert(before[k] == a);
                            }
                        }
                    }
                }
            }
            i += 1;
        }
        proof {
            assert(router.interfaces@.take(router.interfaces@.len() as int) =~= router.interfaces@);
        }
        Ok(
            SimpleRoutingProtocol {
                router,
                neighbors: Vec::new(),
                route_states: Vec::new(),
                sequence: 0,
                port,
                debug_mode,
                our_ips,
                is_running: false,
                pending_neighbor_requests: Vec::new(),
            },
        )
    }

    /// The router's identifier and whether the protocol runs.
    pub fn get_status(&self) -> (r: (String, bool))
        ensures
            r.0 == self.router.id,
            r.1 == self.is_running,
    {
        (self.router.id.clone(), self.is_running)
    }

    /// Marks the protocol as running. Returns whether its tasks must be started
    /// (they must not when it already runs).
    pub fn start_protocol(&mut self) -> (start: bool)
        ensures
            start == !old(self).is_running,
            final(self).is_running,
            *final(self) == (SimpleRoutingProtocol { is_running: true, ..*old(self) }),
    {
        if self.is_running {
            return false;
        }
        self.is_running = true;
        true
    }

    /// Marks the protocol as stopped. Returns whether its tasks must be stopped
    /// (they need not when it does not run).
    pub fn stop_protocol(&mut self) -> (stop: bool)
        ensures
            stop == old(self).is_running,
            !final(self).is_running,
            *final(self) == (SimpleRoutingProtocol { is_running: false, ..*old(self) }),
    {
        if !self.is_running {
            return false;
        }
        self.is_running = false;
        true
    }

    /// Whether a packet from this peer is one of our own (an IPv4 peer at one of
    /// our addresses), to be ignored.
    pub fn is_own_packet(&self, peer: SocketAddress) -> (r: bool)
        ensures
            r == match peer.ip {
                IpAddress::V4(a) => self.our_ips@.contains(a),
                IpAddress::V6(_) => false,
            },
    {
        broadcast use vstd::std_specs::hash::group_hash_axioms;
        match peer.ip {
            IpAddress::V4(a) => self.our_ips.contains(&a),
            IpAddress::V6(_) => false,
        }
    }

    /// Where hello messages, updates and neighbour requests go: the broadcast
    /// address of each interface's network, at the protocol's port, in interface order.
    pub fn broadcast_targets(&self) -> (r: Vec<SocketAddress>)
        ensures
            r@.len() == self.router.interfaces@.len(),
            forall|i: int|
                0 <= i < r@.len() ==> #[trigger] r@[i] == (SocketAddress {
                    ip: IpAddress::V4(
                        self.router.interfaces@[i].network.spec_addr() | !crate::net::v4_mask(
                            self.router.interfaces@[i].network.spec_prefix(),
                        ),
                    ),
                    port: self.port,
                }),
    {
        let mut out: Vec<SocketAddress> = Vec::new();
        let mut i: usize = 0;
        while i < self.router.interfaces.len()
            invariant
                i <= self.router.interfaces@.len(),
                out@.len() == i,
                forall|j: int|
                    0 <= j < i ==> #[trigger] out@[j] == (SocketAddress {
                        ip: IpAddress::V4(
                            self.router.interfaces@[j].network.spec_addr() | !crate::net::v4_mask(
                                self.router.interfaces@[j].network.spec_prefix(),
                            ),
                        ),
                        port: self.port,
                    }),
            decreases self.router.interfaces@.len() - i,
        {
            let b = self.router.interfaces[i].network.broadcast();
            out.push(SocketAddress { ip: IpAddress::V4(b), port: self.port });
            i += 1;
        }
        out
    }

    /// Our hello message: our identifier and, per interface, its name and address text.
    pub fn build_hello(&self) -> (h: HelloMessage)
        ensures
            h.router_id == self.router.id,
            h.interfaces@.len() == self.router.interfaces@.len(),
            forall|i: int|
                0 <= i < h.interfaces@.len() ==> (#[trigger] h.interfaces@[i]).0 == self.router.interfaces@[i].name
                    && h.interfaces@[i].1@ == ipv4_addr_text(self.router.interfaces@[i].ip),
    {
        let info = self.router.get_router_info();
        let mut interfaces: Vec<(String, String)> = Vec::new();
        let mut i: usize = 0;
        while i < info.interfaces.len()
            invariant
                i <= info.interfaces@.len(),
                info.interfaces@ == self.router.interfaces@,
                interfaces@.len() == i,
                forall|j: int|
                    0 <= j < i ==> (#[trigger] interfaces@[j]).0 == info.interfaces@[j].name
                        && interfaces@[j].1@ == ipv4_addr_text(info.interfaces@[j].ip),
            decreases info.interfaces@.len() - i,
        {
            interfaces.push((info.interfaces[i].name.clone(), format_ipv4_addr(info.interfaces[i].ip)));
            i += 1;
        }
        HelloMessage { router_id: info.router_id, interfaces }
    }

    /// The next routing update: the sequence number grows by one, and every route
    /// of the table is advertised, in table order.
    pub fn next_update(&mut self) -> (u: RoutingUpdate)
        requires
            old(self).sequence < u64::MAX,
        ensures
            *final(self) == (SimpleRoutingProtocol { sequence: (old(self).sequence + 1) as u64, ..*old(self) }),
            u.router_id == old(self).router.id,
            u.sequence == old(self).sequence + 1,
            u.routes@.len() == old(self).router.routing_table@.len(),
            forall|i: int|
                0 <= i < u.routes@.len() ==> spec_route_info(
                    old(self).router.routing_table@[i],
                    #[trigger] u.routes@[i],
                ),
    {
        self.sequence = self.sequence + 1;
        let routes_in = self.router.routing_table.get_routes();
        let mut routes: Vec<RouteInfo> = Vec::new();
        let mut i: usize = 0;
        while i < routes_in.len()
            invariant
                i <= routes_in@.len(),
                routes_in@ == self.router.routing_table@,
                routes@.len() == i,
                forall|j: int| 0 <= j < i ==> spec_route_info(routes_in@[j], #[trigger] routes@[j]),
            decreases routes_in@.len() - i,
        {
            let e = &routes_in[i];
            routes.push(
                RouteInfo {
                    destination: format_cidr(e.destination.ip(), e.destination.prefix()),
                    metric: e.metric,
                    next_hop: format_ipv4_addr(e.next_hop),
                },
            );
            i += 1;
        }
        RoutingUpdate { router_id: self.router.id.clone(), sequence: self.sequence, routes }
    }

    /// The routing table as the control interface shows it, in table order.
    pub fn get_routing_table(&self) -> (r: Vec<RouteRow>)
        ensures
            r@.len() == self.router.routing_table@.len(),
            forall|i: int| 0 <= i < r@.len() ==> spec_route_row(self.router.routing_table@[i], #[trigger] r@[i]),
    {
        let routes_in = self.router.routing_table.get_routes();
        let mut rows: Vec<RouteRow> = Vec::new();
        let mut i: usize = 0;
        while i < routes_in.len()
            invariant
                i <= routes_in@.len(),
                routes_in@ == self.router.routing_table@,
                rows@.len() == i,
                forall|j: int| 0 <= j < i ==> spec_route_row(routes_in@[j], #[trigger] rows@[j]),
            decreases routes_in@.len() - i,
        {
            let e = &routes_in[i];
            rows.push(
                RouteRow {
                    destination: format_cidr(e.destination.ip(), e.destination.prefix()),
                    next_hop: next_hop_text(e.next_hop),
                    interface: e.interface.clone(),
                    metric: e.metric,
                    source: source_name(e.source),
                },
            );
            i += 1;
        }
        rows
    }

    /// The IPv4 address a neighbour was heard from, if it is known and IPv4.
    pub fn get_neighbor_ip(&self, neighbor_id: &String) -> (r: Option<u32>)
        ensures
            r == match spec_get(self.neighbors@, neighbor_id@) {
                Some(n) => match n.socket_addr.ip {
                    IpAddress::V4(a) => Some(a),
                    IpAddress::V6(_) => None,
                },
                None => None::<u32>,
            },
    {
        crate::protocol::route_manager::get_neighbor_ip(neighbor_id, &self.neighbors)
    }

    /// Forgets the learnt routes to the given destinations (see
    /// `route_manager::remove_routes_via_nexthop`); returns the system operations.
    pub fn remove_routes(&mut self, destinations: &Vec<String>) -> (ops: Vec<SystemRouteOp>)
        requires
            old(self).wf(),
        ensures
            final(self).wf(),
            ({
                let r = spec_remove_routes(old(self).router.routing_table@, old(self).route_states@, destinations@);
                &&& final(self).router.routing_table@ == r.0
                &&& final(self).route_states@ == r.1
                &&& ops@ == r.2
            }),
            final(self).router.id == old(self).router.id,
            final(self).router.interfaces == old(self).router.interfaces,
            final(self).neighbors == old(self).neighbors,
            final(self).pending_neighbor_requests == old(self).pending_neighbor_requests,
            final(self).sequence == old(self).sequence,
            final(self).is_running == old(self).is_running,
    {
        crate::protocol::route_manager::remove_routes_via_nexthop(
            destinations,
            &mut self.router,
            &mut self.route_states,
        )
    }

    /// A pending request older than the timeout at `now` (wall-clock nanoseconds).
    pub open spec fn spec_expired(now: u64) -> spec_fn((String, PendingNeighborRequest)) -> bool {
        |e: (String, PendingNeighborRequest)| spec_elapsed(now, e.1.timestamp) > PENDING_REQUEST_TIMEOUT_NS
    }

    /// Forgets the requests older than the timeout at `now`; returns their ids, in order.
    pub fn cleanup_expired_requests(&mut self, now: u64) -> (r: Vec<String>)
        requires
            old(self).wf(),
        ensures
            final(self).wf(),
            final(self).pending_neighbor_requests@ == old(self).pending_neighbor_requests@.filter(
                spec_not_pending(Self::spec_expired(now)),
            ),
            r@ == old(self).pending_neighbor_requests@.filter(Self::spec_expired(now)).map_values(
                |e: (String, PendingNeighborRequest)| e.0,
            ),
            *final(self) == (SimpleRoutingProtocol {
                pending_neighbor_requests: final(self).pending_neighbor_requests,
                ..*old(self)
            }),
    {
        let ghost p = Self::spec_expired(now);
        let ghost orig = self.pending_neighbor_requests@;
        let mut kept: Vec<(String, PendingNeighborRequest)> = Vec::new();
        let mut gone: Vec<String> = Vec::new();
        let mut i: usize = 0;
        while i < self.pending_neighbor_requests.len()
            invariant
                i <= orig.len(),
                self.pending_neighbor_requests@ == orig,
                p == Self::spec_expired(now),
                kept@ == orig.take(i as int).filter(spec_not_pending(p)),
                gone@ == orig.take(i as int).filter(p).map_values(|e: (String, PendingNeighborRequest)| e.0),
            decreases orig.len() - i,
        {
            proof {
                reveal(Seq::filter);
                assert(orig.take(i as int + 1).drop_last() =~= orig.take(i as int));
                assert(orig.take(i as int + 1).last() == orig[i as int]);
            }
            let e = &self.pending_neighbor_requests[i];
            if elapsed(now, e.1.timestamp) > PENDING_REQUEST_TIMEOUT_NS {
                gone.push(e.0.clone());
                proof {
                    assert(gone@ =~= orig.take(i as int + 1).filter(p).map_values(
                        |e: (String, PendingNeighborRequest)| e.0,
                    ));
                }
            } else {
                kept.push((e.0.clone(), e.1));
                proof {
                    assert(kept@ =~= orig.take(i as int + 1).filter(spec_not_pending(p)));
                }
            }
            i += 1;
        }
        proof {
            assert(orig.take(orig.len() as int) =~= orig);
            lemma_filter_keeps_unique(orig, spec_not_pending(p));
        }
        self.pending_neighbor_requests = kept;
        gone
    }

    /// Every neighbour's report at time `now` (see `spec_neighbor_report`), in table order.
    pub fn get_neighbors(&self, now: u64) -> (r: Vec<NeighborResponseInfo>)
        ensures
            r@.len() == self.neighbors@.len(),
            forall|i: int|
                0 <= i < r@.len() ==> spec_neighbor_report(
                    self.neighbors@[i].0,
                    self.neighbors@[i].1,
                    now,
                    #[trigger] r@[i],
                ),
    {
        let mut out: Vec<NeighborResponseInfo> = Vec::new();
        let mut i: usize = 0;
        while i < self.neighbors.len()
            invariant
                i <= self.neighbors@.len(),
                out@.len() == i,
                forall|j: int|
                    0 <= j < i ==> spec_neighbor_report(
                        self.neighbors@[j].0,
                        self.neighbors@[j].1,
                        now,
                        #[trigger] out@[j],
                    ),
            decreases self.neighbors@.len() - i,
        {
            out.push(neighbor_report(&self.neighbors[i].0, &self.neighbors[i].1, now));
            i += 1;
        }
        out
    }

    /// Our own neighbours when `router_id` is ours; `None` when the question must
    /// be put to that router.
    pub fn get_neighbors_of(&self, router_id: &String, now: u64) -> (r: Option<Vec<NeighborResponseInfo>>)
        ensures
            router_id@ == self.router.id@ <==> r is Some,
            r matches Some(v) ==> v@.len() == self.neighbors@.len() && forall|i: int|
                0 <= i < v@.len() ==> spec_neighbor_report(
                    self.neighbors@[i].0,
                    self.neighbors@[i].1,
                    now,
                    #[trigger] v@[i],
                ),
    {
        if *router_id == self.router.id {
            Some(self.get_neighbors(now))
        } else {
            None
        }
    }

    /// Records a hello message from another router (see `spec_hello_recorded`);
    /// our own is ignored. Reports whether the sender was unknown or dead before.
    pub fn handle_hello(&mut self, hello: HelloMessage, sender: SocketAddress, now: u64) -> (r: MessageOutcome)
        requires
            old(self).wf(),
            hello.router_id@ != old(self).router.id@ ==> spec_hello_parses(hello),
        ensures
            final(self).wf(),
            hello.router_id@ == old(self).router.id@ ==> r == MessageOutcome::Ignored && *final(self) == *old(self),
            hello.router_id@ != old(self).router.id@ ==> {
                &&& r == MessageOutcome::NeighborSeen { was_dead: spec_was_dead(old(self).neighbors@, hello.router_id@) }
                &&& spec_hello_recorded(old(self).neighbors@, final(self).neighbors@, hello, sender, now)
                &&& *final(self) == (SimpleRoutingProtocol { neighbors: final(self).neighbors, ..*old(self) })
            },
    {
        if hello.router_id == self.router.id {
            return MessageOutcome::Ignored;
        }
        let interfaces = hello_interfaces(&hello);
        let was_dead = match get_keyed(&self.neighbors, &hello.router_id) {
            Some(n) => !n.is_alive,
            None => true,
        };
        let info = NeighborInfo {
            router_info: RouterInfo { router_id: hello.router_id.clone(), interfaces },
            last_seen: now,
            socket_addr: sender,
            is_alive: true,
        };
        let ghost recorded = info;
        insert_keyed(&mut self.neighbors, hello.router_id.clone(), info);
        proof {
            assert(spec_hello_recorded(old(self).neighbors@, self.neighbors@, hello, sender, now)) by {
                assert(self.neighbors@ == spec_insert(old(self).neighbors@, hello.router_id, recorded));
            }
        }
        MessageOutcome::NeighborSeen { was_dead }
    }

    /// Refreshes the neighbour `id`, if known: seen at `now`, alive.
    fn refresh_neighbor(&mut self, id: &String, now: u64)
        requires
            old(self).wf(),
        ensures
            final(self).wf(),
            final(self).neighbors@ == spec_refresh_neighbor(old(self).neighbors@, id@, now),
            *final(self) == (SimpleRoutingProtocol { neighbors: final(self).neighbors, ..*old(self) }),
    {
        proof {
            lemma_key_index(self.neighbors@, id@);
        }
        match find_key(&self.neighbors, id) {
            Some(i) => {
                self.neighbors[i].1.last_seen = now;
                self.neighbors[i].1.is_alive = true;
                proof {
                    assert(self.neighbors@ =~= spec_refresh_neighbor(old(self).neighbors@, id@, now));
                }
            },
            None => {},
        }
    }

    /// Handles an update from another router: the sender, if a known neighbour,
    /// is refreshed, then the update is processed (see `process_routing_update`).
    /// Our own update is ignored.
    pub fn handle_update(&mut self, update: &RoutingUpdate, sender: SocketAddress, now: u64) -> (r: Result<
        MessageOutcome,
        RouteUpdateError,
    >)
        requires
            old(self).wf(),
        ensures
            final(self).wf(),
            update.router_id@ == old(self).router.id@ ==> r == Ok::<MessageOutcome, RouteUpdateError>(
                MessageOutcome::Ignored,
            ) && *final(self) == *old(self),
            update.router_id@ != old(self).router.id@ ==> {
                &&& final(self).neighbors@ == spec_refresh_neighbor(old(self).neighbors@, update.router_id@, now)
                &&& exists|res: Result<Vec<SystemRouteOp>, RouteUpdateError>|
                    spec_update_processed(
                        *update,
                        sender.ip,
                        now,
                        old(self).router,
                        old(self).route_states@,
                        final(self).router,
                        final(self).route_states@,
                        res,
                    ) && match res {
                        Ok(ops) => r matches Ok(MessageOutcome::RoutesUpdated(o)) && o@ == ops@,
                        Err(e) => r == Err::<MessageOutcome, RouteUpdateError>(e),
                    }
                &&& final(self).router.id == old(self).router.id
                &&& final(self).router.interfaces == old(self).router.interfaces
                &&& final(self).sequence == old(self).sequence
                &&& final(self).port == old(self).port
                &&& final(self).debug_mode == old(self).debug_mode
                &&& final(self).our_ips == old(self).our_ips
                &&& final(self).is_running == old(self).is_running
                &&& final(self).pending_neighbor_requests == old(self).pending_neighbor_requests
            },
    {
        if update.router_id == self.router.id {
            return Ok(MessageOutcome::Ignored);
        }
        self.refresh_neighbor(&update.router_id, now);
        let res = process_routing_update(update, sender.ip, &mut self.router, &mut self.route_states, now);
        let ghost g = res;
        let r = match res {
            Ok(ops) => Ok(MessageOutcome::RoutesUpdated(ops)),
            Err(e) => Err(e),
        };
        proof {
            assert(spec_update_processed(
                *update,
                sender.ip,
                now,
                old(self).router,
                old(self).route_states@,
                self.router,
                self.route_states@,
                g,
            ));
        }
        r
    }

    /// Answers a request for our neighbours (reported at time `now`); a request
    /// for another router is ignored.
    pub fn handle_neighbor_request(&self, request: &NeighborRequest, now: u64) -> (r: MessageOutcome)
        ensures
            request.target_router_id@ != self.router.id@ ==> r == MessageOutcome::Ignored,
            request.target_router_id@ == self.router.id@ ==> (r matches MessageOutcome::Reply(resp) && {
                &&& resp.responding_router_id == self.router.id
                &&& resp.request_id == request.request_id
                &&& resp.neighbors@.len() == self.neighbors@.len()
                &&& forall|i: int|
                    0 <= i < resp.neighbors@.len() ==> spec_neighbor_report(
                        self.neighbors@[i].0,
                        self.neighbors@[i].1,
                        now,
                        #[trigger] resp.neighbors@[i],
                    )
            }),
    {
        if request.target_router_id == self.router.id {
            MessageOutcome::Reply(
                NeighborResponse {
                    responding_router_id: self.router.id.clone(),
                    request_id: request.request_id.clone(),
                    neighbors: self.get_neighbors(now),
                },
            )
        } else {
            MessageOutcome::Ignored
        }
    }

    /// Takes an answer to one of our requests: the request stops waiting, and its
    /// neighbours are to be delivered. An answer to no request of ours changes nothing.
    pub fn handle_neighbor_response(&mut self, response: NeighborResponse) -> (r: MessageOutcome)
        requires
            old(self).wf(),
        ensures
            final(self).wf(),
            final(self).pending_neighbor_requests@ == spec_remove(
                old(self).pending_neighbor_requests@,
                response.request_id@,
            ),
            *final(self) == (SimpleRoutingProtocol {
                pending_neighbor_requests: final(self).pending_neighbor_requests,
                ..*old(self)
            }),
            spec_get(old(self).pending_neighbor_requests@, response.request_id@) is Some ==> r
                == (MessageOutcome::Deliver { request_id: response.request_id, neighbors: response.neighbors }),
            spec_get(old(self).pending_neighbor_requests@, response.request_id@) is None ==> r
                == MessageOutcome::UnknownResponse,
    {
        match remove_keyed(&mut self.pending_neighbor_requests, &response.request_id) {
            Some(_) => MessageOutcome::Deliver { request_id: response.request_id, neighbors: response.neighbors },
            None => MessageOutcome::UnknownResponse,
        }
    }

    /// Handles a decoded message from `sender` at time `now` (see the handlers of
    /// each kind). A hello message from another router whose interface addresses
    /// do not all read as host networks is refused and changes nothing.
    pub fn handle_message(&mut self, message: IncomingMessage, sender: SocketAddress, now: u64) -> (r: Result<
        MessageOutcome,
        MessageError,
    >)
        requires
            old(self).wf(),
        ensures
            final(self).wf(),
            match message {
                IncomingMessage::Hello(h) => if h.router_id@ == old(self).router.id@ {
                    r == Ok::<MessageOutcome, MessageError>(MessageOutcome::Ignored) && *final(self) == *old(self)
                } else if !spec_hello_parses(h) {
                    r == Err::<MessageOutcome, MessageError>(MessageError::BadInterfaceAddress) && *final(self)
                        == *old(self)
                } else {
                    &&& r == Ok::<MessageOutcome, MessageError>(
                        MessageOutcome::NeighborSeen { was_dead: spec_was_dead(old(self).neighbors@, h.router_id@) },
                    )
                    &&& spec_hello_recorded(old(self).neighbors@, final(self).neighbors@, h, sender, now)
                    &&& *final(self) == (SimpleRoutingProtocol { neighbors: final(self).neighbors, ..*old(self) })
                },
                IncomingMessage::Update(u) => if u.router_id@ == old(self).router.id@ {
                    r == Ok::<MessageOutcome, MessageError>(MessageOutcome::Ignored) && *final(self) == *old(self)
                } else {
                    &&& final(self).neighbors@ == spec_refresh_neighbor(old(self).neighbors@, u.router_id@, now)
                    &&& exists|res: Result<Vec<SystemRouteOp>, RouteUpdateError>|
                        spec_update_processed(
                            u,
                            sender.ip,
                            now,
                            old(self).router,
                            old(self).route_states@,
                            final(self).router,
                            final(self).route_states@,
                            res,
                        ) && match res {
                            Ok(ops) => r matches Ok(MessageOutcome::RoutesUpdated(o)) && o@ == ops@,
                            Err(e) => r == Err::<MessageOutcome, MessageError>(MessageError::Route(e)),
                        }
                    &&& *final(self) == (SimpleRoutingProtocol {
                        neighbors: final(self).neighbors,
                        router: final(self).router,
                        route_states: final(self).route_states,
                        ..*old(self)
                    })
                    &&& final(self).router.id == old(self).router.id
                    &&& final(self).router.interfaces == old(self).router.interfaces
                },
                IncomingMessage::NeighborRequest(q) => *final(self) == *old(self) && if q.target_router_id@
                    != old(self).router.id@ {
                    r == Ok::<MessageOutcome, MessageError>(MessageOutcome::Ignored)
                } else {
                    r matches Ok(MessageOutcome::Reply(resp)) && resp.responding_router_id == old(self).router.id
                        && resp.request_id == q.request_id && resp.neighbors@.len() == old(self).neighbors@.len()
                        && forall|i: int|
                        0 <= i < resp.neighbors@.len() ==> spec_neighbor_report(
                            old(self).neighbors@[i].0,
                            old(self).neighbors@[i].1,
                            now,
                            #[trigger] resp.neighbors@[i],
                        )
                },
                IncomingMessage::NeighborResponse(a) => {
                    &&& final(self).pending_neighbor_requests@ == spec_remove(
                        old(self).pending_neighbor_requests@,
                        a.request_id@,
                    )
                    &&& *final(self) == (SimpleRoutingProtocol {
                        pending_neighbor_requests: final(self).pending_neighbor_requests,
                        ..*old(self)
                    })
                    &&& spec_get(old(self).pending_neighbor_requests@, a.request_id@) is Some ==> r == Ok::<
                        MessageOutcome,
                        MessageError,
                    >(MessageOutcome::Deliver { request_id: a.request_id, neighbors: a.neighbors })
                    &&& spec_get(old(self).pending_neighbor_requests@, a.request_id@) is None ==> r == Ok::<
                        MessageOutcome,
                        MessageError,
                    >(MessageOutcome::UnknownResponse)
                },
            },
    {
        match message {
            IncomingMessage::Hello(h) => {
                if h.router_id != self.router.id && !hello_parses(&h) {
                    return Err(MessageError::BadInterfaceAddress);
                }
                Ok(self.handle_hello(h, sender, now))
            },
            IncomingMessage::Update(u) => match self.handle_update(&u, sender, now) {
                Ok(o) => Ok(o),
                Err(e) => Err(MessageError::Route(e)),
            },
            IncomingMessage::NeighborRequest(q) => Ok(self.handle_neighbor_request(&q, now)),
            IncomingMessage::NeighborResponse(a) => Ok(self.handle_neighbor_response(a)),
        }
    }

    /// Records a request for the neighbours of `target` under `request_id`, made
    /// at `now` (wall-clock nanoseconds), and returns the message to broadcast.
    pub fn begin_neighbor_request(&mut self, target: &String, request_id: String, now: u64) -> (r: NeighborRequest)
        requires
            old(self).wf(),
        ensures
            final(self).wf(),
            final(self).pending_neighbor_requests@ == spec_insert(
                old(self).pending_neighbor_requests@,
                request_id,
                PendingNeighborRequest { timestamp: now },
            ),
            *final(self) == (SimpleRoutingProtocol {
                pending_neighbor_requests: final(self).pending_neighbor_requests,
                ..*old(self)
            }),
            r.requesting_router_id == old(self).router.id,
            r.request_id == request_id,
            r.target_router_id == *target,
    {
        insert_keyed(&mut self.pending_neighbor_requests, request_id.clone(), PendingNeighborRequest { timestamp: now });
        NeighborRequest { requesting_router_id: self.router.id.clone(), request_id, target_router_id: target.clone() }
    }

    /// Stops waiting for the answer to a request (it timed out, or nobody waits).
    pub fn abandon_neighbor_request(&mut self, request_id: &String)
        requires
            old(self).wf(),
        ensures
            final(self).wf(),
            final(self).pending_neighbor_requests@ == spec_remove(old(self).pending_neighbor_requests@, request_id@),
            *final(self) == (SimpleRoutingProtocol {
                pending_neighbor_requests: final(self).pending_neighbor_requests,
                ..*old(self)
            }),
    {
        let _ = remove_keyed(&mut self.pending_neighbor_requests, request_id);
    }

    /// Checks every neighbour's liveness at `now` (see `spec_checked`); returns
    /// those that died and those that came back, and the addresses the dead were
    /// heard from.
    fn check_liveness(&mut self, now: u64) -> (r: (Vec<String>, Vec<String>, Vec<IpAddress>))
        requires
            old(self).wf(),
        ensures
            final(self).wf(),
            final(self).neighbors@ == old(self).neighbors@.map_values(spec_checked(now)),
            *final(self) == (SimpleRoutingProtocol { neighbors: final(self).neighbors, ..*old(self) }),
            r.0@ == spec_ids(old(self).neighbors@.filter(spec_dies(now))),
            r.1@ == spec_ids(old(self).neighbors@.filter(spec_revives(now))),
            r.2@ == spec_addrs(old(self).neighbors@.filter(spec_dies(now))),
    {
        let ghost orig = self.neighbors@;
        let mut dead: Vec<String> = Vec::new();
        let mut revived: Vec<String> = Vec::new();
        let mut addrs: Vec<IpAddress> = Vec::new();
        let mut k: usize = 0;
        while k < self.neighbors.len()
            invariant
                k <= orig.len(),
                self.neighbors@.len() == orig.len(),
                spec_unique_keys(orig),
                forall|j: int| 0 <= j < k ==> #[trigger] self.neighbors@[j] == spec_checked(now)(orig[j]),
                forall|j: int| k <= j < orig.len() ==> #[trigger] self.neighbors@[j] == orig[j],
                self.router == old(self).router,
                self.route_states == old(self).route_states,
                self.sequence == old(self).sequence,
                self.port == old(self).port,
                self.debug_mode == old(self).debug_mode,
                self.our_ips == old(self).our_ips,
                self.is_running == old(self).is_running,
                self.pending_neighbor_requests == old(self).pending_neighbor_requests,
                dead@ == spec_ids(orig.take(k as int).filter(spec_dies(now))),
                revived@ == spec_ids(orig.take(k as int).filter(spec_revives(now))),
                addrs@ == spec_addrs(orig.take(k as int).filter(spec_dies(now))),
            decreases orig.len() - k,
        {
            proof {
                reveal(Seq::filter);
                assert(orig.take(k as int + 1).drop_last() =~= orig.take(k as int));
                assert(orig.take(k as int + 1).last() == orig[k as int]);
            }
            let age = elapsed(now, self.neighbors[k].1.last_seen);
            if age > NEIGHBOR_TIMEOUT_NS {
                if self.neighbors[k].1.is_alive {
                    self.neighbors[k].1.is_alive = false;
                    dead.push(self.neighbors[k].0.clone());
                    addrs.push(self.neighbors[k].1.socket_addr.ip);
                    proof {
                        assert(dead@ =~= spec_ids(orig.take(k as int + 1).filter(spec_dies(now))));
                        assert(addrs@ =~= spec_addrs(orig.take(k as int + 1).filter(spec_dies(now))));
                    }
                }
            } else if !self.neighbors[k].1.is_alive {
                self.neighbors[k].1.is_alive = true;
                revived.push(self.neighbors[k].0.clone());
                proof {
                    assert(revived@ =~= spec_ids(orig.take(k as int + 1).filter(spec_revives(now))));
                }
            }
            k += 1;
        }
        proof {
            assert(orig.take(orig.len() as int) =~= orig);
            assert(self.neighbors@ =~= orig.map_values(spec_checked(now)));
            assert forall|a: int, b: int|
                0 <= a < self.neighbors@.len() && 0 <= b < self.neighbors@.len() && a != b implies self.neighbors@[a].0@
                    != self.neighbors@[b].0@ by {
                assert(self.neighbors@[a].0 == orig[a].0 && self.neighbors@[b].0 == orig[b].0);
            }
        }
        (dead, revived, addrs)
    }

    /// The periodic cleanup at `now`: every neighbour's liveness is checked (see
    /// `spec_checked`); learnt routes advertised by a neighbour that just died, or
    /// not advertised within the route timeout, are withdrawn with their
    /// bookkeeping; then every protocol route through an IPv4 address that a dead
    /// neighbour was heard from is withdrawn. Returns the neighbours that died and
    /// came back, and the system operations, in the order described.
    pub fn perform_cleanup(&mut self, now: u64) -> (r: CleanupReport)
        requires
            old(self).wf(),
        ensures
            final(self).wf(),
            ({
                let n0 = old(self).neighbors@;
                let dying = n0.filter(spec_dies(now));
                let removable = spec_removable(spec_ids(dying), now);
                let withdrawn = spec_withdraw_all(
                    old(self).router.routing_table@,
                    old(self).route_states@.filter(removable).map_values(|e: (String, RouteState)| e.1.route),
                );
                let dropped = spec_drop_via_all(withdrawn.0, spec_addrs(dying));
                &&& final(self).neighbors@ == n0.map_values(spec_checked(now))
                &&& r.dead@ == spec_ids(dying)
                &&& r.revived@ == spec_ids(n0.filter(spec_revives(now)))
                &&& final(self).route_states@ == old(self).route_states@.filter(spec_not_state(removable))
                &&& final(self).router.routing_table@ == dropped.0
                &&& r.ops@ == withdrawn.1 + dropped.1
            }),
            final(self).router.id == old(self).router.id,
            final(self).router.interfaces == old(self).router.interfaces,
            final(self).router.network == old(self).router.network,
            final(self).router.routing_table.local() == old(self).router.routing_table.local(),
            final(self).sequence == old(self).sequence,
            final(self).port == old(self).port,
            final(self).debug_mode == old(self).debug_mode,
            final(self).our_ips == old(self).our_ips,
            final(self).is_running == old(self).is_running,
            final(self).pending_neighbor_requests == old(self).pending_neighbor_requests,
    {
        let (dead, revived, addrs) = self.check_liveness(now);
        let ghost removable = spec_removable(dead@, now);
        // split the bookkeeping
        let ghost states = self.route_states@;
        let mut kept: Vec<(String, RouteState)> = Vec::new();
        let mut withdrawn: Vec<RouteEntry> = Vec::new();
        let mut i: usize = 0;
        while i < self.route_states.len()
            invariant
                i <= states.len(),
                self.route_states@ == states,
                removable == spec_removable(dead@, now),
                kept@ == states.take(i as int).filter(spec_not_state(removable)),
                withdrawn@ == states.take(i as int).filter(removable).map_values(|e: (String, RouteState)| e.1.route),
            decreases states.len() - i,
        {
            proof {
                reveal(Seq::filter);
                assert(states.take(i as int + 1).drop_last() =~= states.take(i as int));
                assert(states.take(i as int + 1).last() == states[i as int]);
            }
            let e = &self.route_states[i];
            let gone = contains_name(&dead, &e.1.advertising_neighbor) || elapsed(now, e.1.last_advertised)
                > ROUTE_TIMEOUT_NS;
            if gone {
                withdrawn.push(e.1.route.duplicate());
                proof {
                    assert(withdrawn@ =~= states.take(i as int + 1).filter(removable).map_values(
                        |e: (String, RouteState)| e.1.route,
                    ));
                }
            } else {
                kept.push((e.0.clone(), e.1.duplicate()));
                proof {
                    assert(kept@ =~= states.take(i as int + 1).filter(spec_not_state(removable)));
                }
            }
            i += 1;
        }
        proof {
            assert(states.take(states.len() as int) =~= states);
            lemma_filter_keeps_unique(states, spec_not_state(removable));
        }
        self.route_states = kept;
        let ghost nb = self.neighbors;
        let ghost rs = self.route_states;
        // withdraw the routes of the removed bookkeeping
        let ghost t0 = self.router.routing_table@;
        let ghost ws = withdrawn@;
        let mut ops: Vec<SystemRouteOp> = Vec::new();
        let mut j: usize = 0;
        while j < withdrawn.len()
            invariant
                j <= ws.len(),
                withdrawn@ == ws,
                self.router.wf(),
                self.router.id == old(self).router.id,
                self.router.interfaces == old(self).router.interfaces,
                self.router.network == old(self).router.network,
                self.router.routing_table.local() == old(self).router.routing_table.local(),
                self.neighbors == nb,
                self.route_states == rs,
                spec_unique_keys(nb@),
                spec_unique_keys(rs@),
                spec_unique_keys(self.pending_neighbor_requests@),
                self.sequence == old(self).sequence,
                self.port == old(self).port,
                self.debug_mode == old(self).debug_mode,
                self.our_ips == old(self).our_ips,
                self.is_running == old(self).is_running,
                self.pending_neighbor_requests == old(self).pending_neighbor_requests,
                self.router.routing_table@ == spec_withdraw_all(t0, ws.take(j as int)).0,
                ops@ == spec_withdraw_all(t0, ws.take(j as int)).1,
            decreases ws.len() - j,
        {
            proof {
                assert(ws.take(j as int + 1).drop_last() =~= ws.take(j as int));
                assert(ws.take(j as int + 1).last() == ws[j as int]);
            }
            let mut more = self.router.routing_table.remove_route(&withdrawn[j]);
            ops.append(&mut more);
            j += 1;
        }
        proof {
            assert(ws.take(ws.len() as int) =~= ws);
        }
        // withdraw the routes through the dead neighbours
        let ghost t1 = self.router.routing_table@;
        let ghost o1 = ops@;
        let ghost av = addrs@;
        let mut m: usize = 0;
        while m < addrs.len()
            invariant
                m <= av.len(),
                addrs@ == av,
                self.router.wf(),
                self.router.id == old(self).router.id,
                self.router.interfaces == old(self).router.interfaces,
                self.router.network == old(self).router.network,
                self.router.routing_table.local() == old(self).router.routing_table.local(),
                self.neighbors == nb,
                self.route_states == rs,
                spec_unique_keys(nb@),
                spec_unique_keys(rs@),
                spec_unique_keys(self.pending_neighbor_requests@),
                self.sequence == old(self).sequence,
                self.port == old(self).port,
                self.debug_mode == old(self).debug_mode,
                self.our_ips == old(self).our_ips,
                self.is_running == old(self).is_running,
                self.pending_neighbor_requests == old(self).pending_neighbor_requests,
                self.router.routing_table@ == spec_drop_via_all(t1, av.take(m as int)).0,
                ops@ == o1 + spec_drop_via_all(t1, av.take(m as int)).1,
            decreases av.len() - m,
        {
            proof {
                assert(av.take(m as int + 1).drop_last() =~= av.take(m as int));
                assert(av.take(m as int + 1).last() == av[m as int]);
            }
            match addrs[m] {
                IpAddress::V4(a) => {
                    let removed = self.router.handle_dead_neighbor(a);
                    let mut more = deletions(&removed);
                    ops.append(&mut more);
                    proof {
                        assert(ops@ =~= o1 + spec_drop_via_all(t1, av.take(m as int + 1)).1);
                    }
                },
                IpAddress::V6(_) => {
                    proof {
                        assert(ops@ =~= o1 + spec_drop_via_all(t1, av.take(m as int + 1)).1);
                    }
                },
            }
            m += 1;
        }
        proof {
            assert(av.take(av.len() as int) =~= av);
        }
        CleanupReport { dead, revived, ops }
    }
}

/// After a cleanup at `now`, no learnt route kept is older than the route
/// timeout or advertised by a neighbour that died in it.
pub proof fn law_cleanup_keeps_only_fresh_routes(states: Seq<(String, RouteState)>, dead: Seq<String>, now: u64)
    ensures
        forall|k: int|
            0 <= k < states.filter(spec_not_state(spec_removable(dead, now))).len() ==> {
                let e = #[trigger] states.filter(spec_not_state(spec_removable(dead, now)))[k];
                &&& spec_elapsed(now, e.1.last_advertised) <= ROUTE_TIMEOUT_NS
                &&& !dead.map_values(|d: String| d@).contains(e.1.advertising_neighbor@)
            },
{
    broadcast use vstd::seq_lib::group_filter_ensures;
    let p = spec_not_state(spec_removable(dead, now));
    let f = states.filter(p);
    assert forall|k: int| 0 <= k < f.len() implies {
        let e = #[trigger] f[k];
        &&& spec_elapsed(now, e.1.last_advertised) <= ROUTE_TIMEOUT_NS
        &&& !dead.map_values(|d: String| d@).contains(e.1.advertising_neighbor@)
    } by {
        assert(p(f[k]));
    }
}

/// After a cleanup at `now`, a neighbour is alive exactly when it was heard from
/// within the neighbour timeout.
pub proof fn law_cleanup_liveness(neighbors: Seq<(String, NeighborInfo)>, now: u64)
    ensures
        forall|k: int|
            0 <= k < neighbors.len() ==> (#[trigger] neighbors.map_values(spec_checked(now))[k]).1.is_alive == (
            spec_elapsed(now, neighbors[k].1.last_seen) <= NEIGHBOR_TIMEOUT_NS),
{
}

/// After a hello from another router, that router is a known, living neighbour
/// last seen at the hello's time.
pub proof fn law_hello_makes_neighbor_alive(
    before: Seq<(String, NeighborInfo)>,
    after: Seq<(String, NeighborInfo)>,
    hello: HelloMessage,
    sender: SocketAddress,
    now: u64,
)
    requires
        spec_hello_recorded(before, after, hello, sender, now),
    ensures
        spec_get(after, hello.router_id@) matches Some(n) && n.is_alive && n.last_seen == now && n.socket_addr
            == sender,
{
    let info = choose|info: NeighborInfo|
        after == spec_insert(before, hello.router_id, info) && info.router_info.router_id == hello.router_id
            && info.router_info.interfaces@ == spec_hello_interfaces(hello.interfaces@) && info.last_seen == now
            && info.socket_addr == sender && info.is_alive;
    crate::protocol::keyed::lemma_get_after_insert(before, hello.router_id, info, hello.router_id@);
}

/// Starting a protocol that already runs changes nothing, and asks for no tasks.
pub proof fn law_start_is_idempotent(p: SimpleRoutingProtocol)
    requires
        p.is_running,
    ensures
        (SimpleRoutingProtocol { is_running: true, ..p }) == p,
{
}

/// After the expired requests are forgotten at `now`, every request left is
/// within the timeout.
pub proof fn law_no_expired_request_remains(pending: Seq<(String, PendingNeighborRequest)>, now: u64)
    ensures
        forall|k: int|
            0 <= k < pending.filter(spec_not_pending(SimpleRoutingProtocol::spec_expired(now))).len() ==> spec_elapsed(
                now,
                (#[trigger] pending.filter(spec_not_pending(SimpleRoutingProtocol::spec_expired(now)))[k]).1.timestamp,
            ) <= PENDING_REQUEST_TIMEOUT_NS,
{
    broadcast use vstd::seq_lib::group_filter_ensures;
    let p = spec_not_pending(SimpleRoutingProtocol::spec_expired(now));
    let f = pending.filter(p);
    assert forall|k: int| 0 <= k < f.len() implies spec_elapsed(now, (#[trigger] f[k]).1.timestamp)
        <= PENDING_REQUEST_TIMEOUT_NS by {
        assert(p(f[k]));
    }
}

/// Whether entry `i` is the last entry of a hello message with its name.
pub open spec fn spec_last_of_name(entries: Seq<(String, String)>, i: int) -> bool {
    0 <= i < entries.len() && forall|j: int| i < j < entries.len() ==> entries[j].0@ != entries[i].0@
}

/// What inserting an interface into a list of uniquely named interfaces gives:
/// names stay unique, every name stays, the new interface is there, and every
/// other interface is an old one of another name.
proof fn lemma_insert_interface_facts(prev: Seq<InterfaceInfo>, info: InterfaceInfo)
    requires
        spec_unique_names(prev),
    ensures
        spec_unique_names(spec_insert_interface(prev, info)),
        spec_insert_interface(prev, info).len() <= prev.len() + 1,
        exists|m: int| 0 <= m < spec_insert_interface(prev, info).len() && spec_insert_interface(prev, info)[m] == info,
        forall|k: int|
            0 <= k < prev.len() ==> exists|m: int|
                0 <= m < spec_insert_interface(prev, info).len() && spec_insert_interface(prev, info)[m].name@
                    == (#[trigger] prev[k]).name@,
        forall|m: int|
            0 <= m < spec_insert_interface(prev, info).len() ==> (#[trigger] spec_insert_interface(prev, info)[m])
                == info || exists|k: int|
                0 <= k < prev.len() && prev[k] == spec_insert_interface(prev, info)[m] && prev[k].name@ != info.name@,
{
    let r = spec_insert_interface(prev, info);
    if exists|i: int| 0 <= i < prev.len() && prev[i].name@ == info.name@ {
        let c = choose|i: int| 0 <= i < prev.len() && prev[i].name@ == info.name@;
        assert(r == prev.update(c, info));
        assert forall|a: int, b: int| 0 <= a < r.len() && 0 <= b < r.len() && a != b implies r[a].name@
            != r[b].name@ by {
            if a != c && b != c {
            } else if a == c {
                assert(prev[b].name@ != prev[c].name@);
            } else {
                assert(prev[a].name@ != prev[c].name@);
            }
        }
        assert(r[c] == info);
        assert forall|k: int| 0 <= k < prev.len() implies exists|m: int|
            0 <= m < r.len() && r[m].name@ == (#[trigger] prev[k]).name@ by {
            assert(r[k].name@ == prev[k].name@);
        }
        assert forall|m: int| 0 <= m < r.len() implies (#[trigger] r[m]) == info || exists|k: int|
            0 <= k < prev.len() && prev[k] == r[m] && prev[k].name@ != info.name@ by {
            if m != c {
                assert(prev[m] == r[m]);
                assert(prev[m].name@ != prev[c].name@);
            }
        }
    } else {
        assert(r == prev.push(info));
        assert forall|a: int, b: int| 0 <= a < r.len() && 0 <= b < r.len() && a != b implies r[a].name@
            != r[b].name@ by {
            if a < prev.len() && b < prev.len() {
            } else if a < prev.len() {
                assert(prev[a].name@ != info.name@);
            } else {
                assert(prev[b].name@ != info.name@);
            }
        }
        assert(r[prev.len() as int] == info);
        assert forall|k: int| 0 <= k < prev.len() implies exists|m: int|
            0 <= m < r.len() && r[m].name@ == (#[trigger] prev[k]).name@ by {
            assert(r[k] == prev[k]);
        }
        assert forall|m: int| 0 <= m < r.len() implies (#[trigger] r[m]) == info || exists|k: int|
            0 <= k < prev.len() && prev[k] == r[m] && prev[k].name@ != info.name@ by {
            if m < prev.len() {
                assert(prev[m] == r[m]);
            }
        }
    }
}

/// A neighbour recorded from a hello message has exactly the interfaces the
/// message announces: one per announced name (no name is dropped, none is
/// repeated), each being the interface given by the last entry with its name.
#[verifier::spinoff_prover]
#[verifier::rlimit(60)]
pub proof fn law_hello_keeps_every_interface(entries: Seq<(String, String)>)
    ensures
        spec_unique_names(spec_hello_interfaces(entries)),
        spec_hello_interfaces(entries).len() <= entries.len(),
        forall|i: int|
            0 <= i < entries.len() ==> exists|k: int|
                0 <= k < spec_hello_interfaces(entries).len() && (#[trigger] spec_hello_interfaces(entries)[k]).name@
                    == (#[trigger] entries[i]).0@,
        forall|k: int|
            0 <= k < spec_hello_interfaces(entries).len() ==> exists|i: int|
                spec_last_of_name(entries, i) && (#[trigger] spec_hello_interfaces(entries)[k]) == spec_hello_interface(
                    entries[i].0,
                    entries[i].1,
                ),
    decreases entries.len(),
{
    let r = spec_hello_interfaces(entries);
    if entries.len() > 0 {
        let pre = entries.drop_last();
        let n = entries.len() - 1;
        law_hello_keeps_every_interface(pre);
        let prev = spec_hello_interfaces(pre);
        let info = spec_hello_interface(entries.last().0, entries.last().1);
        assert(r == spec_insert_interface(prev, info));
        lemma_insert_interface_facts(prev, info);
        assert forall|i: int| 0 <= i < entries.len() implies exists|k: int|
            0 <= k < r.len() && (#[trigger] r[k]).name@ == (#[trigger] entries[i]).0@ by {
            if i < n {
                assert(pre[i] == entries[i]);
                let k = choose|k: int| 0 <= k < prev.len() && (#[trigger] prev[k]).name@ == (#[trigger] pre[i]).0@;
                let m = choose|m: int| 0 <= m < r.len() && r[m].name@ == (#[trigger] prev[k]).name@;
                assert(r[m].name@ == entries[i].0@);
            } else {
                let m = choose|m: int| 0 <= m < r.len() && r[m] == info;
                assert(r[m].name@ == entries[i].0@);
            }
        }
        assert forall|k: int| 0 <= k < r.len() implies exists|i: int|
            spec_last_of_name(entries, i) && (#[trigger] r[k]) == spec_hello_interface(entries[i].0, entries[i].1) by {
            if r[k] == info {
                assert(spec_last_of_name(entries, n));
            } else {
                let j = choose|j: int| 0 <= j < prev.len() && prev[j] == r[k] && prev[j].name@ != info.name@;
                assert(prev[j] == spec_hello_interfaces(pre)[j]);
                let i = choose|i: int|
                    spec_last_of_name(pre, i) && (#[trigger] spec_hello_interfaces(pre)[j]) == spec_hello_interface(
                        pre[i].0,
                        pre[i].1,
                    );
                assert(pre[i] == entries[i]);
                assert(spec_last_of_name(entries, i)) by {
                    assert forall|jj: int| i < jj < entries.len() implies entries[jj].0@ != entries[i].0@ by {
                        if jj < n {
                            assert(pre[jj] == entries[jj]);
                        }
                    }
                }
            }
        }
    }
}

} // verus!
