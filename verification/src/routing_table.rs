//! The router's IPv4 forwarding table. Every change that the kernel's table must
//! follow is handed back to the caller as a list of operations to perform.
use vstd::prelude::*;
use crate::net::{Ipv4Net, spec_is_loopback_v4, spec_is_unspecified_v4, is_loopback_v4, is_unspecified_v4};

verus! {

/// Where a route was learnt.
#[derive(Clone, Copy, Debug, PartialEq, Eq, Structural)]
pub enum RouteSource {
    /// A network on one of our own interfaces.
    Direct,
    /// Learnt from a neighbour's update.
    Protocol,
    /// Configured by hand.
    Static,
}

/// One route of the table.
#[derive(Debug)]
pub struct RouteEntry {
    pub destination: Ipv4Net,
    /// `0.0.0.0` stands for "directly connected".
    pub next_hop: u32,
    pub interface: String,
    pub metric: u32,
    pub source: RouteSource,
}

impl RouteEntry {
    /// An identical copy.
    pub fn duplicate(&self) -> (r: RouteEntry)
        ensures
            r == *self,
    {
        RouteEntry {
            destination: self.destination,
            next_hop: self.next_hop,
            interface: self.interface.clone(),
            metric: self.metric,
            source: self.source,
        }
    }
}

/// A change to make to the operating system's routing table.
#[derive(Debug)]
pub enum SystemRouteOp {
    /// Install the route (through its gateway).
    Add(RouteEntry),
    /// Withdraw the route.
    Delete(RouteEntry),
}

/// The index of the first route towards `dest`, if any.
pub open spec fn spec_find_dest(routes: Seq<RouteEntry>, dest: Ipv4Net) -> Option<int> {
    if exists|i: int| 0 <= i < routes.len() && routes[i].destination == dest {
        Some(
            choose|i: int|
                0 <= i < routes.len() && routes[i].destination == dest && (forall|j: int|
                    0 <= j < i ==> routes[j].destination != dest),
        )
    } else {
        None
    }
}

/// The first index satisfying the property is the chosen one.
pub proof fn lemma_find_dest_first(routes: Seq<RouteEntry>, dest: Ipv4Net, i: int)
    requires
        0 <= i < routes.len(),
        routes[i].destination == dest,
        forall|j: int| 0 <= j < i ==> routes[j].destination != dest,
    ensures
        spec_find_dest(routes, dest) == Some(i),
{
    let k = choose|k: int|
        0 <= k < routes.len() && routes[k].destination == dest && (forall|j: int|
            0 <= j < k ==> routes[j].destination != dest);
    assert(0 <= k < routes.len() && routes[k].destination == dest && (forall|j: int|
        0 <= j < k ==> routes[j].destination != dest));
    if k < i {
        assert(routes[k].destination != dest);
    }
    if i < k {
        assert(routes[i].destination != dest);
    }
}

/// The facts that characterise `spec_find_dest`.
pub proof fn lemma_find_dest(routes: Seq<RouteEntry>, dest: Ipv4Net)
    ensures
        match spec_find_dest(routes, dest) {
            Some(i) => 0 <= i < routes.len() && routes[i].destination == dest && (forall|j: int|
                0 <= j < i ==> routes[j].destination != dest),
            None => forall|j: int| 0 <= j < routes.len() ==> routes[j].destination != dest,
        },
{
    if exists|i: int| 0 <= i < routes.len() && routes[i].destination == dest {
        let w = choose|i: int| 0 <= i < routes.len() && routes[i].destination == dest;
        lemma_first_exists(routes, dest, w);
    }
}

proof fn lemma_first_exists(routes: Seq<RouteEntry>, dest: Ipv4Net, w: int)
    requires
        0 <= w < routes.len(),
        routes[w].destination == dest,
    ensures
        exists|i: int|
            0 <= i < routes.len() && routes[i].destination == dest && (forall|j: int|
                0 <= j < i ==> routes[j].destination != dest),
    decreases w,
{
    if exists|j: int| 0 <= j < w && routes[j].destination == dest {
        let v = choose|j: int| 0 <= j < w && routes[j].destination == dest;
        lemma_first_exists(routes, dest, v);
    } else {
        assert(forall|j: int| 0 <= j < w ==> routes[j].destination != dest);
    }
}

/// No two routes share a destination.
pub open spec fn spec_unique_destinations(routes: Seq<RouteEntry>) -> bool {
    forall|i: int, j: int|
        0 <= i < routes.len() && 0 <= j < routes.len() && i != j ==> routes[i].destination
            != routes[j].destination
}

/// Whether `local` holds a network with the same network address and prefix as `dest`.
pub open spec fn spec_is_local_network(local: Seq<Ipv4Net>, dest: Ipv4Net) -> bool {
    exists|k: int|
        0 <= k < local.len() && local[k].spec_network() == dest.spec_network()
            && local[k].spec_prefix() == dest.spec_prefix()
}

/// Whether some local network holds the address.
pub open spec fn spec_in_local_network(local: Seq<Ipv4Net>, ip: u32) -> bool {
    exists|k: int| 0 <= k < local.len() && local[k].spec_contains(ip)
}

/// A route may enter the table: direct routes always; the others need a usable
/// gateway inside a local network and a destination that is not a local network.
pub open spec fn spec_valid_route(local: Seq<Ipv4Net>, r: RouteEntry) -> bool {
    r.source == RouteSource::Direct || (!spec_is_loopback_v4(r.next_hop)
        && !spec_is_unspecified_v4(r.next_hop) && !spec_is_local_network(local, r.destination)
        && spec_in_local_network(local, r.next_hop))
}

/// A new route displaces the existing one towards the same destination when its
/// metric is lower, or when it comes from the same source through another gateway.
pub open spec fn spec_replaces(existing: RouteEntry, r: RouteEntry) -> bool {
    r.metric < existing.metric || (r.source == existing.source && r.next_hop != existing.next_hop)
}

/// The operation that withdraws a route from the system, if it was ever installed.
pub open spec fn spec_delete_ops(e: RouteEntry) -> Seq<SystemRouteOp> {
    if e.source != RouteSource::Direct {
        seq![SystemRouteOp::Delete(e)]
    } else {
        seq![]
    }
}

/// The operation that installs a route in the system, unless it is a direct one.
pub open spec fn spec_add_ops(e: RouteEntry) -> Seq<SystemRouteOp> {
    if e.source != RouteSource::Direct {
        seq![SystemRouteOp::Add(e)]
    } else {
        seq![]
    }
}

/// The table and the system operations after offering route `r`.
pub open spec fn spec_add_route(routes: Seq<RouteEntry>, local: Seq<Ipv4Net>, r: RouteEntry) -> (
    Seq<RouteEntry>,
    Seq<SystemRouteOp>,
) {
    if !spec_valid_route(local, r) {
        (routes, seq![])
    } else {
        match spec_find_dest(routes, r.destination) {
            Some(i) => if spec_replaces(routes[i], r) {
                (routes.update(i, r), spec_delete_ops(routes[i]) + spec_add_ops(r))
            } else {
                (routes, seq![])
            },
            None => (routes.push(r), spec_add_ops(r)),
        }
    }
}

/// The table and the system operations after forcing route `r` in: an invalid
/// route is ignored; otherwise it displaces the route towards its destination,
/// whatever that route is, or is appended.
pub open spec fn spec_replace_route(routes: Seq<RouteEntry>, local: Seq<Ipv4Net>, r: RouteEntry) -> (
    Seq<RouteEntry>,
    Seq<SystemRouteOp>,
) {
    if !spec_valid_route(local, r) {
        (routes, seq![])
    } else {
        match spec_find_dest(routes, r.destination) {
            Some(i) => (routes.update(i, r), spec_delete_ops(routes[i]) + spec_add_ops(r)),
            None => (routes.push(r), spec_add_ops(r)),
        }
    }
}

/// A protocol route through the given gateway.
pub open spec fn spec_via_hop(next_hop: u32) -> spec_fn(RouteEntry) -> bool {
    |e: RouteEntry| e.next_hop == next_hop && e.source == RouteSource::Protocol
}

/// Any route not selected by `p`.
pub open spec fn spec_not(p: spec_fn(RouteEntry) -> bool) -> spec_fn(RouteEntry) -> bool {
    |e: RouteEntry| !p(e)
}

/// A route learnt from the protocol.
pub open spec fn spec_is_protocol() -> spec_fn(RouteEntry) -> bool {
    |e: RouteEntry| e.source == RouteSource::Protocol
}

/// A route from the given source.
pub open spec fn spec_from_source(s: RouteSource) -> spec_fn(RouteEntry) -> bool {
    |e: RouteEntry| e.source == s
}

/// A route towards the given destination.
pub open spec fn spec_towards(dest: Ipv4Net) -> spec_fn(RouteEntry) -> bool {
    |e: RouteEntry| e.destination == dest
}

/// The deletions for a list of withdrawn routes, in the same order.
pub open spec fn spec_deletions(removed: Seq<RouteEntry>) -> Seq<SystemRouteOp> {
    removed.map_values(|e: RouteEntry| SystemRouteOp::Delete(e))
}

/// Whether route `i` is a longest-prefix match for `ip`: it holds `ip` (a
/// `/0` route holds every address), no route holding `ip` has a longer prefix,
/// and no earlier one has the same prefix.
pub open spec fn spec_is_lookup(routes: Seq<RouteEntry>, ip: u32, i: int) -> bool {
    &&& 0 <= i < routes.len()
    &&& routes[i].destination.spec_contains(ip)
    &&& forall|j: int|
        0 <= j < routes.len() && routes[j].destination.spec_contains(ip) ==> routes[j].destination.spec_prefix()
            <= routes[i].destination.spec_prefix()
    &&& forall|j: int|
        0 <= j < i && routes[j].destination.spec_contains(ip) ==> routes[j].destination.spec_prefix()
            < routes[i].destination.spec_prefix()
}

/// Whether some route holds `ip` (a default route `0.0.0.0/0` holds every address).
pub open spec fn spec_has_lookup(routes: Seq<RouteEntry>, ip: u32) -> bool {
    exists|j: int| 0 <= j < routes.len() && routes[j].destination.spec_contains(ip)
}

/// Whether route `i` is the first one of least metric towards `dest` avoiding `failed`.
pub open spec fn spec_is_alternative(routes: Seq<RouteEntry>, dest: Ipv4Net, failed: u32, i: int) -> bool {
    &&& 0 <= i < routes.len()
    &&& routes[i].destination == dest
    &&& routes[i].next_hop != failed
    &&& forall|j: int|
        0 <= j < routes.len() && routes[j].destination == dest && routes[j].next_hop != failed
            ==> routes[i].metric <= routes[j].metric
    &&& forall|j: int|
        0 <= j < i && routes[j].destination == dest && routes[j].next_hop != failed
            ==> routes[i].metric < routes[j].metric
}

/// The forwarding table.
pub struct RoutingTable {
    routes: Vec<RouteEntry>,
    local_networks: Vec<Ipv4Net>,
}

impl View for RoutingTable {
    type V = Seq<RouteEntry>;

    closed spec fn view(&self) -> Seq<RouteEntry> {
        self.routes@
    }
}

impl RoutingTable {
    /// The networks found on the machine's interfaces when the table was made.
    pub closed spec fn local(&self) -> Seq<Ipv4Net> {
        self.local_networks@
    }

    /// The table's invariant: destinations are unique and every route is valid.
    pub open spec fn wf(&self) -> bool {
        &&& spec_unique_destinations(self@)
        &&& forall|i: int| 0 <= i < self@.len() ==> spec_valid_route(self.local(), #[trigger] self@[i])
    }

    /// An empty table over the given local networks (which the caller discovers).
    pub fn new(local_networks: Vec<Ipv4Net>) -> (t: RoutingTable)
        ensures
            t@ == Seq::<RouteEntry>::empty(),
            t.local() == local_networks@,
            t.wf(),
    {
        RoutingTable { routes: Vec::new(), local_networks }
    }

    /// The networks found on the machine's interfaces.
    pub fn local_networks(&self) -> (r: &Vec<Ipv4Net>)
        ensures
            r@ == self.local(),
    {
        &self.local_networks
    }

    /// All routes, in table order.
    pub fn get_routes(&self) -> (r: &[RouteEntry])
        ensures
            r@ == self@,
    {
        self.routes.as_slice()
    }

    /// The index of the first route towards `dest`.
    pub fn find_route_index(&self, dest: &Ipv4Net) -> (r: Option<usize>)
        ensures
            match r {
                Some(i) => spec_find_dest(self@, *dest) == Some(i as int),
                None => spec_find_dest(self@, *dest) is None,
            },
    {
        let mut i: usize = 0;
        while i < self.routes.len()
            invariant
                i <= self.routes@.len(),
                forall|j: int| 0 <= j < i ==> self.routes@[j].destination != *dest,
            decreases self.routes@.len() - i,
        {
            if self.routes[i].destination == *dest {
                proof {
                    lemma_find_dest_first(self@, *dest, i as int);
                }
                return Some(i);
            }
            i += 1;
        }
        proof {
            lemma_find_dest(self@, *dest);
        }
        None
    }

    /// The first route towards `dest`.
    pub fn find_route(&self, dest: &Ipv4Net) -> (r: Option<&RouteEntry>)
        ensures
            match spec_find_dest(self@, *dest) {
                Some(i) => r is Some && *r.unwrap() == self@[i],
                None => r is None,
            },
    {
        proof {
            lemma_find_dest(self@, *dest);
        }
        match self.find_route_index(dest) {
            Some(i) => {
                let e = &self.routes[i];
                Some(e)
            },
            None => None,
        }
    }

    /// Whether the table already holds a route towards the same destination whose
    /// metric is not worse.
    pub fn has_better_route(&self, route: &RouteEntry) -> (r: bool)
        ensures
            r == match spec_find_dest(self@, route.destination) {
                Some(i) => self@[i].metric <= route.metric,
                None => false,
            },
    {
        match self.find_route(&route.destination) {
            Some(existing) => existing.metric <= route.metric,
            None => false,
        }
    }

    /// The first route of least metric towards `dest` whose gateway is not `failed`.
    pub fn find_alternative_route(&self, dest: &Ipv4Net, failed: u32) -> (r: Option<&RouteEntry>)
        ensures
            match r {
                Some(e) => exists|i: int| spec_is_alternative(self@, *dest, failed, i) && *e == self@[i],
                None => forall|j: int|
                    0 <= j < self@.len() ==> !(self@[j].destination == *dest && self@[j].next_hop
                        != failed),
            },
    {
        let mut best: Option<usize> = None;
        let mut i: usize = 0;
        while i < self.routes.len()
            invariant
                i <= self@.len(),
                self.routes@ == self@,
                match best {
                    Some(b) => {
                        &&& b < i
                        &&& self@[b as int].destination == *dest
                        &&& self@[b as int].next_hop != failed
                        &&& forall|j: int|
                            0 <= j < i && self@[j].destination == *dest && self@[j].next_hop != failed
                                ==> self@[b as int].metric <= self@[j].metric
                        &&& forall|j: int|
                            0 <= j < b && self@[j].destination == *dest && self@[j].next_hop != failed
                                ==> self@[b as int].metric < self@[j].metric
                    },
                    None => forall|j: int|
                        0 <= j < i ==> !(self@[j].destination == *dest && self@[j].next_hop != failed),
                },
            decreases self@.len() - i,
        {
            let e = &self.routes[i];
            if e.destination == *dest && e.next_hop != failed {
                match best {
                    Some(b) => {
                        if e.metric < self.routes[b].metric {
                            best = Some(i);
                        }
                    },
                    None => {
                        best = Some(i);
                    },
                }
            }
            i += 1;
        }
        match best {
            Some(b) => {
                let e = &self.routes[b];
                proof {
                    assert(spec_is_alternative(self@, *dest, failed, b as int));
                }
                Some(e)
            },
            None => None,
        }
    }

    /// Longest-prefix match for an address (see `spec_is_lookup`: a route with a
    /// zero prefix never matches, and the earliest of equal prefixes wins).
    pub fn lookup_route_index(&self, ip: u32) -> (r: Option<usize>)
        ensures
            match r {
                Some(i) => spec_is_lookup(self@, ip, i as int),
                None => !spec_has_lookup(self@, ip),
            },
    {
        let mut best: Option<usize> = None;
        let mut best_len: u8 = 0;
        let mut i: usize = 0;
        while i < self.routes.len()
            invariant
                i <= self@.len(),
                self.routes@ == self@,
                forall|j: int|
                    0 <= j < i && self@[j].destination.spec_contains(ip) ==> self@[j].destination.spec_prefix()
                        <= best_len,
                match best {
                    Some(b) => {
                        &&& b < i
                        &&& self@[b as int].destination.spec_contains(ip)
                        &&& self@[b as int].destination.spec_prefix() == best_len
                        &&& forall|j: int|
                            0 <= j < b && self@[j].destination.spec_contains(ip)
                                ==> self@[j].destination.spec_prefix() < best_len
                    },
                    None => forall|j: int| 0 <= j < i ==> !self@[j].destination.spec_contains(ip),
                },
            decreases self@.len() - i,
        {
            let e = &self.routes[i];
            if e.destination.contains(ip) {
                let len = e.destination.prefix();
                if best.is_none() || len > best_len {
                    best = Some(i);
                    best_len = len;
                }
            }
            i += 1;
        }
        best
    }

    /// The longest-prefix route for an address (see `lookup_route_index`).
    pub fn lookup_route(&self, ip: u32) -> (r: Option<&RouteEntry>)
        ensures
            match r {
                Some(e) => exists|i: int| spec_is_lookup(self@, ip, i) && *e == self@[i],
                None => !spec_has_lookup(self@, ip),
            },
    {
        match self.lookup_route_index(ip) {
            Some(i) => Some(&self.routes[i]),
            None => None,
        }
    }

    /// The numbers of direct, protocol and static routes.
    pub fn get_stats(&self) -> (r: (usize, usize, usize))
        ensures
            r.0 == self@.filter(spec_from_source(RouteSource::Direct)).len(),
            r.1 == self@.filter(spec_from_source(RouteSource::Protocol)).len(),
            r.2 == self@.filter(spec_from_source(RouteSource::Static)).len(),
            r.0 + r.1 + r.2 == self@.len(),
            self@.len() <= usize::MAX,
    {
        let ghost s = self@;
        let mut d: usize = 0;
        let mut p: usize = 0;
        let mut st: usize = 0;
        let mut i: usize = 0;
        while i < self.routes.len()
            invariant
                i <= s.len(),
                self@ == s,
                self.routes@ == s,
                d == s.take(i as int).filter(spec_from_source(RouteSource::Direct)).len(),
                p == s.take(i as int).filter(spec_from_source(RouteSource::Protocol)).len(),
                st == s.take(i as int).filter(spec_from_source(RouteSource::Static)).len(),
                d + p + st == i,
            decreases s.len() - i,
        {
            proof {
                reveal(Seq::filter);
                assert(s.take(i as int + 1).drop_last() =~= s.take(i as int));
                assert(s.take(i as int + 1).last() == s[i as int]);
            }
            match self.routes[i].source {
                RouteSource::Direct => d += 1,
                RouteSource::Protocol => p += 1,
                RouteSource::Static => st += 1,
            }
            i += 1;
        }
        proof {
            assert(s.take(s.len() as int) =~= s);
        }
        (d, p, st)
    }

    /// Whether a direct route towards `dest` is in the table.
    pub fn is_directly_connected(&self, dest: &Ipv4Net) -> (r: bool)
        ensures
            r == exists|i: int|
                0 <= i < self@.len() && self@[i].destination == *dest && self@[i].source
                    == RouteSource::Direct,
    {
        let mut i: usize = 0;
        while i < self.routes.len()
            invariant
                i <= self@.len(),
                self.routes@ == self@,
                forall|j: int|
                    0 <= j < i ==> !(self@[j].destination == *dest && self@[j].source
                        == RouteSource::Direct),
            decreases self@.len() - i,
        {
            if self.routes[i].destination == *dest && self.routes[i].source == RouteSource::Direct {
                assert(self@[i as int].destination == *dest);
                return true;
            }
            i += 1;
        }
        false
    }

    /// All routes towards `dest`, in table order.
    pub fn get_routes_to_destination(&self, dest: &Ipv4Net) -> (r: Vec<&RouteEntry>)
        ensures
            r@.len() == self@.filter(spec_towards(*dest)).len(),
            forall|k: int| 0 <= k < r@.len() ==> *r@[k] == self@.filter(spec_towards(*dest))[k],
    {
        let ghost s = self@;
        let mut out: Vec<&RouteEntry> = Vec::new();
        let mut i: usize = 0;
        while i < self.routes.len()
            invariant
                i <= s.len(),
                self@ == s,
                self.routes@ == s,
                out@.len() == s.take(i as int).filter(spec_towards(*dest)).len(),
                forall|k: int| 0 <= k < out@.len() ==> *out@[k] == s.take(i as int).filter(spec_towards(*dest))[k],
            decreases s.len() - i,
        {
            proof {
                reveal(Seq::filter);
                assert(s.take(i as int + 1).drop_last() =~= s.take(i as int));
                assert(s.take(i as int + 1).last() == s[i as int]);
            }
            let e = &self.routes[i];
            if e.destination == *dest {
                out.push(e);
            }
            i += 1;
        }
        proof {
            assert(s.take(s.len() as int) =~= s);
        }
        out
    }

    /// Whether the route may enter the table (see `spec_valid_route`).
    pub fn is_valid_route(&self, route: &RouteEntry) -> (r: bool)
        ensures
            r == spec_valid_route(self.local(), *route),
    {
        if route.source == RouteSource::Direct {
            return true;
        }
        if is_loopback_v4(route.next_hop) {
            return false;
        }
        if is_unspecified_v4(route.next_hop) {
            return false;
        }
        let mut k: usize = 0;
        while k < self.local_networks.len()
            invariant
                k <= self.local_networks@.len(),
                route.source != RouteSource::Direct,
                !spec_is_loopback_v4(route.next_hop),
                !spec_is_unspecified_v4(route.next_hop),
                forall|m: int|
                    0 <= m < k ==> !(self.local_networks@[m].spec_network()
                        == route.destination.spec_network()
                        && self.local_networks@[m].spec_prefix() == route.destination.spec_prefix()),
            decreases self.local_networks@.len() - k,
        {
            let local = &self.local_networks[k];
            if route.destination.network() == local.network() && route.destination.prefix()
                == local.prefix() {
                proof {
                    assert(self.local_networks@[k as int].spec_network()
                        == route.destination.spec_network());
                    assert(spec_is_local_network(self.local(), route.destination));
                }
                return false;
            }
            k += 1;
        }
        let mut k: usize = 0;
        while k < self.local_networks.len()
            invariant
                k <= self.local_networks@.len(),
                route.source != RouteSource::Direct,
                !spec_is_loopback_v4(route.next_hop),
                !spec_is_unspecified_v4(route.next_hop),
                !spec_is_local_network(self.local(), route.destination),
                forall|m: int| 0 <= m < k ==> !self.local_networks@[m].spec_contains(route.next_hop),
            decreases self.local_networks@.len() - k,
        {
            if self.local_networks[k].contains(route.next_hop) {
                proof {
                    assert(self.local_networks@[k as int].spec_contains(route.next_hop));
                }
                return true;
            }
            k += 1;
        }
        false
    }

    /// Offers a route. An invalid route is ignored. A new destination is appended;
    /// an existing one is displaced when `spec_replaces` says so. Returns the
    /// system operations that mirror the change.
    #[verifier::spinoff_prover]
    #[verifier::rlimit(40)]
    pub fn add_route(&mut self, route: RouteEntry) -> (ops: Vec<SystemRouteOp>)
        requires
            old(self).wf(),
        ensures
            final(self).wf(),
            final(self).local() == old(self).local(),
            final(self)@ == spec_add_route(old(self)@, old(self).local(), route).0,
            ops@ == spec_add_route(old(self)@, old(self).local(), route).1,
    {
        let mut ops: Vec<SystemRouteOp> = Vec::new();
        if !self.is_valid_route(&route) {
            return ops;
        }
        match self.find_route_index(&route.destination) {
            Some(i) => {
                proof {
                    lemma_find_dest(self@, route.destination);
                }
                let replace = route.metric < self.routes[i].metric || (route.source
                    == self.routes[i].source && route.next_hop != self.routes[i].next_hop);
                if replace {
                    if self.routes[i].source != RouteSource::Direct {
                        ops.push(SystemRouteOp::Delete(self.routes[i].duplicate()));
                    }
                    let added = route.duplicate();
                    let ghost before = self.routes@;
                    self.routes.set(i, route);
                    if added.source != RouteSource::Direct {
                        ops.push(SystemRouteOp::Add(added));
                    }
                    proof {
                        assert(ops@ =~= spec_delete_ops(before[i as int]) + spec_add_ops(added));
                        assert forall|a: int, b: int|
                            0 <= a < self.routes@.len() && 0 <= b < self.routes@.len() && a != b
                                implies self.routes@[a].destination != self.routes@[b].destination by {
                            if a != i && b != i {
                                assert(before[a].destination != before[b].destination);
                            } else if a == i {
                                assert(before[b].destination != before[i as int].destination);
                            } else {
                                assert(before[a].destination != before[i as int].destination);
                            }
                        }
                    }
                }
            },
            None => {
                proof {
                    lemma_find_dest(self@, route.destination);
                }
                let added = route.duplicate();
                self.routes.push(route);
                if added.source != RouteSource::Direct {
                    ops.push(SystemRouteOp::Add(added));
                }
                proof {
                    assert(ops@ =~= spec_add_ops(added));
                }
            },
        }
        ops
    }

    /// Forces a route in (see `spec_replace_route`): used for failover between
    /// routes of equal metric. Returns the system operations that mirror the change.
    #[verifier::spinoff_prover]
    #[verifier::rlimit(40)]
    pub fn replace_route(&mut self, route: RouteEntry) -> (ops: Vec<SystemRouteOp>)
        requires
            old(self).wf(),
        ensures
            final(self).wf(),
            final(self).local() == old(self).local(),
            final(self)@ == spec_replace_route(old(self)@, old(self).local(), route).0,
            ops@ == spec_replace_route(old(self)@, old(self).local(), route).1,
    {
        let mut ops: Vec<SystemRouteOp> = Vec::new();
        if !self.is_valid_route(&route) {
            return ops;
        }
        match self.find_route_index(&route.destination) {
            Some(i) => {
                proof {
                    lemma_find_dest(self@, route.destination);
                }
                if self.routes[i].source != RouteSource::Direct {
                    ops.push(SystemRouteOp::Delete(self.routes[i].duplicate()));
                }
                let added = route.duplicate();
                let ghost before = self.routes@;
                self.routes.set(i, route);
                if added.source != RouteSource::Direct {
                    ops.push(SystemRouteOp::Add(added));
                }
                proof {
                    assert(ops@ =~= spec_delete_ops(before[i as int]) + spec_add_ops(added));
                    assert forall|a: int, b: int|
                        0 <= a < self.routes@.len() && 0 <= b < self.routes@.len() && a != b
                            implies self.routes@[a].destination != self.routes@[b].destination by {
                        if a != i && b != i {
                            assert(before[a].destination != before[b].destination);
                        } else if a == i {
                            assert(before[b].destination != before[i as int].destination);
                        } else {
                            assert(before[a].destination != before[i as int].destination);
                        }
                    }
                }
            },
            None => {
                proof {
                    lemma_find_dest(self@, route.destination);
                }
                let added = route.duplicate();
                self.routes.push(route);
                if added.source != RouteSource::Direct {
                    ops.push(SystemRouteOp::Add(added));
                }
                proof {
                    assert(ops@ =~= spec_add_ops(added));
                }
            },
        }
        ops
    }

    /// Withdraws the first route towards `route.destination`, if any.
    pub fn remove_route(&mut self, route: &RouteEntry) -> (ops: Vec<SystemRouteOp>)
        requires
            old(self).wf(),
        ensures
            final(self).wf(),
            final(self).local() == old(self).local(),
            match spec_find_dest(old(self)@, route.destination) {
                Some(i) => final(self)@ == old(self)@.remove(i) && ops@ == spec_delete_ops(
                    old(self)@[i],
                ),
                None => final(self)@ == old(self)@ && ops@ == Seq::<SystemRouteOp>::empty(),
            },
    {
        let mut ops: Vec<SystemRouteOp> = Vec::new();
        match self.find_route_index(&route.destination) {
            Some(i) => {
                let ghost before = self.routes@;
                let removed = self.routes.remove(i);
                if removed.source != RouteSource::Direct {
                    ops.push(SystemRouteOp::Delete(removed));
                }
                proof {
                    assert(ops@ =~= spec_delete_ops(before[i as int]));
                    lemma_remove_keeps_wf(before, i as int, self.local());
                }
            },
            None => {},
        }
        ops
    }

    /// Splits the table by the selector: keeps the other routes, and returns the
    /// selected ones in table order.
    fn split_off_selected(&mut self, sel: RouteSelector) -> (removed: Vec<RouteEntry>)
        requires
            old(self).wf(),
        ensures
            final(self).wf(),
            final(self).local() == old(self).local(),
            final(self)@ == old(self)@.filter(spec_not(sel.spec_pred())),
            removed@ == old(self)@.filter(sel.spec_pred()),
    {
        let ghost p = sel.spec_pred();
        let ghost np = spec_not(p);
        let ghost orig = self.routes@;
        let mut kept: Vec<RouteEntry> = Vec::new();
        let mut taken: Vec<RouteEntry> = Vec::new();
        let mut i: usize = 0;
        while i < self.routes.len()
            invariant
                i <= orig.len(),
                self.routes@ == orig,
                kept@ == orig.take(i as int).filter(np),
                taken@ == orig.take(i as int).filter(p),
                p == sel.spec_pred(),
                np == spec_not(p),
            decreases orig.len() - i,
        {
            let e = self.routes[i].duplicate();
            proof {
                reveal(Seq::filter);
                assert(orig.take(i as int + 1).drop_last() =~= orig.take(i as int));
                assert(orig.take(i as int + 1).last() == e);
            }
            if sel.selects(&e) {
                taken.push(e);
            } else {
                kept.push(e);
            }
            i += 1;
        }
        proof {
            assert(orig.take(orig.len() as int) =~= orig);
            lemma_filter_keeps_wf(orig, np, self.local());
        }
        self.routes = kept;
        taken
    }

    /// Withdraws every protocol route through `next_hop`. Returns them in reverse
    /// table order; each must also be withdrawn from the system.
    pub fn remove_routes_via_nexthop(&mut self, next_hop: u32) -> (removed: Vec<RouteEntry>)
        requires
            old(self).wf(),
        ensures
            final(self).wf(),
            final(self).local() == old(self).local(),
            final(self)@ == old(self)@.filter(spec_not(spec_via_hop(next_hop))),
            removed@ == old(self)@.filter(spec_via_hop(next_hop)).reverse(),
    {
        let sel = RouteSelector::ViaHop(next_hop);
        let fwd = self.split_off_selected(sel);
        proof {
            assert(sel.spec_pred() == spec_via_hop(next_hop));
        }
        reversed(fwd)
    }

    /// Withdraws every protocol route. Returns the system deletions, in reverse
    /// table order.
    pub fn clear_protocol_routes(&mut self) -> (ops: Vec<SystemRouteOp>)
        requires
            old(self).wf(),
        ensures
            final(self).wf(),
            final(self).local() == old(self).local(),
            final(self)@ == old(self)@.filter(spec_not(spec_is_protocol())),
            ops@ == spec_deletions(old(self)@.filter(spec_is_protocol()).reverse()),
    {
        let sel = RouteSelector::Protocol;
        let fwd = self.split_off_selected(sel);
        proof {
            assert(sel.spec_pred() == spec_is_protocol());
        }
        let back = reversed(fwd);
        deletions(&back)
    }
}

/// The system deletions for withdrawn routes, in the same order.
pub fn deletions(removed: &Vec<RouteEntry>) -> (ops: Vec<SystemRouteOp>)
    ensures
        ops@ == spec_deletions(removed@),
{
    let ghost all = removed@;
    let mut ops: Vec<SystemRouteOp> = Vec::new();
    let mut i: usize = 0;
    while i < removed.len()
        invariant
            i <= all.len(),
            removed@ == all,
            ops@ == spec_deletions(all.take(i as int)),
        decreases all.len() - i,
    {
        ops.push(SystemRouteOp::Delete(removed[i].duplicate()));
        proof {
            assert(ops@ =~= spec_deletions(all.take(i as int + 1)));
        }
        i += 1;
    }
    proof {
        assert(all.take(all.len() as int) =~= all);
    }
    ops
}

/// Which routes a bulk withdrawal selects.
pub enum RouteSelector {
    /// Protocol routes through this gateway.
    ViaHop(u32),
    /// All protocol routes.
    Protocol,
}

impl RouteSelector {
    pub open spec fn spec_pred(self) -> spec_fn(RouteEntry) -> bool {
        match self {
            RouteSelector::ViaHop(h) => spec_via_hop(h),
            RouteSelector::Protocol => spec_is_protocol(),
        }
    }

    pub fn selects(&self, e: &RouteEntry) -> (r: bool)
        ensures
            r == self.spec_pred()(*e),
    {
        match self {
            RouteSelector::ViaHop(h) => e.next_hop == *h && e.source == RouteSource::Protocol,
            RouteSelector::Protocol => e.source == RouteSource::Protocol,
        }
    }
}

/// Removing one route keeps the table invariant.
proof fn lemma_remove_keeps_wf(s: Seq<RouteEntry>, i: int, local: Seq<Ipv4Net>)
    requires
        0 <= i < s.len(),
        spec_unique_destinations(s),
        forall|m: int| 0 <= m < s.len() ==> spec_valid_route(local, #[trigger] s[m]),
    ensures
        spec_unique_destinations(s.remove(i)),
        forall|m: int| 0 <= m < s.remove(i).len() ==> spec_valid_route(local, #[trigger] s.remove(i)[m]),
{
    let t = s.remove(i);
    assert forall|a: int, b: int|
        0 <= a < t.len() && 0 <= b < t.len() && a != b implies t[a].destination
            != t[b].destination by {
        let a2 = if a < i { a } else { a + 1 };
        let b2 = if b < i { b } else { b + 1 };
        assert(t[a] == s[a2]);
        assert(t[b] == s[b2]);
    }
    assert forall|m: int| 0 <= m < t.len() implies spec_valid_route(local, #[trigger] t[m]) by {
        let m2 = if m < i { m } else { m + 1 };
        assert(t[m] == s[m2]);
    }
}

/// A filtered table keeps the table invariant.
proof fn lemma_filter_keeps_wf(s: Seq<RouteEntry>, p: spec_fn(RouteEntry) -> bool, local: Seq<Ipv4Net>)
    requires
        spec_unique_destinations(s),
        forall|i: int| 0 <= i < s.len() ==> spec_valid_route(local, #[trigger] s[i]),
    ensures
        spec_unique_destinations(s.filter(p)),
        forall|i: int| 0 <= i < s.filter(p).len() ==> spec_valid_route(local, #[trigger] s.filter(p)[i]),
    decreases s.len(),
{
    reveal(Seq::filter);
    if s.len() > 0 {
        let init = s.drop_last();
        assert forall|i: int, j: int|
            0 <= i < init.len() && 0 <= j < init.len() && i != j implies init[i].destination
                != init[j].destination by {
            assert(s[i].destination != s[j].destination);
        }
        lemma_filter_keeps_wf(init, p, local);
        if p(s.last()) {
            let f = init.filter(p);
            assert forall|k: int| 0 <= k < f.len() implies f[k].destination != s.last().destination by {
                assert(f.contains(f[k]));
                init.lemma_filter_contains_rev(p, f[k]);
                let w = choose|b: int| 0 <= b < init.len() && init[b] == f[k];
                assert(s[w] == init[w]);
                assert(s[w].destination != s[s.len() - 1].destination);
            }
            assert(s.filter(p) == f.push(s.last()));
            assert forall|k: int| 0 <= k < f.len() implies spec_valid_route(local, #[trigger] f[k]) by {
                assert(f.contains(f[k]));
                init.lemma_filter_contains_rev(p, f[k]);
                let w = choose|b: int| 0 <= b < init.len() && init[b] == f[k];
                assert(s[w] == init[w]);
            }
            assert(spec_valid_route(local, s[s.len() - 1]));
        } else {
            assert(s.filter(p) == init.filter(p));
        }
    }
}

/// The elements in reverse order.
pub fn reversed(v: Vec<RouteEntry>) -> (r: Vec<RouteEntry>)
    ensures
        r@ == v@.reverse(),
{
    let ghost orig = v@;
    let mut rest = v;
    let mut out: Vec<RouteEntry> = Vec::new();
    while rest.len() > 0
        invariant
            rest@ == orig.subrange(0, rest@.len() as int),
            out@ == orig.subrange(rest@.len() as int, orig.len() as int).reverse(),
            rest@.len() <= orig.len(),
        decreases rest@.len(),
    {
        let e = rest.pop().unwrap();
        out.push(e);
        proof {
            assert(rest@ =~= orig.subrange(0, rest@.len() as int));
            assert(out@ =~= orig.subrange(rest@.len() as int, orig.len() as int).reverse());
        }
    }
    proof {
        assert(orig.subrange(0, orig.len() as int) =~= orig);
    }
    out
}

/// The kernel route that stands for a route: the destination's network address,
/// its prefix, and the gateway.
pub fn kernel_route(route: &RouteEntry) -> (r: (u32, u8, u32))
    ensures
        r == (route.destination.spec_network(), route.destination.spec_prefix(), route.next_hop),
{
    (route.destination.network(), route.destination.prefix(), route.next_hop)
}

/// The arguments of the `ip` command that withdraws a route:
/// `route del <destination>`, then `via <gateway>` unless the gateway is `0.0.0.0`.
pub fn delete_route_command(route: &RouteEntry) -> (r: Vec<String>)
    ensures
        r@.map_values(|s: String| s@) == seq!["route"@, "del"@, crate::net::cidr_text(
            route.destination.spec_addr(),
            route.destination.spec_prefix(),
        )] + if route.next_hop != 0 {
            seq!["via"@, crate::net::ipv4_addr_text(route.next_hop)]
        } else {
            Seq::<Seq<char>>::empty()
        },
{
    let mut args: Vec<String> = Vec::new();
    args.push("route".to_owned());
    args.push("del".to_owned());
    args.push(crate::net::format_cidr(route.destination.ip(), route.destination.prefix()));
    if route.next_hop != 0 {
        args.push("via".to_owned());
        args.push(crate::net::format_ipv4_addr(route.next_hop));
    }
    proof {
        assert(args@.map_values(|s: String| s@) =~= seq!["route"@, "del"@, crate::net::cidr_text(
            route.destination.spec_addr(),
            route.destination.spec_prefix(),
        )] + if route.next_hop != 0 {
            seq!["via"@, crate::net::ipv4_addr_text(route.next_hop)]
        } else {
            Seq::<Seq<char>>::empty()
        });
    }
    args
}

/// Offering a valid route to a table without a route to its destination, or
/// with one that it displaces, leaves that route as the table's route to its
/// destination.
pub proof fn law_offered_route_is_found(routes: Seq<RouteEntry>, local: Seq<Ipv4Net>, r: RouteEntry)
    requires
        spec_unique_destinations(routes),
        spec_valid_route(local, r),
        match spec_find_dest(routes, r.destination) {
            Some(i) => spec_replaces(routes[i], r),
            None => true,
        },
    ensures
        ({
            let after = spec_add_route(routes, local, r).0;
            spec_find_dest(after, r.destination) matches Some(k) && after[k] == r
        }),
{
    lemma_find_dest(routes, r.destination);
    let after = spec_add_route(routes, local, r).0;
    match spec_find_dest(routes, r.destination) {
        Some(i) => {
            assert(after == routes.update(i, r));
            assert forall|j: int| 0 <= j < i implies after[j].destination != r.destination by {
                assert(after[j] == routes[j]);
            }
            lemma_find_dest_first(after, r.destination, i);
        },
        None => {
            assert(after == routes.push(r));
            assert forall|j: int| 0 <= j < routes.len() implies after[j].destination != r.destination by {
                assert(after[j] == routes[j]);
            }
            lemma_find_dest_first(after, r.destination, routes.len() as int);
        },
    }
}

/// After withdrawing the route towards a destination from a table with unique
/// destinations, no route leads there.
pub proof fn law_withdrawn_route_is_gone(routes: Seq<RouteEntry>, dest: Ipv4Net)
    requires
        spec_unique_destinations(routes),
    ensures
        ({
            let after = match spec_find_dest(routes, dest) {
                Some(i) => routes.remove(i),
                None => routes,
            };
            spec_find_dest(after, dest) is None
        }),
{
    lemma_find_dest(routes, dest);
    match spec_find_dest(routes, dest) {
        Some(i) => {
            let after = routes.remove(i);
            lemma_find_dest(after, dest);
            if spec_find_dest(after, dest) is Some {
                let k = spec_find_dest(after, dest).unwrap();
                if k < i {
                    assert(after[k] == routes[k]);
                } else {
                    assert(after[k] == routes[k + 1]);
                }
            }
        },
        None => {},
    }
}

/// Withdrawing the routes through a gateway leaves no protocol route through it.
pub proof fn law_no_route_via_withdrawn_hop(routes: Seq<RouteEntry>, next_hop: u32)
    ensures
        forall|k: int|
            0 <= k < routes.filter(spec_not(spec_via_hop(next_hop))).len() ==> !(#[trigger] routes.filter(
                spec_not(spec_via_hop(next_hop)),
            )[k].next_hop == next_hop && routes.filter(spec_not(spec_via_hop(next_hop)))[k].source
                == RouteSource::Protocol),
{
    broadcast use vstd::seq_lib::group_filter_ensures;
    let f = routes.filter(spec_not(spec_via_hop(next_hop)));
    assert forall|k: int| 0 <= k < f.len() implies !(#[trigger] f[k].next_hop == next_hop && f[k].source
        == RouteSource::Protocol) by {
        assert(spec_not(spec_via_hop(next_hop))(f[k]));
    }
}

/// Whether an operation deletes a protocol route of the table.
pub open spec fn spec_deletes_protocol_route(op: SystemRouteOp, routes: Seq<RouteEntry>) -> bool {
    match op {
        SystemRouteOp::Delete(e) => e.source == RouteSource::Protocol && routes.contains(e),
        SystemRouteOp::Add(_) => false,
    }
}

/// Clearing the protocol routes keeps every other route and withdraws exactly
/// the protocol ones: what is left holds no protocol route and every direct or
/// static route of the table; each operation deletes a protocol route of the
/// table, and each protocol route is deleted.
pub proof fn law_clearing_touches_only_protocol_routes(routes: Seq<RouteEntry>)
    ensures
        ({
            let after = routes.filter(spec_not(spec_is_protocol()));
            let ops = spec_deletions(routes.filter(spec_is_protocol()).reverse());
            &&& forall|k: int| 0 <= k < after.len() ==> (#[trigger] after[k]).source != RouteSource::Protocol
            &&& forall|i: int|
                0 <= i < routes.len() && (#[trigger] routes[i]).source != RouteSource::Protocol ==> after.contains(
                    routes[i],
                )
            &&& forall|k: int| 0 <= k < ops.len() ==> spec_deletes_protocol_route(#[trigger] ops[k], routes)
            &&& forall|i: int|
                0 <= i < routes.len() && (#[trigger] routes[i]).source == RouteSource::Protocol ==> ops.contains(
                    SystemRouteOp::Delete(routes[i]),
                )
        }),
{
    broadcast use vstd::seq_lib::group_filter_ensures;
    let after = routes.filter(spec_not(spec_is_protocol()));
    let gone = routes.filter(spec_is_protocol());
    let back = gone.reverse();
    let ops = spec_deletions(back);
    assert forall|k: int| 0 <= k < after.len() implies (#[trigger] after[k]).source != RouteSource::Protocol by {
        assert(spec_not(spec_is_protocol())(after[k]));
    }
    assert forall|i: int| 0 <= i < routes.len() && (#[trigger] routes[i]).source != RouteSource::Protocol implies after.contains(
        routes[i],
    ) by {
        assert(spec_not(spec_is_protocol())(routes[i]));
    }
    assert forall|k: int| 0 <= k < ops.len() implies spec_deletes_protocol_route(#[trigger] ops[k], routes) by {
        let e = back[k];
        assert(e == gone[gone.len() - 1 - k]);
        assert(spec_is_protocol()(gone[gone.len() - 1 - k]));
        assert(gone.contains(e));
        routes.lemma_filter_contains_rev(spec_is_protocol(), e);
        assert(ops[k] == SystemRouteOp::Delete(e));
    }
    assert forall|i: int| 0 <= i < routes.len() && (#[trigger] routes[i]).source == RouteSource::Protocol implies ops.contains(
        SystemRouteOp::Delete(routes[i]),
    ) by {
        assert(spec_is_protocol()(routes[i]));
        assert(gone.contains(routes[i]));
        let g = choose|g: int| 0 <= g < gone.len() && gone[g] == routes[i];
        let k = gone.len() - 1 - g;
        assert(back[k] == gone[g]);
        assert(ops[k] == SystemRouteOp::Delete(routes[i]));
    }
}

} // verus!
