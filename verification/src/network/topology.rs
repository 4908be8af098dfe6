//! The link-state database: routers with their networks, and links between routers.
use vstd::prelude::*;
use crate::net::{IpNet, spec_net_lt, lemma_net_order, net_lt};
use crate::protocol::neighbor::Neighbor;
use crate::protocol::messages::LSAMessage;
use crate::protocol::keyed::{spec_insert, spec_remove, spec_unique_keys, insert_keyed, remove_keyed};

verus! {

/// A router of the topology.
#[derive(Debug)]
pub struct RouterInfo {
    pub id: String,
    pub name: String,
    pub networks: Vec<IpNet>,
}

/// A link between two routers.
#[derive(Debug)]
pub struct Link {
    pub from_router: String,
    pub to_router: String,
    pub network: IpNet,
    pub bandwidth: u64,
    pub available_bandwidth: u64,
    pub active: bool,
}

impl Link {
    pub fn duplicate(&self) -> (r: Link)
        ensures
            r == *self,
    {
        Link {
            from_router: self.from_router.clone(),
            to_router: self.to_router.clone(),
            network: self.network,
            bandwidth: self.bandwidth,
            available_bandwidth: self.available_bandwidth,
            active: self.active,
        }
    }
}

/// The cost of a link: the reference bandwidth of 10^9 divided by the available
/// bandwidth, at least 1; `u32::MAX` when nothing is available.
pub open spec fn spec_link_cost(l: Link) -> int {
    if l.available_bandwidth > 0 {
        let q = 1_000_000_000int / (l.available_bandwidth as int);
        if q < 1 {
            1
        } else {
            q
        }
    } else {
        u32::MAX as int
    }
}

/// The neighbours of router `id` over active links, with the cost of each link,
/// in link order.
pub open spec fn spec_neighbors_of(links: Seq<Link>, id: Seq<char>) -> Seq<(String, u32)>
    decreases links.len(),
{
    if links.len() == 0 {
        seq![]
    } else {
        let prev = spec_neighbors_of(links.drop_last(), id);
        let l = links.last();
        if l.from_router@ == id && l.active {
            prev.push((l.to_router, spec_link_cost(l) as u32))
        } else if l.to_router@ == id && l.active {
            prev.push((l.from_router, spec_link_cost(l) as u32))
        } else {
            prev
        }
    }
}

/// Whether the link joins the two routers, in either direction.
pub open spec fn spec_joins(l: Link, a: Seq<char>, b: Seq<char>) -> bool {
    (l.from_router@ == a && l.to_router@ == b) || (l.from_router@ == b && l.to_router@ == a)
}

/// The links after recording a link from `r1` to a neighbour, unless one
/// already joins them.
pub open spec fn spec_link_between(links: Seq<Link>, r1: String, neighbor: Neighbor) -> Seq<Link> {
    if exists|k: int| 0 <= k < links.len() && spec_joins(links[k], r1@, neighbor.router_id@) {
        links
    } else {
        links.push(
            Link {
                from_router: r1,
                to_router: neighbor.router_id,
                network: neighbor.network,
                bandwidth: neighbor.bandwidth,
                available_bandwidth: neighbor.bandwidth,
                active: true,
            },
        )
    }
}

/// The links after recording each neighbour of an advertisement in turn.
pub open spec fn spec_links_between(links: Seq<Link>, r1: String, neighbors: Seq<Neighbor>) -> Seq<Link>
    decreases neighbors.len(),
{
    if neighbors.len() == 0 {
        links
    } else {
        spec_link_between(spec_links_between(links, r1, neighbors.drop_last()), r1, neighbors.last())
    }
}

/// Whether link `k` is the first that touches router `id` on network `net`.
pub open spec fn spec_first_link_of(links: Seq<Link>, id: Seq<char>, net: IpNet, k: int) -> bool {
    &&& 0 <= k < links.len()
    &&& (links[k].from_router@ == id || links[k].to_router@ == id) && links[k].network == net
    &&& forall|j: int|
        0 <= j < k ==> !((links[j].from_router@ == id || links[j].to_router@ == id) && links[j].network
            == net)
}

/// A link not touching router `id`.
pub open spec fn spec_avoids(id: Seq<char>) -> spec_fn(Link) -> bool {
    |l: Link| l.from_router@ != id && l.to_router@ != id
}

/// Whether some router lists the network.
pub open spec fn spec_has_network(routers: Seq<(String, RouterInfo)>, net: IpNet) -> bool {
    exists|k: int, m: int|
        0 <= k < routers.len() && 0 <= m < routers[k].1.networks@.len() && routers[k].1.networks@[m] == net
}

/// Strictly increasing in the network order.
pub open spec fn spec_strictly_sorted(s: Seq<IpNet>) -> bool {
    forall|i: int, j: int| 0 <= i < j < s.len() ==> spec_net_lt(s[i], s[j])
}

/// The topology.
#[derive(Debug)]
pub struct Topology {
    /// Routers keyed by their identifier.
    pub routers: Vec<(String, RouterInfo)>,
    pub links: Vec<Link>,
}

impl Topology {
    pub open spec fn wf(&self) -> bool {
        spec_unique_keys(self.routers@)
    }

    pub fn new() -> (t: Topology)
        ensures
            t.routers@ == Seq::<(String, RouterInfo)>::empty(),
            t.links@ == Seq::<Link>::empty(),
            t.wf(),
    {
        Topology { routers: Vec::new(), links: Vec::new() }
    }

    /// Records a neighbour as a router with its one network, then refreshes the
    /// first link that touches it on that network (bandwidths set to the
    /// neighbour's, link activated).
    pub fn add_neighbor(&mut self, neighbor: Neighbor)
        requires
            old(self).wf(),
        ensures
            final(self).wf(),
            exists|info: RouterInfo|
                final(self).routers@ == spec_insert(old(self).routers@, neighbor.router_id, info) && info.id
                    == neighbor.router_id && info.name == neighbor.router_name && info.networks@ == seq![
                    neighbor.network,
                ],
            match choose|k: int| spec_first_link_of(old(self).links@, neighbor.router_id@, neighbor.network, k) {
                k => if exists|k: int| spec_first_link_of(old(self).links@, neighbor.router_id@, neighbor.network, k) {
                    final(self).links@ == old(self).links@.update(
                        k,
                        Link {
                            bandwidth: neighbor.bandwidth,
                            available_bandwidth: neighbor.bandwidth,
                            active: true,
                            ..old(self).links@[k]
                        },
                    )
                } else {
                    final(self).links@ == old(self).links@
                },
            },
    {
        let mut networks: Vec<IpNet> = Vec::new();
        networks.push(neighbor.network);
        let info = RouterInfo {
            id: neighbor.router_id.clone(),
            name: neighbor.router_name.clone(),
            networks,
        };
        insert_keyed(&mut self.routers, neighbor.router_id.clone(), info);
        self.update_link_info(&neighbor);
    }

    /// Refreshes the first link touching the neighbour on its network.
    fn update_link_info(&mut self, neighbor: &Neighbor)
        ensures
            final(self).routers == old(self).routers,
            match choose|k: int| spec_first_link_of(old(self).links@, neighbor.router_id@, neighbor.network, k) {
                k => if exists|k: int| spec_first_link_of(old(self).links@, neighbor.router_id@, neighbor.network, k) {
                    final(self).links@ == old(self).links@.update(
                        k,
                        Link {
                            bandwidth: neighbor.bandwidth,
                            available_bandwidth: neighbor.bandwidth,
                            active: true,
                            ..old(self).links@[k]
                        },
                    )
                } else {
                    final(self).links@ == old(self).links@
                },
            },
    {
        let mut k: usize = 0;
        while k < self.links.len()
            invariant
                k <= self.links@.len(),
                self.links@ == old(self).links@,
                self.routers == old(self).routers,
                forall|j: int|
                    0 <= j < k ==> !((self.links@[j].from_router@ == neighbor.router_id@
                        || self.links@[j].to_router@ == neighbor.router_id@) && self.links@[j].network
                        == neighbor.network),
            decreases self.links@.len() - k,
        {
            let touches = (self.links[k].from_router == neighbor.router_id
                || self.links[k].to_router == neighbor.router_id) && self.links[k].network == neighbor.network;
            if touches {
                proof {
                    assert(spec_first_link_of(self.links@, neighbor.router_id@, neighbor.network, k as int));
                    let c = choose|c: int| spec_first_link_of(old(self).links@, neighbor.router_id@, neighbor.network, c);
                    if c < k {
                    }
                    if (k as int) < c {
                        assert(!((self.links@[k as int].from_router@ == neighbor.router_id@
                            || self.links@[k as int].to_router@ == neighbor.router_id@)
                            && self.links@[k as int].network == neighbor.network));
                    }
                }
                let mut link = self.links[k].duplicate();
                link.bandwidth = neighbor.bandwidth;
                link.available_bandwidth = neighbor.bandwidth;
                link.active = true;
                self.links.set(k, link);
                return;
            }
            k += 1;
        }
    }

    /// Forgets a router and every link that touches it.
    pub fn remove_neighbor(&mut self, router_id: &String)
        requires
            old(self).wf(),
        ensures
            final(self).wf(),
            final(self).routers@ == spec_remove(old(self).routers@, router_id@),
            final(self).links@ == old(self).links@.filter(spec_avoids(router_id@)),
    {
        let _ = remove_keyed(&mut self.routers, router_id);
        let ghost orig = self.links@;
        let mut kept: Vec<Link> = Vec::new();
        let mut i: usize = 0;
        while i < self.links.len()
            invariant
                i <= orig.len(),
                self.links@ == orig,
                kept@ == orig.take(i as int).filter(spec_avoids(router_id@)),
            decreases orig.len() - i,
        {
            proof {
                reveal(Seq::filter);
                assert(orig.take(i as int + 1).drop_last() =~= orig.take(i as int));
            }
            if self.links[i].from_router != *router_id && self.links[i].to_router != *router_id {
                kept.push(self.links[i].duplicate());
            }
            i += 1;
        }
        proof {
            assert(orig.take(orig.len() as int) =~= orig);
        }
        self.links = kept;
    }

    /// Records an advertisement: the router with its advertised networks (named by
    /// its identifier), and a link to each advertised neighbour that no link joins yet.
    pub fn update_from_lsa(&mut self, lsa: &LSAMessage)
        requires
            old(self).wf(),
        ensures
            final(self).wf(),
            exists|info: RouterInfo|
                final(self).routers@ == spec_insert(old(self).routers@, lsa.router_id, info) && info.id
                    == lsa.router_id && info.name == lsa.router_id && info.networks@ == lsa.networks@,
            final(self).links@ == spec_links_between(old(self).links@, lsa.router_id, lsa.neighbors@),
    {
        let mut networks: Vec<IpNet> = Vec::new();
        let mut m: usize = 0;
        while m < lsa.networks.len()
            invariant
                m <= lsa.networks@.len(),
                networks@ == lsa.networks@.take(m as int),
            decreases lsa.networks@.len() - m,
        {
            networks.push(lsa.networks[m]);
            proof {
                assert(networks@ =~= lsa.networks@.take(m as int + 1));
            }
            m += 1;
        }
        proof {
            assert(networks@ =~= lsa.networks@);
        }
        let info = RouterInfo { id: lsa.router_id.clone(), name: lsa.router_id.clone(), networks };
        let ghost recorded = info;
        insert_keyed(&mut self.routers, lsa.router_id.clone(), info);
        let ghost routers_now = self.routers@;
        let ghost start = self.links@;
        let mut i: usize = 0;
        while i < lsa.neighbors.len()
            invariant
                i <= lsa.neighbors@.len(),
                self.links@ == spec_links_between(start, lsa.router_id, lsa.neighbors@.take(i as int)),
                self.routers@ == routers_now,
                spec_unique_keys(self.routers@),
            decreases lsa.neighbors@.len() - i,
        {
            proof {
                assert(lsa.neighbors@.take(i as int + 1).drop_last() =~= lsa.neighbors@.take(i as int));
            }
            self.update_link_between(&lsa.router_id, &lsa.neighbors[i]);
            i += 1;
        }
        proof {
            assert(lsa.neighbors@.take(lsa.neighbors@.len() as int) =~= lsa.neighbors@);
            assert(self.routers@ == spec_insert(old(self).routers@, lsa.router_id, recorded));
        }
    }

    /// Adds a link from `router1` to the neighbour unless one already joins them.
    fn update_link_between(&mut self, router1: &String, neighbor: &Neighbor)
        ensures
            final(self).routers == old(self).routers,
            final(self).links@ == spec_link_between(old(self).links@, *router1, *neighbor),
    {
        let mut k: usize = 0;
        while k < self.links.len()
            invariant
                k <= self.links@.len(),
                self.links@ == old(self).links@,
                self.routers == old(self).routers,
                forall|j: int| 0 <= j < k ==> !spec_joins(self.links@[j], router1@, neighbor.router_id@),
            decreases self.links@.len() - k,
        {
            let l = &self.links[k];
            if (l.from_router == *router1 && l.to_router == neighbor.router_id) || (l.from_router
                == neighbor.router_id && l.to_router == *router1) {
                return;
            }
            k += 1;
        }
        self.links.push(
            Link {
                from_router: router1.clone(),
                to_router: neighbor.router_id.clone(),
                network: neighbor.network,
                bandwidth: neighbor.bandwidth,
                available_bandwidth: neighbor.bandwidth,
                active: true,
            },
        );
    }

    /// The neighbours of a router over active links, each with the link's cost.
    pub fn get_neighbors(&self, router_id: &String) -> (r: Vec<(String, u32)>)
        ensures
            r@ == spec_neighbors_of(self.links@, router_id@),
    {
        let ghost links = self.links@;
        let mut out: Vec<(String, u32)> = Vec::new();
        let mut i: usize = 0;
        while i < self.links.len()
            invariant
                i <= links.len(),
                self.links@ == links,
                out@ == spec_neighbors_of(links.take(i as int), router_id@),
            decreases links.len() - i,
        {
            proof {
                assert(links.take(i as int + 1).drop_last() =~= links.take(i as int));
            }
            let l = &self.links[i];
            if l.from_router == *router_id && l.active {
                out.push((l.to_router.clone(), Self::calculate_link_cost(l)));
            } else if l.to_router == *router_id && l.active {
                out.push((l.from_router.clone(), Self::calculate_link_cost(l)));
            }
            i += 1;
        }
        proof {
            assert(links.take(links.len() as int) =~= links);
        }
        out
    }

    /// Every network of every router, once each, in increasing order.
    #[verifier::spinoff_prover]
    pub fn get_all_networks(&self) -> (r: Vec<IpNet>)
        ensures
            spec_strictly_sorted(r@),
            forall|net: IpNet| r@.contains(net) <==> spec_has_network(self.routers@, net),
    {
        let mut out: Vec<IpNet> = Vec::new();
        let mut k: usize = 0;
        while k < self.routers.len()
            invariant
                k <= self.routers@.len(),
                spec_strictly_sorted(out@),
                forall|net: IpNet|
                    out@.contains(net) <==> spec_has_network(self.routers@.take(k as int), net),
            decreases self.routers@.len() - k,
        {
            let nets = &self.routers[k].1.networks;
            let mut m: usize = 0;
            while m < nets.len()
                invariant
                    k < self.routers@.len(),
                    *nets == self.routers@[k as int].1.networks,
                    m <= nets@.len(),
                    spec_strictly_sorted(out@),
                    forall|net: IpNet|
                        out@.contains(net) <==> (spec_has_network(self.routers@.take(k as int), net)
                            || nets@.take(m as int).contains(net)),
                decreases nets@.len() - m,
            {
                insert_sorted(&mut out, nets[m]);
                proof {
                    let t1 = nets@.take(m as int + 1);
                    let t0 = nets@.take(m as int);
                    assert forall|net: IpNet| t1.contains(net) <==> (t0.contains(net) || net == nets@[m as int]) by {
                        if t1.contains(net) {
                            let w = choose|w: int| 0 <= w < t1.len() && t1[w] == net;
                            if w < m {
                                assert(t0[w] == net);
                            }
                        }
                        if t0.contains(net) {
                            let w = choose|w: int| 0 <= w < t0.len() && t0[w] == net;
                            assert(t1[w] == net);
                        }
                        if net == nets@[m as int] {
                            assert(t1[m as int] == net);
                        }
                    }
                }
                m += 1;
            }
            proof {
                assert(nets@.take(nets@.len() as int) =~= nets@);
                assert forall|net: IpNet|
                    spec_has_network(self.routers@.take(k as int + 1), net) <==> (spec_has_network(
                        self.routers@.take(k as int),
                        net,
                    ) || nets@.contains(net)) by {
                    let t1 = self.routers@.take(k as int + 1);
                    let t0 = self.routers@.take(k as int);
                    if spec_has_network(t1, net) {
                        let (a, b) = choose|a: int, b: int|
                            0 <= a < t1.len() && 0 <= b < t1[a].1.networks@.len() && t1[a].1.networks@[b] == net;
                        if a < k {
                            assert(t0[a] == t1[a]);
                        } else {
                            assert(nets@[b] == net);
                        }
                    }
                    if spec_has_network(t0, net) {
                        let (a, b) = choose|a: int, b: int|
                            0 <= a < t0.len() && 0 <= b < t0[a].1.networks@.len() && t0[a].1.networks@[b] == net;
                        assert(t1[a] == t0[a]);
                    }
                    if nets@.contains(net) {
                        let b = choose|b: int| 0 <= b < nets@.len() && nets@[b] == net;
                        assert(t1[k as int].1.networks@[b] == net);
                    }
                }
            }
            k += 1;
        }
        proof {
            assert(self.routers@.take(self.routers@.len() as int) =~= self.routers@);
        }
        out
    }

    /// The cost of a link (see `spec_link_cost`).
    pub fn calculate_link_cost(link: &Link) -> (r: u32)
        ensures
            r as int == spec_link_cost(*link),
            r >= 1,
    {
        let reference_bandwidth: u64 = 1_000_000_000;
        if link.available_bandwidth > 0 {
            let q = reference_bandwidth / link.available_bandwidth;
            if q < 1 {
                1
            } else {
                q as u32
            }
        } else {
            u32::MAX
        }
    }
}

/// Inserts a network into a strictly sorted list, unless it is already there.
pub fn insert_sorted(out: &mut Vec<IpNet>, net: IpNet)
    requires
        spec_strictly_sorted(old(out)@),
    ensures
        spec_strictly_sorted(final(out)@),
        forall|x: IpNet| final(out)@.contains(x) <==> (old(out)@.contains(x) || x == net),
{
    let mut i: usize = 0;
    let mut found: bool = false;
    while !found && i < out.len()
        invariant
            i <= out@.len(),
            out@ == old(out)@,
            spec_strictly_sorted(out@),
            forall|j: int| 0 <= j < i ==> spec_net_lt(out@[j], net),
            found ==> i < out@.len() && !spec_net_lt(out@[i as int], net),
        decreases out@.len() - i + (if found { 0int } else { 1int }),
    {
        if net_lt(&out[i], &net) {
            i += 1;
        } else {
            found = true;
        }
    }
    proof {
        lemma_net_order(net, net, net);
    }
    if i < out.len() && out[i] == net {
        proof {
            assert forall|x: IpNet| out@.contains(x) <==> (old(out)@.contains(x) || x == net) by {
                if x == net {
                    assert(out@[i as int] == net);
                }
            }
        }
        return;
    }
    let ghost before = out@;
    proof {
        if (i as int) < before.len() {
            lemma_net_order(before[i as int], net, net);
            assert(spec_net_lt(net, before[i as int]));
        }
    }
    out.insert(i, net);
    proof {
        assert forall|a: int, b: int| 0 <= a < b < out@.len() implies spec_net_lt(out@[a], out@[b]) by {
            if b < i {
                assert(out@[a] == before[a] && out@[b] == before[b]);
            } else if b == i {
                assert(out@[a] == before[a]);
            } else if a < i {
                assert(out@[a] == before[a] && out@[b] == before[b - 1]);
                lemma_net_order(before[a], net, before[b - 1]);
                if (i as int) < before.len() {
                    lemma_net_order(net, before[i as int], before[b - 1]);
                }
                if b - 1 > i {
                    assert(spec_net_lt(before[i as int], before[b - 1]));
                }
            } else if a == i {
                assert(out@[b] == before[b - 1]);
                if b - 1 > i {
                    assert(spec_net_lt(before[i as int], before[b - 1]));
                    lemma_net_order(net, before[i as int], before[b - 1]);
                }
            } else {
                assert(out@[a] == before[a - 1] && out@[b] == before[b - 1]);
            }
        }
        assert forall|x: IpNet| out@.contains(x) <==> (before.contains(x) || x == net) by {
            if out@.contains(x) {
                let w = choose|w: int| 0 <= w < out@.len() && out@[w] == x;
                if w < i {
                    assert(before[w] == x);
                } else if w > i {
                    assert(before[w - 1] == x);
                }
            }
            if before.contains(x) {
                let w = choose|w: int| 0 <= w < before.len() && before[w] == x;
                if w < i {
                    assert(out@[w] == x);
                } else {
                    assert(out@[w + 1] == x);
                }
            }
            if x == net {
                assert(out@[i as int] == net);
            }
        }
    }
}

/// After a router is removed, no link touches it.
pub proof fn law_removed_router_has_no_link(links: Seq<Link>, id: Seq<char>)
    ensures
        forall|k: int|
            0 <= k < links.filter(spec_avoids(id)).len() ==> (#[trigger] links.filter(spec_avoids(id))[k]).from_router@
                != id && links.filter(spec_avoids(id))[k].to_router@ != id,
{
    broadcast use vstd::seq_lib::group_filter_ensures;
    let f = links.filter(spec_avoids(id));
    assert forall|k: int| 0 <= k < f.len() implies (#[trigger] f[k]).from_router@ != id && f[k].to_router@ != id by {
        assert(spec_avoids(id)(f[k]));
    }
}

/// The other end of a link, seen from router `id`: its `to` end when it starts
/// at `id`, otherwise its `from` end.
pub open spec fn spec_other_end(l: Link, id: Seq<char>) -> String {
    if l.from_router@ == id {
        l.to_router
    } else {
        l.from_router
    }
}

/// Whether link `j` is an active link at router `id` whose other end and cost
/// are those of the reported neighbour `n`.
pub open spec fn spec_reported_by(links: Seq<Link>, id: Seq<char>, n: (String, u32), j: int) -> bool {
    &&& 0 <= j < links.len()
    &&& links[j].active
    &&& links[j].from_router@ == id || links[j].to_router@ == id
    &&& n.0 == spec_other_end(links[j], id)
    &&& n.1 == spec_link_cost(links[j]) as u32
}

/// Whether some active link at router `id` has the reported neighbour `n` at its
/// other end, with that link's cost.
pub open spec fn spec_has_report(links: Seq<Link>, id: Seq<char>, n: (String, u32)) -> bool {
    exists|j: int| spec_reported_by(links, id, n, j)
}

/// The neighbours of a router are exactly the other ends of its active links, in
/// link order: each reported neighbour is joined to it by an active link and
/// carries that link's cost, and every active link at the router reports its
/// other end. No inactive link contributes a neighbour.
pub proof fn law_neighbors_over_active_links(links: Seq<Link>, id: Seq<char>)
    ensures
        spec_neighbors_of(links, id).len() <= links.len(),
        forall|k: int|
            0 <= k < spec_neighbors_of(links, id).len() ==> spec_has_report(
                links,
                id,
                #[trigger] spec_neighbors_of(links, id)[k],
            ),
        forall|j: int|
            0 <= j < links.len() && (#[trigger] links[j]).active && (links[j].from_router@ == id
                || links[j].to_router@ == id) ==> exists|k: int|
                0 <= k < spec_neighbors_of(links, id).len() && #[trigger] spec_neighbors_of(links, id)[k].0
                    == spec_other_end(links[j], id),
    decreases links.len(),
{
    if links.len() > 0 {
        let pre = links.drop_last();
        let n = links.len() - 1;
        law_neighbors_over_active_links(pre, id);
        let prev = spec_neighbors_of(pre, id);
        let r = spec_neighbors_of(links, id);
        let l = links.last();
        assert(links[n] == l);
        let used = l.active && (l.from_router@ == id || l.to_router@ == id);
        if used {
            assert(r == prev.push((spec_other_end(l, id), spec_link_cost(l) as u32)));
        } else {
            assert(r == prev);
        }
        assert forall|k: int| 0 <= k < r.len() implies spec_has_report(links, id, #[trigger] r[k]) by {
            if k < prev.len() {
                assert(r[k] == prev[k]);
                assert(spec_has_report(pre, id, prev[k]));
                let j = choose|j: int| spec_reported_by(pre, id, prev[k], j);
                assert(pre[j] == links[j]);
                assert(spec_reported_by(links, id, r[k], j));
            } else {
                assert(spec_reported_by(links, id, r[k], n));
            }
        }
        assert forall|j: int|
            0 <= j < links.len() && (#[trigger] links[j]).active && (links[j].from_router@ == id
                || links[j].to_router@ == id) implies exists|k: int|
                0 <= k < r.len() && #[trigger] r[k].0 == spec_other_end(links[j], id) by {
            if j < n {
                assert(pre[j] == links[j]);
                let k = choose|k: int| 0 <= k < prev.len() && #[trigger] prev[k].0 == spec_other_end(pre[j], id);
                assert(r[k] == prev[k]);
            } else {
                assert(r[prev.len() as int].0 == spec_other_end(l, id));
            }
        }
    } else {
        assert(spec_neighbors_of(links, id).len() == 0);
    }
}

} // verus!
