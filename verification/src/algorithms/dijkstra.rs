//! Shortest paths over the topology (Dijkstra's algorithm, with positive link costs).
use vstd::prelude::*;
use crate::net::{IpNet, spec_net_lt};
use crate::network::topology::{Link, RouterInfo, Topology, spec_link_cost, spec_has_network, spec_strictly_sorted};

verus! {

/// A directed edge `(from, to, cost)` between node indices.
pub type Edge = (usize, usize, u32);

/// Whether the edge list holds the edge `u -> v` with cost `c`.
pub open spec fn spec_has_edge(edges: Seq<Edge>, u: int, v: int, c: int) -> bool {
    exists|e: int| 0 <= e < edges.len() && edges[e].0 == u && edges[e].1 == v && edges[e].2 == c
}

/// The total of a list of costs.
pub open spec fn spec_sum(cs: Seq<int>) -> int
    decreases cs.len(),
{
    if cs.len() == 0 {
        0
    } else {
        spec_sum(cs.drop_last()) + cs.last()
    }
}

/// Whether nodes `w` with step costs `cs` form a walk from node 0 to node `v`.
pub open spec fn spec_walk_to(edges: Seq<Edge>, w: Seq<int>, cs: Seq<int>, v: int) -> bool {
    &&& w.len() >= 1
    &&& w[0] == 0
    &&& w.last() == v
    &&& cs.len() == w.len() - 1
    &&& forall|i: int| 0 <= i < cs.len() ==> spec_has_edge(edges, w[i], w[i + 1], #[trigger] cs[i])
}

/// Whether node `v` can be reached from node 0.
pub open spec fn spec_reachable(edges: Seq<Edge>, v: int) -> bool {
    exists|w: Seq<int>, cs: Seq<int>| spec_walk_to(edges, w, cs, v)
}

/// The edges are well formed: endpoints below `n`, costs at least one.
pub open spec fn spec_edges_ok(n: int, edges: Seq<Edge>) -> bool {
    forall|e: int|
        0 <= e < edges.len() ==> (#[trigger] edges[e]).0 < n && edges[e].1 < n && edges[e].2 >= 1
}

/// The predecessor tree: node 0 is the root with distance 0, and every other node
/// with a distance has a predecessor with a smaller distance, joined by an edge
/// whose cost is the difference.
pub open spec fn spec_tree(edges: Seq<Edge>, dist: Seq<Option<u128>>, prev: Seq<Option<usize>>) -> bool {
    &&& dist.len() == prev.len()
    &&& dist.len() >= 1
    &&& dist[0] == Some(0u128)
    &&& prev[0] is None
    &&& forall|v: int| 0 <= v < dist.len() && (#[trigger] dist[v]) is None ==> prev[v] is None
    &&& forall|v: int|
        0 < v < dist.len() && (#[trigger] dist[v]) is Some ==> {
            &&& prev[v] is Some
            &&& (prev[v].unwrap() as int) < dist.len()
            &&& dist[prev[v].unwrap() as int] is Some
            &&& dist[prev[v].unwrap() as int].unwrap() < dist[v].unwrap()
            &&& spec_has_edge(
                edges,
                prev[v].unwrap() as int,
                v,
                dist[v].unwrap() - dist[prev[v].unwrap() as int].unwrap(),
            )
        }
}

/// Following predecessors `k` times from `v`.
pub open spec fn spec_back(prev: Seq<Option<usize>>, v: int, k: nat) -> Option<int>
    decreases k,
{
    if k == 0 {
        Some(v)
    } else {
        match spec_back(prev, v, (k - 1) as nat) {
            Some(x) => if 0 <= x < prev.len() {
                match prev[x] {
                    Some(p) => Some(p as int),
                    None => None,
                }
            } else {
                None
            },
            None => None,
        }
    }
}

/// Number of `true` entries.
pub open spec fn spec_count_true(s: Seq<bool>) -> nat
    decreases s.len(),
{
    if s.len() == 0 {
        0
    } else {
        spec_count_true(s.drop_last()) + if s.last() { 1nat } else { 0nat }
    }
}

proof fn lemma_count_le(s: Seq<bool>)
    ensures
        spec_count_true(s) <= s.len(),
    decreases s.len(),
{
    if s.len() > 0 {
        lemma_count_le(s.drop_last());
    }
}

proof fn lemma_count_set(s: Seq<bool>, i: int)
    requires
        0 <= i < s.len(),
        !s[i],
    ensures
        spec_count_true(s.update(i, true)) == spec_count_true(s) + 1,
    decreases s.len(),
{
    let t = s.update(i, true);
    if i == s.len() - 1 {
        assert(t.drop_last() =~= s.drop_last());
    } else {
        assert(t.drop_last() =~= s.drop_last().update(i, true));
        lemma_count_set(s.drop_last(), i);
    }
}

/// A prefix of costs never totals more than the whole list (costs are non-negative).
proof fn lemma_sum_prefix(cs: Seq<int>, j: int)
    requires
        0 <= j <= cs.len(),
        forall|i: int| 0 <= i < cs.len() ==> cs[i] >= 0,
    ensures
        spec_sum(cs.take(j)) <= spec_sum(cs),
    decreases cs.len(),
{
    if j < cs.len() {
        assert(cs.drop_last().take(j) =~= cs.take(j));
        lemma_sum_prefix(cs.drop_last(), j);
    } else {
        assert(cs.take(j) =~= cs);
    }
}

/// Edge costs along a walk are at least one.
proof fn lemma_walk_costs_positive(edges: Seq<Edge>, w: Seq<int>, cs: Seq<int>, v: int, n: int)
    requires
        spec_edges_ok(n, edges),
        spec_walk_to(edges, w, cs, v),
    ensures
        forall|i: int| 0 <= i < cs.len() ==> cs[i] >= 1,
{
    assert forall|i: int| 0 <= i < cs.len() implies cs[i] >= 1 by {
        assert(spec_has_edge(edges, w[i], w[i + 1], cs[i]));
        let e = choose|e: int|
            0 <= e < edges.len() && edges[e].0 == w[i] && edges[e].1 == w[i + 1] && edges[e].2 == cs[i];
        assert(edges[e].2 >= 1);
    }
}

/// The invariant of the main loop.
pub open spec fn spec_loop_inv(
    n: int,
    edges: Seq<Edge>,
    dist: Seq<Option<u128>>,
    prev: Seq<Option<usize>>,
    done: Seq<bool>,
    settled: int,
) -> bool {
    &&& dist.len() == n
    &&& prev.len() == n
    &&& done.len() == n
    &&& spec_tree(edges, dist, prev)
    &&& settled == spec_count_true(done)
    // settled nodes have a distance, and it is optimal
    &&& forall|v: int| 0 <= v < n && #[trigger] done[v] ==> dist[v] is Some
    &&& forall|v: int, w: Seq<int>, cs: Seq<int>|
        0 <= v < n && done[v] && #[trigger] spec_walk_to(edges, w, cs, v) ==> spec_sum(cs) >= dist[v].unwrap()
    // every edge out of a settled node has been relaxed
    &&& forall|e: int|
        0 <= e < edges.len() && done[(#[trigger] edges[e]).0 as int] ==> {
            &&& dist[edges[e].1 as int] is Some
            &&& dist[edges[e].1 as int].unwrap() <= dist[edges[e].0 as int].unwrap() + edges[e].2
        }
    // settled nodes are no further than unsettled ones
    &&& forall|u: int, v: int|
        0 <= u < n && 0 <= v < n && #[trigger] done[u] && !(#[trigger] done[v]) && dist[v] is Some
            ==> dist[u].unwrap() <= dist[v].unwrap()
    // predecessors are settled
    &&& forall|v: int|
        0 < v < n && (#[trigger] dist[v]) is Some ==> done[prev[v].unwrap() as int]
    // the distances stay small
    &&& forall|v: int|
        0 <= v < n && (#[trigger] dist[v]) is Some ==> dist[v].unwrap() <= settled * (u32::MAX as int)
}

/// The node picked next has the least distance among unsettled nodes, so every
/// walk to it costs at least its distance.
proof fn lemma_extract_optimal(
    n: int,
    edges: Seq<Edge>,
    dist: Seq<Option<u128>>,
    prev: Seq<Option<usize>>,
    done: Seq<bool>,
    settled: int,
    u: int,
    w: Seq<int>,
    cs: Seq<int>,
)
    requires
        spec_edges_ok(n, edges),
        spec_loop_inv(n, edges, dist, prev, done, settled),
        0 <= u < n,
        !done[u],
        dist[u] is Some,
        forall|v: int| 0 <= v < n && !done[v] && dist[v] is Some ==> dist[u].unwrap() <= dist[v].unwrap(),
        spec_walk_to(edges, w, cs, u),
    ensures
        spec_sum(cs) >= dist[u].unwrap(),
{
    lemma_walk_costs_positive(edges, w, cs, u, n);
    // the walk's nodes are below n
    assert forall|i: int| 0 <= i < w.len() implies 0 <= #[trigger] w[i] < n by {
        if i == 0 {
        } else {
            assert(spec_has_edge(edges, w[i - 1], w[i], cs[i - 1]));
            let e = choose|e: int|
                0 <= e < edges.len() && edges[e].0 == w[i - 1] && edges[e].1 == w[i] && edges[e].2 == cs[i - 1];
            assert(edges[e].1 < n);
        }
    }
    // the first unsettled node of the walk
    let j = lemma_first_unsettled(w, done, n);
    if j == 0 {
        assert(dist[0] == Some(0u128));
        assert(dist[u].unwrap() <= 0);
        lemma_sum_prefix(cs, 0);
        assert(cs.take(0) =~= Seq::<int>::empty());
    } else {
        let x = w[j - 1];
        let y = w[j];
        assert(done[x]);
        let wp = w.take(j);
        let cp = cs.take(j - 1);
        assert(spec_walk_to(edges, wp, cp, x)) by {
            assert forall|i: int| 0 <= i < cp.len() implies spec_has_edge(edges, wp[i], wp[i + 1], #[trigger] cp[i]) by {
                assert(spec_has_edge(edges, w[i], w[i + 1], cs[i]));
            }
        }
        assert(spec_sum(cp) >= dist[x].unwrap());
        assert(spec_has_edge(edges, x, y, cs[j - 1]));
        let e = choose|e: int|
            0 <= e < edges.len() && edges[e].0 == x && edges[e].1 == y && edges[e].2 == cs[j - 1];
        assert(done[edges[e].0 as int]);
        assert(dist[y] is Some);
        assert(dist[y].unwrap() <= dist[x].unwrap() + cs[j - 1]);
        assert(dist[u].unwrap() <= dist[y].unwrap());
        assert(cs.take(j).drop_last() =~= cp);
        lemma_sum_prefix(cs, j);
    }
}

/// Index of the first node of the walk that is not settled (the last one is not).
proof fn lemma_first_unsettled(w: Seq<int>, done: Seq<bool>, n: int) -> (j: int)
    requires
        w.len() >= 1,
        forall|i: int| 0 <= i < w.len() ==> 0 <= #[trigger] w[i] < n,
        done.len() == n,
        !done[w.last()],
    ensures
        0 <= j < w.len(),
        !done[w[j]],
        forall|i: int| 0 <= i < j ==> done[#[trigger] w[i]],
    decreases w.len(),
{
    if w.len() == 1 {
        0
    } else if exists|i: int| 0 <= i < w.len() - 1 && !done[w[i]] {
        let k = choose|i: int| 0 <= i < w.len() - 1 && !done[w[i]];
        let w2 = w.take(k + 1);
        assert forall|i: int| 0 <= i < w2.len() implies 0 <= #[trigger] w2[i] < n by {
            assert(w2[i] == w[i]);
        }
        let j = lemma_first_unsettled(w2, done, n);
        assert forall|i: int| 0 <= i < j implies done[#[trigger] w[i]] by {
            assert(w2[i] == w[i]);
        }
        j
    } else {
        (w.len() - 1) as int
    }
}

/// Runs Dijkstra's algorithm from node 0 over nodes `0..n`. Returns, per node,
/// its distance (if reachable) and its predecessor on a shortest walk.
pub fn shortest_distances(n: usize, edges: &Vec<Edge>) -> (r: (Vec<Option<u128>>, Vec<Option<usize>>))
    requires
        n >= 1,
        spec_edges_ok(n as int, edges@),
    ensures
        r.0@.len() == n,
        r.1@.len() == n,
        spec_tree(edges@, r.0@, r.1@),
        forall|v: int| 0 <= v < n && spec_reachable(edges@, v) ==> (#[trigger] r.0@[v]) is Some,
        forall|v: int, w: Seq<int>, cs: Seq<int>|
            0 <= v < n && (#[trigger] r.0@[v]) is Some && #[trigger] spec_walk_to(edges@, w, cs, v)
                ==> spec_sum(cs) >= r.0@[v].unwrap(),
{
    let mut dist: Vec<Option<u128>> = Vec::new();
    let mut prev: Vec<Option<usize>> = Vec::new();
    let mut done: Vec<bool> = Vec::new();
    let mut i: usize = 0;
    while i < n
        invariant
            i <= n,
            dist@.len() == i,
            prev@.len() == i,
            done@.len() == i,
            forall|k: int| 0 <= k < i ==> dist@[k] == (if k == 0 { Some(0u128) } else { None::<u128> }),
            forall|k: int| 0 <= k < i ==> prev@[k] is None,
            forall|k: int| 0 <= k < i ==> !done@[k],
        decreases n - i,
    {
        dist.push(if i == 0 { Some(0u128) } else { None });
        prev.push(None);
        done.push(false);
        i += 1;
    }
    let mut settled: usize = 0;
    proof {
        assert(spec_count_true(done@) == 0) by {
            lemma_count_all_false(done@);
        }
    }
    loop
        invariant
            spec_edges_ok(n as int, edges@),
            spec_loop_inv(n as int, edges@, dist@, prev@, done@, settled as int),
            settled <= n,
        decreases n - settled,
    {
        // Pick the unsettled node with the least distance.
        let mut best: Option<usize> = None;
        let mut v: usize = 0;
        while v < n
            invariant
                v <= n,
                dist@.len() == n,
                done@.len() == n,
                match best {
                    Some(b) => b < v && !done@[b as int] && dist@[b as int] is Some && forall|k: int|
                        0 <= k < v && !done@[k] && dist@[k] is Some ==> dist@[b as int].unwrap()
                            <= dist@[k].unwrap(),
                    None => forall|k: int| 0 <= k < v ==> done@[k] || dist@[k] is None,
                },
            decreases n - v,
        {
            if !done[v] {
                match dist[v] {
                    Some(d) => {
                        match best {
                            Some(b) => {
                                if d < dist[b].unwrap() {
                                    best = Some(v);
                                }
                            },
                            None => {
                                best = Some(v);
                            },
                        }
                    },
                    None => {},
                }
            }
            v += 1;
        }
        let u = match best {
            Some(u) => u,
            None => {
                proof {
                    lemma_final(n as int, edges@, dist@, prev@, done@, settled as int);
                }
                return (dist, prev);
            },
        };
        let du = dist[u].unwrap();
        let ghost old_dist = dist@;
        let ghost old_prev = prev@;
        let ghost old_done = done@;
        proof {
            assert forall|w: Seq<int>, cs: Seq<int>| #[trigger] spec_walk_to(edges@, w, cs, u as int) implies spec_sum(cs) >= du by {
                lemma_extract_optimal(n as int, edges@, dist@, prev@, done@, settled as int, u as int, w, cs);
            }
            lemma_count_set(done@, u as int);
            lemma_count_le(done@.update(u as int, true));
        }
        done.set(u, true);
        settled = settled + 1;
        proof {
            assert(du <= (settled - 1) * (u32::MAX as int));
        }
        // Relax the edges leaving `u`.
        let mut e: usize = 0;
        while e < edges.len()
            invariant
                spec_edges_ok(n as int, edges@),
                0 <= u < n,
                settled <= n,
                e <= edges@.len(),
                dist@.len() == n,
                prev@.len() == n,
                done@ == old_done.update(u as int, true),
                dist@[u as int] == Some(du),
                du <= (settled - 1) * (u32::MAX as int),
                old_dist[u as int] == Some(du),
                !old_done[u as int],
                spec_loop_inv(n as int, edges@, old_dist, old_prev, old_done, (settled - 1) as int),
                forall|k: int|
                    0 <= k < n && !old_done[k] && old_dist[k] is Some ==> du <= old_dist[k].unwrap(),
                forall|w: Seq<int>, cs: Seq<int>|
                    #[trigger] spec_walk_to(edges@, w, cs, u as int) ==> spec_sum(cs) >= du,
                // what the relaxation has done so far
                forall|k: int|
                    0 <= k < n ==> {
                        ||| dist@[k] == old_dist[k] && prev@[k] == old_prev[k]
                        ||| (!old_done[k] && k != u && prev@[k] == Some(u) && dist@[k] is Some
                            && spec_has_edge(edges@, u as int, k, dist@[k].unwrap() - du) && (old_dist[k]
                            is None || dist@[k].unwrap() < old_dist[k].unwrap()))
                    },
                forall|f: int|
                    0 <= f < e && (#[trigger] edges@[f]).0 == u && edges@[f].1 != u
                        && !old_done[edges@[f].1 as int] ==> dist@[edges@[f].1 as int] is Some
                        && dist@[edges@[f].1 as int].unwrap() <= du + edges@[f].2,
            decreases edges@.len() - e,
        {
            let (a, b, c) = edges[e];
            if a == u && b != u && !done[b] {
                let nd: u128 = du + c as u128;
                let better = match dist[b] {
                    Some(db) => nd < db,
                    None => true,
                };
                if better {
                    proof {
                        assert(spec_has_edge(edges@, u as int, b as int, nd - du)) by {
                            assert(edges@[e as int].0 == u && edges@[e as int].1 == b && edges@[e as int].2 == nd - du);
                        }
                    }
                    dist.set(b, Some(nd));
                    prev.set(b, Some(u));
                }
            }
            e += 1;
        }
        proof {
            lemma_relax_done(n as int, edges@, old_dist, old_prev, old_done, dist@, prev@, done@, settled as int, u as int, du);
        }
    }
}

proof fn lemma_count_all_false(s: Seq<bool>)
    requires
        forall|k: int| 0 <= k < s.len() ==> !s[k],
    ensures
        spec_count_true(s) == 0,
    decreases s.len(),
{
    if s.len() > 0 {
        lemma_count_all_false(s.drop_last());
    }
}

/// After settling `u` and relaxing its edges, the loop invariant holds again.
proof fn lemma_relax_done(
    n: int,
    edges: Seq<Edge>,
    old_dist: Seq<Option<u128>>,
    old_prev: Seq<Option<usize>>,
    old_done: Seq<bool>,
    dist: Seq<Option<u128>>,
    prev: Seq<Option<usize>>,
    done: Seq<bool>,
    settled: int,
    u: int,
    du: u128,
)
    requires
        spec_edges_ok(n, edges),
        0 <= u < n,
        1 <= settled <= n,
        dist.len() == n,
        prev.len() == n,
        done == old_done.update(u, true),
        old_dist[u] == Some(du),
        dist[u] == Some(du),
        !old_done[u],
        du <= (settled - 1) * (u32::MAX as int),
        spec_loop_inv(n, edges, old_dist, old_prev, old_done, settled - 1),
        settled == spec_count_true(done),
        forall|k: int| 0 <= k < n && !old_done[k] && old_dist[k] is Some ==> du <= old_dist[k].unwrap(),
        forall|w: Seq<int>, cs: Seq<int>| #[trigger] spec_walk_to(edges, w, cs, u) ==> spec_sum(cs) >= du,
        forall|k: int|
            0 <= k < n ==> {
                ||| dist[k] == old_dist[k] && prev[k] == old_prev[k]
                ||| (!old_done[k] && k != u && prev[k] == Some(u as usize) && dist[k] is Some
                    && spec_has_edge(edges, u, k, dist[k].unwrap() - du) && (old_dist[k] is None
                    || dist[k].unwrap() < old_dist[k].unwrap()))
            },
        forall|f: int|
            0 <= f < edges.len() && (#[trigger] edges[f]).0 == u && edges[f].1 != u
                && !old_done[edges[f].1 as int] ==> dist[edges[f].1 as int] is Some
                && dist[edges[f].1 as int].unwrap() <= du + edges[f].2,
    ensures
        spec_loop_inv(n, edges, dist, prev, done, settled),
{
    let m = u32::MAX as int;
    assert(dist[0] == Some(0u128)) by {
        if dist[0] != old_dist[0] {
            assert(old_dist[0] == Some(0u128));
            assert(dist[0].unwrap() < 0);
        }
    }
    assert(prev[0] is None) by {
        if prev[0] != old_prev[0] {
            assert(old_dist[0] == Some(0u128));
            assert(dist[0].unwrap() < 0);
        }
    }
    assert forall|v: int| 0 <= v < dist.len() && (#[trigger] dist[v]) is None implies prev[v] is None by {
        assert(old_dist[v] is None);
    }
    // the tree
    assert forall|v: int| 0 < v < dist.len() && (#[trigger] dist[v]) is Some implies {
        &&& prev[v] is Some
        &&& (prev[v].unwrap() as int) < dist.len()
        &&& dist[prev[v].unwrap() as int] is Some
        &&& dist[prev[v].unwrap() as int].unwrap() < dist[v].unwrap()
        &&& spec_has_edge(edges, prev[v].unwrap() as int, v, dist[v].unwrap() - dist[prev[v].unwrap() as int].unwrap())
    } by {
        if dist[v] == old_dist[v] && prev[v] == old_prev[v] {
            assert(old_dist[v] is Some);
            let p = old_prev[v].unwrap() as int;
            assert(old_done[p]);
            // settled nodes keep their distance
            if dist[p] != old_dist[p] {
                assert(!old_done[p]);
            }
        } else {
            assert(edges.len() >= 0);
        }
    }
    assert(spec_tree(edges, dist, prev));
    // settled nodes: distance kept, optimal
    assert forall|v: int| 0 <= v < n && #[trigger] done[v] implies dist[v] is Some by {
        if v != u {
            assert(old_done[v]);
        }
    }
    assert forall|v: int, w: Seq<int>, cs: Seq<int>|
        0 <= v < n && done[v] && #[trigger] spec_walk_to(edges, w, cs, v) implies spec_sum(cs) >= dist[v].unwrap() by {
        if v != u {
            assert(old_done[v]);
            if dist[v] != old_dist[v] {
                assert(!old_done[v]);
            }
        }
    }
    // relaxed edges
    assert forall|e: int|
        0 <= e < edges.len() && done[(#[trigger] edges[e]).0 as int] implies {
            &&& dist[edges[e].1 as int] is Some
            &&& dist[edges[e].1 as int].unwrap() <= dist[edges[e].0 as int].unwrap() + edges[e].2
        } by {
        let a = edges[e].0 as int;
        let b = edges[e].1 as int;
        if a == u {
            if b == u {
            } else if old_done[b] {
                // b was settled before u, so it is no further than u
                assert(old_dist[b] is Some);
                assert(old_dist[b].unwrap() <= old_dist[u].unwrap());
                if dist[b] != old_dist[b] {
                    assert(!old_done[b]);
                }
            } else {
            }
        } else {
            assert(old_done[a]);
            assert(old_dist[b] is Some);
            assert(old_dist[b].unwrap() <= old_dist[a].unwrap() + edges[e].2);
            if dist[a] != old_dist[a] {
                assert(!old_done[a]);
            }
        }
    }
    // settled are no further than unsettled
    assert forall|x: int, v: int|
        0 <= x < n && 0 <= v < n && #[trigger] done[x] && !(#[trigger] done[v]) && dist[v] is Some
            implies dist[x].unwrap() <= dist[v].unwrap() by {
        assert(v != u);
        assert(!old_done[v]);
        if x == u {
            if dist[v] == old_dist[v] {
            } else {
            }
        } else {
            assert(old_done[x]);
            assert(old_dist[x].unwrap() <= du) by {
                assert(old_done[x] && !old_done[u] && old_dist[u] is Some);
            }
            if dist[x] != old_dist[x] {
                assert(!old_done[x]);
            }
            if dist[v] == old_dist[v] {
            } else {
            }
        }
    }
    // predecessors settled
    assert forall|v: int| 0 < v < n && (#[trigger] dist[v]) is Some implies done[prev[v].unwrap() as int] by {
        if dist[v] == old_dist[v] && prev[v] == old_prev[v] {
            assert(old_done[old_prev[v].unwrap() as int]);
        }
    }
    // bound
    assert forall|v: int| 0 <= v < n && (#[trigger] dist[v]) is Some implies dist[v].unwrap() <= settled * m by {
        assert((settled - 1) * m + m == settled * m) by (nonlinear_arith);
        assert((settled - 1) * m <= settled * m) by (nonlinear_arith)
            requires
                m >= 0,
        ;
        if dist[v] == old_dist[v] && prev[v] == old_prev[v] {
        } else {
            let c = dist[v].unwrap() - du;
            let e = choose|e: int| 0 <= e < edges.len() && edges[e].0 == u && edges[e].1 == v && edges[e].2 == c;
            assert(edges[e].2 <= m);
        }
    }
}

/// When no unsettled node has a distance, every reachable node has one.
proof fn lemma_final(
    n: int,
    edges: Seq<Edge>,
    dist: Seq<Option<u128>>,
    prev: Seq<Option<usize>>,
    done: Seq<bool>,
    settled: int,
)
    requires
        spec_edges_ok(n, edges),
        spec_loop_inv(n, edges, dist, prev, done, settled),
        forall|k: int| 0 <= k < n ==> done[k] || dist[k] is None,
    ensures
        forall|v: int| 0 <= v < n && spec_reachable(edges, v) ==> (#[trigger] dist[v]) is Some,
        forall|v: int, w: Seq<int>, cs: Seq<int>|
            0 <= v < n && (#[trigger] dist[v]) is Some && #[trigger] spec_walk_to(edges, w, cs, v)
                ==> spec_sum(cs) >= dist[v].unwrap(),
{
    assert forall|v: int| 0 <= v < n && spec_reachable(edges, v) implies (#[trigger] dist[v]) is Some by {
        let (w, cs) = choose|w: Seq<int>, cs: Seq<int>| spec_walk_to(edges, w, cs, v);
        lemma_walk_settled(n, edges, dist, prev, done, settled, w, cs, (w.len() - 1) as int);
    }
    assert forall|v: int, w: Seq<int>, cs: Seq<int>|
        0 <= v < n && (#[trigger] dist[v]) is Some && #[trigger] spec_walk_to(edges, w, cs, v)
            implies spec_sum(cs) >= dist[v].unwrap() by {
        assert(done[v]);
    }
}

/// Every node of a walk is settled, once no unsettled node has a distance.
proof fn lemma_walk_settled(
    n: int,
    edges: Seq<Edge>,
    dist: Seq<Option<u128>>,
    prev: Seq<Option<usize>>,
    done: Seq<bool>,
    settled: int,
    w: Seq<int>,
    cs: Seq<int>,
    i: int,
)
    requires
        spec_edges_ok(n, edges),
        spec_loop_inv(n, edges, dist, prev, done, settled),
        forall|k: int| 0 <= k < n ==> done[k] || dist[k] is None,
        spec_walk_to(edges, w, cs, w.last()),
        0 <= i < w.len(),
    ensures
        0 <= w[i] < n,
        done[w[i]],
        dist[w[i]] is Some,
    decreases i,
{
    if i == 0 {
        assert(dist[0] == Some(0u128));
    } else {
        lemma_walk_settled(n, edges, dist, prev, done, settled, w, cs, i - 1);
        assert(spec_has_edge(edges, w[i - 1], w[i], cs[i - 1]));
        let e = choose|e: int|
            0 <= e < edges.len() && edges[e].0 == w[i - 1] && edges[e].1 == w[i] && edges[e].2 == cs[i - 1];
        assert(done[edges[e].0 as int]);
        assert(edges[e].1 < n);
    }
}


/// `spec_back` is `None` from the first `None` on.
proof fn lemma_back_none_stays(prev: Seq<Option<usize>>, v: int, j: nat, k: nat)
    requires
        j <= k,
        spec_back(prev, v, j) is None,
    ensures
        spec_back(prev, v, k) is None,
    decreases k - j,
{
    if j < k {
        lemma_back_none_stays(prev, v, j, (k - 1) as nat);
    }
}

/// The predecessors are all valid indices.
pub open spec fn spec_prev_ok(prev: Seq<Option<usize>>) -> bool {
    forall|k: int| 0 <= k < prev.len() && (#[trigger] prev[k]) is Some ==> (prev[k].unwrap() as int) < prev.len()
}

/// The chain of predecessors from `dest`, root first: `r[i]` is the node reached
/// after `r.len() - 1 - i` steps back, and one more step back ends the chain (a
/// node without an entry in `previous` ends it at once, so `dest` alone is returned).
pub fn reconstruct_path(previous: &Vec<Option<usize>>, dest: usize) -> (r: Vec<usize>)
    requires
        spec_prev_ok(previous@),
        exists|k: nat| spec_back(previous@, dest as int, k) is None,
    ensures
        r@.len() >= 1,
        spec_back(previous@, dest as int, r@.len()) is None,
        forall|i: int|
            0 <= i < r@.len() ==> spec_back(previous@, dest as int, (r@.len() - 1 - i) as nat) == Some(
                r@[i] as int,
            ),
{
    if dest >= previous.len() {
        let mut only: Vec<usize> = Vec::new();
        only.push(dest);
        proof {
            assert(spec_back(previous@, dest as int, 0) == Some(dest as int));
            assert(spec_back(previous@, dest as int, 1) is None);
        }
        return only;
    }
    let ghost k0 = choose|k: nat| spec_back(previous@, dest as int, k) is None;
    let mut chain: Vec<usize> = Vec::new();
    let mut cur: usize = dest;
    loop
        invariant_except_break
            (cur as int) < previous@.len(),
            spec_back(previous@, dest as int, chain@.len() as nat) == Some(cur as int),
            chain@.len() < k0,
        invariant
            spec_prev_ok(previous@),
            spec_back(previous@, dest as int, k0) is None,
            forall|i: int| 0 <= i < chain@.len() ==> spec_back(previous@, dest as int, i as nat) == Some(
                chain@[i] as int,
            ),
        ensures
            chain@.len() >= 1,
            spec_back(previous@, dest as int, chain@.len() as nat) is None,
        decreases k0 - chain@.len(),
    {
        chain.push(cur);
        match previous[cur] {
            Some(p) => {
                cur = p;
                proof {
                    if chain@.len() >= k0 {
                        lemma_back_none_stays(previous@, dest as int, k0, chain@.len() as nat);
                    }
                }
            },
            None => {
                break;
            },
        }
    }
    // reverse
    let ghost c = chain@;
    let mut out: Vec<usize> = Vec::new();
    let mut rest = chain;
    while rest.len() > 0
        invariant
            rest@ == c.subrange(0, rest@.len() as int),
            out@ == c.subrange(rest@.len() as int, c.len() as int).reverse(),
            rest@.len() <= c.len(),
        decreases rest@.len(),
    {
        let x = rest.pop().unwrap();
        out.push(x);
        proof {
            assert(rest@ =~= c.subrange(0, rest@.len() as int));
            assert(out@ =~= c.subrange(rest@.len() as int, c.len() as int).reverse());
        }
    }
    proof {
        assert(out@ =~= c.reverse());
    }
    out
}

/// The node just after `source` on the chain of predecessors from `dest`: the
/// first node whose predecessor is `source`. `None` when `dest` is `source` or
/// the chain ends without passing `source` (as it does at once when `dest` has
/// no entry in `previous`).
pub fn find_next_hop(previous: &Vec<Option<usize>>, source: usize, dest: usize) -> (r: Option<usize>)
    requires
        spec_prev_ok(previous@),
        exists|k: nat| spec_back(previous@, dest as int, k) is None,
    ensures
        dest == source ==> r is None,
        dest != source ==> match r {
            Some(x) => exists|j: nat|
                #[trigger] spec_back(previous@, dest as int, j) == Some(x as int) && spec_back(previous@, dest as int, j + 1)
                    == Some(source as int) && forall|i: nat|
                    1 <= i <= j ==> #[trigger] spec_back(previous@, dest as int, i) != Some(source as int),
            None => forall|j: nat| j >= 1 ==> #[trigger] spec_back(previous@, dest as int, j) != Some(source as int),
        },
{
    if dest == source {
        return None;
    }
    if dest >= previous.len() {
        proof {
            assert forall|i: nat| i >= 1 implies #[trigger] spec_back(previous@, dest as int, i) != Some(source as int) by {
                assert(spec_back(previous@, dest as int, 0) == Some(dest as int));
                assert(spec_back(previous@, dest as int, 1) is None);
                lemma_back_none_stays(previous@, dest as int, 1, i);
            }
        }
        return None;
    }
    let ghost k0 = choose|k: nat| spec_back(previous@, dest as int, k) is None;
    let ghost mut j: nat = 0;
    let mut cur: usize = dest;
    loop
        invariant
            spec_prev_ok(previous@),
            (cur as int) < previous@.len(),
            spec_back(previous@, dest as int, k0) is None,
            spec_back(previous@, dest as int, j) == Some(cur as int),
            dest != source,
            forall|i: nat| 1 <= i <= j ==> spec_back(previous@, dest as int, i) != Some(source as int),
            j < k0,
        decreases k0 - j,
    {
        match previous[cur] {
            Some(p) => {
                if p == source {
                    return Some(cur);
                }
                cur = p;
                proof {
                    j = j + 1;
                    if j >= k0 {
                        lemma_back_none_stays(previous@, dest as int, k0, j);
                    }
                }
            },
            None => {
                proof {
                    assert forall|i: nat| i >= 1 implies spec_back(previous@, dest as int, i) != Some(source as int) by {
                        if i > j {
                            lemma_back_none_stays(previous@, dest as int, j + 1, i);
                        }
                    }
                }
                return None;
            },
        }
    }
}

/// Along the predecessor tree, each step back lowers the distance by at least one.
proof fn lemma_tree_chain(edges: Seq<Edge>, dist: Seq<Option<u128>>, prev: Seq<Option<usize>>, v: int, i: nat)
    requires
        spec_tree(edges, dist, prev),
        0 <= v < dist.len(),
        dist[v] is Some,
    ensures
        spec_back(prev, v, i) matches Some(x) ==> 0 <= x < dist.len() && dist[x] is Some && dist[x].unwrap() + i
            <= dist[v].unwrap(),
        spec_back(prev, v, i) matches Some(x) ==> (spec_back(prev, v, i + 1) is None <==> x == 0),
    decreases i,
{
    if i > 0 {
        lemma_tree_chain(edges, dist, prev, v, (i - 1) as nat);
    }
    match spec_back(prev, v, i) {
        Some(x) => {
            if x > 0 {
                assert(dist[x] is Some);
            }
        },
        None => {},
    }
}

/// The tree path to a node with a distance: a walk from node 0 whose cost is the distance.
pub fn tree_path(edges: &Vec<Edge>, dist: &Vec<Option<u128>>, prev: &Vec<Option<usize>>, v: usize) -> (r: Vec<usize>)
    requires
        spec_tree(edges@, dist@, prev@),
        (v as int) < dist@.len(),
        dist@[v as int] is Some,
    ensures
        exists|cs: Seq<int>|
            spec_walk_to(edges@, r@.map_values(|x: usize| x as int), cs, v as int) && spec_sum(cs)
                == dist@[v as int].unwrap(),
        r@.len() >= 1,
        spec_back(prev@, v as int, r@.len()) is None,
        forall|i: int|
            0 <= i < r@.len() ==> spec_back(prev@, v as int, (r@.len() - 1 - i) as nat) == Some(r@[i] as int),
{
    proof {
        assert forall|k: int| 0 <= k < prev@.len() && (#[trigger] prev@[k]) is Some implies (prev@[k].unwrap() as int)
            < prev@.len() by {
            assert(dist@[k] is Some);
        }
        let d = dist@[v as int].unwrap();
        lemma_tree_chain(edges@, dist@, prev@, v as int, (d + 1) as nat);
        assert(spec_back(prev@, v as int, (d + 1) as nat) is None);
    }
    let r = reconstruct_path(prev, v);
    proof {
        lemma_tree_walk(edges@, dist@, prev@, v as int, r@);
    }
    r
}

/// The reconstructed chain is a walk from node 0 whose cost is the distance.
proof fn lemma_tree_walk(edges: Seq<Edge>, dist: Seq<Option<u128>>, prev: Seq<Option<usize>>, v: int, r: Seq<usize>)
    requires
        spec_tree(edges, dist, prev),
        0 <= v < dist.len(),
        dist[v] is Some,
        r.len() >= 1,
        spec_back(prev, v, r.len()) is None,
        forall|i: int| 0 <= i < r.len() ==> spec_back(prev, v, (r.len() - 1 - i) as nat) == Some(r[i] as int),
    ensures
        exists|cs: Seq<int>|
            spec_walk_to(edges, r.map_values(|x: usize| x as int), cs, v) && spec_sum(cs) == dist[v].unwrap(),
{
    let L = r.len() as int;
    let w = r.map_values(|x: usize| x as int);
    assert forall|i: int| 0 <= i < L implies 0 <= #[trigger] w[i] < dist.len() && dist[w[i]] is Some by {
        lemma_tree_chain(edges, dist, prev, v, (L - 1 - i) as nat);
    }
    assert(w[0] == 0) by {
        lemma_tree_chain(edges, dist, prev, v, (L - 1) as nat);
    }
    assert(w.last() == v) by {
        assert(spec_back(prev, v, 0) == Some(v));
    }
    // each step goes from a predecessor to its successor
    assert forall|i: int| 0 <= i < L - 1 implies prev[w[i + 1]] == Some(r[i]) && w[i + 1] != 0 by {
        let j = (L - 2 - i) as nat;
        assert(spec_back(prev, v, j) == Some(w[i + 1]));
        assert(spec_back(prev, v, j + 1) == Some(w[i]));
        lemma_tree_chain(edges, dist, prev, v, j);
    }
    let cs = Seq::new((L - 1) as nat, |i: int| dist[w[i + 1]].unwrap() - dist[w[i]].unwrap());
    assert forall|i: int| 0 <= i < cs.len() implies spec_has_edge(edges, w[i], w[i + 1], #[trigger] cs[i]) by {
        assert(prev[w[i + 1]] == Some(r[i]));
        assert(w[i + 1] != 0);
    }
    assert(spec_walk_to(edges, w, cs, v));
    // the costs telescope
    assert forall|k: int| 0 <= k <= cs.len() implies spec_sum(#[trigger] cs.take(k)) == dist[w[k]].unwrap() by {
        lemma_telescope(dist, w, cs, k);
    }
    assert(cs.take(cs.len() as int) =~= cs);
}

proof fn lemma_telescope(dist: Seq<Option<u128>>, w: Seq<int>, cs: Seq<int>, k: int)
    requires
        0 <= k <= cs.len(),
        cs.len() == w.len() - 1,
        w[0] == 0,
        dist.len() > 0,
        dist[0] == Some(0u128),
        forall|i: int| 0 <= i < w.len() ==> 0 <= #[trigger] w[i] < dist.len() && dist[w[i]] is Some,
        forall|i: int| 0 <= i < cs.len() ==> #[trigger] cs[i] == dist[w[i + 1]].unwrap() - dist[w[i]].unwrap(),
    ensures
        spec_sum(cs.take(k)) == dist[w[k]].unwrap(),
    decreases k,
{
    if k > 0 {
        lemma_telescope(dist, w, cs, k - 1);
        assert(cs.take(k).drop_last() =~= cs.take(k - 1));
    }
}



/// The distance, next hop and router path to a network.
#[derive(Debug)]
pub struct ShortestPath {
    pub cost: u32,
    pub next_hop: Option<String>,
    pub path: Vec<String>,
}

/// Whether link `l` is active and leads from router `a` to router `b` (in either
/// of its directions) at cost `c`.
pub open spec fn spec_link_step(l: Link, a: Seq<char>, b: Seq<char>, c: int) -> bool {
    &&& l.active
    &&& (l.from_router@ == a && l.to_router@ == b) || (l.to_router@ == a && l.from_router@ == b)
    &&& c == spec_link_cost(l)
}

/// One step from router `a` to router `b` at cost `c` over some link.
pub open spec fn spec_step(links: Seq<Link>, a: Seq<char>, b: Seq<char>, c: int) -> bool {
    exists|k: int| 0 <= k < links.len() && spec_link_step(#[trigger] links[k], a, b, c)
}

/// Whether routers `p` with step costs `cs` form a route from `source` to `dest`.
pub open spec fn spec_route(links: Seq<Link>, source: Seq<char>, p: Seq<Seq<char>>, cs: Seq<int>, dest: Seq<char>) -> bool {
    &&& p.len() >= 1
    &&& p[0] == source
    &&& p.last() == dest
    &&& cs.len() == p.len() - 1
    &&& forall|i: int| 0 <= i < cs.len() ==> spec_step(links, p[i], p[i + 1], #[trigger] cs[i])
}

/// Whether `d` is the least cost of a route from `source` to `dest`.
pub open spec fn spec_route_distance(links: Seq<Link>, source: Seq<char>, dest: Seq<char>, d: int) -> bool {
    &&& exists|p: Seq<Seq<char>>, cs: Seq<int>| spec_route(links, source, p, cs, dest) && spec_sum(cs) == d
    &&& forall|p: Seq<Seq<char>>, cs: Seq<int>| #[trigger] spec_route(links, source, p, cs, dest) ==> spec_sum(cs) >= d
}

/// Router names without repeats.
pub open spec fn spec_distinct_names(names: Seq<String>) -> bool {
    forall|i: int, j: int| 0 <= i < j < names.len() ==> names[i]@ != names[j]@
}

/// Whether `id` is among the names.
pub open spec fn spec_named(names: Seq<String>, id: Seq<char>) -> bool {
    exists|u: int| 0 <= u < names.len() && (#[trigger] names[u])@ == id
}

/// The indexed graph stands for the links: node `u` is router `names[u]`, node 0
/// is the source, every edge is a step, every active link's endpoints are named,
/// and every step between named routers over link `k < upto` is an edge.
pub open spec fn spec_graph_of(links: Seq<Link>, upto: int, source: Seq<char>, names: Seq<String>, edges: Seq<Edge>) -> bool {
    &&& names.len() >= 1
    &&& names[0]@ == source
    &&& spec_distinct_names(names)
    &&& forall|e: int|
        0 <= e < edges.len() ==> (#[trigger] edges[e]).0 < names.len() && edges[e].1 < names.len() && edges[e].2
            >= 1 && spec_step(links, names[edges[e].0 as int]@, names[edges[e].1 as int]@, edges[e].2 as int)
    &&& forall|k: int|
        0 <= k < upto && (#[trigger] links[k]).active ==> spec_named(names, links[k].from_router@) && spec_named(
            names,
            links[k].to_router@,
        )
    &&& forall|k: int, u: int, v: int|
        0 <= k < upto && 0 <= u < names.len() && 0 <= v < names.len() && spec_link_step(
            #[trigger] links[k],
            #[trigger] names[u]@,
            #[trigger] names[v]@,
            spec_link_cost(links[k]),
        ) ==> spec_has_edge(edges, u, v, spec_link_cost(links[k]))
}

/// The index of `id` among the names, appending it when it is not there yet.
fn name_index(names: &mut Vec<String>, id: &String) -> (u: usize)
    requires
        spec_distinct_names(old(names)@),
    ensures
        spec_distinct_names(final(names)@),
        (u as int) < final(names)@.len(),
        final(names)@[u as int]@ == id@,
        final(names)@.len() >= old(names)@.len(),
        forall|j: int| 0 <= j < old(names)@.len() ==> final(names)@[j] == old(names)@[j],
        forall|j: int| old(names)@.len() <= j < final(names)@.len() ==> final(names)@[j]@ == id@,
{
    let mut j: usize = 0;
    while j < names.len()
        invariant
            j <= names@.len(),
            names@ == old(names)@,
            spec_distinct_names(names@),
            forall|i: int| 0 <= i < j ==> names@[i]@ != id@,
        decreases names@.len() - j,
    {
        if names[j] == *id {
            return j;
        }
        j += 1;
    }
    names.push(id.clone());
    j
}

/// Builds the indexed graph of the active links, with the source as node 0: each
/// active link gives an edge in each direction at the link's cost.
fn build_graph(links: &Vec<Link>, source: &str) -> (r: (Vec<String>, Vec<Edge>))
    ensures
        spec_graph_of(links@, links@.len() as int, source@, r.0@, r.1@),
{
    let mut names: Vec<String> = Vec::new();
    names.push(source.to_owned());
    let mut edges: Vec<Edge> = Vec::new();
    let mut k: usize = 0;
    while k < links.len()
        invariant
            k <= links@.len(),
            spec_graph_of(links@, k as int, source@, names@, edges@),
        decreases links@.len() - k,
    {
        let l = &links[k];
        if l.active {
            let ghost names0 = names@;
            let ghost edges0 = edges@;
            let a = name_index(&mut names, &l.from_router);
            let b = name_index(&mut names, &l.to_router);
            let c = Topology::calculate_link_cost(l);
            proof {
                assert(spec_link_step(links@[k as int], names@[a as int]@, names@[b as int]@, c as int));
                assert(spec_link_step(links@[k as int], names@[b as int]@, names@[a as int]@, c as int));
            }
            edges.push((a, b, c));
            edges.push((b, a, c));
            proof {
                let n = names@;
                let es = edges@;
                assert forall|e: int| 0 <= e < es.len() implies (#[trigger] es[e]).0 < n.len() && es[e].1 < n.len()
                    && es[e].2 >= 1 && spec_step(links@, n[es[e].0 as int]@, n[es[e].1 as int]@, es[e].2 as int) by {
                    if e < edges0.len() {
                        assert(es[e] == edges0[e]);
                        assert(n[es[e].0 as int] == names0[es[e].0 as int]);
                        assert(n[es[e].1 as int] == names0[es[e].1 as int]);
                    } else if e == edges0.len() {
                        assert(es[e] == (a, b, c));
                    } else {
                        assert(es[e] == (b, a, c));
                    }
                }
                assert forall|kk: int| 0 <= kk < k + 1 && (#[trigger] links@[kk]).active implies spec_named(
                    n,
                    links@[kk].from_router@,
                ) && spec_named(n, links@[kk].to_router@) by {
                    if kk < k {
                        let u1 = choose|u: int| 0 <= u < names0.len() && (#[trigger] names0[u])@ == links@[kk].from_router@;
                        assert(n[u1] == names0[u1]);
                        let u2 = choose|u: int| 0 <= u < names0.len() && (#[trigger] names0[u])@ == links@[kk].to_router@;
                        assert(n[u2] == names0[u2]);
                    } else {
                        assert(n[a as int]@ == links@[kk].from_router@);
                        assert(n[b as int]@ == links@[kk].to_router@);
                    }
                }
                assert forall|kk: int, u: int, v: int|
                    0 <= kk < k + 1 && 0 <= u < n.len() && 0 <= v < n.len() && spec_link_step(
                        #[trigger] links@[kk],
                        #[trigger] n[u]@,
                        #[trigger] n[v]@,
                        spec_link_cost(links@[kk]),
                    ) implies spec_has_edge(es, u, v, spec_link_cost(links@[kk])) by {
                    if kk < k {
                        // both endpoints were named before this link, and names are distinct
                        let u1 = choose|x: int| 0 <= x < names0.len() && (#[trigger] names0[x])@ == links@[kk].from_router@;
                        let u2 = choose|x: int| 0 <= x < names0.len() && (#[trigger] names0[x])@ == links@[kk].to_router@;
                        assert(n[u1] == names0[u1]);
                        assert(n[u2] == names0[u2]);
                        assert(u < names0.len()) by {
                            if u >= names0.len() {
                                if n[u]@ == links@[kk].from_router@ {
                                    assert(n[u1]@ == n[u]@);
                                } else {
                                    assert(n[u2]@ == n[u]@);
                                }
                            }
                        }
                        assert(v < names0.len()) by {
                            if v >= names0.len() {
                                if n[v]@ == links@[kk].from_router@ {
                                    assert(n[u1]@ == n[v]@);
                                } else {
                                    assert(n[u2]@ == n[v]@);
                                }
                            }
                        }
                        assert(n[u] == names0[u] && n[v] == names0[v]);
                        assert(spec_link_step(links@[kk], names0[u]@, names0[v]@, spec_link_cost(links@[kk])));
                        let w = choose|w: int|
                            0 <= w < edges0.len() && edges0[w].0 == u && edges0[w].1 == v && edges0[w].2 == spec_link_cost(links@[kk]);
                        assert(es[w] == edges0[w]);
                    } else {
                        // the two edges just added
                        if n[u]@ == links@[kk].from_router@ && n[v]@ == links@[kk].to_router@ {
                            assert(u == a as int);
                            assert(v == b as int);
                            assert(es[edges0.len() as int] == (a, b, c));
                        } else {
                            assert(u == b as int);
                            assert(v == a as int);
                            assert(es[edges0.len() as int + 1] == (b, a, c));
                        }
                    }
                }
            }
        } else {
            proof {
                assert forall|kk: int, u: int, v: int|
                    0 <= kk < k + 1 && 0 <= u < names@.len() && 0 <= v < names@.len() && spec_link_step(
                        #[trigger] links@[kk],
                        #[trigger] names@[u]@,
                        #[trigger] names@[v]@,
                        spec_link_cost(links@[kk]),
                    ) implies spec_has_edge(edges@, u, v, spec_link_cost(links@[kk])) by {
                    if kk == k {
                        assert(!links@[kk].active);
                    }
                }
            }
        }
        k += 1;
    }
    (names, edges)
}


/// What Dijkstra's algorithm returns over `n` nodes: the predecessor tree, a
/// distance for every reachable node, and no walk cheaper than a distance.
pub open spec fn spec_shortest(edges: Seq<Edge>, n: int, dist: Seq<Option<u128>>, prev: Seq<Option<usize>>) -> bool {
    &&& dist.len() == n
    &&& prev.len() == n
    &&& spec_tree(edges, dist, prev)
    &&& forall|v: int| 0 <= v < n && spec_reachable(edges, v) ==> (#[trigger] dist[v]) is Some
    &&& forall|v: int, w: Seq<int>, cs: Seq<int>|
        0 <= v < n && (#[trigger] dist[v]) is Some && #[trigger] spec_walk_to(edges, w, cs, v) ==> spec_sum(cs)
            >= dist[v].unwrap()
}

/// Whether `dest` is at a distance below `u32::MAX` from `source`.
pub open spec fn spec_reaches_within(links: Seq<Link>, source: Seq<char>, dest: Seq<char>) -> bool {
    exists|d: int| d < u32::MAX && spec_route_distance(links, source, dest, d)
}

/// A path entry for router `owner`: its distance, a route of that cost from the
/// source, and the router after the source on it.
pub open spec fn spec_path_entry(links: Seq<Link>, owner: Seq<char>, source: Seq<char>, sp: ShortestPath) -> bool {
    &&& sp.cost < u32::MAX
    &&& spec_route_distance(links, source, owner, sp.cost as int)
    &&& exists|cs: Seq<int>|
        spec_route(links, source, sp.path@.map_values(|s: String| s@), cs, owner) && spec_sum(cs) == sp.cost
    &&& sp.next_hop == (if sp.path@.len() >= 2 {
        Some(sp.path@[1])
    } else {
        None
    })
}

/// Every router on a route is named in the graph.
proof fn lemma_route_named(
    links: Seq<Link>,
    source: Seq<char>,
    names: Seq<String>,
    edges: Seq<Edge>,
    p: Seq<Seq<char>>,
    cs: Seq<int>,
    dest: Seq<char>,
    i: int,
)
    requires
        spec_graph_of(links, links.len() as int, source, names, edges),
        spec_route(links, source, p, cs, dest),
        0 <= i < p.len(),
    ensures
        spec_named(names, p[i]),
{
    if i == 0 {
        assert(names[0]@ == p[0]);
    } else {
        assert(spec_step(links, p[i - 1], p[i], cs[i - 1]));
        let k = choose|k: int| 0 <= k < links.len() && spec_link_step(#[trigger] links[k], p[i - 1], p[i], cs[i - 1]);
        assert(links[k].active);
    }
}

/// A route between named routers is a walk of the indexed graph with the same costs.
proof fn lemma_walk_of_route(
    links: Seq<Link>,
    source: Seq<char>,
    names: Seq<String>,
    edges: Seq<Edge>,
    p: Seq<Seq<char>>,
    cs: Seq<int>,
    u: int,
)
    requires
        spec_graph_of(links, links.len() as int, source, names, edges),
        0 <= u < names.len(),
        spec_route(links, source, p, cs, names[u]@),
    ensures
        exists|w: Seq<int>| spec_walk_to(edges, w, cs, u),
{
    let dest = names[u]@;
    assert forall|i: int| 0 <= i < p.len() implies spec_named(names, #[trigger] p[i]) by {
        lemma_route_named(links, source, names, edges, p, cs, dest, i);
    }
    let w = Seq::new(p.len(), |i: int| choose|x: int| 0 <= x < names.len() && (#[trigger] names[x])@ == p[i]);
    assert forall|i: int| 0 <= i < p.len() implies 0 <= #[trigger] w[i] < names.len() && names[w[i]]@ == p[i] by {
        assert(spec_named(names, p[i]));
    }
    assert(w[0] == 0) by {
        if w[0] != 0 {
            assert(names[w[0]]@ == names[0]@);
        }
    }
    assert(w.last() == u) by {
        let l = p.len() - 1;
        assert(w[l] == w.last());
        if w[l] != u {
            assert(names[w[l]]@ == names[u]@);
        }
    }
    assert forall|i: int| 0 <= i < cs.len() implies spec_has_edge(edges, w[i], w[i + 1], #[trigger] cs[i]) by {
        assert(spec_step(links, p[i], p[i + 1], cs[i]));
        let k = choose|k: int| 0 <= k < links.len() && spec_link_step(#[trigger] links[k], p[i], p[i + 1], cs[i]);
        assert(names[w[i]]@ == p[i] && names[w[i + 1]]@ == p[i + 1]);
        assert(spec_link_step(links[k], names[w[i]]@, names[w[i + 1]]@, spec_link_cost(links[k])));
    }
    assert(spec_walk_to(edges, w, cs, u));
}

/// A walk of the indexed graph is a route between the routers it names, with the same costs.
proof fn lemma_route_of_walk(
    links: Seq<Link>,
    source: Seq<char>,
    names: Seq<String>,
    edges: Seq<Edge>,
    w: Seq<int>,
    cs: Seq<int>,
    v: int,
    p: Seq<Seq<char>>,
)
    requires
        spec_graph_of(links, links.len() as int, source, names, edges),
        0 <= v < names.len(),
        spec_walk_to(edges, w, cs, v),
        p.len() == w.len(),
        forall|i: int| 0 <= i < w.len() ==> 0 <= #[trigger] w[i] < names.len() && p[i] == names[w[i]]@,
    ensures
        spec_route(links, source, p, cs, names[v]@),
{
    assert(p[0] == names[0]@);
    assert(p.last() == p[p.len() - 1]);
    assert(w.last() == w[w.len() - 1]);
    assert forall|i: int| 0 <= i < cs.len() implies spec_step(links, p[i], p[i + 1], #[trigger] cs[i]) by {
        assert(spec_has_edge(edges, w[i], w[i + 1], cs[i]));
        let e = choose|e: int| 0 <= e < edges.len() && edges[e].0 == w[i] && edges[e].1 == w[i + 1] && edges[e].2 == cs[i];
        assert(spec_step(links, names[edges[e].0 as int]@, names[edges[e].1 as int]@, edges[e].2 as int));
    }
}

/// The steps of a walk stay among the nodes.
proof fn lemma_walk_in_range(n: int, edges: Seq<Edge>, w: Seq<int>, cs: Seq<int>, v: int)
    requires
        spec_edges_ok(n, edges),
        0 <= v < n,
        spec_walk_to(edges, w, cs, v),
    ensures
        forall|i: int| 0 <= i < w.len() ==> 0 <= #[trigger] w[i] < n,
{
    assert forall|i: int| 0 <= i < w.len() implies 0 <= #[trigger] w[i] < n by {
        if i == w.len() - 1 {
            assert(w[i] == w.last());
        } else {
            assert(spec_has_edge(edges, w[i], w[i + 1], cs[i]));
            let e = choose|e: int| 0 <= e < edges.len() && edges[e].0 == w[i] && edges[e].1 == w[i + 1] && edges[e].2 == cs[i];
            assert(edges[e].0 < n);
        }
    }
}

/// The predecessors of a tree are valid indices.
proof fn lemma_tree_prev_ok(edges: Seq<Edge>, dist: Seq<Option<u128>>, prev: Seq<Option<usize>>)
    requires
        spec_tree(edges, dist, prev),
    ensures
        spec_prev_ok(prev),
{
    assert forall|k: int| 0 <= k < prev.len() && (#[trigger] prev[k]) is Some implies (prev[k].unwrap() as int) < prev.len() by {
        assert(dist[k] is Some);
    }
}

/// On the tree path `r` to `u`, the node after the root is what the predecessor
/// search finds.
proof fn lemma_hop_is_second(
    edges: Seq<Edge>,
    dist: Seq<Option<u128>>,
    prev: Seq<Option<usize>>,
    u: int,
    r: Seq<usize>,
    hop: Option<usize>,
)
    requires
        spec_tree(edges, dist, prev),
        0 <= u < dist.len(),
        dist[u] is Some,
        r.len() >= 1,
        spec_back(prev, u, r.len()) is None,
        forall|i: int| 0 <= i < r.len() ==> spec_back(prev, u, (r.len() - 1 - i) as nat) == Some(r[i] as int),
        u == 0 ==> hop is None,
        u != 0 ==> match hop {
            Some(x) => exists|j: nat|
                #[trigger] spec_back(prev, u, j) == Some(x as int) && spec_back(prev, u, j + 1) == Some(0int)
                    && forall|i: nat| 1 <= i <= j ==> #[trigger] spec_back(prev, u, i) != Some(0int),
            None => forall|j: nat| j >= 1 ==> #[trigger] spec_back(prev, u, j) != Some(0int),
        },
    ensures
        hop == (if r.len() >= 2 {
            Some(r[1])
        } else {
            None::<usize>
        }),
{
    let L = r.len() as int;
    assert(spec_back(prev, u, (L - 1) as nat) == Some(r[0] as int));
    lemma_tree_chain(edges, dist, prev, u, (L - 1) as nat);
    assert(r[0] == 0);
    if u == 0 {
        if L >= 2 {
            assert(spec_back(prev, u, 1) == Some(r[L - 2] as int));
            assert(spec_back(prev, u, 0) == Some(0int));
        }
    } else {
        assert(L >= 2) by {
            if L == 1 {
                assert(spec_back(prev, u, 0) == Some(u));
            }
        }
        assert(spec_back(prev, u, (L - 2) as nat) == Some(r[1] as int));
        match hop {
            Some(x) => {
                let j = choose|j: nat|
                    #[trigger] spec_back(prev, u, j) == Some(x as int) && spec_back(prev, u, j + 1) == Some(0int)
                        && forall|i: nat| 1 <= i <= j ==> #[trigger] spec_back(prev, u, i) != Some(0int);
                if j + 1 < L - 1 {
                    lemma_tree_chain(edges, dist, prev, u, j + 1);
                    lemma_back_none_stays(prev, u, j + 2, (L - 1) as nat);
                } else if j + 1 > L - 1 {
                    assert(spec_back(prev, u, (L - 1) as nat) != Some(0int));
                }
                assert(j == L - 2);
            },
            None => {
                assert(spec_back(prev, u, (L - 1) as nat) != Some(0int));
            },
        }
    }
}

/// The index of `id` among the names, if it is there.
fn find_name(names: &Vec<String>, id: &String) -> (r: Option<usize>)
    ensures
        match r {
            Some(u) => (u as int) < names@.len() && names@[u as int]@ == id@,
            None => !spec_named(names@, id@),
        },
{
    let mut j: usize = 0;
    while j < names.len()
        invariant
            j <= names@.len(),
            forall|i: int| 0 <= i < j ==> names@[i]@ != id@,
        decreases names@.len() - j,
    {
        if names[j] == *id {
            return Some(j);
        }
        j += 1;
    }
    None
}

/// The shortest path to router `owner`, when it lies at a distance below `u32::MAX`.
fn path_to_router(
    links: &Vec<Link>,
    source: &str,
    names: &Vec<String>,
    edges: &Vec<Edge>,
    dist: &Vec<Option<u128>>,
    prev: &Vec<Option<usize>>,
    owner: &String,
) -> (r: Option<ShortestPath>)
    requires
        spec_graph_of(links@, links@.len() as int, source@, names@, edges@),
        spec_shortest(edges@, names@.len() as int, dist@, prev@),
    ensures
        r is Some <==> spec_reaches_within(links@, source@, owner@),
        r matches Some(sp) ==> spec_path_entry(links@, owner@, source@, sp),
{
    let u = match find_name(names, owner) {
        Some(u) => u,
        None => {
            proof {
                if spec_reaches_within(links@, source@, owner@) {
                    let d = choose|d: int| d < u32::MAX && spec_route_distance(links@, source@, owner@, d);
                    let (p, cs) = choose|p: Seq<Seq<char>>, cs: Seq<int>|
                        spec_route(links@, source@, p, cs, owner@) && spec_sum(cs) == d;
                    lemma_route_named(links@, source@, names@, edges@, p, cs, owner@, p.len() - 1);
                }
            }
            return None;
        },
    };
    let ghost n = names@.len() as int;
    let d = match dist[u] {
        Some(d) => d,
        None => {
            proof {
                if spec_reaches_within(links@, source@, owner@) {
                    let d = choose|d: int| d < u32::MAX && spec_route_distance(links@, source@, owner@, d);
                    let (p, cs) = choose|p: Seq<Seq<char>>, cs: Seq<int>|
                        spec_route(links@, source@, p, cs, owner@) && spec_sum(cs) == d;
                    lemma_walk_of_route(links@, source@, names@, edges@, p, cs, u as int);
                    let w = choose|w: Seq<int>| spec_walk_to(edges@, w, cs, u as int);
                    assert(spec_reachable(edges@, u as int));
                }
            }
            return None;
        },
    };
    proof {
        // no route to the owner is cheaper than `d`
        assert forall|p: Seq<Seq<char>>, cs: Seq<int>| #[trigger] spec_route(links@, source@, p, cs, owner@) implies spec_sum(cs) >= d by {
            lemma_walk_of_route(links@, source@, names@, edges@, p, cs, u as int);
            let w = choose|w: Seq<int>| spec_walk_to(edges@, w, cs, u as int);
            assert(dist@[u as int] is Some);
        }
    }
    if d >= 4294967295u128 {
        proof {
            if spec_reaches_within(links@, source@, owner@) {
                let d2 = choose|d2: int| d2 < u32::MAX && spec_route_distance(links@, source@, owner@, d2);
                let (p, cs) = choose|p: Seq<Seq<char>>, cs: Seq<int>|
                    spec_route(links@, source@, p, cs, owner@) && spec_sum(cs) == d2;
                assert(spec_route(links@, source@, p, cs, owner@));
            }
        }
        return None;
    }
    let ipath = tree_path(edges, dist, prev, u);
    proof {
        lemma_tree_prev_ok(edges@, dist@, prev@);
    }
    let hop = find_next_hop(prev, 0, u);
    let ghost w = ipath@.map_values(|x: usize| x as int);
    proof {
        let cs = choose|cs: Seq<int>| spec_walk_to(edges@, w, cs, u as int) && spec_sum(cs) == dist@[u as int].unwrap();
        lemma_walk_in_range(n, edges@, w, cs, u as int);
        lemma_hop_is_second(edges@, dist@, prev@, u as int, ipath@, hop);
    }
    let mut path: Vec<String> = Vec::new();
    let mut j: usize = 0;
    while j < ipath.len()
        invariant
            j <= ipath@.len(),
            w == ipath@.map_values(|x: usize| x as int),
            n == names@.len(),
            forall|i: int| 0 <= i < w.len() ==> 0 <= #[trigger] w[i] < n,
            path@.len() == j,
            forall|i: int| 0 <= i < j ==> #[trigger] path@[i] == names@[ipath@[i] as int],
        decreases ipath@.len() - j,
    {
        assert(w[j as int] == ipath@[j as int] as int);
        path.push(names[ipath[j]].clone());
        j += 1;
    }
    let next_hop = match hop {
        Some(x) => Some(names[x].clone()),
        None => None,
    };
    let sp = ShortestPath { cost: d as u32, next_hop, path };
    proof {
        let cs = choose|cs: Seq<int>| spec_walk_to(edges@, w, cs, u as int) && spec_sum(cs) == dist@[u as int].unwrap();
        let sv = sp.path@.map_values(|s: String| s@);
        assert forall|i: int| 0 <= i < w.len() implies 0 <= #[trigger] w[i] < names@.len() && sv[i] == names@[w[i]]@ by {
            assert(path@[i] == names@[ipath@[i] as int]);
        }
        lemma_route_of_walk(links@, source@, names@, edges@, w, cs, u as int, sv);
        assert(spec_route_distance(links@, source@, owner@, d as int));
        assert(spec_reaches_within(links@, source@, owner@));
        if ipath@.len() >= 2 {
            assert(sp.path@[1] == names@[ipath@[1] as int]);
        }
    }
    Some(sp)
}


/// Whether router entry `k` is the first that lists network `net`.
pub open spec fn spec_owner_index(routers: Seq<(String, RouterInfo)>, net: IpNet, k: int) -> bool {
    &&& 0 <= k < routers.len()
    &&& routers[k].1.networks@.contains(net)
    &&& forall|j: int| 0 <= j < k ==> !(#[trigger] routers[j]).1.networks@.contains(net)
}

/// The router that owns a network: the first that lists it.
pub open spec fn spec_owner(routers: Seq<(String, RouterInfo)>, net: IpNet) -> Seq<char> {
    routers[choose|k: int| spec_owner_index(routers, net, k)].0@
}

/// The first router entry that lists the network.
fn owner_index(routers: &Vec<(String, RouterInfo)>, net: &IpNet) -> (r: Option<usize>)
    ensures
        match r {
            Some(k) => spec_owner_index(routers@, *net, k as int) && spec_owner(routers@, *net)
                == routers@[k as int].0@,
            None => !spec_has_network(routers@, *net),
        },
{
    let mut k: usize = 0;
    while k < routers.len()
        invariant
            k <= routers@.len(),
            forall|j: int| 0 <= j < k ==> !(#[trigger] routers@[j]).1.networks@.contains(*net),
        decreases routers@.len() - k,
    {
        let nets = &routers[k].1.networks;
        let mut m: usize = 0;
        while m < nets.len()
            invariant
                k < routers@.len(),
                *nets == routers@[k as int].1.networks,
                forall|j: int| 0 <= j < k ==> !(#[trigger] routers@[j]).1.networks@.contains(*net),
                m <= nets@.len(),
                forall|i: int| 0 <= i < m ==> nets@[i] != *net,
            decreases nets@.len() - m,
        {
            if nets[m] == *net {
                proof {
                    assert(nets@[m as int] == *net);
                    assert(spec_owner_index(routers@, *net, k as int));
                    let c = choose|c: int| spec_owner_index(routers@, *net, c);
                    if c < k {
                        assert(routers@[k as int].1.networks@.contains(*net));
                    } else if c > k {
                        assert(!routers@[k as int].1.networks@.contains(*net));
                    }
                }
                return Some(k);
            }
            m += 1;
        }
        proof {
            if nets@.contains(*net) {
                let w = choose|w: int| 0 <= w < nets@.len() && nets@[w] == *net;
            }
        }
        k += 1;
    }
    proof {
        if spec_has_network(routers@, *net) {
            let (a, b) = choose|a: int, b: int|
                0 <= a < routers@.len() && 0 <= b < routers@[a].1.networks@.len() && routers@[a].1.networks@[b] == *net;
            assert(routers@[a].1.networks@.contains(*net));
        }
    }
    None
}

/// Shortest paths from router `source` to every network of the topology, in
/// increasing network order. A network is reached through the first router that
/// lists it; it is left out when that router lies at no distance below `u32::MAX`.
/// Links join routers in both directions, at the cost of `calculate_link_cost`.
pub fn calculate_shortest_paths(topology: &Topology, source: &str) -> (r: Vec<(IpNet, ShortestPath)>)
    ensures
        spec_strictly_sorted(r@.map_values(|e: (IpNet, ShortestPath)| e.0)),
        forall|net: IpNet|
            (exists|i: int| 0 <= i < r@.len() && (#[trigger] r@[i]).0 == net) <==> spec_has_network(
                topology.routers@,
                net,
            ) && spec_reaches_within(topology.links@, source@, spec_owner(topology.routers@, net)),
        forall|i: int|
            0 <= i < r@.len() ==> spec_path_entry(
                topology.links@,
                spec_owner(topology.routers@, (#[trigger] r@[i]).0),
                source@,
                r@[i].1,
            ),
{
    let (names, edges) = build_graph(&topology.links, source);
    let (dist, prev) = shortest_distances(names.len(), &edges);
    let networks = topology.get_all_networks();
    let ghost routers = topology.routers@;
    let ghost links = topology.links@;
    let mut out: Vec<(IpNet, ShortestPath)> = Vec::new();
    let mut i: usize = 0;
    while i < networks.len()
        invariant
            i <= networks@.len(),
            routers == topology.routers@,
            links == topology.links@,
            spec_graph_of(links, links.len() as int, source@, names@, edges@),
            spec_shortest(edges@, names@.len() as int, dist@, prev@),
            spec_strictly_sorted(networks@),
            forall|net: IpNet| networks@.contains(net) <==> spec_has_network(routers, net),
            forall|j: int|
                0 <= j < out@.len() ==> exists|m: int| 0 <= m < i && networks@[m] == (#[trigger] out@[j]).0,
            spec_strictly_sorted(out@.map_values(|e: (IpNet, ShortestPath)| e.0)),
            forall|net: IpNet|
                (exists|j: int| 0 <= j < out@.len() && (#[trigger] out@[j]).0 == net) <==> (exists|m: int|
                    0 <= m < i && networks@[m] == net) && spec_reaches_within(links, source@, spec_owner(routers, net)),
            forall|j: int|
                0 <= j < out@.len() ==> spec_path_entry(
                    links,
                    spec_owner(routers, (#[trigger] out@[j]).0),
                    source@,
                    out@[j].1,
                ),
        decreases networks@.len() - i,
    {
        let net = networks[i];
        proof {
            assert(networks@.contains(net));
        }
        let k = match owner_index(&topology.routers, &net) {
            Some(k) => k,
            None => {
                proof {
                    assert(false);
                }
                i += 1;
                continue;
            },
        };
        let found = path_to_router(&topology.links, source, &names, &edges, &dist, &prev, &topology.routers[k].0);
        let ghost out0 = out@;
        match found {
            Some(sp) => {
                out.push((net, sp));
                proof {
                    let keys = out@.map_values(|e: (IpNet, ShortestPath)| e.0);
                    let keys0 = out0.map_values(|e: (IpNet, ShortestPath)| e.0);
                    assert forall|a: int, b: int| 0 <= a < b < keys.len() implies spec_net_lt(keys[a], keys[b]) by {
                        if b < out0.len() {
                            assert(keys[a] == keys0[a] && keys[b] == keys0[b]);
                        } else {
                            assert(out@[a] == out0[a]);
                            let m = choose|m: int| 0 <= m < i && networks@[m] == (#[trigger] out0[a]).0;
                            assert(spec_net_lt(networks@[m], networks@[i as int]));
                        }
                    }
                    assert forall|j: int| 0 <= j < out@.len() implies exists|m: int|
                        0 <= m < i + 1 && networks@[m] == (#[trigger] out@[j]).0 by {
                        if j < out0.len() {
                            assert(out@[j] == out0[j]);
                            let m = choose|m: int| 0 <= m < i && networks@[m] == (#[trigger] out0[j]).0;
                        } else {
                            assert(networks@[i as int] == out@[j].0);
                        }
                    }
                    assert forall|net2: IpNet|
                        (exists|j: int| 0 <= j < out@.len() && (#[trigger] out@[j]).0 == net2) <==> (exists|m: int|
                            0 <= m < i + 1 && networks@[m] == net2) && spec_reaches_within(
                            links,
                            source@,
                            spec_owner(routers, net2),
                        ) by {
                        if exists|j: int| 0 <= j < out@.len() && (#[trigger] out@[j]).0 == net2 {
                            let j = choose|j: int| 0 <= j < out@.len() && (#[trigger] out@[j]).0 == net2;
                            if j < out0.len() {
                                assert(out@[j] == out0[j]);
                            } else {
                                assert(networks@[i as int] == net2);
                            }
                        }
                        if (exists|m: int| 0 <= m < i + 1 && networks@[m] == net2) && spec_reaches_within(
                            links,
                            source@,
                            spec_owner(routers, net2),
                        ) {
                            let m = choose|m: int| 0 <= m < i + 1 && networks@[m] == net2;
                            if m < i {
                                let j = choose|j: int| 0 <= j < out0.len() && (#[trigger] out0[j]).0 == net2;
                                assert(out@[j] == out0[j]);
                            } else {
                                assert(out@[out0.len() as int].0 == net2);
                            }
                        }
                    }
                    assert forall|j: int| 0 <= j < out@.len() implies spec_path_entry(
                        links,
                        spec_owner(routers, (#[trigger] out@[j]).0),
                        source@,
                        out@[j].1,
                    ) by {
                        if j < out0.len() {
                            assert(out@[j] == out0[j]);
                        }
                    }
                }
            },
            None => {
                proof {
                    assert forall|net2: IpNet|
                        (exists|j: int| 0 <= j < out@.len() && (#[trigger] out@[j]).0 == net2) <==> (exists|m: int|
                            0 <= m < i + 1 && networks@[m] == net2) && spec_reaches_within(
                            links,
                            source@,
                            spec_owner(routers, net2),
                        ) by {
                        if exists|j: int| 0 <= j < out@.len() && (#[trigger] out@[j]).0 == net2 {
                            let j = choose|j: int| 0 <= j < out@.len() && (#[trigger] out@[j]).0 == net2;
                            let m = choose|m: int| 0 <= m < i && networks@[m] == (#[trigger] out@[j]).0;
                        }
                        if (exists|m: int| 0 <= m < i + 1 && networks@[m] == net2) && spec_reaches_within(
                            links,
                            source@,
                            spec_owner(routers, net2),
                        ) {
                            let m = choose|m: int| 0 <= m < i + 1 && networks@[m] == net2;
                            if m == i {
                                assert(net2 == net);
                            }
                        }
                    }
                    assert forall|j: int| 0 <= j < out@.len() implies exists|m: int|
                        0 <= m < i + 1 && networks@[m] == (#[trigger] out@[j]).0 by {
                        let m = choose|m: int| 0 <= m < i && networks@[m] == (#[trigger] out@[j]).0;
                    }
                }
            },
        }
        i += 1;
    }
    proof {
        assert forall|net: IpNet|
            (exists|j: int| 0 <= j < out@.len() && (#[trigger] out@[j]).0 == net) <==> spec_has_network(routers, net)
                && spec_reaches_within(links, source@, spec_owner(routers, net)) by {
            if spec_has_network(routers, net) {
                assert(networks@.contains(net));
                let m = choose|m: int| 0 <= m < networks@.len() && networks@[m] == net;
            }
            if exists|m: int| 0 <= m < networks@.len() && networks@[m] == net {
                let m = choose|m: int| 0 <= m < networks@.len() && networks@[m] == net;
                assert(networks@.contains(net));
            }
        }
    }
    out
}

} // verus!
