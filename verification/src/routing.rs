//! Hop-count routes over an adjacency list, found breadth first.
use vstd::prelude::*;
use crate::protocol::keyed::{spec_get, spec_has_key, spec_key_index, spec_unique_keys, lemma_key_index, find_key, get_keyed};

verus! {

/// Router `v` is listed among the neighbours of router `u`.
pub open spec fn spec_adjacent(g: Seq<(String, Vec<String>)>, u: Seq<char>, v: Seq<char>) -> bool {
    match spec_get(g, u) {
        Some(list) => exists|j: int| 0 <= j < list@.len() && (#[trigger] list@[j])@ == v,
        None => false,
    }
}

/// Consecutive routers of `p` are adjacent.
pub open spec fn spec_walk(g: Seq<(String, Vec<String>)>, p: Seq<Seq<char>>) -> bool {
    &&& p.len() >= 1
    &&& forall|i: int| 0 <= i < p.len() - 1 ==> spec_adjacent(g, #[trigger] p[i], p[i + 1])
}

/// Router `v` can be reached from `source` in exactly `k` steps.
#[verifier::opaque]
pub open spec fn spec_hops(g: Seq<(String, Vec<String>)>, source: Seq<char>, v: Seq<char>, k: nat) -> bool {
    exists|p: Seq<Seq<char>>| #[trigger] spec_walk(g, p) && p.len() == k + 1 && p[0] == source && p.last() == v
}

/// The texts of a path.
pub open spec fn spec_path(p: Vec<String>) -> Seq<Seq<char>> {
    p@.map_values(|s: String| s@)
}

/// A route from `source` to `dest` of at least one step, shortest among those.
pub open spec fn spec_shortest_route(
    g: Seq<(String, Vec<String>)>,
    source: Seq<char>,
    dest: Seq<char>,
    p: Seq<Seq<char>>,
) -> bool {
    &&& p.len() >= 2
    &&& p[0] == source
    &&& p.last() == dest
    &&& spec_walk(g, p)
    &&& forall|k: nat| 1 <= k < p.len() - 1 ==> !#[trigger] spec_hops(g, source, dest, k)
}

/// Every router named in an adjacency list.
pub open spec fn spec_all_names(g: Seq<(String, Vec<String>)>) -> Seq<Seq<char>>
    decreases g.len(),
{
    if g.len() == 0 {
        seq![]
    } else {
        spec_all_names(g.drop_last()) + spec_path(g.last().1)
    }
}

proof fn lemma_all_names(g: Seq<(String, Vec<String>)>, i: int, j: int)
    requires
        0 <= i < g.len(),
        0 <= j < g[i].1@.len(),
    ensures
        spec_all_names(g).contains(g[i].1@[j]@),
    decreases g.len(),
{
    if i == g.len() - 1 {
        let a = spec_all_names(g.drop_last());
        assert(spec_all_names(g)[a.len() + j] == g[i].1@[j]@);
    } else {
        lemma_all_names(g.drop_last(), i, j);
        let a = spec_all_names(g.drop_last());
        let w = choose|w: int| 0 <= w < a.len() && a[w] == g[i].1@[j]@;
        assert(spec_all_names(g)[w] == g[i].1@[j]@);
    }
}

/// A neighbour of a listed router is among all the names.
proof fn lemma_adjacent_named(g: Seq<(String, Vec<String>)>, u: Seq<char>, v: Seq<char>)
    requires
        spec_adjacent(g, u, v),
    ensures
        spec_all_names(g).contains(v),
{
    lemma_key_index(g, u);
    let i = spec_key_index(g, u).unwrap();
    let list = g[i].1;
    let j = choose|j: int| 0 <= j < list@.len() && (#[trigger] list@[j])@ == v;
    lemma_all_names(g, i, j);
}

/// A walk's prefix is a walk.
proof fn lemma_walk_prefix(g: Seq<(String, Vec<String>)>, p: Seq<Seq<char>>, m: int)
    requires
        spec_walk(g, p),
        1 <= m <= p.len(),
    ensures
        spec_walk(g, p.take(m)),
{
    assert forall|i: int| 0 <= i < m - 1 implies spec_adjacent(g, #[trigger] p.take(m)[i], p.take(m)[i + 1]) by {
        assert(p.take(m)[i] == p[i] && p.take(m)[i + 1] == p[i + 1]);
    }
}

/// Extending a walk by an adjacent router.
proof fn lemma_walk_push(g: Seq<(String, Vec<String>)>, p: Seq<Seq<char>>, v: Seq<char>)
    requires
        spec_walk(g, p),
        spec_adjacent(g, p.last(), v),
    ensures
        spec_walk(g, p.push(v)),
{
    let q = p.push(v);
    assert forall|i: int| 0 <= i < q.len() - 1 implies spec_adjacent(g, #[trigger] q[i], q[i + 1]) by {
        if i < p.len() - 1 {
            assert(q[i] == p[i] && q[i + 1] == p[i + 1]);
        } else {
            assert(q[i] == p.last());
        }
    }
}

/// A router `k + 1` steps away is adjacent to one `k` steps away.
proof fn lemma_hops_step(g: Seq<(String, Vec<String>)>, source: Seq<char>, v: Seq<char>, k: nat) -> (u: Seq<char>)
    requires
        spec_hops(g, source, v, k + 1),
    ensures
        spec_hops(g, source, u, k),
        spec_adjacent(g, u, v),
{
    reveal(spec_hops);
    let p = choose|p: Seq<Seq<char>>| #[trigger] spec_walk(g, p) && p.len() == k + 2 && p[0] == source && p.last() == v;
    lemma_walk_prefix(g, p, k as int + 1);
    let q = p.take(k as int + 1);
    assert(q.last() == p[k as int]);
    assert(spec_adjacent(g, p[k as int], p[k as int + 1]));
    assert(spec_walk(g, q) && q.len() == k + 1 && q[0] == source && q.last() == p[k as int]);
    p[k as int]
}

/// Only the source is zero steps away.
proof fn lemma_hops_zero(g: Seq<(String, Vec<String>)>, source: Seq<char>, v: Seq<char>)
    requires
        spec_hops(g, source, v, 0),
    ensures
        v == source,
{
    reveal(spec_hops);
    let p = choose|p: Seq<Seq<char>>| #[trigger] spec_walk(g, p) && p.len() == 1 && p[0] == source && p.last() == v;
}

/// A copy of a path.
fn copy_path(p: &Vec<String>) -> (r: Vec<String>)
    ensures
        r@ == p@,
{
    let mut out: Vec<String> = Vec::new();
    let mut i: usize = 0;
    while i < p.len()
        invariant
            i <= p@.len(),
            out@ == p@.take(i as int),
        decreases p@.len() - i,
    {
        out.push(p[i].clone());
        proof {
            assert(out@ =~= p@.take(i as int + 1));
        }
        i += 1;
    }
    proof {
        assert(p@.take(p@.len() as int) =~= p@);
    }
    out
}

/// The keys of a table.
pub open spec fn spec_keys(v: Seq<(String, Vec<String>)>) -> Seq<Seq<char>> {
    v.map_values(|e: (String, Vec<String>)| e.0@)
}

/// Every entry is a shortest route to its key, at most `maxlen` routers long, and
/// its key is named in the graph.
pub open spec fn spec_entries_ok(
    g: Seq<(String, Vec<String>)>,
    source: Seq<char>,
    v: Seq<(String, Vec<String>)>,
    maxlen: nat,
) -> bool {
    &&& spec_unique_keys(v)
    &&& forall|i: int|
        0 <= i < v.len() ==> spec_shortest_route(g, source, (#[trigger] v[i]).0@, spec_path(v[i].1)) && spec_path(
            v[i].1,
        ).len() <= maxlen && spec_all_names(g).contains(v[i].0@)
}

/// Every router `1..=level` steps away has an entry.
pub open spec fn spec_complete_upto(
    g: Seq<(String, Vec<String>)>,
    source: Seq<char>,
    v: Seq<(String, Vec<String>)>,
    level: nat,
) -> bool {
    forall|w: Seq<char>, k: nat| 1 <= k <= level && #[trigger] spec_hops(g, source, w, k) ==> spec_has_key(v, w)
}

/// Every neighbour of `u` has an entry.
pub open spec fn spec_expanded(g: Seq<(String, Vec<String>)>, v: Seq<(String, Vec<String>)>, u: Seq<char>) -> bool {
    forall|w: Seq<char>| #[trigger] spec_adjacent(g, u, w) ==> spec_has_key(v, w)
}

/// `v` keeps the entries of `v0` and may add more.
pub open spec fn spec_extends(v0: Seq<(String, Vec<String>)>, v: Seq<(String, Vec<String>)>) -> bool {
    v.len() >= v0.len() && forall|i: int| 0 <= i < v0.len() ==> #[trigger] v[i] == v0[i]
}

/// Each entry of at least three routers extends the entry of the router before its last.
pub open spec fn spec_prefix_closed(v: Seq<(String, Vec<String>)>) -> bool {
    forall|i: int|
        0 <= i < v.len() && spec_path((#[trigger] v[i]).1).len() >= 3 ==> exists|j: int|
            0 <= j < v.len() && (#[trigger] v[j]).0@ == spec_path(v[i].1)[spec_path(v[i].1).len() - 2]
                && spec_path(v[j].1) == spec_path(v[i].1).take(spec_path(v[i].1).len() - 1)
}

proof fn lemma_extends_has_key(v0: Seq<(String, Vec<String>)>, v: Seq<(String, Vec<String>)>, w: Seq<char>)
    requires
        spec_extends(v0, v),
        spec_has_key(v0, w),
    ensures
        spec_has_key(v, w),
{
    let i = choose|i: int| 0 <= i < v0.len() && v0[i].0@ == w;
    assert(v[i] == v0[i]);
}

/// A table of unique keys named in the graph has at most as many entries as there are names.
proof fn lemma_visited_bound(g: Seq<(String, Vec<String>)>, v: Seq<(String, Vec<String>)>)
    requires
        spec_unique_keys(v),
        forall|i: int| 0 <= i < v.len() ==> spec_all_names(g).contains((#[trigger] v[i]).0@),
    ensures
        v.len() <= spec_all_names(g).to_set().len(),
{
    let k = spec_keys(v);
    assert(k.no_duplicates()) by {
        assert forall|a: int, b: int| 0 <= a < k.len() && 0 <= b < k.len() && a != b implies k[a] != k[b] by {
            assert(k[a] == v[a].0@ && k[b] == v[b].0@);
        }
    }
    k.unique_seq_to_set();
    let all = spec_all_names(g);
    assert(k.to_set().subset_of(all.to_set())) by {
        assert forall|x: Seq<char>| k.to_set().contains(x) implies all.to_set().contains(x) by {
            let a = choose|a: int| 0 <= a < k.len() && k[a] == x;
            assert(all.contains(v[a].0@));
        }
    }
    all.lemma_cardinality_of_set();
    vstd::set_lib::lemma_len_subset(k.to_set(), all.to_set());
}

/// When nothing is left to expand, every router reached in at least one step has an entry.
proof fn lemma_all_reached(
    g: Seq<(String, Vec<String>)>,
    source: Seq<char>,
    v: Seq<(String, Vec<String>)>,
    level: nat,
    w: Seq<char>,
    k: nat,
)
    requires
        level >= 1,
        k >= 1,
        spec_hops(g, source, w, k),
        spec_entries_ok(g, source, v, level + 1),
        spec_expanded(g, v, source),
        forall|i: int| 0 <= i < v.len() ==> spec_path((#[trigger] v[i]).1).len() <= level,
        forall|i: int| 0 <= i < v.len() && spec_path((#[trigger] v[i]).1).len() <= level ==> spec_expanded(g, v, v[i].0@),
    ensures
        spec_has_key(v, w),
    decreases k,
{
    let u = lemma_hops_step(g, source, w, (k - 1) as nat);
    if k == 1 {
        lemma_hops_zero(g, source, u);
    } else {
        lemma_all_reached(g, source, v, level, u, (k - 1) as nat);
        let i = choose|i: int| 0 <= i < v.len() && v[i].0@ == u;
        assert(spec_path(v[i].1).len() <= level);
        assert(spec_expanded(g, v, v[i].0@));
    }
}

/// The frontier of a level: routes of exactly `level` steps from `src` to their
/// last router, each (from level one on) also that router's entry.
pub open spec fn spec_frontier_ok(
    g: Seq<(String, Vec<String>)>,
    src: Seq<char>,
    fr: Seq<(String, Vec<String>)>,
    v: Seq<(String, Vec<String>)>,
    level: nat,
) -> bool {
    forall|f: int|
        0 <= f < fr.len() ==> {
            let q = spec_path((#[trigger] fr[f]).1);
            &&& q.len() == level + 1
            &&& q[0] == src
            &&& q.last() == fr[f].0@
            &&& spec_walk(g, q)
            &&& level >= 1 ==> exists|j: int|
                0 <= j < v.len() && (#[trigger] v[j]).0@ == fr[f].0@ && spec_path(v[j].1) == q
        }
}

/// The entries found at a level: `next[n]` is also entry `base + n`, a route of
/// `level + 1` steps from `src`.
pub open spec fn spec_next_ok(
    g: Seq<(String, Vec<String>)>,
    src: Seq<char>,
    next: Seq<(String, Vec<String>)>,
    v: Seq<(String, Vec<String>)>,
    base: int,
    level: nat,
) -> bool {
    forall|n: int|
        0 <= n < next.len() ==> {
            let q = spec_path((#[trigger] next[n]).1);
            &&& q.len() == level + 2
            &&& q[0] == src
            &&& q.last() == next[n].0@
            &&& spec_walk(g, q)
            &&& v[base + n].0 == next[n].0
            &&& spec_path(v[base + n].1) == q
        }
}

/// The state of the breadth-first search before level `level` is expanded.
pub open spec fn spec_bfs_level(
    g: Seq<(String, Vec<String>)>,
    src: Seq<char>,
    v: Seq<(String, Vec<String>)>,
    fr: Seq<(String, Vec<String>)>,
    level: nat,
) -> bool {
    &&& spec_entries_ok(g, src, v, level + 1)
    &&& spec_complete_upto(g, src, v, level)
    &&& spec_prefix_closed(v)
    &&& spec_frontier_ok(g, src, fr, v, level)
    &&& level == 0 ==> fr.len() == 1 && v.len() == 0
    &&& level >= 1 ==> forall|i: int|
        0 <= i < v.len() && spec_path((#[trigger] v[i]).1).len() == level + 1 ==> exists|f: int|
            0 <= f < fr.len() && (#[trigger] fr[f]).0@ == v[i].0@
    &&& forall|i: int|
        0 <= i < v.len() && spec_path((#[trigger] v[i]).1).len() <= level ==> spec_expanded(g, v, v[i].0@)
    &&& level >= 1 ==> spec_expanded(g, v, src)
}

/// What expanding part of a level keeps: the entries from before, every entry a
/// shortest route, the new ones listed in `next`.
pub open spec fn spec_expanding(
    g: Seq<(String, Vec<String>)>,
    src: Seq<char>,
    v0: Seq<(String, Vec<String>)>,
    v: Seq<(String, Vec<String>)>,
    next: Seq<(String, Vec<String>)>,
    fr: Seq<(String, Vec<String>)>,
    level: nat,
) -> bool {
    &&& spec_frontier_ok(g, src, fr, v0, level)
    &&& forall|i: int| 0 <= i < v0.len() ==> spec_path((#[trigger] v0[i]).1).len() <= level + 1
    &&& spec_extends(v0, v)
    &&& v.len() == v0.len() + next.len()
    &&& spec_entries_ok(g, src, v, level + 2)
    &&& spec_complete_upto(g, src, v, level)
    &&& spec_prefix_closed(v)
    &&& spec_next_ok(g, src, next, v, v0.len() as int, level)
}

/// An entry taken by its texts: the router and its route.
pub open spec fn spec_entry_view(e: (String, Vec<String>)) -> (Seq<char>, Seq<Seq<char>>) {
    (e.0@, spec_path(e.1))
}

/// The entries of a table taken by their texts, in order.
pub open spec fn spec_entry_views(v: Seq<(String, Vec<String>)>) -> Seq<(Seq<char>, Seq<Seq<char>>)> {
    v.map_values(|e: (String, Vec<String>)| spec_entry_view(e))
}

/// Whether router `w` has an entry.
pub open spec fn spec_reached(v: Seq<(Seq<char>, Seq<Seq<char>>)>, w: Seq<char>) -> bool {
    exists|i: int| 0 <= i < v.len() && v[i].0 == w
}

/// The neighbours listed for router `u`, in order (none when `u` has no list).
pub open spec fn spec_neighbor_list(g: Seq<(String, Vec<String>)>, u: Seq<char>) -> Seq<Seq<char>> {
    match spec_get(g, u) {
        Some(list) => spec_path(list),
        None => seq![],
    }
}

/// Breadth-first discovery from one router whose route is `path`: each listed
/// neighbour in turn, when not reached yet, is reached through `path` and
/// recorded both among the entries and among the next level's routers.
pub open spec fn spec_reach_list(
    v: Seq<(Seq<char>, Seq<Seq<char>>)>,
    next: Seq<(Seq<char>, Seq<Seq<char>>)>,
    path: Seq<Seq<char>>,
    list: Seq<Seq<char>>,
) -> (Seq<(Seq<char>, Seq<Seq<char>>)>, Seq<(Seq<char>, Seq<Seq<char>>)>)
    decreases list.len(),
{
    if list.len() == 0 {
        (v, next)
    } else {
        let (v1, n1) = spec_reach_list(v, next, path, list.drop_last());
        let w = list.last();
        if spec_reached(v1, w) {
            (v1, n1)
        } else {
            (v1.push((w, path.push(w))), n1.push((w, path.push(w))))
        }
    }
}

/// Breadth-first discovery from each router of a level in turn.
pub open spec fn spec_reach_level(
    g: Seq<(String, Vec<String>)>,
    v: Seq<(Seq<char>, Seq<Seq<char>>)>,
    next: Seq<(Seq<char>, Seq<Seq<char>>)>,
    level: Seq<(Seq<char>, Seq<Seq<char>>)>,
) -> (Seq<(Seq<char>, Seq<Seq<char>>)>, Seq<(Seq<char>, Seq<Seq<char>>)>)
    decreases level.len(),
{
    if level.len() == 0 {
        (v, next)
    } else {
        let (v1, n1) = spec_reach_level(g, v, next, level.drop_last());
        spec_reach_list(v1, n1, level.last().1, spec_neighbor_list(g, level.last().0))
    }
}

/// The entries and the routers of the current level after `n` levels of a
/// breadth-first search from `source` (a first-in, first-out queue of routers,
/// each reached by the route of the router that first lists it): at first no
/// entry, and the source alone with the route made of itself.
pub open spec fn spec_bfs(g: Seq<(String, Vec<String>)>, source: Seq<char>, n: nat) -> (
    Seq<(Seq<char>, Seq<Seq<char>>)>,
    Seq<(Seq<char>, Seq<Seq<char>>)>,
)
    decreases n,
{
    if n == 0 {
        (seq![], seq![(source, seq![source])])
    } else {
        let (v, level) = spec_bfs(g, source, (n - 1) as nat);
        spec_reach_level(g, v, seq![], level)
    }
}

proof fn lemma_reached_views(v: Seq<(String, Vec<String>)>, w: Seq<char>)
    ensures
        spec_has_key(v, w) <==> spec_reached(spec_entry_views(v), w),
{
    let vv = spec_entry_views(v);
    if spec_has_key(v, w) {
        let i = choose|i: int| 0 <= i < v.len() && v[i].0@ == w;
        assert(vv[i].0 == w);
    }
    if spec_reached(vv, w) {
        let i = choose|i: int| 0 <= i < vv.len() && vv[i].0 == w;
        assert(v[i].0@ == w);
    }
}

/// Records `w`, not yet reached, as reached through the frontier route `path`.
fn visit(
    visited: &mut Vec<(String, Vec<String>)>,
    next: &mut Vec<(String, Vec<String>)>,
    w: &String,
    path: &Vec<String>,
    Ghost(g): Ghost<Seq<(String, Vec<String>)>>,
    Ghost(src): Ghost<Seq<char>>,
    Ghost(v0): Ghost<Seq<(String, Vec<String>)>>,
    Ghost(fr): Ghost<Seq<(String, Vec<String>)>>,
    Ghost(f): Ghost<int>,
    Ghost(level): Ghost<nat>,
)
    requires
        spec_expanding(g, src, v0, old(visited)@, old(next)@, fr, level),
        0 <= f < fr.len(),
        *path == fr[f].1,
        spec_adjacent(g, fr[f].0@, w@),
        !spec_has_key(old(visited)@, w@),
    ensures
        spec_expanding(g, src, v0, final(visited)@, final(next)@, fr, level),
        spec_extends(old(visited)@, final(visited)@),
        spec_has_key(final(visited)@, w@),
        spec_entry_views(final(visited)@) == spec_entry_views(old(visited)@).push(
            (w@, spec_path(*path).push(w@)),
        ),
        spec_entry_views(final(next)@) == spec_entry_views(old(next)@).push((w@, spec_path(*path).push(w@))),
{
    let ghost vb = visited@;
    let ghost nb = next@;
    let mut np = copy_path(path);
    np.push(w.clone());
    let stored = copy_path(&np);
    let ghost q = spec_path(*path);
    proof {
        assert(spec_path(np) =~= q.push(w@));
        assert(spec_path(stored) =~= q.push(w@));
        assert(q.last() == fr[f].0@);
        lemma_walk_push(g, q, w@);
        lemma_adjacent_named(g, fr[f].0@, w@);
        assert forall|k: nat| 1 <= k < q.len() implies !#[trigger] spec_hops(g, src, w@, k) by {
            if spec_hops(g, src, w@, k) {
                assert(spec_has_key(vb, w@));
            }
        }
    }
    visited.push((w.clone(), stored));
    next.push((w.clone(), np));
    proof {
        let v = visited@;
        assert(spec_extends(vb, v));
        assert(spec_extends(v0, v)) by {
            assert forall|i: int| 0 <= i < v0.len() implies #[trigger] v[i] == v0[i] by {
                assert(vb[i] == v0[i]);
            }
        }
        assert(spec_unique_keys(v)) by {
            assert forall|a: int, b: int| 0 <= a < v.len() && 0 <= b < v.len() && a != b implies v[a].0@ != v[b].0@ by {
                if a < vb.len() && b < vb.len() {
                    assert(v[a] == vb[a] && v[b] == vb[b]);
                } else if a < vb.len() {
                    assert(v[a] == vb[a]);
                } else if b < vb.len() {
                    assert(v[b] == vb[b]);
                }
            }
        }
        assert forall|i: int| 0 <= i < v.len() implies spec_shortest_route(
            g,
            src,
            (#[trigger] v[i]).0@,
            spec_path(v[i].1),
        ) && spec_path(v[i].1).len() <= level + 2 && spec_all_names(g).contains(v[i].0@) by {
            if i < vb.len() {
                assert(v[i] == vb[i]);
            }
        }
        assert(spec_complete_upto(g, src, v, level)) by {
            assert forall|x: Seq<char>, k: nat| 1 <= k <= level && #[trigger] spec_hops(g, src, x, k) implies spec_has_key(v, x) by {
                lemma_extends_has_key(vb, v, x);
            }
        }
        assert(spec_prefix_closed(v)) by {
            assert forall|i: int| 0 <= i < v.len() && spec_path((#[trigger] v[i]).1).len() >= 3 implies exists|jj: int|
                0 <= jj < v.len() && (#[trigger] v[jj]).0@ == spec_path(v[i].1)[spec_path(v[i].1).len() - 2]
                    && spec_path(v[jj].1) == spec_path(v[i].1).take(spec_path(v[i].1).len() - 1) by {
                if i < vb.len() {
                    assert(v[i] == vb[i]);
                    let jj = choose|jj: int|
                        0 <= jj < vb.len() && (#[trigger] vb[jj]).0@ == spec_path(vb[i].1)[spec_path(vb[i].1).len() - 2]
                            && spec_path(vb[jj].1) == spec_path(vb[i].1).take(spec_path(vb[i].1).len() - 1);
                    assert(v[jj] == vb[jj]);
                } else {
                    assert(level >= 1);
                    let jv = choose|jv: int|
                        0 <= jv < v0.len() && (#[trigger] v0[jv]).0@ == fr[f].0@ && spec_path(v0[jv].1) == q;
                    assert(v[jv] == v0[jv]);
                    assert(spec_path(v[i].1) == q.push(w@));
                    assert(q.push(w@).take(q.len() as int) =~= q);
                    assert(q.push(w@)[q.len() - 1] == q.last());
                }
            }
        }
        assert(spec_next_ok(g, src, next@, v, v0.len() as int, level)) by {
            assert forall|n: int| 0 <= n < next@.len() implies {
                let qq = spec_path((#[trigger] next@[n]).1);
                &&& qq.len() == level + 2
                &&& qq[0] == src
                &&& qq.last() == next@[n].0@
                &&& spec_walk(g, qq)
                &&& v[v0.len() + n].0 == next@[n].0
                &&& spec_path(v[v0.len() + n].1) == qq
            } by {
                if n < nb.len() {
                    assert(next@[n] == nb[n]);
                    assert(v[v0.len() + n] == vb[v0.len() + n]);
                }
            }
        }
        assert(v[v.len() - 1].0@ == w@);
        assert(spec_entry_views(v) =~= spec_entry_views(vb).push((w@, q.push(w@))));
        assert(spec_entry_views(next@) =~= spec_entry_views(nb).push((w@, q.push(w@))));
    }
}

/// Reaches every neighbour of frontier router `f` not reached yet.
fn expand_router(
    graph: &Vec<(String, Vec<String>)>,
    visited: &mut Vec<(String, Vec<String>)>,
    next: &mut Vec<(String, Vec<String>)>,
    node: &String,
    path: &Vec<String>,
    Ghost(src): Ghost<Seq<char>>,
    Ghost(v0): Ghost<Seq<(String, Vec<String>)>>,
    Ghost(fr): Ghost<Seq<(String, Vec<String>)>>,
    Ghost(f): Ghost<int>,
    Ghost(level): Ghost<nat>,
)
    requires
        spec_expanding(graph@, src, v0, old(visited)@, old(next)@, fr, level),
        0 <= f < fr.len(),
        *node == fr[f].0,
        *path == fr[f].1,
    ensures
        spec_expanding(graph@, src, v0, final(visited)@, final(next)@, fr, level),
        spec_extends(old(visited)@, final(visited)@),
        spec_expanded(graph@, final(visited)@, node@),
        (spec_entry_views(final(visited)@), spec_entry_views(final(next)@)) == spec_reach_list(
            spec_entry_views(old(visited)@),
            spec_entry_views(old(next)@),
            spec_path(*path),
            spec_neighbor_list(graph@, node@),
        ),
{
    let ghost g = graph@;
    let ghost vin = spec_entry_views(visited@);
    let ghost nin = spec_entry_views(next@);
    match get_keyed(graph, node) {
        Some(list) => {
            let ghost vf = visited@;
            let mut j: usize = 0;
            while j < list.len()
                invariant
                    g == graph@,
                    spec_get(g, node@) == Some(*list),
                    j <= list@.len(),
                    0 <= f < fr.len(),
                    *node == fr[f].0,
                    *path == fr[f].1,
                    spec_expanding(g, src, v0, visited@, next@, fr, level),
                    spec_extends(vf, visited@),
                    forall|jj: int| 0 <= jj < j ==> spec_has_key(visited@, (#[trigger] list@[jj])@),
                    (spec_entry_views(visited@), spec_entry_views(next@)) == spec_reach_list(
                        vin,
                        nin,
                        spec_path(*path),
                        spec_path(*list).take(j as int),
                    ),
                decreases list@.len() - j,
            {
                let w = &list[j];
                proof {
                    let lv = spec_path(*list);
                    assert(lv.take(j as int + 1).drop_last() =~= lv.take(j as int));
                    assert(lv.take(j as int + 1).last() == w@);
                    lemma_reached_views(visited@, w@);
                }
                proof {
                    lemma_key_index(visited@, w@);
                    assert(list@[j as int]@ == w@);
                }
                let ghost vb = visited@;
                proof {
                    let l = spec_get(g, node@).unwrap();
                    assert(l == *list);
                    assert(l@[j as int]@ == w@);
                    assert(spec_adjacent(g, node@, w@));
                }
                if find_key(&visited, w).is_none() {
                    visit(visited, next, w, path, Ghost(g), Ghost(src), Ghost(v0), Ghost(fr), Ghost(f), Ghost(level));
                    proof {
                        assert(spec_extends(vf, visited@)) by {
                            assert forall|i: int| 0 <= i < vf.len() implies #[trigger] visited@[i] == vf[i] by {
                                assert(vb[i] == vf[i]);
                            }
                        }
                        assert forall|jj: int| 0 <= jj < j + 1 implies spec_has_key(visited@, (#[trigger] list@[jj])@) by {
                            if jj < j {
                                lemma_extends_has_key(vb, visited@, list@[jj]@);
                            }
                        }
                    }
                } else {
                    proof {
                        let i = spec_key_index(visited@, w@).unwrap();
                        assert(visited@[i].0@ == w@);
                    }
                }
                j += 1;
            }
            proof {
                assert forall|x: Seq<char>| #[trigger] spec_adjacent(g, node@, x) implies spec_has_key(visited@, x) by {
                    let jj = choose|jj: int| 0 <= jj < list@.len() && (#[trigger] list@[jj])@ == x;
                }
                assert(spec_path(*list).take(list@.len() as int) =~= spec_path(*list));
            }
        },
        None => {},
    }
}

/// Expands one level: every neighbour of a frontier router not reached yet is
/// reached; returns them, in order, with their routes.
#[verifier::spinoff_prover]
#[verifier::rlimit(40)]
fn expand_level(
    graph: &Vec<(String, Vec<String>)>,
    visited: &mut Vec<(String, Vec<String>)>,
    frontier: &Vec<(String, Vec<String>)>,
    Ghost(src): Ghost<Seq<char>>,
    Ghost(level): Ghost<nat>,
) -> (next: Vec<(String, Vec<String>)>)
    requires
        spec_bfs_level(graph@, src, old(visited)@, frontier@, level),
    ensures
        spec_expanding(graph@, src, old(visited)@, final(visited)@, next@, frontier@, level),
        forall|f: int| 0 <= f < frontier@.len() ==> spec_expanded(graph@, final(visited)@, (#[trigger] frontier@[f]).0@),
        (spec_entry_views(final(visited)@), spec_entry_views(next@)) == spec_reach_level(
            graph@,
            spec_entry_views(old(visited)@),
            seq![],
            spec_entry_views(frontier@),
        ),
{
    let ghost g = graph@;
    let ghost v0 = visited@;
    let ghost fr = frontier@;
    let ghost frv = spec_entry_views(frontier@);
    let mut next: Vec<(String, Vec<String>)> = Vec::new();
    proof {
        assert(spec_extends(v0, visited@));
        assert(visited@ =~= v0);
    }
    let mut f: usize = 0;
    while f < frontier.len()
        invariant
            g == graph@,
            fr == frontier@,
            f <= fr.len(),
            spec_expanding(g, src, v0, visited@, next@, fr, level),
            forall|ff: int| 0 <= ff < f ==> spec_expanded(g, visited@, (#[trigger] fr[ff]).0@),
            frv == spec_entry_views(fr),
            (spec_entry_views(visited@), spec_entry_views(next@)) == spec_reach_level(
                g,
                spec_entry_views(v0),
                seq![],
                frv.take(f as int),
            ),
        decreases fr.len() - f,
    {
        proof {
            assert(frv.take(f as int + 1).drop_last() =~= frv.take(f as int));
            assert(frv.take(f as int + 1).last() == spec_entry_view(fr[f as int]));
        }
        let ghost vb = visited@;
        let ghost nb = next@;
        expand_router(graph, visited, &mut next, &frontier[f].0, &frontier[f].1, Ghost(src), Ghost(v0), Ghost(fr), Ghost(f as int), Ghost(level));
        proof {
            assert((spec_entry_views(visited@), spec_entry_views(next@)) == spec_reach_level(
                g,
                spec_entry_views(v0),
                seq![],
                frv.take(f as int + 1),
            )) by {
                let e = frv.take(f as int + 1).last();
                assert(e.0 == fr[f as int].0@ && e.1 == spec_path(fr[f as int].1));
                assert(spec_reach_level(g, spec_entry_views(v0), seq![], frv.take(f as int)) == (
                    spec_entry_views(vb),
                    spec_entry_views(nb),
                ));
            }
            assert forall|ff: int| 0 <= ff < f + 1 implies spec_expanded(g, visited@, (#[trigger] fr[ff]).0@) by {
                if ff < f {
                    assert forall|x: Seq<char>| #[trigger] spec_adjacent(g, fr[ff].0@, x) implies spec_has_key(visited@, x) by {
                        assert(spec_expanded(g, vb, fr[ff].0@));
                        lemma_extends_has_key(vb, visited@, x);
                    }
                }
            }
        }
        f += 1;
    }
    proof {
        assert(frv.take(fr.len() as int) =~= frv);
    }
    next
}

/// One level further, every router is reached.
proof fn lemma_next_complete(
    g: Seq<(String, Vec<String>)>,
    src: Seq<char>,
    v0: Seq<(String, Vec<String>)>,
    v: Seq<(String, Vec<String>)>,
    fr: Seq<(String, Vec<String>)>,
    level: nat,
)
    requires
        spec_complete_upto(g, src, v0, level),
        spec_complete_upto(g, src, v, level),
        spec_extends(v0, v),
        spec_frontier_ok(g, src, fr, v0, level),
        level == 0 ==> fr.len() == 1,
        forall|i: int| 0 <= i < v0.len() ==> spec_path((#[trigger] v0[i]).1).len() <= level + 1,
        level >= 1 ==> forall|i: int|
            0 <= i < v0.len() && spec_path((#[trigger] v0[i]).1).len() == level + 1 ==> exists|f: int|
                0 <= f < fr.len() && (#[trigger] fr[f]).0@ == v0[i].0@,
        forall|i: int|
            0 <= i < v0.len() && spec_path((#[trigger] v0[i]).1).len() <= level ==> spec_expanded(g, v0, v0[i].0@),
        forall|f: int| 0 <= f < fr.len() ==> spec_expanded(g, v, (#[trigger] fr[f]).0@),
    ensures
        spec_complete_upto(g, src, v, level + 1),
{
    assert forall|x: Seq<char>, k: nat| 1 <= k <= level + 1 && #[trigger] spec_hops(g, src, x, k) implies spec_has_key(v, x) by {
        if k > level {
            let u = lemma_hops_step(g, src, x, level);
            if level == 0 {
                lemma_hops_zero(g, src, u);
                assert(spec_path(fr[0].1)[0] == src);
                assert(spec_expanded(g, v, fr[0].0@));
            } else {
                assert(spec_has_key(v0, u));
                let i = choose|i: int| 0 <= i < v0.len() && v0[i].0@ == u;
                if spec_path(v0[i].1).len() <= level {
                    assert(spec_expanded(g, v0, v0[i].0@));
                    lemma_extends_has_key(v0, v, x);
                } else {
                    let ff = choose|ff: int| 0 <= ff < fr.len() && (#[trigger] fr[ff]).0@ == v0[i].0@;
                    assert(spec_expanded(g, v, fr[ff].0@));
                }
            }
        }
    }
}

/// One level further, every entry not in the new frontier is expanded.
proof fn lemma_next_expanded(
    g: Seq<(String, Vec<String>)>,
    src: Seq<char>,
    v0: Seq<(String, Vec<String>)>,
    v: Seq<(String, Vec<String>)>,
    next: Seq<(String, Vec<String>)>,
    fr: Seq<(String, Vec<String>)>,
    level: nat,
)
    requires
        spec_extends(v0, v),
        v.len() == v0.len() + next.len(),
        spec_next_ok(g, src, next, v, v0.len() as int, level),
        spec_frontier_ok(g, src, fr, v0, level),
        level == 0 ==> fr.len() == 1 && v0.len() == 0,
        level >= 1 ==> spec_expanded(g, v0, src),
        level >= 1 ==> forall|i: int|
            0 <= i < v0.len() && spec_path((#[trigger] v0[i]).1).len() == level + 1 ==> exists|f: int|
                0 <= f < fr.len() && (#[trigger] fr[f]).0@ == v0[i].0@,
        forall|i: int| 0 <= i < v0.len() ==> spec_path((#[trigger] v0[i]).1).len() <= level + 1,
        forall|i: int|
            0 <= i < v0.len() && spec_path((#[trigger] v0[i]).1).len() <= level ==> spec_expanded(g, v0, v0[i].0@),
        forall|f: int| 0 <= f < fr.len() ==> spec_expanded(g, v, (#[trigger] fr[f]).0@),
    ensures
        forall|i: int|
            0 <= i < v.len() && spec_path((#[trigger] v[i]).1).len() <= level + 1 ==> spec_expanded(g, v, v[i].0@),
        spec_expanded(g, v, src),
{
    assert forall|i: int|
        0 <= i < v.len() && spec_path((#[trigger] v[i]).1).len() <= level + 1 implies spec_expanded(g, v, v[i].0@) by {
        if i < v0.len() {
            assert(v[i] == v0[i]);
            if spec_path(v0[i].1).len() <= level {
                assert forall|x: Seq<char>| #[trigger] spec_adjacent(g, v[i].0@, x) implies spec_has_key(v, x) by {
                    assert(spec_expanded(g, v0, v0[i].0@));
                    lemma_extends_has_key(v0, v, x);
                }
            } else {
                let ff = choose|ff: int| 0 <= ff < fr.len() && (#[trigger] fr[ff]).0@ == v0[i].0@;
                assert(spec_expanded(g, v, fr[ff].0@));
            }
        } else {
            let n = i - v0.len();
            assert(spec_path(next[n].1).len() == level + 2);
        }
    }
    assert(spec_expanded(g, v, src)) by {
        if level == 0 {
            assert(spec_path(fr[0].1)[0] == src);
            assert(spec_expanded(g, v, fr[0].0@));
        } else {
            assert forall|x: Seq<char>| #[trigger] spec_adjacent(g, src, x) implies spec_has_key(v, x) by {
                assert(spec_expanded(g, v0, src));
                lemma_extends_has_key(v0, v, x);
            }
        }
    }
}

/// After a level is expanded, the search stands before the next one.
proof fn lemma_level_done(
    g: Seq<(String, Vec<String>)>,
    src: Seq<char>,
    v0: Seq<(String, Vec<String>)>,
    v: Seq<(String, Vec<String>)>,
    next: Seq<(String, Vec<String>)>,
    fr: Seq<(String, Vec<String>)>,
    level: nat,
)
    requires
        spec_bfs_level(g, src, v0, fr, level),
        spec_expanding(g, src, v0, v, next, fr, level),
        forall|f: int| 0 <= f < fr.len() ==> spec_expanded(g, v, (#[trigger] fr[f]).0@),
    ensures
        spec_bfs_level(g, src, v, next, level + 1),
{
    lemma_next_complete(g, src, v0, v, fr, level);
    lemma_next_expanded(g, src, v0, v, next, fr, level);
    lemma_next_frontier(g, src, v0, v, next, level);
}

/// The entries found at a level make the next frontier.
proof fn lemma_next_frontier(
    g: Seq<(String, Vec<String>)>,
    src: Seq<char>,
    v0: Seq<(String, Vec<String>)>,
    v: Seq<(String, Vec<String>)>,
    next: Seq<(String, Vec<String>)>,
    level: nat,
)
    requires
        spec_extends(v0, v),
        v.len() == v0.len() + next.len(),
        spec_next_ok(g, src, next, v, v0.len() as int, level),
        forall|i: int| 0 <= i < v0.len() ==> spec_path((#[trigger] v0[i]).1).len() <= level + 1,
    ensures
        spec_frontier_ok(g, src, next, v, level + 1),
        forall|i: int|
            0 <= i < v.len() && spec_path((#[trigger] v[i]).1).len() == level + 2 ==> exists|n: int|
                0 <= n < next.len() && (#[trigger] next[n]).0@ == v[i].0@,
{
    assert forall|i: int|
        0 <= i < v.len() && spec_path((#[trigger] v[i]).1).len() == level + 2 implies exists|n: int|
            0 <= n < next.len() && (#[trigger] next[n]).0@ == v[i].0@ by {
        if i < v0.len() {
            assert(v[i] == v0[i]);
        } else {
            let n = i - v0.len();
            assert(next[n].0 == v[i].0);
        }
    }
    assert forall|n: int| 0 <= n < next.len() implies exists|jv: int|
        0 <= jv < v.len() && (#[trigger] v[jv]).0@ == (#[trigger] next[n]).0@ && spec_path(v[jv].1) == spec_path(next[n].1) by {
        assert(v[v0.len() + n].0 == next[n].0);
    }
}

/// Routes from `source` to every router that can be reached in at least one
/// step: each is a shortest such route (hop count), found breadth first, and the
/// route to a router extends the route to the router before it. `source` itself
/// has an entry only when some route leads back to it. The entries are exactly
/// those of the breadth-first search `spec_bfs`, in the order it finds them: of
/// several shortest routes, the one through the router reached first (and, from
/// one router, through the neighbour listed first) is kept.
pub fn compute_routes(graph: &Vec<(String, Vec<String>)>, source: &str) -> (r: Vec<(String, Vec<String>)>)
    ensures
        spec_unique_keys(r@),
        forall|w: Seq<char>| spec_has_key(r@, w) <==> exists|k: nat| k >= 1 && #[trigger] spec_hops(graph@, source@, w, k),
        forall|i: int| 0 <= i < r@.len() ==> spec_shortest_route(graph@, source@, (#[trigger] r@[i]).0@, spec_path(r@[i].1)),
        spec_prefix_closed(r@),
        exists|n: nat|
            (#[trigger] spec_bfs(graph@, source@, n)).1.len() == 0 && spec_entry_views(r@) == spec_bfs(
                graph@,
                source@,
                n,
            ).0,
{
    let ghost g = graph@;
    let ghost src = source@;
    let ghost bound = spec_all_names(g).to_set().len();
    let start = source.to_owned();
    let mut start_path: Vec<String> = Vec::new();
    start_path.push(start.clone());
    let mut visited: Vec<(String, Vec<String>)> = Vec::new();
    let mut frontier: Vec<(String, Vec<String>)> = Vec::new();
    frontier.push((start, start_path));
    let ghost mut level: nat = 0;
    proof {
        assert(spec_path(frontier@[0].1) =~= seq![src]);
        assert(spec_walk(g, spec_path(frontier@[0].1)));
        assert(spec_entry_views(visited@) =~= spec_bfs(g, src, 0).0);
        assert(spec_entry_views(frontier@) =~= spec_bfs(g, src, 0).1);
    }
    while frontier.len() > 0
        invariant
            g == graph@,
            src == source@,
            bound == spec_all_names(g).to_set().len(),
            visited@.len() <= bound,
            spec_bfs_level(g, src, visited@, frontier@, level),
            (spec_entry_views(visited@), spec_entry_views(frontier@)) == spec_bfs(g, src, level),
        decreases 2 * (bound - visited@.len()) + (if frontier@.len() > 0 { 1int } else { 0int }),
    {
        let ghost v0 = visited@;
        let ghost f0 = frontier@;
        let next = expand_level(graph, &mut visited, &frontier, Ghost(src), Ghost(level));
        proof {
            lemma_level_done(g, src, v0, visited@, next@, f0, level);
            lemma_visited_bound(g, visited@);
        }
        frontier = next;
        proof {
            level = level + 1;
        }
    }
    proof {
        assert(spec_bfs(g, src, level).1.len() == 0);
        let v = visited@;
        assert(level >= 1);
        assert forall|w: Seq<char>| spec_has_key(v, w) <==> exists|k: nat| k >= 1 && #[trigger] spec_hops(g, src, w, k) by {
            if spec_has_key(v, w) {
                let i = choose|i: int| 0 <= i < v.len() && v[i].0@ == w;
                let p = spec_path(v[i].1);
                assert(spec_shortest_route(g, src, v[i].0@, p));
                assert(spec_hops(g, src, w, (p.len() - 1) as nat)) by {
                    reveal(spec_hops);
                }
            }
            if exists|k: nat| k >= 1 && #[trigger] spec_hops(g, src, w, k) {
                let k = choose|k: nat| k >= 1 && #[trigger] spec_hops(g, src, w, k);
                assert forall|i: int| 0 <= i < v.len() implies spec_path((#[trigger] v[i]).1).len() <= level by {
                    if spec_path(v[i].1).len() == level + 1 {
                        let ff = choose|ff: int| 0 <= ff < frontier@.len() && (#[trigger] frontier@[ff]).0@ == v[i].0@;
                    }
                }
                lemma_all_reached(g, src, v, level, w, k);
            }
        }
    }
    visited
}

} // verus!
