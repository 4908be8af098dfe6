//! OSPF-style neighbour bookkeeping: the state of each adjacency and the hello timers.
use vstd::prelude::*;
use crate::net::IpAddress;
use crate::protocol::neighbor::{unix_now_nanos, spec_clock_nanos};
use crate::protocol::keyed::{
    spec_insert, spec_remove, spec_get, spec_has_key, spec_key_index, spec_unique_keys, lemma_key_index, find_key,
    insert_keyed, remove_keyed, get_keyed,
};

verus! {

/// The state of an adjacency.
#[derive(Debug, Clone, Copy, PartialEq, Eq, Structural)]
pub enum NeighborState {
    Down,
    Init,
    TwoWay,
    ExStart,
    Exchange,
    Loading,
    Full,
}

/// A neighbouring router.
#[derive(Debug)]
pub struct Neighbor {
    pub router_id: String,
    pub router_name: String,
    pub ip_address: IpAddress,
    pub state: NeighborState,
    /// When its last hello arrived, in nanoseconds since the Unix epoch.
    pub last_hello: i64,
    /// Seconds of silence after which it is dead.
    pub dead_interval: u32,
    pub hello_interval: u32,
    pub interface: String,
}

impl Neighbor {
    /// A neighbour just met at time `now` (nanoseconds since the epoch), in state `Init`.
    pub fn new_at(
        router_id: String,
        router_name: String,
        ip_address: IpAddress,
        interface: String,
        hello_interval: u32,
        dead_interval: u32,
        now: i64,
    ) -> (r: Neighbor)
        ensures
            r == (Neighbor {
                router_id,
                router_name,
                ip_address,
                state: NeighborState::Init,
                last_hello: now,
                dead_interval,
                hello_interval,
                interface,
            }),
    {
        Neighbor {
            router_id,
            router_name,
            ip_address,
            state: NeighborState::Init,
            last_hello: now,
            dead_interval,
            hello_interval,
            interface,
        }
    }

    /// A neighbour just met, by the clock (see `new_at`; the time is not stated).
    pub fn new(
        router_id: String,
        router_name: String,
        ip_address: IpAddress,
        interface: String,
        hello_interval: u32,
        dead_interval: u32,
    ) -> (r: Neighbor)
        ensures
            r.router_id == router_id,
            r.router_name == router_name,
            r.ip_address == ip_address,
            r.state == NeighborState::Init,
            r.dead_interval == dead_interval,
            r.hello_interval == hello_interval,
            r.interface == interface,
    {
        let now = unix_now_nanos();
        Self::new_at(router_id, router_name, ip_address, interface, hello_interval, dead_interval, now)
    }

    /// Whether the adjacency is up (any state but `Down`).
    pub fn is_active(&self) -> (r: bool)
        ensures
            r == (self.state != NeighborState::Down),
    {
        self.state != NeighborState::Down
    }

    /// Nanoseconds since the last hello, at time `now`.
    pub fn time_since_last_hello_at(&self, now: i64) -> (r: i128)
        ensures
            r == now - self.last_hello,
    {
        now as i128 - self.last_hello as i128
    }

    /// Nanoseconds since the last hello, by the clock (see
    /// `time_since_last_hello_at`): `now - last_hello` for the time `now` of a
    /// clock reading.
    pub fn time_since_last_hello(&self) -> (r: i128)
        ensures
            exists|reading: Result<u128, u128>| r == #[trigger] spec_clock_nanos(reading) - self.last_hello,
    {
        let now = unix_now_nanos();
        let ghost reading = choose|reading: Result<u128, u128>| now == spec_clock_nanos(reading);
        let r = self.time_since_last_hello_at(now);
        assert(r == spec_clock_nanos(reading) - self.last_hello);
        r
    }

    /// An identical copy.
    pub fn duplicate(&self) -> (r: Neighbor)
        ensures
            r == *self,
    {
        Neighbor {
            router_id: self.router_id.clone(),
            router_name: self.router_name.clone(),
            ip_address: self.ip_address,
            state: self.state,
            last_hello: self.last_hello,
            dead_interval: self.dead_interval,
            hello_interval: self.hello_interval,
            interface: self.interface.clone(),
        }
    }
}

/// A neighbour silent for longer than its dead interval (seconds) at `now`
/// (nanoseconds).
pub open spec fn spec_silent(now: i64) -> spec_fn((String, Neighbor)) -> bool {
    |e: (String, Neighbor)| now - e.1.last_hello > e.1.dead_interval * 1_000_000_000
}

/// Any entry not selected by `p`.
pub open spec fn spec_other(p: spec_fn((String, Neighbor)) -> bool) -> spec_fn((String, Neighbor)) -> bool {
    |e: (String, Neighbor)| !p(e)
}

/// An adjacency that is up.
pub open spec fn spec_up() -> spec_fn((String, Neighbor)) -> bool {
    |e: (String, Neighbor)| e.1.state != NeighborState::Down
}

/// A neighbour seen on the named interface.
pub open spec fn spec_on_interface(name: Seq<char>) -> spec_fn((String, Neighbor)) -> bool {
    |e: (String, Neighbor)| e.1.interface@ == name
}

/// The table after a hello from `id` at `now`: its entry, if any, is in state
/// `TwoWay` with the hello's time.
pub open spec fn spec_hello_at(s: Seq<(String, Neighbor)>, id: Seq<char>, now: i64) -> Seq<(String, Neighbor)> {
    match spec_key_index(s, id) {
        Some(i) => s.update(i, (s[i].0, Neighbor { state: NeighborState::TwoWay, last_hello: now, ..s[i].1 })),
        None => s,
    }
}

/// Keeps the neighbours of a router, keyed by router identifier.
#[derive(Debug)]
pub struct NeighborManager {
    neighbors: Vec<(String, Neighbor)>,
    dead_interval: u32,
}

impl NeighborManager {
    /// The neighbours, in the order they were first added.
    pub closed spec fn entries(&self) -> Seq<(String, Neighbor)> {
        self.neighbors@
    }

    /// The dead interval the manager was made with.
    pub closed spec fn spec_dead_interval(&self) -> u32 {
        self.dead_interval
    }

    /// Router identifiers are unique.
    pub open spec fn wf(&self) -> bool {
        spec_unique_keys(self.entries())
    }

    pub fn new(dead_interval: u32) -> (r: NeighborManager)
        ensures
            r.entries() == Seq::<(String, Neighbor)>::empty(),
            r.spec_dead_interval() == dead_interval,
            r.wf(),
    {
        NeighborManager { neighbors: Vec::new(), dead_interval }
    }

    /// Stores a neighbour under its identifier, replacing one with the same identifier.
    pub fn add_neighbor(&mut self, neighbor: Neighbor)
        requires
            old(self).wf(),
        ensures
            final(self).wf(),
            final(self).entries() == spec_insert(old(self).entries(), neighbor.router_id, neighbor),
            final(self).spec_dead_interval() == old(self).spec_dead_interval(),
    {
        let id = neighbor.router_id.clone();
        insert_keyed(&mut self.neighbors, id, neighbor);
    }

    /// Records a hello from `router_id` at time `now`: a known neighbour goes to
    /// `TwoWay` with that time. Returns whether it was known.
    pub fn update_neighbor_hello_at(&mut self, router_id: &String, now: i64) -> (r: bool)
        requires
            old(self).wf(),
        ensures
            final(self).wf(),
            r == spec_has_key(old(self).entries(), router_id@),
            final(self).entries() == spec_hello_at(old(self).entries(), router_id@, now),
            final(self).spec_dead_interval() == old(self).spec_dead_interval(),
    {
        proof {
            lemma_key_index(self.neighbors@, router_id@);
        }
        match find_key(&self.neighbors, router_id) {
            Some(i) => {
                self.neighbors[i].1.last_hello = now;
                self.neighbors[i].1.state = NeighborState::TwoWay;
                proof {
                    assert(self.neighbors@ =~= spec_hello_at(old(self).neighbors@, router_id@, now));
                    assert forall|a: int, b: int|
                        0 <= a < self.neighbors@.len() && 0 <= b < self.neighbors@.len() && a != b implies self.neighbors@[a].0@
                            != self.neighbors@[b].0@ by {
                        assert(self.neighbors@[a].0 == old(self).neighbors@[a].0);
                        assert(self.neighbors@[b].0 == old(self).neighbors@[b].0);
                    }
                }
                true
            },
            None => false,
        }
    }

    /// Records a hello from `router_id` now, by the clock (see `update_neighbor_hello_at`;
    /// the time is not stated).
    pub fn update_neighbor_hello(&mut self, router_id: &String) -> (r: bool)
        requires
            old(self).wf(),
        ensures
            final(self).wf(),
            r == spec_has_key(old(self).entries(), router_id@),
            exists|now: i64| final(self).entries() == spec_hello_at(old(self).entries(), router_id@, now),
            final(self).spec_dead_interval() == old(self).spec_dead_interval(),
    {
        let now = unix_now_nanos();
        self.update_neighbor_hello_at(router_id, now)
    }

    /// The neighbour with this identifier.
    pub fn get_neighbor(&self, router_id: &String) -> (r: Option<&Neighbor>)
        ensures
            match spec_get(self.entries(), router_id@) {
                Some(n) => r == Some(&n),
                None => r is None,
            },
    {
        get_keyed(&self.neighbors, router_id)
    }

    /// All neighbours with their identifiers.
    pub fn get_neighbors(&self) -> (r: &Vec<(String, Neighbor)>)
        ensures
            r@ == self.entries(),
    {
        &self.neighbors
    }

    /// The neighbours whose adjacency is up, in table order.
    pub fn get_active_neighbors(&self) -> (r: Vec<&Neighbor>)
        ensures
            r@.len() == self.entries().filter(spec_up()).len(),
            forall|k: int| 0 <= k < r@.len() ==> *r@[k] == self.entries().filter(spec_up())[k].1,
    {
        self.select(Ghost(spec_up()), |e: &(String, Neighbor)| -> (b: bool)
            ensures b == spec_up()(*e)
            { e.1.state != NeighborState::Down })
    }

    /// The neighbours seen on the named interface, in table order.
    pub fn get_neighbors_for_interface(&self, interface: &str) -> (r: Vec<&Neighbor>)
        ensures
            r@.len() == self.entries().filter(spec_on_interface(interface@)).len(),
            forall|k: int| 0 <= k < r@.len() ==> *r@[k] == self.entries().filter(spec_on_interface(interface@))[k].1,
    {
        let name = interface.to_owned();
        self.select(Ghost(spec_on_interface(interface@)), |e: &(String, Neighbor)| -> (b: bool)
            ensures b == spec_on_interface(name@)(*e)
            { e.1.interface == name })
    }

    /// The neighbours of the entries that `keep` selects, in table order.
    fn select<F: Fn(&(String, Neighbor)) -> bool>(&self, Ghost(p): Ghost<spec_fn((String, Neighbor)) -> bool>, keep: F) -> (r: Vec<&Neighbor>)
        requires
            forall|e: &(String, Neighbor)| #[trigger] keep.requires((e,)),
            forall|e: &(String, Neighbor), b: bool| keep.ensures((e,), b) ==> b == p(*e),
        ensures
            r@.len() == self.entries().filter(p).len(),
            forall|k: int| 0 <= k < r@.len() ==> *r@[k] == self.entries().filter(p)[k].1,
    {
        let ghost s = self.neighbors@;
        let mut out: Vec<&Neighbor> = Vec::new();
        let mut i: usize = 0;
        while i < self.neighbors.len()
            invariant
                i <= s.len(),
                self.neighbors@ == s,
                forall|e: &(String, Neighbor)| #[trigger] keep.requires((e,)),
                forall|e: &(String, Neighbor), b: bool| keep.ensures((e,), b) ==> b == p(*e),
                out@.len() == s.take(i as int).filter(p).len(),
                forall|k: int| 0 <= k < out@.len() ==> *out@[k] == s.take(i as int).filter(p)[k].1,
            decreases s.len() - i,
        {
            proof {
                reveal(Seq::filter);
                assert(s.take(i as int + 1).drop_last() =~= s.take(i as int));
                assert(s.take(i as int + 1).last() == s[i as int]);
            }
            let e = &self.neighbors[i];
            if keep(e) {
                out.push(&e.1);
            }
            i += 1;
        }
        proof {
            assert(s.take(s.len() as int) =~= s);
        }
        out
    }

    /// Forgets a neighbour, returning it.
    pub fn remove_neighbor(&mut self, router_id: &String) -> (r: Option<Neighbor>)
        requires
            old(self).wf(),
        ensures
            final(self).wf(),
            final(self).entries() == spec_remove(old(self).entries(), router_id@),
            r == spec_get(old(self).entries(), router_id@),
            final(self).spec_dead_interval() == old(self).spec_dead_interval(),
    {
        remove_keyed(&mut self.neighbors, router_id)
    }

    /// Forgets every neighbour silent for longer than its own dead interval at
    /// `now`; returns their identifiers, in table order.
    pub fn check_dead_neighbors_at(&mut self, now: i64) -> (r: Vec<String>)
        requires
            old(self).wf(),
        ensures
            final(self).wf(),
            final(self).entries() == old(self).entries().filter(spec_other(spec_silent(now))),
            r@ == old(self).entries().filter(spec_silent(now)).map_values(|e: (String, Neighbor)| e.0),
            final(self).spec_dead_interval() == old(self).spec_dead_interval(),
    {
        let ghost s = self.neighbors@;
        let ghost p = spec_silent(now);
        let mut kept: Vec<(String, Neighbor)> = Vec::new();
        let mut dead: Vec<String> = Vec::new();
        let mut i: usize = 0;
        while i < self.neighbors.len()
            invariant
                i <= s.len(),
                self.neighbors@ == s,
                p == spec_silent(now),
                kept@ == s.take(i as int).filter(spec_other(p)),
                dead@ == s.take(i as int).filter(p).map_values(|e: (String, Neighbor)| e.0),
            decreases s.len() - i,
        {
            proof {
                reveal(Seq::filter);
                assert(s.take(i as int + 1).drop_last() =~= s.take(i as int));
                assert(s.take(i as int + 1).last() == s[i as int]);
            }
            let e = &self.neighbors[i];
            if (now as i128) - (e.1.last_hello as i128) > e.1.dead_interval as i128 * 1_000_000_000 {
                dead.push(e.0.clone());
                proof {
                    assert(dead@ =~= s.take(i as int + 1).filter(p).map_values(|e: (String, Neighbor)| e.0));
                }
            } else {
                kept.push((e.0.clone(), e.1.duplicate()));
                proof {
                    assert(kept@ =~= s.take(i as int + 1).filter(spec_other(p)));
                }
            }
            i += 1;
        }
        proof {
            assert(s.take(s.len() as int) =~= s);
            crate::protocol::lemma_filter_keeps_unique(s, spec_other(p));
        }
        self.neighbors = kept;
        dead
    }

    /// Forgets the neighbours silent for too long, by the clock (see
    /// `check_dead_neighbors_at`; the time is not stated).
    pub fn check_dead_neighbors(&mut self) -> (r: Vec<String>)
        requires
            old(self).wf(),
        ensures
            final(self).wf(),
            exists|now: i64|
                final(self).entries() == old(self).entries().filter(spec_other(spec_silent(now))) && r@
                    == old(self).entries().filter(spec_silent(now)).map_values(|e: (String, Neighbor)| e.0),
            final(self).spec_dead_interval() == old(self).spec_dead_interval(),
    {
        let now = unix_now_nanos();
        self.check_dead_neighbors_at(now)
    }

    pub fn get_neighbor_count(&self) -> (r: usize)
        ensures
            r == self.entries().len(),
    {
        self.neighbors.len()
    }

    /// Whether the neighbour is known and its adjacency up.
    pub fn is_neighbor_active(&self, router_id: &String) -> (r: bool)
        ensures
            r == match spec_get(self.entries(), router_id@) {
                Some(n) => n.state != NeighborState::Down,
                None => false,
            },
    {
        match get_keyed(&self.neighbors, router_id) {
            Some(n) => n.state != NeighborState::Down,
            None => false,
        }
    }
}

/// After the dead neighbours are forgotten at `now`, none left has been silent
/// for longer than its dead interval.
pub proof fn law_no_silent_neighbor_remains(entries: Seq<(String, Neighbor)>, now: i64)
    ensures
        forall|k: int|
            0 <= k < entries.filter(spec_other(spec_silent(now))).len() ==> now - (#[trigger] entries.filter(
                spec_other(spec_silent(now)),
            )[k]).1.last_hello <= entries.filter(spec_other(spec_silent(now)))[k].1.dead_interval * 1_000_000_000,
{
    broadcast use vstd::seq_lib::group_filter_ensures;
    let f = entries.filter(spec_other(spec_silent(now)));
    assert forall|k: int| 0 <= k < f.len() implies now - (#[trigger] f[k]).1.last_hello <= f[k].1.dead_interval
        * 1_000_000_000 by {
        assert(spec_other(spec_silent(now))(f[k]));
    }
}

} // verus!
