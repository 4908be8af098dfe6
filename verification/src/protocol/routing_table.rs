//! The link-state protocol's routing table: one entry per destination network.
use vstd::prelude::*;
use crate::net::{IpAddress, IpNet};

verus! {

/// How a route was learnt.
#[derive(Debug, Clone, Copy, PartialEq, Eq, Structural)]
pub enum RouteType {
    Internal,
    External,
    Default,
}

/// One route.
#[derive(Debug)]
pub struct RoutingEntry {
    pub destination: IpNet,
    pub next_hop: IpAddress,
    pub interface: String,
    pub metric: u32,
    pub route_type: RouteType,
}

/// Destinations are unique.
pub open spec fn spec_unique_destinations(s: Seq<RoutingEntry>) -> bool {
    forall|i: int, j: int| 0 <= i < s.len() && 0 <= j < s.len() && i != j ==> s[i].destination != s[j].destination
}

/// The index of the entry for `dest`, if any.
pub open spec fn spec_index_of(s: Seq<RoutingEntry>, dest: IpNet) -> Option<int> {
    if exists|i: int| 0 <= i < s.len() && s[i].destination == dest {
        Some(choose|i: int| 0 <= i < s.len() && s[i].destination == dest)
    } else {
        None
    }
}

/// Storing an entry: the entry for its destination is replaced, or it is appended.
pub open spec fn spec_store(s: Seq<RoutingEntry>, e: RoutingEntry) -> Seq<RoutingEntry> {
    match spec_index_of(s, e.destination) {
        Some(i) => s.update(i, e),
        None => s.push(e),
    }
}

/// Forgetting the entry for a destination.
pub open spec fn spec_forget(s: Seq<RoutingEntry>, dest: IpNet) -> Seq<RoutingEntry> {
    match spec_index_of(s, dest) {
        Some(i) => s.remove(i),
        None => s,
    }
}

/// Whether entry `i` is the route to use for `target`: its network holds the
/// target, no entry holding the target has a longer prefix, and no later one the same.
pub open spec fn spec_is_best(s: Seq<RoutingEntry>, target: IpAddress, i: int) -> bool {
    &&& 0 <= i < s.len()
    &&& s[i].destination.spec_contains(target)
    &&& forall|j: int|
        0 <= j < s.len() && s[j].destination.spec_contains(target) ==> s[j].destination.spec_prefix()
            <= s[i].destination.spec_prefix()
    &&& forall|j: int|
        i < j < s.len() && s[j].destination.spec_contains(target) ==> s[j].destination.spec_prefix()
            < s[i].destination.spec_prefix()
}

/// The routing table.
#[derive(Debug)]
pub struct RoutingTable {
    entries: Vec<RoutingEntry>,
}

impl View for RoutingTable {
    type V = Seq<RoutingEntry>;

    closed spec fn view(&self) -> Seq<RoutingEntry> {
        self.entries@
    }
}

impl RoutingTable {
    /// Every destination has one entry.
    pub open spec fn wf(&self) -> bool {
        spec_unique_destinations(self@)
    }

    pub fn new() -> (t: RoutingTable)
        ensures
            t@ == Seq::<RoutingEntry>::empty(),
            t.wf(),
    {
        RoutingTable { entries: Vec::new() }
    }

    fn index_of(&self, dest: &IpNet) -> (r: Option<usize>)
        requires
            self.wf(),
        ensures
            match r {
                Some(i) => spec_index_of(self@, *dest) == Some(i as int),
                None => spec_index_of(self@, *dest) is None,
            },
    {
        let mut i: usize = 0;
        while i < self.entries.len()
            invariant
                i <= self.entries@.len(),
                spec_unique_destinations(self.entries@),
                forall|j: int| 0 <= j < i ==> self.entries@[j].destination != *dest,
            decreases self.entries@.len() - i,
        {
            if self.entries[i].destination == *dest {
                proof {
                    let c = choose|c: int| 0 <= c < self.entries@.len() && self.entries@[c].destination == *dest;
                    assert(self.entries@[i as int].destination == *dest);
                }
                return Some(i);
            }
            i += 1;
        }
        None
    }

    /// Stores the entry under its destination, replacing an entry with the same one.
    pub fn add_route(&mut self, entry: RoutingEntry)
        requires
            old(self).wf(),
        ensures
            final(self)@ == spec_store(old(self)@, entry),
            final(self).wf(),
    {
        match self.index_of(&entry.destination) {
            Some(i) => {
                let ghost before = self.entries@;
                self.entries.set(i, entry);
                proof {
                    assert forall|a: int, b: int|
                        0 <= a < self.entries@.len() && 0 <= b < self.entries@.len() && a != b implies self.entries@[a].destination
                            != self.entries@[b].destination by {
                        if a != i && b != i {
                            assert(before[a].destination != before[b].destination);
                        } else if a == i {
                            assert(before[b].destination != before[i as int].destination);
                        } else {
                            assert(before[a].destination != before[i as int].destination);
                        }
                    }
                }
            },
            None => {
                let ghost before = self.entries@;
                self.entries.push(entry);
                proof {
                    assert forall|a: int, b: int|
                        0 <= a < self.entries@.len() && 0 <= b < self.entries@.len() && a != b implies self.entries@[a].destination
                            != self.entries@[b].destination by {
                        if a < before.len() && b < before.len() {
                            assert(before[a].destination != before[b].destination);
                        } else if a < before.len() {
                            assert(before[a].destination != entry.destination);
                        } else if b < before.len() {
                            assert(before[b].destination != entry.destination);
                        }
                    }
                }
            },
        }
    }

    /// Forgets the entry for a destination, if any.
    pub fn remove_route(&mut self, destination: &IpNet)
        requires
            old(self).wf(),
        ensures
            final(self)@ == spec_forget(old(self)@, *destination),
            final(self).wf(),
    {
        match self.index_of(destination) {
            Some(i) => {
                let ghost before = self.entries@;
                let _ = self.entries.remove(i);
                proof {
                    assert forall|a: int, b: int|
                        0 <= a < self.entries@.len() && 0 <= b < self.entries@.len() && a != b implies self.entries@[a].destination
                            != self.entries@[b].destination by {
                        let a2 = if a < i { a } else { a + 1 };
                        let b2 = if b < i { b } else { b + 1 };
                        assert(self.entries@[a] == before[a2]);
                        assert(self.entries@[b] == before[b2]);
                    }
                }
            },
            None => {},
        }
    }

    /// The entry for a destination.
    pub fn get_route(&self, destination: &IpNet) -> (r: Option<&RoutingEntry>)
        requires
            self.wf(),
        ensures
            match spec_index_of(self@, *destination) {
                Some(i) => r == Some(&self@[i]),
                None => r is None,
            },
    {
        match self.index_of(destination) {
            Some(i) => Some(&self.entries[i]),
            None => None,
        }
    }

    pub fn clear(&mut self)
        ensures
            final(self)@ == Seq::<RoutingEntry>::empty(),
            final(self).wf(),
    {
        self.entries = Vec::new();
    }

    pub fn len(&self) -> (r: usize)
        ensures
            r == self@.len(),
    {
        self.entries.len()
    }

    /// The entries, in the order they were first stored.
    pub fn iter(&self) -> (r: &Vec<RoutingEntry>)
        ensures
            r@ == self@,
    {
        &self.entries
    }

    /// The entry whose network holds `target` with the longest prefix (the last
    /// such one in table order); `None` when no network holds it.
    pub fn find_best_route(&self, target: IpAddress) -> (r: Option<&RoutingEntry>)
        ensures
            match r {
                Some(e) => exists|i: int| spec_is_best(self@, target, i) && *e == self@[i],
                None => forall|i: int| 0 <= i < self@.len() ==> !self@[i].destination.spec_contains(target),
            },
    {
        let mut best: Option<usize> = None;
        let mut longest: u8 = 0;
        let mut i: usize = 0;
        while i < self.entries.len()
            invariant
                i <= self.entries@.len(),
                match best {
                    Some(b) => {
                        &&& b < i
                        &&& self.entries@[b as int].destination.spec_contains(target)
                        &&& self.entries@[b as int].destination.spec_prefix() == longest
                        &&& forall|j: int|
                            0 <= j < i && self.entries@[j].destination.spec_contains(target) ==> self.entries@[j].destination.spec_prefix()
                                <= longest
                        &&& forall|j: int|
                            b < j < i && self.entries@[j].destination.spec_contains(target) ==> self.entries@[j].destination.spec_prefix()
                                < longest
                    },
                    None => longest == 0 && forall|j: int|
                        0 <= j < i ==> !self.entries@[j].destination.spec_contains(target),
                },
            decreases self.entries@.len() - i,
        {
            let e = &self.entries[i];
            if e.destination.contains(target) && e.destination.prefix() >= longest {
                longest = e.destination.prefix();
                best = Some(i);
            }
            i += 1;
        }
        match best {
            Some(b) => {
                proof {
                    assert(spec_is_best(self@, target, b as int));
                }
                Some(&self.entries[b])
            },
            None => None,
        }
    }
}

} // verus!
