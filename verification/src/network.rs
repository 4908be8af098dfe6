//! The router's own interfaces, picked out of a snapshot of the machine's interfaces.
pub mod interface;
pub mod topology;

use vstd::prelude::*;
use crate::net::{Ipv4Net, spec_is_loopback_v4, is_loopback_v4};

verus! {

/// An interface taking part in routing.
#[derive(Debug)]
pub struct InterfaceInfo {
    pub name: String,
    pub ip: u32,
    /// The interface's address with its prefix (host bits kept).
    pub network: Ipv4Net,
    pub metric: u32,
}

impl InterfaceInfo {
    /// An identical copy.
    pub fn duplicate(&self) -> (r: InterfaceInfo)
        ensures
            r == *self,
    {
        InterfaceInfo { name: self.name.clone(), ip: self.ip, network: self.network, metric: self.metric }
    }
}

/// One interface of the machine as the operating system reports it.
#[derive(Debug)]
pub struct SystemInterface {
    pub name: String,
    pub is_up: bool,
    pub is_loopback: bool,
    /// The IPv4 addresses with their prefixes, in the order the system lists them.
    pub ipv4: Vec<Ipv4Net>,
}

/// Why an interface cannot be used.
#[derive(Debug, Clone, Copy, PartialEq, Eq, Structural)]
pub enum InterfaceLookupError {
    NotFound,
    NotUp,
    NoIpv4Address,
}

/// No requested interface could be used.
#[derive(Debug, Clone, Copy, PartialEq, Eq, Structural)]
pub enum NetworkError {
    NoValidInterfaces,
}

/// Whether index `k` is the first interface named `name`.
pub open spec fn spec_first_named(sys: Seq<SystemInterface>, name: Seq<char>, k: int) -> bool {
    0 <= k < sys.len() && sys[k].name@ == name && forall|j: int| 0 <= j < k ==> sys[j].name@ != name
}

/// Whether index `m` is the first non-loopback address of a list.
pub open spec fn spec_first_usable(addrs: Seq<Ipv4Net>, m: int) -> bool {
    0 <= m < addrs.len() && !spec_is_loopback_v4(addrs[m].spec_addr()) && forall|j: int|
        0 <= j < m ==> spec_is_loopback_v4(addrs[j].spec_addr())
}

/// The outcome of looking up interface `name` in a snapshot: the first interface
/// of that name must be up and have a non-loopback IPv4 address; the first such
/// address is used, with metric 1.
pub open spec fn spec_lookup_interface(
    sys: Seq<SystemInterface>,
    name: Seq<char>,
    r: Result<InterfaceInfo, InterfaceLookupError>,
) -> bool {
    match r {
        Ok(info) => exists|k: int, m: int|
            spec_first_named(sys, name, k) && sys[k].is_up && spec_first_usable(sys[k].ipv4@, m)
                && info.name@ == name && info.ip == sys[k].ipv4@[m].spec_addr() && info.network
                == sys[k].ipv4@[m] && info.metric == 1,
        Err(InterfaceLookupError::NotFound) => forall|j: int| 0 <= j < sys.len() ==> sys[j].name@ != name,
        Err(InterfaceLookupError::NotUp) => exists|k: int| spec_first_named(sys, name, k) && !sys[k].is_up,
        Err(InterfaceLookupError::NoIpv4Address) => exists|k: int|
            spec_first_named(sys, name, k) && sys[k].is_up && forall|j: int|
                0 <= j < sys[k].ipv4@.len() ==> spec_is_loopback_v4(#[trigger] sys[k].ipv4@[j].spec_addr()),
    }
}

/// Interface names are unique.
pub open spec fn spec_unique_names(s: Seq<InterfaceInfo>) -> bool {
    forall|i: int, j: int| 0 <= i < s.len() && 0 <= j < s.len() && i != j ==> s[i].name@ != s[j].name@
}

/// Inserting an interface keyed by its name: an entry of the same name is replaced,
/// otherwise the interface is appended.
pub open spec fn spec_insert_interface(s: Seq<InterfaceInfo>, info: InterfaceInfo) -> Seq<InterfaceInfo> {
    if exists|i: int| 0 <= i < s.len() && s[i].name@ == info.name@ {
        s.update(choose|i: int| 0 <= i < s.len() && s[i].name@ == info.name@, info)
    } else {
        s.push(info)
    }
}

/// Looks `name` up in the snapshot (see `spec_lookup_interface`).
pub fn get_interface_info(name: &String, sys: &Vec<SystemInterface>) -> (r: Result<InterfaceInfo, InterfaceLookupError>)
    ensures
        spec_lookup_interface(sys@, name@, r),
{
    let mut k: usize = 0;
    while k < sys.len()
        invariant
            k <= sys@.len(),
            forall|j: int| 0 <= j < k ==> sys@[j].name@ != name@,
        decreases sys@.len() - k,
    {
        if sys[k].name == *name {
            assert(spec_first_named(sys@, name@, k as int));
            if !sys[k].is_up {
                return Err(InterfaceLookupError::NotUp);
            }
            let addrs = &sys[k].ipv4;
            let mut m: usize = 0;
            while m < addrs.len()
                invariant
                    m <= addrs@.len(),
                    spec_first_named(sys@, name@, k as int),
                    sys@[k as int].is_up,
                    *addrs == sys@[k as int].ipv4,
                    forall|j: int| 0 <= j < m ==> spec_is_loopback_v4(#[trigger] addrs@[j].spec_addr()),
                decreases addrs@.len() - m,
            {
                let a = addrs[m];
                if !is_loopback_v4(a.ip()) {
                    let info = InterfaceInfo { name: name.clone(), ip: a.ip(), network: a, metric: 1 };
                    assert(spec_first_usable(addrs@, m as int));
                    return Ok(info);
                }
                m += 1;
            }
            return Err(InterfaceLookupError::NoIpv4Address);
        }
        k += 1;
    }
    Err(InterfaceLookupError::NotFound)
}

/// Inserts an interface keyed by its name (see `spec_insert_interface`).
pub fn insert_interface(list: &mut Vec<InterfaceInfo>, info: InterfaceInfo)
    requires
        spec_unique_names(old(list)@),
    ensures
        final(list)@ == spec_insert_interface(old(list)@, info),
        spec_unique_names(final(list)@),
{
    let mut i: usize = 0;
    while i < list.len()
        invariant
            i <= list@.len(),
            list@ == old(list)@,
            spec_unique_names(list@),
            forall|j: int| 0 <= j < i ==> list@[j].name@ != info.name@,
        decreases list@.len() - i,
    {
        if list[i].name == info.name {
            let ghost before = list@;
            proof {
                let c = choose|c: int| 0 <= c < before.len() && before[c].name@ == info.name@;
                if c != i {
                    assert(before[c].name@ != before[i as int].name@);
                }
            }
            list.set(i, info);
            proof {
                assert forall|a: int, b: int|
                    0 <= a < list@.len() && 0 <= b < list@.len() && a != b implies list@[a].name@
                        != list@[b].name@ by {
                    if a != i && b != i {
                        assert(before[a].name@ != before[b].name@);
                    } else if a == i {
                        assert(before[b].name@ != before[i as int].name@);
                    } else {
                        assert(before[a].name@ != before[i as int].name@);
                    }
                }
            }
            return;
        }
        i += 1;
    }
    list.push(info);
}

/// The first interface named `name`, if any.
pub fn find_interface<'a>(list: &'a Vec<InterfaceInfo>, name: &String) -> (r: Option<&'a InterfaceInfo>)
    ensures
        match r {
            Some(info) => exists|i: int|
                0 <= i < list@.len() && list@[i] == *info && info.name@ == name@ && forall|j: int|
                    0 <= j < i ==> list@[j].name@ != name@,
            None => forall|j: int| 0 <= j < list@.len() ==> list@[j].name@ != name@,
        },
{
    let mut i: usize = 0;
    while i < list.len()
        invariant
            i <= list@.len(),
            forall|j: int| 0 <= j < i ==> list@[j].name@ != name@,
        decreases list@.len() - i,
    {
        if list[i].name == *name {
            return Some(&list[i]);
        }
        i += 1;
    }
    None
}

/// A copy of a list of interfaces.
pub fn duplicate_interfaces(list: &Vec<InterfaceInfo>) -> (r: Vec<InterfaceInfo>)
    ensures
        r@ == list@,
{
    let mut out: Vec<InterfaceInfo> = Vec::new();
    let mut i: usize = 0;
    while i < list.len()
        invariant
            i <= list@.len(),
            out@ == list@.take(i as int),
        decreases list@.len() - i,
    {
        out.push(list[i].duplicate());
        proof {
            assert(out@ =~= list@.take(i as int + 1));
        }
        i += 1;
    }
    proof {
        assert(list@.take(list@.len() as int) =~= list@);
    }
    out
}

/// The networks of every interface that is up and not a loopback, in the
/// snapshot's order.
pub open spec fn spec_local_networks(sys: Seq<SystemInterface>) -> Seq<Ipv4Net>
    decreases sys.len(),
{
    if sys.len() == 0 {
        Seq::empty()
    } else {
        let rest = spec_local_networks(sys.drop_last());
        let last = sys.last();
        if last.is_up && !last.is_loopback {
            rest + last.ipv4@
        } else {
            rest
        }
    }
}

/// Collects the networks of every up, non-loopback interface.
pub fn discover_local_networks(sys: &Vec<SystemInterface>) -> (r: Vec<Ipv4Net>)
    ensures
        r@ == spec_local_networks(sys@),
{
    let mut out: Vec<Ipv4Net> = Vec::new();
    let mut k: usize = 0;
    while k < sys.len()
        invariant
            k <= sys@.len(),
            out@ == spec_local_networks(sys@.take(k as int)),
        decreases sys@.len() - k,
    {
        proof {
            assert(sys@.take(k as int + 1).drop_last() =~= sys@.take(k as int));
        }
        let iface = &sys[k];
        if iface.is_up && !iface.is_loopback {
            let ghost before = out@;
            let mut m: usize = 0;
            while m < iface.ipv4.len()
                invariant
                    m <= iface.ipv4@.len(),
                    out@ == before + iface.ipv4@.take(m as int),
                decreases iface.ipv4@.len() - m,
            {
                out.push(iface.ipv4[m]);
                proof {
                    assert(out@ =~= before + iface.ipv4@.take(m as int + 1));
                }
                m += 1;
            }
            proof {
                assert(iface.ipv4@.take(iface.ipv4@.len() as int) =~= iface.ipv4@);
            }
        }
        k += 1;
    }
    proof {
        assert(sys@.take(sys@.len() as int) =~= sys@);
    }
    out
}

/// The interfaces found so far, keyed by name.
pub struct Network {
    interfaces: Vec<InterfaceInfo>,
}

impl View for Network {
    type V = Seq<InterfaceInfo>;

    closed spec fn view(&self) -> Seq<InterfaceInfo> {
        self.interfaces@
    }
}

/// The interfaces after looking up each name in turn and inserting those found.
pub open spec fn spec_discover(
    found: Seq<InterfaceInfo>,
    names: Seq<String>,
    sys: Seq<SystemInterface>,
    results: Seq<Result<InterfaceInfo, InterfaceLookupError>>,
) -> Seq<InterfaceInfo>
    decreases names.len(),
{
    if names.len() == 0 || results.len() != names.len() {
        found
    } else {
        let before = spec_discover(found, names.drop_last(), sys, results.drop_last());
        match results.last() {
            Ok(info) => spec_insert_interface(before, info),
            Err(_) => before,
        }
    }
}

impl Network {
    pub open spec fn wf(&self) -> bool {
        spec_unique_names(self@)
    }

    pub fn new() -> (n: Network)
        ensures
            n@ == Seq::<InterfaceInfo>::empty(),
            n.wf(),
    {
        Network { interfaces: Vec::new() }
    }

    /// Looks each name up in the snapshot and keeps those found (replacing an
    /// earlier entry of the same name). Fails when, afterwards, no interface at all
    /// is known.
    pub fn discover_interfaces(&mut self, names: &Vec<String>, sys: &Vec<SystemInterface>) -> (r: Result<(), NetworkError>)
        requires
            old(self).wf(),
        ensures
            final(self).wf(),
            exists|results: Seq<Result<InterfaceInfo, InterfaceLookupError>>|
                results.len() == names@.len() && (forall|i: int|
                    0 <= i < names@.len() ==> spec_lookup_interface(sys@, names@[i]@, #[trigger] results[i]))
                    && final(self)@ == spec_discover(old(self)@, names@, sys@, results),
            r is Ok <==> final(self)@.len() > 0,
    {
        let ghost start = self.interfaces@;
        let ghost mut results: Seq<Result<InterfaceInfo, InterfaceLookupError>> = Seq::empty();
        let mut i: usize = 0;
        while i < names.len()
            invariant
                i <= names@.len(),
                results.len() == i,
                forall|j: int| 0 <= j < i ==> spec_lookup_interface(sys@, names@[j]@, #[trigger] results[j]),
                self.interfaces@ == spec_discover(start, names@.take(i as int), sys@, results),
                spec_unique_names(self.interfaces@),
            decreases names@.len() - i,
        {
            let res = get_interface_info(&names[i], sys);
            let ghost prev = results;
            proof {
                results = results.push(res);
                assert(names@.take(i as int + 1).drop_last() =~= names@.take(i as int));
                assert(results.drop_last() =~= prev);
            }
            match res {
                Ok(info) => {
                    insert_interface(&mut self.interfaces, info);
                },
                Err(_) => {},
            }
            i += 1;
        }
        proof {
            assert(names@.take(names@.len() as int) =~= names@);
        }
        if self.interfaces.len() == 0 {
            Err(NetworkError::NoValidInterfaces)
        } else {
            Ok(())
        }
    }

    pub fn get_interfaces(&self) -> (r: &Vec<InterfaceInfo>)
        ensures
            r@ == self@,
    {
        &self.interfaces
    }
}

} // verus!
