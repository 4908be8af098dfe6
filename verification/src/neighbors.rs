//! Multicast neighbour discovery: which interfaces take part, what is learnt from
//! each message, and what is announced.
use vstd::prelude::*;
use crate::net::{IpAddress, ip_address_text, format_ip_address};
use crate::protocol::keyed::{spec_insert, spec_unique_keys, insert_keyed};

verus! {

/// The multicast group of the discovery, 224.0.0.5.
pub const MCAST_ADDR: u32 = 0xE000_0005;

/// A discovery message: a hello (no neighbour list) or an advertisement of the
/// sender's direct neighbours.
#[derive(Debug)]
pub struct LsaMsg {
    pub typ: String,
    pub sysname: String,
    pub neighbors: Option<Vec<String>>,
}

/// What discovery has learnt.
#[derive(Debug)]
pub struct Discovery {
    /// Direct neighbours: system name to the address text they were heard from.
    pub direct: Vec<(String, String)>,
    /// Advertised neighbour lists, by system name.
    pub lsa: Vec<(String, Vec<String>)>,
}

/// Why discovery cannot start.
#[derive(Debug, Clone, Copy, PartialEq, Eq, Structural)]
pub enum DiscoveryError {
    /// None of the named interfaces has an IPv4 address.
    NoIpv4Interface,
}

/// The IPv4 addresses of the named interfaces, in the order the system lists them.
pub open spec fn spec_selected(addrs: Seq<(String, IpAddress)>, names: Seq<String>) -> Seq<(String, u32)>
    decreases addrs.len(),
{
    if addrs.len() == 0 {
        seq![]
    } else {
        let prev = spec_selected(addrs.drop_last(), names);
        let (name, addr) = addrs.last();
        match addr {
            IpAddress::V4(a) => if names.map_values(|n: String| n@).contains(name@) {
                prev.push((name, a))
            } else {
                prev
            },
            IpAddress::V6(_) => prev,
        }
    }
}

/// The interfaces that take part: each system address that is IPv4 and belongs
/// to a named interface. Fails when there is none.
pub fn select_interfaces(addrs: &Vec<(String, IpAddress)>, names: &Vec<String>) -> (r: Result<
    Vec<(String, u32)>,
    DiscoveryError,
>)
    ensures
        spec_selected(addrs@, names@).len() == 0 ==> r == Err::<Vec<(String, u32)>, DiscoveryError>(
            DiscoveryError::NoIpv4Interface,
        ),
        spec_selected(addrs@, names@).len() > 0 ==> (r matches Ok(v) && v@ == spec_selected(addrs@, names@)),
{
    let mut out: Vec<(String, u32)> = Vec::new();
    let mut i: usize = 0;
    while i < addrs.len()
        invariant
            i <= addrs@.len(),
            out@ == spec_selected(addrs@.take(i as int), names@),
        decreases addrs@.len() - i,
    {
        proof {
            assert(addrs@.take(i as int + 1).drop_last() =~= addrs@.take(i as int));
            assert(addrs@.take(i as int + 1).last() == addrs@[i as int]);
        }
        match addrs[i].1 {
            IpAddress::V4(a) => {
                if crate::protocol::contains_name(names, &addrs[i].0) {
                    out.push((addrs[i].0.clone(), a));
                }
            },
            IpAddress::V6(_) => {},
        }
        i += 1;
    }
    proof {
        assert(addrs@.take(addrs@.len() as int) =~= addrs@);
    }
    if out.len() == 0 {
        Err(DiscoveryError::NoIpv4Interface)
    } else {
        Ok(out)
    }
}

/// Whether a message is a hello.
pub open spec fn spec_is_hello(m: LsaMsg) -> bool {
    m.typ@ == "HELLO"@
}

/// Whether a message is an advertisement.
pub open spec fn spec_is_lsa(m: LsaMsg) -> bool {
    m.typ@ == "LSA"@
}

impl Discovery {
    pub open spec fn wf(&self) -> bool {
        spec_unique_keys(self.direct@) && spec_unique_keys(self.lsa@)
    }

    pub fn new() -> (r: Discovery)
        ensures
            r.direct@.len() == 0,
            r.lsa@.len() == 0,
            r.wf(),
    {
        Discovery { direct: Vec::new(), lsa: Vec::new() }
    }

    /// Learns from a message received from `src`: a hello records its sender as
    /// a direct neighbour at that address; an advertisement with a neighbour list
    /// records the list. Anything else is ignored.
    pub fn record_message(&mut self, msg: LsaMsg, src: IpAddress)
        requires
            old(self).wf(),
        ensures
            final(self).wf(),
            spec_is_hello(msg) ==> final(self).lsa == old(self).lsa && exists|t: String|
                t@ == ip_address_text(src) && final(self).direct@ == spec_insert(old(self).direct@, msg.sysname, t),
            !spec_is_hello(msg) && spec_is_lsa(msg) && msg.neighbors is Some ==> final(self).direct
                == old(self).direct && final(self).lsa@ == spec_insert(
                old(self).lsa@,
                msg.sysname,
                msg.neighbors.unwrap(),
            ),
            !spec_is_hello(msg) && !(spec_is_lsa(msg) && msg.neighbors is Some) ==> *final(self) == *old(self),
    {
        if msg.typ == "HELLO".to_owned() {
            let t = format_ip_address(src);
            let ghost tg = t;
            insert_keyed(&mut self.direct, msg.sysname, t);
            proof {
                assert(tg@ == ip_address_text(src));
            }
        } else if msg.typ == "LSA".to_owned() {
            match msg.neighbors {
                Some(neis) => {
                    insert_keyed(&mut self.lsa, msg.sysname, neis);
                },
                None => {},
            }
        }
    }

    /// The hello announced for `sysname`.
    pub fn hello_message(sysname: &String) -> (r: LsaMsg)
        ensures
            r.typ@ == "HELLO"@,
            r.sysname == *sysname,
            r.neighbors is None,
    {
        LsaMsg { typ: "HELLO".to_owned(), sysname: sysname.clone(), neighbors: None }
    }

    /// The advertisement announced for `sysname`: the system names of the direct
    /// neighbours, in table order.
    pub fn lsa_message(&self, sysname: &String) -> (r: LsaMsg)
        ensures
            r.typ@ == "LSA"@,
            r.sysname == *sysname,
            r.neighbors matches Some(v) && v@ == self.direct@.map_values(|e: (String, String)| e.0),
    {
        let mut keys: Vec<String> = Vec::new();
        let mut i: usize = 0;
        while i < self.direct.len()
            invariant
                i <= self.direct@.len(),
                keys@ == self.direct@.take(i as int).map_values(|e: (String, String)| e.0),
            decreases self.direct@.len() - i,
        {
            keys.push(self.direct[i].0.clone());
            proof {
                assert(keys@ =~= self.direct@.take(i as int + 1).map_values(|e: (String, String)| e.0));
            }
            i += 1;
        }
        proof {
            assert(self.direct@.take(self.direct@.len() as int) =~= self.direct@);
        }
        LsaMsg { typ: "LSA".to_owned(), sysname: sysname.clone(), neighbors: Some(keys) }
    }
}

} // verus!
