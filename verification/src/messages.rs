//! The messages of the simple multicast discovery.
use vstd::prelude::*;

verus! {

/// A discovery message, carrying the sender's system name.
#[derive(Debug)]
pub enum Message {
    Hello(String),
    Lsa(String),
}

/// Whether a source address text is one of the declared interface addresses
/// (`ifaces` maps interface names to address texts).
pub fn is_declared_source(ifaces: &Vec<(String, String)>, src_ip: &String) -> (r: bool)
    ensures
        r == exists|i: int| 0 <= i < ifaces@.len() && (#[trigger] ifaces@[i]).1@ == src_ip@,
{
    let mut i: usize = 0;
    while i < ifaces.len()
        invariant
            i <= ifaces@.len(),
            forall|j: int| 0 <= j < i ==> ifaces@[j].1@ != src_ip@,
        decreases ifaces@.len() - i,
    {
        if ifaces[i].1 == *src_ip {
            proof {
                assert(ifaces@[i as int].1@ == src_ip@);
            }
            return true;
        }
        i += 1;
    }
    false
}

} // verus!
