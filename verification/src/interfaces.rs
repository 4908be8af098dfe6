//! The addresses of the interfaces named on the command line.
use vstd::prelude::*;
use crate::net::{ipv4_addr_text, format_ipv4_addr};
use crate::network::{SystemInterface, spec_first_named};
use crate::protocol::keyed::{spec_has_key, spec_unique_keys, spec_key_index, lemma_key_index, find_key};

verus! {

/// The address of the named interface: the first IPv4 address of the first
/// interface of that name, if it has one.
pub open spec fn spec_interface_ip(sys: Seq<SystemInterface>, name: Seq<char>) -> Option<u32> {
    if exists|k: int| spec_first_named(sys, name, k) {
        let k = choose|k: int| spec_first_named(sys, name, k);
        if sys[k].ipv4@.len() > 0 {
            Some(sys[k].ipv4@[0].spec_addr())
        } else {
            None
        }
    } else {
        None
    }
}

/// The address of the named interface (see `spec_interface_ip`).
fn interface_ip(sys: &Vec<SystemInterface>, name: &String) -> (r: Option<u32>)
    ensures
        r == spec_interface_ip(sys@, name@),
{
    let mut k: usize = 0;
    while k < sys.len()
        invariant
            k <= sys@.len(),
            forall|j: int| 0 <= j < k ==> sys@[j].name@ != name@,
        decreases sys@.len() - k,
    {
        if sys[k].name == *name {
            proof {
                assert(spec_first_named(sys@, name@, k as int));
                let c = choose|c: int| spec_first_named(sys@, name@, c);
                if c < k {
                } else if c > k {
                }
                assert(c == k);
            }
            if sys[k].ipv4.len() > 0 {
                return Some(sys[k].ipv4[0].ip());
            } else {
                return None;
            }
        }
        k += 1;
    }
    None
}

/// The address text of each named interface that has an IPv4 address, keyed by
/// name (a name given twice has one entry).
pub fn get_interface_ips(names: &Vec<String>, sys: &Vec<SystemInterface>) -> (r: Vec<(String, String)>)
    ensures
        spec_unique_keys(r@),
        forall|x: Seq<char>|
            spec_has_key(r@, x) <==> (exists|i: int| 0 <= i < names@.len() && (#[trigger] names@[i])@ == x)
                && spec_interface_ip(sys@, x) is Some,
        forall|i: int|
            0 <= i < r@.len() ==> (#[trigger] r@[i]).1@ == ipv4_addr_text(spec_interface_ip(sys@, r@[i].0@).unwrap()),
{
    let mut out: Vec<(String, String)> = Vec::new();
    let mut i: usize = 0;
    while i < names.len()
        invariant
            i <= names@.len(),
            spec_unique_keys(out@),
            forall|x: Seq<char>|
                spec_has_key(out@, x) <==> (exists|j: int| 0 <= j < i && (#[trigger] names@[j])@ == x)
                    && spec_interface_ip(sys@, x) is Some,
            forall|j: int|
                0 <= j < out@.len() ==> (#[trigger] out@[j]).1@ == ipv4_addr_text(
                    spec_interface_ip(sys@, out@[j].0@).unwrap(),
                ),
        decreases names@.len() - i,
    {
        let name = &names[i];
        let ghost before = out@;
        match interface_ip(sys, name) {
            Some(a) => {
                proof {
                    lemma_key_index(out@, name@);
                }
                if find_key(&out, name).is_none() {
                    out.push((name.clone(), format_ipv4_addr(a)));
                    proof {
                        assert forall|p: int, q: int|
                            0 <= p < out@.len() && 0 <= q < out@.len() && p != q implies out@[p].0@ != out@[q].0@ by {
                            if p < before.len() && q < before.len() {
                                assert(before[p].0@ != before[q].0@);
                            }
                        }
                        assert forall|x: Seq<char>|
                            spec_has_key(out@, x) <==> (exists|j: int| 0 <= j < i + 1 && (#[trigger] names@[j])@ == x)
                                && spec_interface_ip(sys@, x) is Some by {
                            if spec_has_key(out@, x) {
                                let w = choose|w: int| 0 <= w < out@.len() && out@[w].0@ == x;
                                if w < before.len() {
                                    assert(spec_has_key(before, x));
                                } else {
                                    assert(names@[i as int]@ == x);
                                }
                            }
                            if (exists|j: int| 0 <= j < i + 1 && (#[trigger] names@[j])@ == x) && spec_interface_ip(sys@, x) is Some {
                                let j = choose|j: int| 0 <= j < i + 1 && (#[trigger] names@[j])@ == x;
                                if j < i {
                                    assert(spec_has_key(before, x));
                                    let w = choose|w: int| 0 <= w < before.len() && before[w].0@ == x;
                                    assert(out@[w] == before[w]);
                                } else {
                                    assert(out@[before.len() as int].0@ == x);
                                }
                            }
                        }
                        assert forall|j: int| 0 <= j < out@.len() implies (#[trigger] out@[j]).1@ == ipv4_addr_text(
                            spec_interface_ip(sys@, out@[j].0@).unwrap(),
                        ) by {
                            if j < before.len() {
                                assert(out@[j] == before[j]);
                            }
                        }
                    }
                } else {
                    proof {
                        let w = spec_key_index(out@, name@).unwrap();
                        assert(out@[w].0@ == name@);
                        assert forall|x: Seq<char>|
                            spec_has_key(out@, x) <==> (exists|j: int| 0 <= j < i + 1 && (#[trigger] names@[j])@ == x)
                                && spec_interface_ip(sys@, x) is Some by {
                            if (exists|j: int| 0 <= j < i + 1 && (#[trigger] names@[j])@ == x) && spec_interface_ip(sys@, x) is Some {
                                let j = choose|j: int| 0 <= j < i + 1 && (#[trigger] names@[j])@ == x;
                                if j == i {
                                    assert(spec_has_key(out@, x));
                                }
                            }
                        }
                    }
                }
            },
            None => {
                proof {
                    assert forall|x: Seq<char>|
                        spec_has_key(out@, x) <==> (exists|j: int| 0 <= j < i + 1 && (#[trigger] names@[j])@ == x)
                            && spec_interface_ip(sys@, x) is Some by {
                        if (exists|j: int| 0 <= j < i + 1 && (#[trigger] names@[j])@ == x) && spec_interface_ip(sys@, x) is Some {
                            let j = choose|j: int| 0 <= j < i + 1 && (#[trigger] names@[j])@ == x;
                            if j == i {
                                assert(x == name@);
                            }
                        }
                    }
                }
            },
        }
        i += 1;
    }
    out
}

} // verus!
