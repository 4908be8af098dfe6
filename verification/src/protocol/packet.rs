//! The framing of the protocol's datagrams: a kind tag, then the message.
use vstd::prelude::*;
use crate::text::{chars_of, string_from_chars, utf8_lossy, decode_lossy};

verus! {

/// The kinds of datagrams.
#[derive(Debug, Clone, Copy, PartialEq, Eq, Structural)]
pub enum PacketKind {
    Hello,
    Update,
    NeighborRequest,
    NeighborResponse,
}

/// The tag that starts a datagram of each kind.
pub open spec fn spec_tag(k: PacketKind) -> Seq<char> {
    match k {
        PacketKind::Hello => "HELLO:"@,
        PacketKind::Update => "UPDATE:"@,
        PacketKind::NeighborRequest => "NEIGHBOR_REQUEST:"@,
        PacketKind::NeighborResponse => "NEIGHBOR_RESPONSE:"@,
    }
}

/// What follows prefix `p` in `s`, when `s` starts with it.
pub open spec fn spec_strip(s: Seq<char>, p: Seq<char>) -> Option<Seq<char>> {
    if p.len() <= s.len() && s.take(p.len() as int) == p {
        Some(s.skip(p.len() as int))
    } else {
        None
    }
}

/// The kind of a datagram and its message: the first tag, in the order hello,
/// update, neighbour request, neighbour response, that starts the text.
pub open spec fn spec_classify(s: Seq<char>) -> Option<(PacketKind, Seq<char>)> {
    if spec_strip(s, spec_tag(PacketKind::Hello)) is Some {
        Some((PacketKind::Hello, spec_strip(s, spec_tag(PacketKind::Hello)).unwrap()))
    } else if spec_strip(s, spec_tag(PacketKind::Update)) is Some {
        Some((PacketKind::Update, spec_strip(s, spec_tag(PacketKind::Update)).unwrap()))
    } else if spec_strip(s, spec_tag(PacketKind::NeighborRequest)) is Some {
        Some((PacketKind::NeighborRequest, spec_strip(s, spec_tag(PacketKind::NeighborRequest)).unwrap()))
    } else if spec_strip(s, spec_tag(PacketKind::NeighborResponse)) is Some {
        Some((PacketKind::NeighborResponse, spec_strip(s, spec_tag(PacketKind::NeighborResponse)).unwrap()))
    } else {
        None
    }
}

/// The tag of a kind (see `spec_tag`).
pub fn packet_tag(k: PacketKind) -> (r: String)
    ensures
        r@ == spec_tag(k),
{
    match k {
        PacketKind::Hello => "HELLO:".to_owned(),
        PacketKind::Update => "UPDATE:".to_owned(),
        PacketKind::NeighborRequest => "NEIGHBOR_REQUEST:".to_owned(),
        PacketKind::NeighborResponse => "NEIGHBOR_RESPONSE:".to_owned(),
    }
}

/// What follows prefix `p` in `s` (see `spec_strip`).
fn strip(s: &Vec<char>, p: &Vec<char>) -> (r: Option<Vec<char>>)
    ensures
        match spec_strip(s@, p@) {
            Some(rest) => r is Some && r.unwrap()@ == rest,
            None => r is None,
        },
{
    if p.len() > s.len() {
        return None;
    }
    let mut i: usize = 0;
    while i < p.len()
        invariant
            p@.len() <= s@.len(),
            i <= p@.len(),
            forall|j: int| 0 <= j < i ==> s@[j] == p@[j],
        decreases p@.len() - i,
    {
        if s[i] != p[i] {
            proof {
                assert(s@.take(p@.len() as int)[i as int] != p@[i as int]);
            }
            return None;
        }
        i += 1;
    }
    proof {
        assert(s@.take(p@.len() as int) =~= p@);
    }
    let mut rest: Vec<char> = Vec::new();
    let mut k: usize = p.len();
    while k < s.len()
        invariant
            p@.len() <= k <= s@.len(),
            rest@ == s@.subrange(p@.len() as int, k as int),
        decreases s@.len() - k,
    {
        rest.push(s[k]);
        proof {
            assert(rest@ =~= s@.subrange(p@.len() as int, k as int + 1));
        }
        k += 1;
    }
    proof {
        assert(rest@ =~= s@.skip(p@.len() as int));
    }
    Some(rest)
}

/// The kind of a datagram and its message (see `spec_classify`); `None` for an
/// unknown kind.
pub fn classify_packet(data: &str) -> (r: Option<(PacketKind, String)>)
    ensures
        match spec_classify(data@) {
            Some((k, body)) => r matches Some((k2, b)) && k2 == k && b@ == body,
            None => r is None,
        },
{
    let cs = chars_of(data);
    let hello = chars_of(packet_tag(PacketKind::Hello).as_str());
    if let Some(rest) = strip(&cs, &hello) {
        return Some((PacketKind::Hello, string_from_chars(&rest)));
    }
    let update = chars_of(packet_tag(PacketKind::Update).as_str());
    if let Some(rest) = strip(&cs, &update) {
        return Some((PacketKind::Update, string_from_chars(&rest)));
    }
    let request = chars_of(packet_tag(PacketKind::NeighborRequest).as_str());
    if let Some(rest) = strip(&cs, &request) {
        return Some((PacketKind::NeighborRequest, string_from_chars(&rest)));
    }
    let response = chars_of(packet_tag(PacketKind::NeighborResponse).as_str());
    if let Some(rest) = strip(&cs, &response) {
        return Some((PacketKind::NeighborResponse, string_from_chars(&rest)));
    }
    None
}

/// The kind and message of a received datagram, its bytes read as UTF-8 with
/// anything else replaced (see `classify_packet`).
pub fn classify_datagram(bytes: &Vec<u8>) -> (r: Option<(PacketKind, String)>)
    ensures
        match spec_classify(utf8_lossy(bytes@)) {
            Some((k, body)) => r matches Some((k2, b)) && k2 == k && b@ == body,
            None => r is None,
        },
{
    let text = decode_lossy(bytes);
    classify_packet(text.as_str())
}

/// A datagram made of a kind's tag and a message reads back as that kind and
/// that message.
pub proof fn law_tagged_packet_reads_back(k: PacketKind, body: Seq<char>)
    ensures
        spec_classify(spec_tag(k) + body) == Some((k, body)),
{
    reveal_strlit("HELLO:");
    reveal_strlit("UPDATE:");
    reveal_strlit("NEIGHBOR_REQUEST:");
    reveal_strlit("NEIGHBOR_RESPONSE:");
    let s = spec_tag(k) + body;
    let t = spec_tag(k);
    assert(s.take(t.len() as int) =~= t);
    assert(s.skip(t.len() as int) =~= body);
    match k {
        PacketKind::Hello => {},
        PacketKind::Update => {
            assert(s[0] == 'U');
            assert(s.take(6)[0] != spec_tag(PacketKind::Hello)[0]);
        },
        PacketKind::NeighborRequest => {
            assert(s[0] == 'N');
            assert(s.take(6)[0] != spec_tag(PacketKind::Hello)[0]);
            assert(s.take(7)[0] != spec_tag(PacketKind::Update)[0]);
        },
        PacketKind::NeighborResponse => {
            assert(s[0] == 'N');
            assert(s.take(6)[0] != spec_tag(PacketKind::Hello)[0]);
            assert(s.take(7)[0] != spec_tag(PacketKind::Update)[0]);
            assert(s[11] == 'S');
            assert(s.take(17)[11] != spec_tag(PacketKind::NeighborRequest)[11]);
        },
    }
}

} // verus!
