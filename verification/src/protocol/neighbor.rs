//! A neighbour as the link-state database records it.
use vstd::prelude::*;
use crate::net::{IpAddress, IpNet};
use crate::protocol::types::SocketAddress;

verus! {

/// A neighbouring router, seen on one of our networks.
#[derive(Debug)]
pub struct Neighbor {
    pub router_id: String,
    pub router_name: String,
    pub ip_address: IpAddress,
    pub network: IpNet,
    pub bandwidth: u64,
    /// When it was last heard from, in nanoseconds since the Unix epoch.
    pub last_seen: i64,
    pub socket_addr: SocketAddress,
}

/// Reads the system clock with the standard library's
/// `SystemTime::now().duration_since(UNIX_EPOCH)`: the nanoseconds since the
/// Unix epoch (`Ok`), or, when the clock lies before the epoch, the nanoseconds
/// before it (`Err`, from the error's `duration()`). Nothing is claimed of the
/// reading itself.
#[verifier::external_body]
fn system_clock_nanos() -> (r: Result<u128, u128>) {
    match std::time::SystemTime::now().duration_since(std::time::UNIX_EPOCH) {
        Ok(d) => Ok(d.as_nanos()),
        Err(e) => Err(e.duration().as_nanos()),
    }
}

/// Nanoseconds relative to the epoch for a clock reading (see `nanos_from_clock`).
pub open spec fn spec_clock_nanos(reading: Result<u128, u128>) -> int {
    match reading {
        Ok(n) => if n <= i64::MAX {
            n as int
        } else {
            i64::MAX as int
        },
        Err(b) => if b <= i64::MAX {
            -(b as int)
        } else {
            -(i64::MAX as int)
        },
    }
}

/// The signed nanoseconds since the epoch of a clock reading: time after it as
/// it is, time before it negated; beyond the range of `i64` (about 292 years
/// either way) the value is held at its end.
pub fn nanos_from_clock(reading: Result<u128, u128>) -> (r: i64)
    ensures
        r == spec_clock_nanos(reading),
{
    match reading {
        Ok(n) => if n <= i64::MAX as u128 {
            n as i64
        } else {
            i64::MAX
        },
        Err(b) => if b <= i64::MAX as u128 {
            -(b as i64)
        } else {
            -i64::MAX
        },
    }
}

/// The current time in nanoseconds since the Unix epoch, by the system clock:
/// the value of some clock reading (which one is not known).
pub fn unix_now_nanos() -> (r: i64)
    ensures
        exists|reading: Result<u128, u128>| r == #[trigger] spec_clock_nanos(reading),
{
    let reading = system_clock_nanos();
    let r = nanos_from_clock(reading);
    assert(r == spec_clock_nanos(reading));
    r
}

/// The whole seconds of a signed duration in nanoseconds, rounded toward zero
/// (as chrono's `Duration::num_seconds` gives them).
pub open spec fn spec_whole_seconds(ns: int) -> int {
    if ns >= 0 {
        ns / 1_000_000_000
    } else {
        -((-ns) / 1_000_000_000)
    }
}

impl Neighbor {
    /// An identical copy.
    pub fn duplicate(&self) -> (r: Neighbor)
        ensures
            r == *self,
    {
        Neighbor {
            router_id: self.router_id.clone(),
            router_name: self.router_name.clone(),
            ip_address: self.ip_address,
            network: self.network,
            bandwidth: self.bandwidth,
            last_seen: self.last_seen,
            socket_addr: self.socket_addr,
        }
    }

    /// Whether fewer than `dead_interval_secs` whole seconds have passed since
    /// the neighbour was last seen, at time `now` (nanoseconds since the epoch).
    pub open spec fn spec_is_alive_at(&self, now: int, dead_interval_secs: i64) -> bool {
        spec_whole_seconds(now - self.last_seen) < dead_interval_secs
    }

    pub fn is_alive_at(&self, now: i64, dead_interval_secs: i64) -> (r: bool)
        ensures
            r == self.spec_is_alive_at(now as int, dead_interval_secs),
    {
        let diff: i128 = now as i128 - self.last_seen as i128;
        let secs: i128 = if diff >= 0 {
            diff / 1_000_000_000
        } else {
            -((-diff) / 1_000_000_000)
        };
        secs < dead_interval_secs as i128
    }

    /// Whether fewer than `dead_interval_secs` whole seconds have passed since
    /// the neighbour was last seen, by the clock: the answer of `is_alive_at` at
    /// the time of a clock reading.
    pub fn is_alive(&self, dead_interval_secs: i64) -> (r: bool)
        ensures
            exists|reading: Result<u128, u128>|
                r == #[trigger] self.spec_is_alive_at(spec_clock_nanos(reading), dead_interval_secs),
    {
        let now = unix_now_nanos();
        let ghost reading = choose|reading: Result<u128, u128>| now == spec_clock_nanos(reading);
        let r = self.is_alive_at(now, dead_interval_secs);
        assert(r == self.spec_is_alive_at(spec_clock_nanos(reading), dead_interval_secs));
        r
    }
}

} // verus!
