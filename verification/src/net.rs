//! IPv4 / IPv6 addresses and networks, as plain integers with a prefix length.
use vstd::prelude::*;
use crate::text::spec_decimal;

verus! {

/// The netmask of an IPv4 network with `prefix` leading one bits.
pub open spec fn v4_mask(prefix: u8) -> u32 {
    if prefix == 0 {
        0
    } else {
        u32::MAX << ((32 - prefix) as u32)
    }
}

/// The netmask of an IPv6 network with `prefix` leading one bits.
pub open spec fn v6_mask(prefix: u8) -> u128 {
    if prefix == 0 {
        0
    } else {
        u128::MAX << ((128 - prefix) as u128)
    }
}

/// An IPv4 network: an address (host bits may be set) and a prefix length of at most 32.
#[derive(Clone, Copy, Debug, PartialEq, Eq, Structural)]
pub struct Ipv4Net {
    pub(crate) addr: u32,
    pub(crate) prefix: u8,
}

impl Ipv4Net {
    #[verifier::type_invariant]
    spec fn prefix_fits(self) -> bool {
        self.prefix <= 32
    }

    /// The address as given (host bits may be set).
    pub closed spec fn spec_addr(self) -> u32 {
        self.addr
    }

    /// The prefix length.
    pub closed spec fn spec_prefix(self) -> u8 {
        self.prefix
    }

    /// The network with the given address and prefix.
    pub closed spec fn spec_from_parts(addr: u32, prefix: u8) -> Ipv4Net {
        Ipv4Net { addr, prefix }
    }

    pub proof fn lemma_from_parts(addr: u32, prefix: u8)
        ensures
            Ipv4Net::spec_from_parts(addr, prefix).spec_addr() == addr,
            Ipv4Net::spec_from_parts(addr, prefix).spec_prefix() == prefix,
    {
    }

    /// Two networks are equal exactly when address and prefix are.
    pub proof fn lemma_eq(a: Ipv4Net, b: Ipv4Net)
        ensures
            (a == b) <==> (a.spec_addr() == b.spec_addr() && a.spec_prefix() == b.spec_prefix()),
    {
    }

    /// The network address: the address with its host bits cleared.
    pub open spec fn spec_network(self) -> u32 {
        self.spec_addr() & v4_mask(self.spec_prefix())
    }

    /// Whether `ip` lies inside this network.
    pub open spec fn spec_contains(self, ip: u32) -> bool {
        ip & v4_mask(self.spec_prefix()) == self.spec_addr() & v4_mask(self.spec_prefix())
    }

    /// Builds a network; `None` when the prefix is longer than 32.
    pub fn new(addr: u32, prefix: u8) -> (r: Option<Ipv4Net>)
        ensures
            prefix <= 32 <==> r is Some,
            r matches Some(n) ==> n.spec_addr() == addr && n.spec_prefix() == prefix,
    {
        if prefix > 32 {
            None
        } else {
            Some(Ipv4Net { addr, prefix })
        }
    }

    pub fn ip(&self) -> (r: u32)
        ensures
            r == self.spec_addr(),
    {
        self.addr
    }

    pub fn prefix(&self) -> (r: u8)
        ensures
            r == self.spec_prefix(),
            r <= 32,
    {
        proof {
            use_type_invariant(self);
        }
        self.prefix
    }

    pub fn mask(&self) -> (r: u32)
        ensures
            r == v4_mask(self.spec_prefix()),
    {
        proof {
            use_type_invariant(self);
        }
        if self.prefix == 0 {
            0
        } else {
            u32::MAX << ((32 - self.prefix) as u32)
        }
    }

    pub fn network(&self) -> (r: u32)
        ensures
            r == self.spec_network(),
    {
        self.addr & self.mask()
    }

    pub fn broadcast(&self) -> (r: u32)
        ensures
            r == self.spec_addr() | !v4_mask(self.spec_prefix()),
    {
        self.addr | !self.mask()
    }

    pub fn contains(&self, ip: u32) -> (r: bool)
        ensures
            r == self.spec_contains(ip),
    {
        let m = self.mask();
        ip & m == self.addr & m
    }
}

/// An IPv6 network: an address and a prefix length of at most 128.
#[derive(Clone, Copy, Debug, PartialEq, Eq, Structural)]
pub struct Ipv6Net {
    pub(crate) addr: u128,
    pub(crate) prefix: u8,
}

impl Ipv6Net {
    #[verifier::type_invariant]
    spec fn prefix_fits(self) -> bool {
        self.prefix <= 128
    }

    /// The address as given.
    pub closed spec fn spec_addr(self) -> u128 {
        self.addr
    }

    /// The prefix length.
    pub closed spec fn spec_prefix(self) -> u8 {
        self.prefix
    }

    /// Two networks are equal exactly when address and prefix are.
    pub proof fn lemma_eq(a: Ipv6Net, b: Ipv6Net)
        ensures
            (a == b) <==> (a.spec_addr() == b.spec_addr() && a.spec_prefix() == b.spec_prefix()),
    {
    }

    pub open spec fn spec_contains(self, ip: u128) -> bool {
        ip & v6_mask(self.spec_prefix()) == self.spec_addr() & v6_mask(self.spec_prefix())
    }

    /// Builds a network; `None` when the prefix is longer than 128.
    pub fn new(addr: u128, prefix: u8) -> (r: Option<Ipv6Net>)
        ensures
            prefix <= 128 <==> r is Some,
            r matches Some(n) ==> n.spec_addr() == addr && n.spec_prefix() == prefix,
    {
        if prefix > 128 {
            None
        } else {
            Some(Ipv6Net { addr, prefix })
        }
    }

    pub fn ip(&self) -> (r: u128)
        ensures
            r == self.spec_addr(),
    {
        self.addr
    }

    pub fn prefix(&self) -> (r: u8)
        ensures
            r == self.spec_prefix(),
            r <= 128,
    {
        proof {
            use_type_invariant(self);
        }
        self.prefix
    }

    pub fn mask(&self) -> (r: u128)
        ensures
            r == v6_mask(self.spec_prefix()),
    {
        proof {
            use_type_invariant(self);
        }
        if self.prefix == 0 {
            0
        } else {
            u128::MAX << ((128 - self.prefix) as u128)
        }
    }

    pub fn contains(&self, ip: u128) -> (r: bool)
        ensures
            r == self.spec_contains(ip),
    {
        let m = self.mask();
        ip & m == self.addr & m
    }
}

/// An IP address of either family.
#[derive(Clone, Copy, Debug, PartialEq, Eq, Structural)]
pub enum IpAddress {
    V4(u32),
    V6(u128),
}

/// A network of either family.
#[derive(Clone, Copy, Debug, PartialEq, Eq, Structural)]
pub enum IpNet {
    V4(Ipv4Net),
    V6(Ipv6Net),
}

impl IpNet {
    pub open spec fn spec_prefix(self) -> u8 {
        match self {
            IpNet::V4(n) => n.spec_prefix(),
            IpNet::V6(n) => n.spec_prefix(),
        }
    }

    /// A network holds only addresses of its own family.
    pub open spec fn spec_contains(self, ip: IpAddress) -> bool {
        match (self, ip) {
            (IpNet::V4(n), IpAddress::V4(a)) => n.spec_contains(a),
            (IpNet::V6(n), IpAddress::V6(a)) => n.spec_contains(a),
            _ => false,
        }
    }

    pub fn prefix(&self) -> (r: u8)
        ensures
            r == self.spec_prefix(),
    {
        match self {
            IpNet::V4(n) => n.prefix(),
            IpNet::V6(n) => n.prefix(),
        }
    }

    pub fn contains(&self, ip: IpAddress) -> (r: bool)
        ensures
            r == self.spec_contains(ip),
    {
        match (self, ip) {
            (IpNet::V4(n), IpAddress::V4(a)) => n.contains(a),
            (IpNet::V6(n), IpAddress::V6(a)) => n.contains(a),
            _ => false,
        }
    }
}

/// `127.x.y.z`.
pub open spec fn spec_is_loopback_v4(a: u32) -> bool {
    a >> 24u32 == 127
}

/// `0.0.0.0`.
pub open spec fn spec_is_unspecified_v4(a: u32) -> bool {
    a == 0
}

pub fn is_loopback_v4(a: u32) -> (r: bool)
    ensures
        r == spec_is_loopback_v4(a),
{
    a >> 24u32 == 127
}

pub fn is_unspecified_v4(a: u32) -> (r: bool)
    ensures
        r == spec_is_unspecified_v4(a),
{
    a == 0
}

/// What `ipnetwork::Ipv4Network::from_str` gives for a text: address and prefix.
pub uninterp spec fn ipv4_network_parse(text: Seq<char>) -> Option<(u32, u8)>;

/// What the standard library's `Ipv4Addr::from_str` gives for a text, as an integer.
pub uninterp spec fn ipv4_addr_parse(text: Seq<char>) -> Option<u32>;

/// The text `"{address}/{prefix}"`, the address in dotted-quad form and the
/// prefix in decimal.
pub open spec fn cidr_text(addr: u32, prefix: u8) -> Seq<char> {
    ipv4_addr_text(addr) + seq!['/'] + spec_decimal(prefix as nat)
}

/// The dotted-quad text of an IPv4 address: its four octets, most significant
/// first, in decimal, joined by dots (`Display` of the standard library's `Ipv4Addr`).
pub open spec fn ipv4_addr_text(addr: u32) -> Seq<char> {
    spec_decimal(((addr / 0x100_0000) % 0x100) as nat) + seq!['.'] + spec_decimal(((addr / 0x1_0000) % 0x100) as nat)
        + seq!['.'] + spec_decimal(((addr / 0x100) % 0x100) as nat) + seq!['.'] + spec_decimal((addr % 0x100) as nat)
}

/// The text of an IPv6 address (`Display` of the standard library's `Ipv6Addr`).
pub uninterp spec fn ipv6_addr_text(addr: u128) -> Seq<char>;

/// Parses CIDR notation with `ipnetwork::Ipv4Network::from_str`. The contract
/// claims only that the result is the named parse of the text; ipnetwork
/// refuses prefixes above 32, which the returned value's invariant carries.
#[verifier::external_body]
pub fn parse_ipv4_network(text: &str) -> (r: Option<Ipv4Net>)
    ensures
        match r {
            Some(n) => ipv4_network_parse(text@) == Some((n.spec_addr(), n.spec_prefix())),
            None => ipv4_network_parse(text@) is None,
        },
{
    match text.parse::<ipnetwork::Ipv4Network>() {
        Ok(n) => Some(Ipv4Net { addr: u32::from(n.ip()), prefix: n.prefix() }),
        Err(_) => None,
    }
}

/// Parses a dotted-quad address with the standard library's `Ipv4Addr::from_str`
/// (the address type is reached through `ipnetwork::Ipv4Network::new`); the
/// result is the named parse of the text.
#[verifier::external_body]
pub fn parse_ipv4_addr(text: &str) -> (r: Option<u32>)
    ensures
        r == ipv4_addr_parse(text@),
{
    match text.parse() {
        Ok(a) => match ipnetwork::Ipv4Network::new(a, 32) {
            Ok(n) => Some(u32::from(n.ip())),
            Err(_) => None,
        },
        Err(_) => None,
    }
}

/// `Display` of `ipnetwork::Ipv4Network`, which writes `"{address}/{prefix}"`
/// with the standard library's dotted-decimal `Ipv4Addr`; the contract claims
/// exactly that text (`cidr_text`).
#[verifier::external_body]
pub fn format_cidr(addr: u32, prefix: u8) -> (r: String)
    requires
        prefix <= 32,
    ensures
        r@ == cidr_text(addr, prefix),
{
    match ipnetwork::Ipv4Network::new(addr.into(), prefix) {
        Ok(n) => n.to_string(),
        Err(_) => String::new(),
    }
}

/// `Display` of the standard library's `Ipv4Addr` (reached as the address of an
/// `ipnetwork::Ipv4Network`); the contract claims its dotted-decimal text
/// (`ipv4_addr_text`).
#[verifier::external_body]
pub fn format_ipv4_addr(addr: u32) -> (r: String)
    ensures
        r@ == ipv4_addr_text(addr),
{
    match ipnetwork::Ipv4Network::new(addr.into(), 32) {
        Ok(n) => n.ip().to_string(),
        Err(_) => String::new(),
    }
}

/// `Display` of the standard library's `Ipv6Addr` (reached as the address of an
/// `ipnetwork::Ipv6Network`); the result is the named text.
#[verifier::external_body]
pub fn format_ipv6_addr(addr: u128) -> (r: String)
    ensures
        r@ == ipv6_addr_text(addr),
{
    match ipnetwork::Ipv6Network::new(addr.into(), 128) {
        Ok(n) => n.ip().to_string(),
        Err(_) => String::new(),
    }
}

/// The text `"{address}/{prefix}"` of an IPv6 network, the address as the
/// standard library writes it and the prefix in decimal.
pub open spec fn cidr6_text(addr: u128, prefix: u8) -> Seq<char> {
    ipv6_addr_text(addr) + seq!['/'] + spec_decimal(prefix as nat)
}

/// `Display` of `ipnetwork::Ipv6Network`, which writes `"{address}/{prefix}"`;
/// the contract claims that text, the address part being the named
/// `ipv6_addr_text`.
#[verifier::external_body]
pub fn format_cidr_v6(addr: u128, prefix: u8) -> (r: String)
    requires
        prefix <= 128,
    ensures
        r@ == cidr6_text(addr, prefix),
{
    match ipnetwork::Ipv6Network::new(addr.into(), prefix) {
        Ok(n) => n.to_string(),
        Err(_) => String::new(),
    }
}

/// The CIDR text of a network of either family.
pub open spec fn ip_net_text(n: IpNet) -> Seq<char> {
    match n {
        IpNet::V4(x) => cidr_text(x.spec_addr(), x.spec_prefix()),
        IpNet::V6(x) => cidr6_text(x.spec_addr(), x.spec_prefix()),
    }
}

pub fn format_ip_net(n: IpNet) -> (r: String)
    ensures
        r@ == ip_net_text(n),
{
    match n {
        IpNet::V4(x) => format_cidr(x.ip(), x.prefix()),
        IpNet::V6(x) => format_cidr_v6(x.ip(), x.prefix()),
    }
}

/// The text of an address of either family.
pub open spec fn ip_address_text(a: IpAddress) -> Seq<char> {
    match a {
        IpAddress::V4(x) => ipv4_addr_text(x),
        IpAddress::V6(x) => ipv6_addr_text(x),
    }
}

pub fn format_ip_address(a: IpAddress) -> (r: String)
    ensures
        r@ == ip_address_text(a),
{
    match a {
        IpAddress::V4(x) => format_ipv4_addr(x),
        IpAddress::V6(x) => format_ipv6_addr(x),
    }
}

/// The order of networks: IPv4 before IPv6, then by address, then by prefix.
pub open spec fn spec_net_lt(a: IpNet, b: IpNet) -> bool {
    match (a, b) {
        (IpNet::V4(x), IpNet::V4(y)) => x.spec_addr() < y.spec_addr() || (x.spec_addr() == y.spec_addr()
            && x.spec_prefix() < y.spec_prefix()),
        (IpNet::V4(_), IpNet::V6(_)) => true,
        (IpNet::V6(_), IpNet::V4(_)) => false,
        (IpNet::V6(x), IpNet::V6(y)) => x.spec_addr() < y.spec_addr() || (x.spec_addr() == y.spec_addr()
            && x.spec_prefix() < y.spec_prefix()),
    }
}

/// The order is strict and total.
pub proof fn lemma_net_order(a: IpNet, b: IpNet, c: IpNet)
    ensures
        !spec_net_lt(a, a),
        spec_net_lt(a, b) && spec_net_lt(b, c) ==> spec_net_lt(a, c),
        a == b || spec_net_lt(a, b) || spec_net_lt(b, a),
{
    match (a, b) {
        (IpNet::V4(x), IpNet::V4(y)) => Ipv4Net::lemma_eq(x, y),
        (IpNet::V6(x), IpNet::V6(y)) => Ipv6Net::lemma_eq(x, y),
        _ => {},
    }
}

/// Compares two networks in that order.
pub fn net_lt(a: &IpNet, b: &IpNet) -> (r: bool)
    ensures
        r == spec_net_lt(*a, *b),
{
    match (a, b) {
        (IpNet::V4(x), IpNet::V4(y)) => x.ip() < y.ip() || (x.ip() == y.ip() && x.prefix() < y.prefix()),
        (IpNet::V4(_), IpNet::V6(_)) => true,
        (IpNet::V6(_), IpNet::V4(_)) => false,
        (IpNet::V6(x), IpNet::V6(y)) => x.ip() < y.ip() || (x.ip() == y.ip() && x.prefix() < y.prefix()),
    }
}

} // verus!
