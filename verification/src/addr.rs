//! IP addresses and CIDR networks as plain integers.
//!
//! An address is the unsigned integer that its bytes spell in network order, so
//! that the order of addresses is the order of integers and a netmask is a run
//! of leading one bits.

use vstd::prelude::*;

verus! {

/// An IPv4 or IPv6 address.
#[derive(Clone, Copy, Debug, PartialEq, Eq, PartialOrd, Ord, Hash, Structural)]
pub enum IpAddr {
    V4(u32),
    V6(u128),
}

/// A CIDR block: a network address and the number of leading bits that every
/// address of the block shares with it.
#[derive(Clone, Copy, Debug, PartialEq, Eq, PartialOrd, Ord, Hash, Structural)]
pub struct IpNetwork {
    pub network_address: IpAddr,
    pub netmask: u8,
}

/// The netmask of an IPv4 prefix length: `prefix` leading one bits.
pub open spec fn mask32(prefix: u8) -> u32 {
    if prefix == 0 {
        0
    } else {
        !0u32 << ((32 - prefix) as u32)
    }
}

/// The netmask of an IPv6 prefix length: `prefix` leading one bits.
pub open spec fn mask128(prefix: u8) -> u128 {
    if prefix == 0 {
        0
    } else {
        !0u128 << ((128 - prefix) as u128)
    }
}

/// `ip` with every bit behind the first `prefix` bits cleared.
pub open spec fn truncate(ip: IpAddr, prefix: u8) -> IpAddr {
    match ip {
        IpAddr::V4(a) => IpAddr::V4(a & mask32(prefix)),
        IpAddr::V6(a) => IpAddr::V6(a & mask128(prefix)),
    }
}

/// The greatest address that shares its first `prefix` bits with `ip`.
pub open spec fn last_in_block(ip: IpAddr, prefix: u8) -> IpAddr {
    match ip {
        IpAddr::V4(a) => IpAddr::V4((a & mask32(prefix)) | !mask32(prefix)),
        IpAddr::V6(a) => IpAddr::V6((a & mask128(prefix)) | !mask128(prefix)),
    }
}

impl IpAddr {
    /// The number of bits of an address of this family.
    pub open spec fn bits(self) -> u8 {
        match self {
            IpAddr::V4(_) => 32,
            IpAddr::V6(_) => 128,
        }
    }

    /// The address as an integer.
    pub open spec fn value(self) -> int {
        match self {
            IpAddr::V4(a) => a as int,
            IpAddr::V6(a) => a as int,
        }
    }

    pub open spec fn same_family(self, other: IpAddr) -> bool {
        (self is V4) == (other is V4)
    }

    /// The strict order of addresses: every IPv4 address comes before every
    /// IPv6 address, and within a family the integers decide.
    pub open spec fn after(self, other: IpAddr) -> bool {
        match (self, other) {
            (IpAddr::V4(a), IpAddr::V4(b)) => a > b,
            (IpAddr::V6(a), IpAddr::V6(b)) => a > b,
            (IpAddr::V4(_), IpAddr::V6(_)) => false,
            (IpAddr::V6(_), IpAddr::V4(_)) => true,
        }
    }

    /// Whether `self` lies in the closed interval from `start` to `end` of its
    /// own family.
    pub open spec fn within(self, start: IpAddr, end: IpAddr) -> bool {
        &&& self.same_family(start)
        &&& self.same_family(end)
        &&& start.value() <= self.value() <= end.value()
    }

    /// The next address of the same family; meant for addresses below the
    /// family's greatest.
    pub open spec fn succ(self) -> IpAddr {
        match self {
            IpAddr::V4(a) => IpAddr::V4((a + 1) as u32),
            IpAddr::V6(a) => IpAddr::V6((a + 1) as u128),
        }
    }

    pub fn is_ipv4(&self) -> (b: bool)
        ensures
            b == (*self is V4),
    {
        match self {
            IpAddr::V4(_) => true,
            IpAddr::V6(_) => false,
        }
    }

    pub fn is_ipv6(&self) -> (b: bool)
        ensures
            b == (*self is V6),
    {
        match self {
            IpAddr::V4(_) => false,
            IpAddr::V6(_) => true,
        }
    }

    /// Whether `self` is strictly greater than `other`.
    pub fn is_after(&self, other: &IpAddr) -> (b: bool)
        ensures
            b == self.after(*other),
    {
        match (self, other) {
            (IpAddr::V4(a), IpAddr::V4(b)) => *a > *b,
            (IpAddr::V6(a), IpAddr::V6(b)) => *a > *b,
            (IpAddr::V4(_), IpAddr::V6(_)) => false,
            (IpAddr::V6(_), IpAddr::V4(_)) => true,
        }
    }

    /// The next address of the same family, or `None` for the family's
    /// greatest address.
    pub fn checked_succ(&self) -> (next: Option<IpAddr>)
        ensures
            next is Some <==> self.value() < max_value(self.bits()),
            next matches Some(n) ==> n == self.succ() && n.value() == self.value() + 1
                && n.same_family(*self),
    {
        match self {
            IpAddr::V4(a) => if *a < u32::MAX {
                Some(IpAddr::V4(*a + 1))
            } else {
                None
            },
            IpAddr::V6(a) => if *a < u128::MAX {
                Some(IpAddr::V6(*a + 1))
            } else {
                None
            },
        }
    }
}

/// The greatest integer that an address of `bits` bits can spell.
pub open spec fn max_value(bits: u8) -> int {
    if bits == 32 {
        u32::MAX as int
    } else {
        u128::MAX as int
    }
}

impl IpNetwork {
    /// A prefix length that the family admits, and no bit set behind it.
    pub open spec fn wf(self) -> bool {
        &&& self.netmask <= self.network_address.bits()
        &&& truncate(self.network_address, self.netmask) == self.network_address
    }

    /// The greatest address of the block.
    pub open spec fn last(self) -> IpAddr {
        last_in_block(self.network_address, self.netmask)
    }

    /// Whether `ip` belongs to the block: it is of the block's family and its
    /// first `netmask` bits are those of the network address.
    pub open spec fn contains(self, ip: IpAddr) -> bool {
        &&& ip.same_family(self.network_address)
        &&& truncate(ip, self.netmask) == self.network_address
    }

    /// The block of `prefix` leading bits at `address`, unless `prefix`
    /// exceeds the family's width or `address` has a bit set behind the prefix.
    pub fn new(address: IpAddr, prefix: u8) -> (net: Option<IpNetwork>)
        ensures
            net is Some <==> (IpNetwork { network_address: address, netmask: prefix }).wf(),
            net matches Some(n) ==> n == (IpNetwork { network_address: address, netmask: prefix }),
    {
        let in_family = match address {
            IpAddr::V4(_) => prefix <= 32,
            IpAddr::V6(_) => prefix <= 128,
        };
        if !in_family {
            return None;
        }
        let (first, _) = block_bounds(address, prefix);
        if first == address {
            Some(IpNetwork { network_address: address, netmask: prefix })
        } else {
            None
        }
    }
}

/// Calls `ip_network::Ipv4Network::new_truncate` and hands back the first
/// address of the network it made (`network_address`) and its last
/// (`broadcast_address`). The crate computes the first as the address and the
/// netmask's bits, and the last as the first or the netmask's complement; it
/// fails only for a prefix above 32.
#[verifier::external_body]
fn ipv4_block(address: u32, prefix: u8) -> (r: (u32, u32))
    requires
        prefix <= 32,
    ensures
        r.0 == address & mask32(prefix),
        r.1 == (address & mask32(prefix)) | !mask32(prefix),
{
    let net = ip_network::Ipv4Network::new_truncate(address.into(), prefix).unwrap();
    (net.network_address().into(), net.broadcast_address().into())
}

/// Calls `ip_network::Ipv6Network::new_truncate` and hands back the first
/// address of the network it made (`network_address`) and its last
/// (`last_address`), computed as for IPv4 on 128 bits; it fails only for a
/// prefix above 128.
#[verifier::external_body]
fn ipv6_block(address: u128, prefix: u8) -> (r: (u128, u128))
    requires
        prefix <= 128,
    ensures
        r.0 == address & mask128(prefix),
        r.1 == (address & mask128(prefix)) | !mask128(prefix),
{
    let net = ip_network::Ipv6Network::new_truncate(address.into(), prefix).unwrap();
    (net.network_address().into(), net.last_address().into())
}

/// The first and the last address of the block of `prefix` bits around
/// `address`.
pub fn block_bounds(address: IpAddr, prefix: u8) -> (r: (IpAddr, IpAddr))
    requires
        prefix <= address.bits(),
    ensures
        r.0 == truncate(address, prefix),
        r.1 == last_in_block(address, prefix),
{
    match address {
        IpAddr::V4(a) => {
            let (first, last) = ipv4_block(a, prefix);
            (IpAddr::V4(first), IpAddr::V4(last))
        },
        IpAddr::V6(a) => {
            let (first, last) = ipv6_block(a, prefix);
            (IpAddr::V6(first), IpAddr::V6(last))
        },
    }
}

/// At the family's full prefix length a block is its one address.
pub proof fn lemma_host_block(ip: IpAddr)
    ensures
        truncate(ip, ip.bits()) == ip,
        last_in_block(ip, ip.bits()) == ip,
{
    match ip {
        IpAddr::V4(a) => {
            assert(a & (!0u32 << 0u32) == a) by (bit_vector);
            assert((a & (!0u32 << 0u32)) | !(!0u32 << 0u32) == a) by (bit_vector);
        },
        IpAddr::V6(a) => {
            assert(a & (!0u128 << 0u128) == a) by (bit_vector);
            assert((a & (!0u128 << 0u128)) | !(!0u128 << 0u128) == a) by (bit_vector);
        },
    }
}

/// A block that starts at `ip` with `prefix` bits contains the block that
/// starts there with one bit more, and `ip` is its least address.
pub proof fn lemma_narrow_block(ip: IpAddr, prefix: u8)
    requires
        1 <= prefix <= ip.bits(),
        truncate(ip, prefix) == ip,
    ensures
        ip.value() <= last_in_block(ip, prefix).value(),
        last_in_block(ip, prefix).same_family(ip),
        prefix < ip.bits() ==> truncate(ip, (prefix + 1) as u8) == ip,
        prefix < ip.bits() ==> last_in_block(ip, (prefix + 1) as u8).value() <= last_in_block(
            ip,
            prefix,
        ).value(),
{
    let q = (prefix + 1) as u8;
    match ip {
        IpAddr::V4(a) => {
            assert(a <= (a & mask32(prefix)) | !mask32(prefix)) by (bit_vector)
                requires
                    a & mask32(prefix) == a,
            ;
            if prefix < 32 {
                assert(a & mask32(q) == a && (a & mask32(q)) | !mask32(q) <= (a & mask32(prefix))
                    | !mask32(prefix)) by (bit_vector)
                    requires
                        1 <= prefix < 32,
                        q == prefix + 1,
                        a & mask32(prefix) == a,
                ;
            }
        },
        IpAddr::V6(a) => {
            assert(a <= (a & mask128(prefix)) | !mask128(prefix)) by (bit_vector)
                requires
                    a & mask128(prefix) == a,
            ;
            if prefix < 128 {
                assert(a & mask128(q) == a && (a & mask128(q)) | !mask128(q) <= (a & mask128(
                    prefix,
                )) | !mask128(prefix)) by (bit_vector)
                    requires
                        1 <= prefix < 128,
                        q == prefix + 1,
                        a & mask128(prefix) == a,
                ;
            }
        },
    }
}

/// The addresses of a well-formed block are those from its network address to
/// its last address.
pub proof fn lemma_block_interval(net: IpNetwork, ip: IpAddr)
    requires
        net.wf(),
    ensures
        net.contains(ip) <==> ip.within(net.network_address, net.last()),
        net.last().same_family(net.network_address),
{
    let p = net.netmask;
    match (net.network_address, ip) {
        (IpAddr::V4(n), IpAddr::V4(x)) => {
            assert((x & mask32(p) == n) <==> (n <= x && x <= (n & mask32(p)) | !mask32(p)))
                by (bit_vector)
                requires
                    p <= 32,
                    n & mask32(p) == n,
            ;
        },
        (IpAddr::V6(n), IpAddr::V6(x)) => {
            assert((x & mask128(p) == n) <==> (n <= x && x <= (n & mask128(p)) | !mask128(p)))
                by (bit_vector)
                requires
                    p <= 128,
                    n & mask128(p) == n,
            ;
        },
        _ => {},
    }
}

} // verus!
