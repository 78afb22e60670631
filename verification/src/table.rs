//! The longest-prefix-match table, kept by the `ip_network_table` crate.
//!
//! Nothing here is proved: each function states what the crate's table does,
//! over the entries that the table holds.

use crate::addr::{mask128, mask32, IpAddr, IpNetwork};
use crate::types::AsnRecord;
use ip_network_table::IpNetworkTable;
use vstd::prelude::*;

verus! {

#[verifier::external_type_specification]
#[verifier::external_body]
#[verifier::reject_recursive_types(T)]
pub struct ExIpNetworkTable<T>(IpNetworkTable<T>);

/// The entries of a table: the record stored under each network.
pub uninterp spec fn table_entries(table: IpNetworkTable<AsnRecord>) -> Map<IpNetwork, AsnRecord>;

/// Whether `net` is, among the networks of `entries` that contain `ip`, the
/// one of the greatest prefix length.
pub open spec fn is_longest_match(
    entries: Map<IpNetwork, AsnRecord>,
    net: IpNetwork,
    ip: IpAddr,
) -> bool {
    &&& entries.contains_key(net)
    &&& net.contains(ip)
    &&& forall|other: IpNetwork|
        entries.contains_key(other) && #[trigger] other.contains(ip) ==> other.netmask
            <= net.netmask
}

/// Whether no network of `entries` contains `ip`.
pub open spec fn no_match(entries: Map<IpNetwork, AsnRecord>, ip: IpAddr) -> bool {
    forall|net: IpNetwork| entries.contains_key(net) ==> !#[trigger] net.contains(ip)
}

/// `IpNetworkTable::new`: a table without entries.
#[verifier::external_body]
pub(crate) fn table_new() -> (table: IpNetworkTable<AsnRecord>)
    ensures
        table_entries(table) =~= Map::empty(),
{
    IpNetworkTable::new()
}

/// `IpNetworkTable::insert` with an IPv4 network: the record is stored under
/// the network and takes the place of one stored there before. The network is
/// made by `Ipv4Network::new`, which fails on a prefix above 32 and on an
/// address with a bit set behind the prefix.
#[verifier::external_body]
pub(crate) fn table_insert_v4(
    table: &mut IpNetworkTable<AsnRecord>,
    address: u32,
    prefix: u8,
    record: AsnRecord,
)
    requires
        prefix <= 32,
        address & mask32(prefix) == address,
    ensures
        table_entries(*final(table)) == table_entries(*old(table)).insert(
            IpNetwork { network_address: IpAddr::V4(address), netmask: prefix },
            record,
        ),
{
    table.insert(ip_network::Ipv4Network::new(address.into(), prefix).unwrap(), record);
}

/// `IpNetworkTable::insert` with an IPv6 network, made by `Ipv6Network::new`:
/// as for IPv4, on 128 bits.
#[verifier::external_body]
pub(crate) fn table_insert_v6(
    table: &mut IpNetworkTable<AsnRecord>,
    address: u128,
    prefix: u8,
    record: AsnRecord,
)
    requires
        prefix <= 128,
        address & mask128(prefix) == address,
    ensures
        table_entries(*final(table)) == table_entries(*old(table)).insert(
            IpNetwork { network_address: IpAddr::V6(address), netmask: prefix },
            record,
        ),
{
    table.insert(ip_network::Ipv6Network::new(address.into(), prefix).unwrap(), record);
}

/// `IpNetworkTable::longest_match_ipv4`: the most specific network of the
/// table that contains the address, as its address and prefix length, with the
/// record stored under it; `None` if no network of the table contains it.
#[verifier::external_body]
pub(crate) fn table_longest_match_v4<'a>(
    table: &'a IpNetworkTable<AsnRecord>,
    address: u32,
) -> (found: Option<(u32, u8, &'a AsnRecord)>)
    ensures
        found is None ==> no_match(table_entries(*table), IpAddr::V4(address)),
        found matches Some(hit) ==> {
            let net = IpNetwork { network_address: IpAddr::V4(hit.0), netmask: hit.1 };
            &&& is_longest_match(table_entries(*table), net, IpAddr::V4(address))
            &&& *hit.2 == table_entries(*table)[net]
        },
{
    match table.longest_match_ipv4(address.into()) {
        Some((net, record)) => Some((net.network_address().into(), net.netmask(), record)),
        None => None,
    }
}

/// `IpNetworkTable::longest_match_ipv6`: as for IPv4.
#[verifier::external_body]
pub(crate) fn table_longest_match_v6<'a>(
    table: &'a IpNetworkTable<AsnRecord>,
    address: u128,
) -> (found: Option<(u128, u8, &'a AsnRecord)>)
    ensures
        found is None ==> no_match(table_entries(*table), IpAddr::V6(address)),
        found matches Some(hit) ==> {
            let net = IpNetwork { network_address: IpAddr::V6(hit.0), netmask: hit.1 };
            &&& is_longest_match(table_entries(*table), net, IpAddr::V6(address))
            &&& *hit.2 == table_entries(*table)[net]
        },
{
    match table.longest_match_ipv6(address.into()) {
        Some((net, record)) => Some((net.network_address().into(), net.netmask(), record)),
        None => None,
    }
}

} // verus!
