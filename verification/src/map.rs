//! The finished map and its queries.

use crate::addr::{IpAddr, IpNetwork};
use crate::display::{append_ip, append_number, network_text, number_text};
use crate::table::{
    is_longest_match, no_match, table_entries, table_longest_match_v4, table_longest_match_v6,
    table_new,
};
use crate::types::AsnRecord;
use ip_network_table::IpNetworkTable;
use crate::source::utf8_text;
use vstd::array::array_as_slice;
use vstd::prelude::*;
use vstd::string::StringExecFns;
use vstd::utf8::{decode_utf8, encode_utf8, valid_utf8};

verus! {

/// What is known of an address, with the two texts borrowed from the map.
#[derive(Debug, PartialEq, Eq)]
#[non_exhaustive]
pub struct AsnInfoView<'a> {
    /// The most specific block of the map that holds the address.
    pub network: IpNetwork,
    /// The number of the autonomous system.
    pub asn: u32,
    /// The country code.
    pub country_code: &'a str,
    /// The name of the organization.
    pub organization: &'a str,
}

/// What is known of an address, with texts of its own.
///
/// Two values are ordered by the number of the autonomous system first, then
/// by block, country code and name.
#[derive(Debug, Clone, PartialEq, Eq, PartialOrd, Ord, Hash)]
#[non_exhaustive]
pub struct AsnInfo {
    /// The number of the autonomous system.
    pub asn: u32,
    /// The most specific block of the map that holds the address.
    pub network: IpNetwork,
    /// The country code.
    pub country_code: String,
    /// The name of the organization.
    pub organization: String,
}

/// The answer to a query, with its texts as sequences of characters.
pub struct AsnInfoModel {
    pub network: IpNetwork,
    pub asn: u32,
    pub country_code: Seq<char>,
    pub organization: Seq<char>,
}

impl<'a> View for AsnInfoView<'a> {
    type V = AsnInfoModel;

    open spec fn view(&self) -> AsnInfoModel {
        AsnInfoModel {
            network: self.network,
            asn: self.asn,
            country_code: self.country_code@,
            organization: self.organization@,
        }
    }
}

impl View for AsnInfo {
    type V = AsnInfoModel;

    open spec fn view(&self) -> AsnInfoModel {
        AsnInfoModel {
            network: self.network,
            asn: self.asn,
            country_code: self.country_code@,
            organization: self.organization@,
        }
    }
}

/// How an answer reads.
pub open spec fn info_text(info: AsnInfoModel) -> Seq<char> {
    "AS"@ + number_text(info.asn as int, 10) + " "@ + info.organization + " ("@
        + info.country_code + ") in "@ + network_text(info.network)
}

impl AsnInfo {
    /// The answer in words: the number of the autonomous system, the
    /// organization, the country code and the block.
    pub fn to_string(&self) -> (text: String)
        ensures
            text@ == info_text(self@),
    {
        let mut out = String::new();
        out.append("AS");
        append_number(&mut out, self.asn as u64, 10);
        out.append(" ");
        out.append(self.organization.as_str());
        out.append(" (");
        out.append(self.country_code.as_str());
        out.append(") in ");
        append_ip(&mut out, self.network.network_address);
        out.append("/");
        append_number(&mut out, self.network.netmask as u64, 10);
        assert(out@ =~= info_text(self@));
        out
    }
}

impl<'a> AsnInfoView<'a> {
    /// The same answer with texts of its own.
    pub fn to_owned(&self) -> (info: AsnInfo)
        ensures
            info@ == self@,
    {
        AsnInfo {
            asn: self.asn,
            network: self.network,
            country_code: String::from_str(self.country_code),
            organization: String::from_str(self.organization),
        }
    }
}

/// The text of a country code: the characters that its bytes encode, and no
/// text where they encode none.
pub open spec fn country_text(code: Seq<u8>) -> Seq<char> {
    if valid_utf8(code) {
        decode_utf8(code)
    } else {
        Seq::empty()
    }
}

/// The text of a country code of two ASCII bytes is the two characters.
pub proof fn lemma_country_text_ascii(code: Seq<u8>)
    requires
        code.len() == 2,
        code[0] < 128,
        code[1] < 128,
    ensures
        country_text(code) == seq![code[0] as char, code[1] as char],
{
    let chars = seq![code[0] as char, code[1] as char];
    vstd::utf8::is_ascii_chars_encode_utf8(chars);
    assert(encode_utf8(chars) =~= code);
    vstd::utf8::encode_utf8_valid_utf8(chars);
    vstd::utf8::encode_utf8_decode_utf8(chars);
}

/// What a query for `ip` finds in `entries` and `names`: nothing if no block
/// holds the address, else the block of the longest prefix that does, with
/// what is stored under it.
pub open spec fn answers(
    entries: Map<IpNetwork, AsnRecord>,
    names: Seq<Seq<char>>,
    ip: IpAddr,
    found: Option<AsnInfoModel>,
) -> bool {
    match found {
        None => no_match(entries, ip),
        Some(info) => {
            &&& is_longest_match(entries, info.network, ip)
            &&& info.asn == entries[info.network].asn
            &&& info.country_code == country_text(entries[info.network].country_code@)
            &&& info.organization == names[entries[info.network].organization_idx as int]
        },
    }
}

/// Whether each block of `entries` is well-formed and each record names an
/// organization of `names`.
pub open spec fn names_cover(entries: Map<IpNetwork, AsnRecord>, names: Seq<Seq<char>>) -> bool {
    forall|net: IpNetwork| #[trigger]
        entries.contains_key(net) ==> net.wf() && entries[net].organization_idx < names.len()
}

/// A map from IP addresses to what is known of the block that holds them.
///
/// It is built once, by a `Builder`, and only read after that.
pub struct IpAsnMap {
    table: IpNetworkTable<AsnRecord>,
    organizations: Vec<String>,
}

impl IpAsnMap {
    /// The record stored under each block.
    pub closed spec fn entries(&self) -> Map<IpNetwork, AsnRecord> {
        table_entries(self.table)
    }

    /// The names of the organizations, each at the place that the records give.
    pub closed spec fn names(&self) -> Seq<Seq<char>> {
        self.organizations@.map_values(|s: String| s@)
    }

    #[verifier::type_invariant]
    spec fn inv(&self) -> bool {
        names_cover(self.entries(), self.names())
    }

    /// A map without blocks: no query finds anything in it.
    pub fn new() -> (map: Self)
        ensures
            map.entries() == Map::<IpNetwork, AsnRecord>::empty(),
            map.names() == Seq::<Seq<char>>::empty(),
    {
        let map = IpAsnMap { table: table_new(), organizations: Vec::new() };
        assert(map.names() =~= Seq::<Seq<char>>::empty());
        map
    }

    /// The map of the given table and names.
    pub(crate) fn from_parts(
        table: IpNetworkTable<AsnRecord>,
        organizations: Vec<String>,
    ) -> (map: Self)
        requires
            names_cover(table_entries(table), organizations@.map_values(|s: String| s@)),
        ensures
            map.entries() == table_entries(table),
            map.names() == organizations@.map_values(|s: String| s@),
    {
        IpAsnMap { table, organizations }
    }

    /// What is known of `ip`: the most specific block of the map that holds
    /// it, with the record stored under it; `None` if no block holds it.
    pub fn lookup(&self, ip: IpAddr) -> (found: Option<AsnInfoView<'_>>)
        ensures
            answers(
                self.entries(),
                self.names(),
                ip,
                match found {
                    Some(info) => Some(info@),
                    None => None,
                },
            ),
            found is Some <==> exists|net: IpNetwork|
                self.entries().contains_key(net) && #[trigger] net.contains(ip),
            found matches Some(info) ==> info.network.wf(),
    {
        proof {
            use_type_invariant(self);
        }
        let hit = match ip {
            IpAddr::V4(address) => match table_longest_match_v4(&self.table, address) {
                Some((net, prefix, record)) => Some(
                    (IpNetwork { network_address: IpAddr::V4(net), netmask: prefix }, record),
                ),
                None => None,
            },
            IpAddr::V6(address) => match table_longest_match_v6(&self.table, address) {
                Some((net, prefix, record)) => Some(
                    (IpNetwork { network_address: IpAddr::V6(net), netmask: prefix }, record),
                ),
                None => None,
            },
        };
        match hit {
            None => None,
            Some((network, record)) => {
                assert(self.entries().contains_key(network));
                let organization = self.organizations[record.organization_idx as usize].as_str();
                let country_code = match utf8_text(array_as_slice(&record.country_code)) {
                    Some(text) => text,
                    None => "",
                };
                proof {
                    reveal_strlit("");
                    assert(""@ =~= Seq::<char>::empty());
                }
                Some(AsnInfoView { network, asn: record.asn, country_code, organization })
            },
        }
    }

    /// The map in a few words: the number of organizations it names.
    pub fn describe(&self) -> (text: String)
        ensures
            text@ == "IpAsnMap { organizations: "@ + number_text(self.names().len() as int, 10)
                + ", .. }"@,
    {
        let mut out = String::new();
        out.append("IpAsnMap { organizations: ");
        append_number(&mut out, self.organizations.len() as u64, 10);
        out.append(", .. }");
        assert(out@ =~= "IpAsnMap { organizations: "@ + number_text(
            self.names().len() as int,
            10,
        ) + ", .. }"@);
        out
    }

    /// What is known of `ip`, as `lookup` finds it, with texts of its own.
    pub fn lookup_owned(&self, ip: IpAddr) -> (found: Option<AsnInfo>)
        ensures
            answers(
                self.entries(),
                self.names(),
                ip,
                match found {
                    Some(info) => Some(info@),
                    None => None,
                },
            ),
            found is Some <==> exists|net: IpNetwork|
                self.entries().contains_key(net) && #[trigger] net.contains(ip),
            found matches Some(info) ==> info.network.wf(),
    {
        match self.lookup(ip) {
            Some(view) => Some(view.to_owned()),
            None => None,
        }
    }
}

impl Default for IpAsnMap {
    /// A map without blocks.
    fn default() -> (map: Self)
        ensures
            map.entries() == Map::<IpNetwork, AsnRecord>::empty(),
            map.names() == Seq::<Seq<char>>::empty(),
    {
        IpAsnMap::new()
    }
}

/// In a map without blocks no query finds anything.
pub proof fn lemma_empty_map_misses(names: Seq<Seq<char>>, ip: IpAddr, found: Option<AsnInfoModel>)
    requires
        answers(Map::<IpNetwork, AsnRecord>::empty(), names, ip, found),
    ensures
        found is None,
{
}

/// Of two blocks of the map that hold an address, the one of the shorter
/// prefix is not the answer: a query finds a block at least as specific as
/// the more specific of the two.
pub proof fn lemma_more_specific_wins(
    entries: Map<IpNetwork, AsnRecord>,
    names: Seq<Seq<char>>,
    ip: IpAddr,
    wide: IpNetwork,
    narrow: IpNetwork,
    found: Option<AsnInfoModel>,
)
    requires
        entries.contains_key(wide),
        entries.contains_key(narrow),
        wide.contains(ip),
        narrow.contains(ip),
        wide.netmask < narrow.netmask,
        answers(entries, names, ip, found),
    ensures
        found matches Some(info) && info.network.netmask >= narrow.netmask && info.network
            != wide,
{
}

/// The answer to a query is settled by the map: two answers to the same query
/// are the same.
pub proof fn lemma_answer_unique(
    entries: Map<IpNetwork, AsnRecord>,
    names: Seq<Seq<char>>,
    ip: IpAddr,
    first: Option<AsnInfoModel>,
    second: Option<AsnInfoModel>,
)
    requires
        answers(entries, names, ip, first),
        answers(entries, names, ip, second),
    ensures
        first == second,
{
    if first is Some && second is Some {
        let a = first->0.network;
        let b = second->0.network;
        assert(a.contains(ip) && b.contains(ip));
        assert(a.netmask == b.netmask);
        assert(a == b);
    } else if first is Some {
        assert(first->0.network.contains(ip));
    } else if second is Some {
        assert(second->0.network.contains(ip));
    }
}

} // verus!
