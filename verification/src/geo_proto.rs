//! The records of the geo site and geo IP `.dat` files, and their conversion
//! into the library's domain entries and address prefixes.
use std::collections::HashSet;

use vstd::prelude::*;

use crate::bytes::{be_value, lemma_be_value_four, read_be_number};
use crate::dns_rule::DomainMatchType;
use crate::geo::GeoSiteFileConfig;
use crate::net::{IpAddress, IpConfig};

verus! {

/// How a domain record of a geo site file matches.
#[derive(Debug, Clone, Copy, PartialEq, Eq, Structural)]
pub enum DomainType {
    Plain,
    Regex,
    Domain,
    Full,
}

/// An attribute attached to a domain record.
#[derive(Debug, Clone)]
pub struct DomainAttribute {
    pub key: String,
}

/// A domain record of a geo site file.
#[derive(Debug, Clone)]
pub struct Domain {
    pub type_pb: DomainType,
    pub value: String,
    pub attribute: Vec<DomainAttribute>,
}

/// An address prefix record of a geo IP file: the address's bytes and the length.
#[derive(Debug, Clone)]
pub struct Cidr {
    pub ip: Vec<u8>,
    pub prefix: u32,
}

/// The match type a record type stands for.
pub open spec fn match_type_of(t: DomainType) -> DomainMatchType {
    match t {
        DomainType::Plain => DomainMatchType::Plain,
        DomainType::Regex => DomainMatchType::Regex,
        DomainType::Domain => DomainMatchType::Domain,
        DomainType::Full => DomainMatchType::Full,
    }
}

pub fn convert_match_type_from_proto(value: DomainType) -> (r: DomainMatchType)
    ensures
        r == match_type_of(value),
{
    match value {
        DomainType::Plain => DomainMatchType::Plain,
        DomainType::Regex => DomainMatchType::Regex,
        DomainType::Domain => DomainMatchType::Domain,
        DomainType::Full => DomainMatchType::Full,
    }
}

/// What `str::to_lowercase` makes of a text.
pub uninterp spec fn unicode_lowercase(s: Seq<char>) -> Seq<char>;

/// `str::to_lowercase` (std): the Unicode lower case of the text. Claimed: the
/// result is that function of the text.
#[verifier::external_body]
fn to_lowercase(s: &str) -> (r: String)
    ensures
        r@ == unicode_lowercase(s@),
{
    s.to_lowercase()
}

/// Collects strings into a `HashSet` (std `FromIterator`). Claimed: the set
/// holds exactly the given strings.
#[verifier::external_body]
fn string_set(items: Vec<String>) -> (r: HashSet<String>)
    ensures
        r@ == items@.to_set(),
{
    items.into_iter().collect()
}

/// Converts a domain record: its match type, its value in lower case and the
/// keys of its attributes.
pub fn convert_domain_from_proto(value: &Domain) -> (r: GeoSiteFileConfig)
    ensures
        r.match_type == match_type_of(value.type_pb),
        r.value@ == unicode_lowercase(value.value@),
        r.attributes@ == value.attribute@.map_values(|a: DomainAttribute| a.key).to_set(),
{
    let mut keys: Vec<String> = Vec::new();
    let mut i: usize = 0;
    while i < value.attribute.len()
        invariant
            i <= value.attribute@.len(),
            keys@ == value.attribute@.take(i as int).map_values(|a: DomainAttribute| a.key),
        decreases value.attribute@.len() - i,
    {
        keys.push(value.attribute[i].key.clone());
        assert(value.attribute@.take(i + 1).map_values(|a: DomainAttribute| a.key)
            =~= value.attribute@.take(i as int).map_values(|a: DomainAttribute| a.key).push(
            value.attribute@[i as int].key,
        ));
        i = i + 1;
    }
    assert(value.attribute@.take(i as int) =~= value.attribute@);
    GeoSiteFileConfig {
        match_type: convert_match_type_from_proto(value.type_pb),
        value: to_lowercase(value.value.as_str()),
        attributes: string_set(keys),
    }
}

/// The prefix an address record stands for: four bytes are an IPv4 address,
/// sixteen an IPv6 address, any other length is no address.
pub open spec fn cidr_of(ip: Seq<u8>, prefix: u32) -> Option<IpConfig> {
    if ip.len() == 4 {
        Some(IpConfig { ip: IpAddress::V4(be_value(ip) as u32), prefix })
    } else if ip.len() == 16 {
        Some(IpConfig { ip: IpAddress::V6(be_value(ip) as u128), prefix })
    } else {
        None
    }
}

/// Converts an address record (see `cidr_of`).
pub fn convert_ipconfig_from_proto(value: &Cidr) -> (r: Option<IpConfig>)
    ensures
        r == cidr_of(value.ip@, value.prefix),
{
    let bytes = value.ip.as_slice();
    if bytes.len() == 4 {
        let n = read_be_number(bytes);
        proof {
            lemma_be_value_four(bytes@);
        }
        Some(IpConfig { ip: IpAddress::V4(n as u32), prefix: value.prefix })
    } else if bytes.len() == 16 {
        let n = read_be_number(bytes);
        Some(IpConfig { ip: IpAddress::V6(n), prefix: value.prefix })
    } else {
        None
    }
}

/// An entry of a geo site file: a country code and its domain records.
#[derive(Debug, Clone)]
pub struct GeoSite {
    pub country_code: String,
    pub domain: Vec<Domain>,
}

/// An entry of a geo IP file: a country code and its address records.
#[derive(Debug, Clone)]
pub struct GeoIp {
    pub country_code: String,
    pub cidr: Vec<Cidr>,
}

/// Converts the domain records of one geo site entry, in order, keyed by its
/// country code (see `convert_domain_from_proto`).
pub fn convert_geo_site_entry(entry: &GeoSite) -> (r: (String, Vec<GeoSiteFileConfig>))
    ensures
        r.0@ == entry.country_code@,
        r.1@.len() == entry.domain@.len(),
        forall|i: int|
            0 <= i < r.1@.len() ==> {
                let d = #[trigger] entry.domain@[i];
                &&& r.1@[i].match_type == match_type_of(d.type_pb)
                &&& r.1@[i].value@ == unicode_lowercase(d.value@)
                &&& r.1@[i].attributes@ == d.attribute@.map_values(|a: DomainAttribute| a.key).to_set()
            },
{
    let mut out: Vec<GeoSiteFileConfig> = Vec::new();
    let mut i: usize = 0;
    while i < entry.domain.len()
        invariant
            i <= entry.domain@.len(),
            out@.len() == i,
            forall|j: int|
                0 <= j < i ==> {
                    let d = #[trigger] entry.domain@[j];
                    &&& out@[j].match_type == match_type_of(d.type_pb)
                    &&& out@[j].value@ == unicode_lowercase(d.value@)
                    &&& out@[j].attributes@ == d.attribute@.map_values(|a: DomainAttribute| a.key).to_set()
                },
        decreases entry.domain@.len() - i,
    {
        out.push(convert_domain_from_proto(&entry.domain[i]));
        i = i + 1;
    }
    (entry.country_code.clone(), out)
}

/// The prefixes of the address records that stand for an address, in order.
pub open spec fn cidrs_of(records: Seq<Cidr>) -> Seq<IpConfig>
    decreases records.len(),
{
    if records.len() == 0 {
        seq![]
    } else {
        let prev = cidrs_of(records.drop_last());
        match cidr_of(records.last().ip@, records.last().prefix) {
            Some(c) => prev.push(c),
            None => prev,
        }
    }
}

/// Converts the address records of one geo IP entry, keyed by its country
/// code; records that stand for no address are dropped.
pub fn convert_geo_ip_entry(entry: &GeoIp) -> (r: (String, Vec<IpConfig>))
    ensures
        r.0@ == entry.country_code@,
        r.1@ == cidrs_of(entry.cidr@),
{
    let mut out: Vec<IpConfig> = Vec::new();
    let mut i: usize = 0;
    while i < entry.cidr.len()
        invariant
            i <= entry.cidr@.len(),
            out@ == cidrs_of(entry.cidr@.take(i as int)),
        decreases entry.cidr@.len() - i,
    {
        assert(entry.cidr@.take(i + 1).drop_last() =~= entry.cidr@.take(i as int));
        assert(entry.cidr@.take(i + 1).last() == entry.cidr@[i as int]);
        if let Some(c) = convert_ipconfig_from_proto(&entry.cidr[i]) {
            out.push(c);
        }
        i = i + 1;
    }
    assert(entry.cidr@.take(i as int) =~= entry.cidr@);
    (entry.country_code.clone(), out)
}

} // verus!
