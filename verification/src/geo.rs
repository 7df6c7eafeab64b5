//! Geo site and geo IP data: domain entries, cache keys, source settings and
//! the plain-text CIDR list format.
use std::collections::HashMap;
use std::collections::HashSet;

use vstd::prelude::*;

use vstd::slice::slice_subrange;

use crate::dns_rule::{DomainConfig, DomainMatchType};
use crate::ip_text::{parse_ip_addr, parse_ip_text, parse_u32, parse_u32_text};
use crate::net::{IpAddress, IpConfig};
use crate::text::{
    ascii_upper, chars_of, find_first, first_in, from_utf8_lossy, is_unicode_ws, lemma_skip_noop,
    lemma_trim_ends, lemma_upper_idempotent, lemma_upper_keeps_ws, skip_leading, split_on,
    split_ranges, string_from_chars, to_upper, trim, trim_slice, upper_seq, utf8_lossy, CharClass,
};

verus! {

/// The cache key under which an AdGuard Home list is stored when none is given.
pub const DEFAULT_ADGUARD_KEY: &'static str = "ADGUARD";

pub open spec fn lit_adguard() -> Seq<char> {
    seq!['A', 'D', 'G', 'U', 'A', 'R', 'D']
}

/// Errors of the geo site store.
#[derive(Debug)]
pub enum GeoSiteError {
    NotFound(u128),
    CacheNotFound(String),
    FileNotFound,
    FileReadError,
}

/// Errors of the geo IP store and of reading geo IP files.
#[derive(Debug)]
pub enum GeoIpError {
    NotFound(u128),
    CacheNotFound(String),
    FileNotFound,
    FileReadError,
    ConfigNotFound(String),
    DatDecodeError,
    NoValidCidrFound,
}

/// The file format of a geo IP source.
#[derive(Debug, Clone, Copy, PartialEq, Eq, Structural)]
pub enum GeoIpFileFormat {
    Dat,
    Txt,
}

impl Default for GeoIpFileFormat {
    fn default() -> (r: Self)
        ensures
            r == GeoIpFileFormat::Dat,
    {
        GeoIpFileFormat::Dat
    }
}

/// The cache key an AdGuard Home list is stored under: the key without
/// surrounding whitespace, `ADGUARD` when nothing is left, in ASCII upper case.
pub open spec fn adguard_key_text(key: Seq<char>) -> Seq<char> {
    let t = trim(key);
    upper_seq(if t.len() == 0 { lit_adguard() } else { t })
}

/// Normalises the cache key of an AdGuard Home source (see `adguard_key_text`).
pub fn normalize_adguard_key(key: &str) -> (r: String)
    ensures
        r@ == adguard_key_text(key@),
{
    let chars = chars_of(key);
    let t = trim_slice(chars.as_slice());
    let up = if t.len() == 0 {
        proof {
            reveal_strlit("ADGUARD");
        }
        let d = chars_of(DEFAULT_ADGUARD_KEY);
        assert(d@ =~= lit_adguard());
        to_upper(d.as_slice())
    } else {
        to_upper(t)
    };
    string_from_chars(up.as_slice())
}

/// Normalising an AdGuard Home cache key a second time changes nothing.
pub proof fn lemma_adguard_key_idempotent(key: Seq<char>)
    ensures
        adguard_key_text(adguard_key_text(key)) == adguard_key_text(key),
{
    let t = trim(key);
    let u = if t.len() == 0 { lit_adguard() } else { t };
    let v = upper_seq(u);
    lemma_trim_ends(key);
    assert(u.len() > 0 && !is_unicode_ws(u[0]) && !is_unicode_ws(u.last()));
    lemma_upper_keeps_ws(u[0]);
    lemma_upper_keeps_ws(u.last());
    assert(v[0] == ascii_upper(u[0]));
    assert(v.last() == ascii_upper(u.last()));
    lemma_skip_noop(v, CharClass::Ws);
    assert(skip_leading(v, CharClass::Ws) == v);
    lemma_skip_noop(skip_leading(v, CharClass::Ws), CharClass::Ws);
    assert(trim(v) == v);
    lemma_upper_idempotent(u);
}

/// One domain entry of a geo site list.
#[derive(Debug)]
pub struct GeoSiteFileConfig {
    pub match_type: DomainMatchType,
    pub value: String,
    pub attributes: HashSet<String>,
}

impl GeoSiteFileConfig {
    /// The match type and the characters of the value.
    pub open spec fn entry(&self) -> (DomainMatchType, Seq<char>) {
        (self.match_type, self.value@)
    }
}

impl From<GeoSiteFileConfig> for DomainConfig {
    fn from(value: GeoSiteFileConfig) -> (r: DomainConfig) {
        DomainConfig { match_type: value.match_type, value: value.value }
    }
}

impl vstd::std_specs::convert::FromSpecImpl<GeoSiteFileConfig> for DomainConfig {
    open spec fn obeys_from_spec() -> bool {
        true
    }

    open spec fn from_spec(v: GeoSiteFileConfig) -> DomainConfig {
        DomainConfig { match_type: v.match_type, value: v.value }
    }
}

/// A geo site list given inline: a key and its entries.
#[derive(Debug)]
pub struct GeoSiteDirectItem {
    pub key: String,
    pub values: Vec<GeoSiteFileConfig>,
}

/// The entries stored for one key of one geo site source.
#[derive(Debug)]
pub struct GeoDomainConfig {
    pub name: String,
    pub key: String,
    pub values: Vec<GeoSiteFileConfig>,
}

/// Where geo data is cached: the source's name and the list's key.
#[derive(Debug, Clone, PartialEq, Eq, Hash)]
pub struct GeoFileCacheKey {
    pub name: String,
    pub key: String,
}

/// A reference from a rule to a geo list, possibly inverted or narrowed to an attribute.
#[derive(Debug, Clone)]
pub struct GeoConfigKey {
    pub name: String,
    pub key: String,
    pub inverse: bool,
    pub attribute_key: Option<String>,
}

impl GeoConfigKey {
    /// The cache key of the list this reference names.
    pub fn get_file_cache_key(&self) -> (r: GeoFileCacheKey)
        ensures
            r.name == self.name,
            r.key == self.key,
    {
        GeoFileCacheKey { name: self.name.clone(), key: self.key.clone() }
    }
}

/// A query for geo lists by source name and key.
#[derive(Debug, Clone, PartialEq, Eq, Hash)]
pub struct QueryGeoKey {
    pub name: Option<String>,
    pub key: Option<String>,
}

/// A query for geo site lists by source name.
#[derive(Debug, Clone, PartialEq, Eq, Hash)]
pub struct QueryGeoDomainConfig {
    pub name: Option<String>,
}

/// A geo IP list given inline: a key and its prefixes.
#[derive(Debug, Clone)]
pub struct GeoIpDirectItem {
    pub key: String,
    pub values: Vec<IpConfig>,
}

/// The prefixes stored for one key of one geo IP source.
#[derive(Debug, Clone)]
pub struct GeoIpConfig {
    pub name: String,
    pub key: String,
    pub values: Vec<IpConfig>,
}

/// A query for geo IP lists by source name.
#[derive(Debug, Clone, PartialEq, Eq, Hash)]
pub struct QueryGeoIpConfig {
    pub name: Option<String>,
}

/// The key of the entries read from a plain-text geo IP list when none is given.
pub const DEFAULT_TXT_GEO_KEY: &'static str = "DEFAULT";

pub open spec fn lit_default_txt_key() -> Seq<char> {
    seq!['D', 'E', 'F', 'A', 'U', 'L', 'T']
}

/// Prefix lists by key.
pub type GeoIpEntries = HashMap<String, Vec<IpConfig>>;

/// What a plain-text geo IP list reads to: one key with its prefixes, and how
/// many lines held a prefix and how many could not be read.
#[derive(Debug)]
pub struct GeoIpParseResult {
    pub entries: GeoIpEntries,
    pub valid_lines: usize,
    pub skipped_lines: usize,
}

pub open spec fn opt_chars(o: Option<&str>) -> Option<Seq<char>> {
    match o {
        Some(k) => Some(k@),
        None => None,
    }
}

/// The key of a plain-text list: the given key without surrounding whitespace,
/// `DEFAULT` when none is given or nothing is left, in ASCII upper case.
pub open spec fn txt_geo_key(txt_key: Option<Seq<char>>) -> Seq<char> {
    match txt_key {
        Some(k) => if trim(k).len() > 0 {
            upper_seq(trim(k))
        } else {
            upper_seq(lit_default_txt_key())
        },
        None => upper_seq(lit_default_txt_key()),
    }
}

/// The longest prefix an address of this family can have.
pub open spec fn max_prefix(ip: IpAddress) -> u32 {
    match ip {
        IpAddress::V4(_) => 32,
        IpAddress::V6(_) => 128,
    }
}

/// The prefix a line `address/length` denotes: split at the first `/`, both
/// parts read without surrounding whitespace, the length at most the family's.
pub open spec fn cidr_line(line: Seq<char>) -> Option<IpConfig> {
    let i = first_in(line, CharClass::Is('/'));
    if i >= line.len() {
        None
    } else {
        match (
            parse_ip_text(trim(line.subrange(0, i))),
            parse_u32_text(trim(line.subrange(i + 1, line.len() as int))),
        ) {
            (Some(ip), Some(p)) => if p <= max_prefix(ip) {
                Some(IpConfig { ip, prefix: p })
            } else {
                None
            },
            _ => None,
        }
    }
}

/// Lines that are blank or comments (`#` first after leading whitespace).
pub open spec fn txt_line_ignored(line: Seq<char>) -> bool {
    trim(line).len() == 0 || trim(line)[0] == '#'
}

/// The prefixes the lines hold, in order, and the number of lines that are
/// neither ignored nor a prefix.
pub open spec fn txt_scan(lines: Seq<Seq<char>>) -> (Seq<IpConfig>, nat)
    decreases lines.len(),
{
    if lines.len() == 0 {
        (seq![], 0)
    } else {
        let (vals, skipped) = txt_scan(lines.drop_last());
        let l = lines.last();
        if txt_line_ignored(l) {
            (vals, skipped)
        } else {
            match cidr_line(trim(l)) {
                Some(c) => (vals.push(c), skipped),
                None => (vals, skipped + 1),
            }
        }
    }
}

/// The lines of a plain-text list: its bytes decoded as UTF-8 (invalid
/// sequences replaced), split at line feeds.
pub open spec fn txt_lines(contents: Seq<u8>) -> Seq<Seq<char>> {
    split_on(utf8_lossy(contents), CharClass::Is('\n'))
}

/// Reads one `address/length` line (see `cidr_line`).
fn parse_txt_cidr_line(line: &[char]) -> (r: Option<IpConfig>)
    ensures
        r == cidr_line(line@),
{
    let i = find_first(line, CharClass::Is('/'));
    if i >= line.len() {
        return None;
    }
    let ip_part = slice_subrange(line, 0, i);
    let len_part = slice_subrange(line, i + 1, line.len());
    let ip = parse_ip_addr(trim_slice(ip_part));
    let prefix = parse_u32(trim_slice(len_part));
    match (ip, prefix) {
        (Some(ip), Some(p)) => {
            let max: u32 = match ip {
                IpAddress::V4(_) => 32,
                IpAddress::V6(_) => 128,
            };
            if p <= max {
                Some(IpConfig { ip, prefix: p })
            } else {
                None
            }
        },
        _ => None,
    }
}

/// `HashMap::from` (std) on a single key and value. Claimed: the map holds
/// exactly that one entry.
#[verifier::external_body]
fn single_entry_map(key: String, values: Vec<IpConfig>) -> (r: GeoIpEntries)
    ensures
        r@ == Map::empty().insert(key, values),
{
    HashMap::from([(key, values)])
}

/// The key of a plain-text list (see `txt_geo_key`).
fn txt_key_chars(txt_key: Option<&str>) -> (r: Vec<char>)
    ensures
        r@ == txt_geo_key(opt_chars(txt_key)),
{
    if let Some(k) = txt_key {
        let c = chars_of(k);
        let t = trim_slice(c.as_slice());
        if t.len() > 0 {
            return to_upper(t);
        }
    }
    proof {
        reveal_strlit("DEFAULT");
    }
    let d = chars_of(DEFAULT_TXT_GEO_KEY);
    assert(d@ =~= lit_default_txt_key());
    to_upper(d.as_slice())
}

/// Reads a plain-text geo IP list, given as text: one `address/length` per
/// line; blank lines and `#` comments are ignored, other unreadable lines are
/// counted as skipped. All prefixes go under one key (see `txt_geo_key`); a
/// list without any prefix is refused with `NoValidCidrFound`.
pub fn read_geo_ips_from_text(text: &[char], txt_key: Option<&str>) -> (r: Result<
    GeoIpParseResult,
    GeoIpError,
>)
    ensures
        ({
            let (vals, skipped) = txt_scan(split_on(text@, CharClass::Is('\n')));
            match r {
                Ok(res) => {
                    &&& vals.len() > 0
                    &&& res.valid_lines == vals.len()
                    &&& res.skipped_lines == skipped
                    &&& res.entries@.dom().len() == 1
                    &&& forall|k: String| #[trigger]
                        res.entries@.contains_key(k) ==> k@ == txt_geo_key(opt_chars(txt_key))
                            && res.entries@[k]@ == vals
                },
                Err(e) => vals.len() == 0 && e is NoValidCidrFound,
            }
        }),
{
    let key = txt_key_chars(txt_key);
    let lines = split_ranges(text, CharClass::Is('\n'));
    let ghost segs = split_on(text@, CharClass::Is('\n'));
    let mut values: Vec<IpConfig> = Vec::new();
    let mut skipped: usize = 0;
    let mut i: usize = 0;
    while i < lines.len()
        invariant
            lines@.len() == segs.len(),
            segs == split_on(text@, CharClass::Is('\n')),
            forall|k: int|
                0 <= k < lines@.len() ==> #[trigger] lines@[k].0 <= lines@[k].1 <= text@.len()
                    && text@.subrange(lines@[k].0 as int, lines@[k].1 as int) == segs[k],
            i <= lines@.len(),
            skipped <= i,
            (values@, skipped as nat) == txt_scan(segs.take(i as int)),
        decreases lines@.len() - i,
    {
        let (a, b) = lines[i];
        let line = trim_slice(slice_subrange(text, a, b));
        assert(segs.take(i + 1).drop_last() =~= segs.take(i as int));
        assert(segs.take(i + 1).last() == segs[i as int]);
        if line.len() == 0 || line[0] == '#' {
        } else {
            match parse_txt_cidr_line(line) {
                Some(c) => values.push(c),
                None => skipped = skipped + 1,
            }
        }
        i = i + 1;
    }
    assert(segs.take(lines@.len() as int) =~= segs);
    if values.len() == 0 {
        return Err(GeoIpError::NoValidCidrFound);
    }
    let valid_lines = values.len();
    let key_text = string_from_chars(key.as_slice());
    let entries = single_entry_map(key_text, values);
    assert(entries@.dom() =~= Set::empty().insert(key_text));
    Ok(GeoIpParseResult { entries, valid_lines, skipped_lines: skipped })
}

/// Reads a plain-text geo IP list from its bytes, decoded as UTF-8 with
/// invalid sequences replaced (see `read_geo_ips_from_text`).
pub fn read_geo_ips_from_bytes_txt(contents: &[u8], txt_key: Option<&str>) -> (r: Result<
    GeoIpParseResult,
    GeoIpError,
>)
    ensures
        ({
            let (vals, skipped) = txt_scan(txt_lines(contents@));
            match r {
                Ok(res) => {
                    &&& vals.len() > 0
                    &&& res.valid_lines == vals.len()
                    &&& res.skipped_lines == skipped
                    &&& res.entries@.dom().len() == 1
                    &&& forall|k: String| #[trigger]
                        res.entries@.contains_key(k) ==> k@ == txt_geo_key(opt_chars(txt_key))
                            && res.entries@[k]@ == vals
                },
                Err(e) => vals.len() == 0 && e is NoValidCidrFound,
            }
        }),
{
    let text = from_utf8_lossy(contents);
    let chars = chars_of(text.as_str());
    read_geo_ips_from_text(chars.as_slice(), txt_key)
}

} // verus!
