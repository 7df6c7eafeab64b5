//! Who is calling: the LAN client an address belongs to.
use vstd::prelude::*;

use crate::net::{IpAddress, MacAddr};
use crate::render::{ip_text, push_ip};
use crate::text::string_from_chars;

verus! {

/// Which table a client was found in.
#[derive(Debug, Clone, Copy, PartialEq, Eq, Structural)]
pub enum CallerLookupSource {
    DhcpV4,
    Arp,
    Ipv6Ra,
    DhcpV6,
}

/// A LAN client found for an address.
#[derive(Debug, Clone)]
pub struct CallerLookupMatch {
    pub iface_name: String,
    pub mac: Option<MacAddr>,
    pub hostname: Option<String>,
    pub source: CallerLookupSource,
}

/// The family of the caller's address.
#[derive(Debug, Clone, Copy, PartialEq, Eq, Structural)]
pub enum CallerIpVersion {
    Ipv4,
    Ipv6,
}

/// What the router knows of a caller.
#[derive(Debug, Clone)]
pub struct CallerIdentityResponse {
    pub ip: String,
    pub ip_version: CallerIpVersion,
    pub mac: Option<MacAddr>,
    pub iface_name: Option<String>,
    pub source: Option<CallerLookupSource>,
    pub hostname: Option<String>,
}

/// Describes a caller from its address and the client found for it, if any.
pub fn caller_identity(ip: IpAddress, matched: Option<CallerLookupMatch>) -> (r: CallerIdentityResponse)
    ensures
        r.ip@ == ip_text(ip),
        r.ip_version == (if ip is V4 {
            CallerIpVersion::Ipv4
        } else {
            CallerIpVersion::Ipv6
        }),
        match matched {
            Some(m) => r.mac == m.mac && r.iface_name == Some(m.iface_name) && r.source == Some(
                m.source,
            ) && r.hostname == m.hostname,
            None => r.mac is None && r.iface_name is None && r.source is None && r.hostname is None,
        },
{
    let mut text: Vec<char> = Vec::new();
    push_ip(&mut text, ip);
    let ip_version = match ip {
        IpAddress::V4(_) => CallerIpVersion::Ipv4,
        IpAddress::V6(_) => CallerIpVersion::Ipv6,
    };
    let ip_string = string_from_chars(text.as_slice());
    match matched {
        Some(m) => CallerIdentityResponse {
            ip: ip_string,
            ip_version,
            mac: m.mac,
            iface_name: Some(m.iface_name),
            source: Some(m.source),
            hostname: m.hostname,
        },
        None => CallerIdentityResponse {
            ip: ip_string,
            ip_version,
            mac: None,
            iface_name: None,
            source: None,
            hostname: None,
        },
    }
}

} // verus!
