//! DNS provider profiles shared by DDNS jobs and certificate challenges, and
//! enrolled device requests.
use vstd::prelude::*;

use crate::text::{chars_of, string_from_chars, trim, trim_slice};

verus! {

/// Why a DNS provider profile cannot be saved or removed.
#[derive(Debug)]
pub enum DnsProviderProfileError {
    Invalid(String),
    NameConflict(String),
    ManualNotAllowed,
    InUseByDdns(String),
    InUseByCerts(String),
    CredentialError(String),
    Internal(String),
}

/// What the profile checks read of a DNS provider profile.
#[derive(Debug, Clone)]
pub struct DnsProviderProfile {
    pub id: u128,
    pub name: String,
    pub remark: Option<String>,
    pub ddns_default_ttl: Option<u32>,
}

/// The outcome of checking a provider's credentials.
#[derive(Debug, Clone)]
pub struct DnsProviderCredentialCheckResult {
    pub message: String,
}

/// Why a profile is refused: a blank name, or a default TTL of zero.
pub open spec fn profile_problem(p: DnsProviderProfile) -> Option<Seq<char>> {
    if trim(p.name@).len() == 0 {
        Some("DNS provider profile name must not be empty"@)
    } else if p.ddns_default_ttl == Some(0u32) {
        Some("ddns_default_ttl must be greater than 0 when provided"@)
    } else {
        None
    }
}

impl DnsProviderProfile {
    /// TTL for records this profile creates; none lets the provider decide.
    pub fn default_record_ttl(&self) -> (r: Option<u32>)
        ensures
            r == self.ddns_default_ttl,
    {
        self.ddns_default_ttl
    }

    pub fn validate(&self) -> (r: Result<(), String>)
        ensures
            match profile_problem(*self) {
                Some(p) => r matches Err(e) && e@ == p,
                None => r is Ok,
            },
    {
        let name = chars_of(self.name.as_str());
        if trim_slice(name.as_slice()).len() == 0 {
            return Err(string_from_chars(chars_of("DNS provider profile name must not be empty").as_slice()));
        }
        if let Some(0) = self.ddns_default_ttl {
            return Err(string_from_chars(chars_of("ddns_default_ttl must be greater than 0 when provided").as_slice()));
        }
        Ok(())
    }
}

/// Why enrolled device data is refused.
#[derive(Debug)]
pub enum EnrolledDeviceError {
    InvalidData(String),
}

/// A request to check an address for a device on an interface.
#[derive(Debug, Clone)]
pub struct ValidateIpPayload {
    pub iface_name: String,
    pub ipv4: String,
}

} // verus!
