//! DNS rule vocabulary: how a domain entry matches, and rule filter modes.
use vstd::prelude::*;

verus! {

/// How a domain entry matches a queried name.
#[derive(Debug, Clone, Copy, Hash, PartialEq, Eq, Structural)]
pub enum DomainMatchType {
    /// The value occurs anywhere in the name.
    Plain,
    /// The value is a regular expression.
    Regex,
    /// The name is the value or a subdomain of it.
    Domain,
    /// The name is exactly the value.
    Full,
}

/// A domain entry of a rule.
#[derive(Debug, Clone)]
pub struct DomainConfig {
    pub match_type: DomainMatchType,
    pub value: String,
}

/// Which answer families a rule keeps.
#[derive(Debug, Clone, Copy, PartialEq, Eq, Structural)]
pub enum FilterResult {
    Unfilter,
    OnlyIPv4,
    OnlyIPv6,
}

/// DNS record types the router answers with.
#[derive(Debug, Clone, Copy, PartialEq, Eq, Structural)]
pub enum LandscapeDnsRecordType {
    A,
    AAAA,
    HTTPS,
}

/// The flow id a rule gets when none is configured.
pub fn default_flow_id() -> (r: u32)
    ensures
        r == 0,
{
    0
}

} // verus!
