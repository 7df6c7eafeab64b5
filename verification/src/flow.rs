//! Flows: which clients belong to a flow, where a flow's traffic goes, and the
//! marks its rules give to destinations.
use vstd::prelude::*;

use crate::net::{IpAddress, MacAddr};
use crate::render::{dec_text, ip_text, push_dec, push_ip, push_str};
use crate::service::ServiceConfigError;
use crate::text::string_from_chars;

verus! {

/// A packet mark as the data path stores it: the flow's action in bits 8 to 14
/// and a flow id in bits 0 to 7.
#[derive(Debug, Clone, Copy, PartialEq, Eq, Hash, Structural)]
pub struct FlowMark(pub u32);

impl From<u32> for FlowMark {
    fn from(value: u32) -> (r: FlowMark) {
        FlowMark(value)
    }
}

impl vstd::std_specs::convert::FromSpecImpl<u32> for FlowMark {
    open spec fn obeys_from_spec() -> bool {
        true
    }

    open spec fn from_spec(v: u32) -> FlowMark {
        FlowMark(v)
    }
}

impl From<FlowMark> for u32 {
    fn from(value: FlowMark) -> (r: u32) {
        value.0
    }
}

impl vstd::std_specs::convert::FromSpecImpl<FlowMark> for u32 {
    open spec fn obeys_from_spec() -> bool {
        true
    }

    open spec fn from_spec(v: FlowMark) -> u32 {
        v.0
    }
}

impl Default for FlowMark {
    fn default() -> (r: FlowMark)
        ensures
            r == FlowMark(0),
    {
        FlowMark(0)
    }
}

/// Where a flow's traffic leaves: an interface, or a container's network namespace.
#[derive(Debug, Clone)]
pub enum FlowTarget {
    Interface { name: String },
    Netns { container_name: String },
}

/// A flow target with its share of the flow's traffic.
#[derive(Debug, Clone)]
pub struct WeightedFlowTarget {
    pub target: FlowTarget,
    pub weight: u32,
}

impl WeightedFlowTarget {
    pub fn new(target: FlowTarget, weight: u32) -> (r: Self)
        ensures
            r.target == target,
            r.weight == weight,
    {
        Self { target, weight }
    }
}

/// A destination address marked by a DNS rule of a flow.
#[derive(Debug, Clone, Copy, PartialEq, Eq, Hash, Structural)]
pub struct FlowMarkInfo {
    pub ip: IpAddress,
    pub mark: u32,
    pub priority: u16,
}

/// The mark a DNS rule gives, with the rule's priority.
#[derive(Debug, Clone, Copy, PartialEq, Eq, Structural)]
pub struct DnsRuntimeMarkInfo {
    pub mark: FlowMark,
    pub priority: u16,
}

/// How a client was matched to its flow.
#[derive(Debug, Clone, Copy, PartialEq, Eq, Structural)]
pub enum FlowMatchSource {
    Default,
    Mac,
    Ipv4,
    Ipv6,
}

impl Default for FlowMatchSource {
    fn default() -> (r: Self)
        ensures
            r == FlowMatchSource::Default,
    {
        FlowMatchSource::Default
    }
}

/// The flows a client matches, by each of its addresses, and the flow that wins.
#[derive(Debug, Clone, Copy, PartialEq, Eq, Structural)]
pub struct FlowMatchResult {
    /// Flow matched by exact MAC.
    pub flow_id_by_mac: Option<u32>,
    /// IPv4 match if there is one, else the IPv6 match.
    pub flow_id_by_ip: Option<u32>,
    pub flow_id_by_ipv4: Option<u32>,
    pub flow_id_by_ipv6: Option<u32>,
    /// IPv4 match first, then IPv6, then MAC, then the default flow.
    pub effective_flow_id: u32,
    /// For IPv4 traffic: IPv4 match first, then MAC, then the default flow.
    pub effective_flow_id_v4: u32,
    /// For IPv6 traffic: IPv6 match first, then MAC, then the default flow.
    pub effective_flow_id_v6: u32,
    pub effective_flow_source: FlowMatchSource,
    pub effective_flow_source_v4: FlowMatchSource,
    pub effective_flow_source_v6: FlowMatchSource,
}

/// Which kind of rule decided a destination's mark.
#[derive(Debug, Clone, Copy, PartialEq, Eq, Structural)]
pub enum FlowVerdictSource {
    Default,
    IpRule,
    DnsRule,
}

impl Default for FlowVerdictSource {
    fn default() -> (r: Self)
        ensures
            r == FlowVerdictSource::Default,
    {
        FlowVerdictSource::Default
    }
}

/// A rule's mark for a destination, with the rule's priority (lower wins).
#[derive(Debug, Clone, Copy, PartialEq, Eq, Structural)]
pub struct FlowRuleMatchResult {
    pub mark: FlowMark,
    pub priority: u16,
}

/// How one destination of a flow is handled, and whether the route cache agrees.
#[derive(Debug, Clone, Copy, PartialEq, Eq, Structural)]
pub struct SingleVerdictResult {
    pub dst_ip: IpAddress,
    pub ip_rule_match: Option<FlowRuleMatchResult>,
    pub dns_rule_match: Option<FlowRuleMatchResult>,
    pub effective_rule_source: FlowVerdictSource,
    pub effective_mark: FlowMark,
    /// Mark value expected in the route cache once the flow id is filled in.
    pub expected_cache_mark: u32,
    pub has_cache: bool,
    pub cached_mark: Option<u32>,
    pub cache_consistent: bool,
}

/// A client's addresses, as far as they are known, to match against flows.
#[derive(Debug, Clone, Copy, PartialEq, Eq, Structural)]
pub struct FlowMatchRequest {
    pub src_ipv4: Option<u32>,
    pub src_ipv6: Option<u128>,
    pub src_mac: Option<MacAddr>,
}

/// How a flow recognises its clients: by MAC address, by address prefix, or
/// by an enrolled device (resolved to its addresses later).
#[derive(Debug, Clone, Copy, PartialEq, Eq, Hash, Structural)]
pub enum FlowEntryMatchMode {
    Mac { mac_addr: MacAddr },
    Ip { ip: IpAddress, prefix_len: u8 },
    Device { device_id: u128 },
}

/// The longest prefix of the address's family.
pub open spec fn family_max_prefix(ip: IpAddress) -> u8 {
    match ip {
        IpAddress::V4(_) => 32,
        IpAddress::V6(_) => 128,
    }
}

/// Why an entry match mode is refused: an address prefix longer than its
/// family allows.
pub open spec fn entry_mode_problem(m: FlowEntryMatchMode) -> Option<Seq<char>> {
    match m {
        FlowEntryMatchMode::Ip { ip, prefix_len } => if prefix_len > family_max_prefix(ip) {
            Some(
                "flow entry rule prefix_len ("@ + dec_text(prefix_len as nat) + ") must be <= "@
                    + dec_text(family_max_prefix(ip) as nat) + " for "@ + ip_text(ip),
            )
        } else {
            None
        },
        _ => None,
    }
}

impl FlowEntryMatchMode {
    pub fn validate(&self) -> (r: Result<(), ServiceConfigError>)
        ensures
            match entry_mode_problem(*self) {
                None => r is Ok,
                Some(reason) => r matches Err(e) && e.reason_text() == reason,
            },
    {
        if let FlowEntryMatchMode::Ip { ip, prefix_len } = self {
            let max_prefix_len: u8 = match ip {
                IpAddress::V4(_) => 32,
                IpAddress::V6(_) => 128,
            };
            if *prefix_len > max_prefix_len {
                let mut text: Vec<char> = Vec::new();
                push_str(&mut text, "flow entry rule prefix_len (");
                push_dec(&mut text, *prefix_len as u64);
                push_str(&mut text, ") must be <= ");
                push_dec(&mut text, max_prefix_len as u64);
                push_str(&mut text, " for ");
                push_ip(&mut text, *ip);
                let reason = string_from_chars(text.as_slice());
                return Err(ServiceConfigError::InvalidConfig { reason });
            }
        }
        Ok(())
    }
}

/// A rule that admits clients into a flow, with an optional QoS class.
#[derive(Debug, Clone, Copy, PartialEq, Eq, Hash, Structural)]
pub struct FlowEntryRule {
    pub qos: Option<u32>,
    pub mode: FlowEntryMatchMode,
}

impl FlowEntryRule {
    pub fn validate(&self) -> (r: Result<(), ServiceConfigError>)
        ensures
            match entry_mode_problem(self.mode) {
                None => r is Ok,
                Some(reason) => r matches Err(e) && e.reason_text() == reason,
            },
    {
        self.mode.validate()
    }
}

/// An entry match mode with devices resolved to their addresses.
#[derive(Debug, Clone, Copy, PartialEq, Eq, Hash, Structural)]
pub enum ResolvedFlowEntryMatchMode {
    Mac { mac_addr: MacAddr },
    Ip { ip: IpAddress, prefix_len: u8 },
}

/// An entry rule with devices resolved to their addresses.
#[derive(Debug, Clone, Copy, PartialEq, Eq, Hash, Structural)]
pub struct ResolvedFlowEntryRule {
    pub qos: Option<u32>,
    pub mode: ResolvedFlowEntryMatchMode,
}

/// A flow as the data path needs it: its id and its resolved entry rules.
#[derive(Debug, Clone)]
pub struct RuntimeFlowConfig {
    pub flow_id: u32,
    pub flow_match_rules: Vec<ResolvedFlowEntryRule>,
}

} // verus!
