//! Flow entry rules against enrolled devices: resolving device rules to MAC
//! rules, finding devices that are not enrolled, duplicate and conflicting
//! entry rules, and the flows the data path runs.
use std::collections::HashMap;
use std::collections::HashSet;

use vstd::prelude::*;

use crate::flow::{
    FlowEntryMatchMode, FlowEntryRule, ResolvedFlowEntryMatchMode, ResolvedFlowEntryRule,
    RuntimeFlowConfig,
};
use crate::net::MacAddr;

verus! {

broadcast use vstd::std_specs::hash::group_hash_axioms;

/// MAC addresses of enrolled devices by device id.
pub type DevicesById = HashMap<u128, MacAddr>;

/// Why a flow rule change is refused.
#[derive(Debug)]
pub enum FlowRuleError {
    NotFound(u128),
    DuplicateEntryRule(String),
    ConflictEntryRule { rule: String, flow_remark: String, flow_id: u32 },
    InvalidTargetWeight,
    TooManyTargets,
    DeviceNotFound(u128),
    Internal(String),
}

/// What the flow rules read of a stored flow: its id in the store, whether it
/// is enabled, its flow id and its entry rules.
#[derive(Debug, Clone)]
pub struct FlowConfig {
    pub id: u128,
    pub enable: bool,
    pub flow_id: u32,
    pub flow_match_rules: Vec<FlowEntryRule>,
}

/// A device rule becomes a MAC rule for the device's address, and disappears
/// when the device is not enrolled; other rules stay as they are.
pub open spec fn resolve_mode(mode: FlowEntryMatchMode, devices: Map<u128, MacAddr>) -> Option<
    FlowEntryMatchMode,
> {
    match mode {
        FlowEntryMatchMode::Device { device_id } => if devices.contains_key(device_id) {
            Some(FlowEntryMatchMode::Mac { mac_addr: devices[device_id] })
        } else {
            None
        },
        _ => Some(mode),
    }
}

/// The data-path form of a rule that names no device.
pub open spec fn to_resolved(mode: FlowEntryMatchMode) -> Option<ResolvedFlowEntryMatchMode> {
    match mode {
        FlowEntryMatchMode::Mac { mac_addr } => Some(ResolvedFlowEntryMatchMode::Mac { mac_addr }),
        FlowEntryMatchMode::Ip { ip, prefix_len } => Some(
            ResolvedFlowEntryMatchMode::Ip { ip, prefix_len },
        ),
        FlowEntryMatchMode::Device { .. } => None,
    }
}

/// A rule with its device resolved (see `resolve_mode`).
pub open spec fn resolve_rule(rule: FlowEntryRule, devices: Map<u128, MacAddr>) -> Option<
    ResolvedFlowEntryRule,
> {
    match resolve_mode(rule.mode, devices) {
        Some(m) => match to_resolved(m) {
            Some(r) => Some(ResolvedFlowEntryRule { qos: rule.qos, mode: r }),
            None => None,
        },
        None => None,
    }
}

pub open spec fn device_of(mode: FlowEntryMatchMode) -> Option<u128> {
    match mode {
        FlowEntryMatchMode::Device { device_id } => Some(device_id),
        _ => None,
    }
}

/// The device ids the rules name.
pub open spec fn device_ids(modes: Seq<FlowEntryMatchMode>) -> Set<u128> {
    Set::new(|id: u128| exists|i: int| 0 <= i < modes.len() && #[trigger] device_of(modes[i]) == Some(id))
}

/// The first device from position `i` on that is not enrolled.
pub open spec fn missing_device(
    modes: Seq<FlowEntryMatchMode>,
    devices: Map<u128, MacAddr>,
    i: int,
) -> Option<u128>
    decreases modes.len() - i,
{
    if i < 0 || i >= modes.len() {
        None
    } else {
        match device_of(modes[i]) {
            Some(id) => if !devices.contains_key(id) {
                Some(id)
            } else {
                missing_device(modes, devices, i + 1)
            },
            None => missing_device(modes, devices, i + 1),
        }
    }
}

/// The rules that resolve, resolved, in order.
pub open spec fn resolved_rules(rules: Seq<FlowEntryRule>, devices: Map<u128, MacAddr>) -> Seq<
    ResolvedFlowEntryRule,
>
    decreases rules.len(),
{
    if rules.len() == 0 {
        seq![]
    } else {
        let r = resolved_rules(rules.drop_last(), devices);
        match resolve_rule(rules.last(), devices) {
            Some(x) => r.push(x),
            None => r,
        }
    }
}

/// The first position whose resolved rule equals an earlier one.
pub open spec fn first_duplicate(pairs: Seq<(FlowEntryMatchMode, ResolvedFlowEntryMatchMode)>) -> Option<int>
    decreases pairs.len(),
{
    if pairs.len() == 0 {
        None
    } else {
        match first_duplicate(pairs.drop_last()) {
            Some(j) => Some(j),
            None => if exists|k: int| 0 <= k < pairs.len() - 1 && pairs[k].1 == pairs.last().1 {
                Some(pairs.len() - 1)
            } else {
                None
            },
        }
    }
}

/// Whether some rule of the flow resolves to `target`.
pub open spec fn flow_has_rule(c: FlowConfig, devices: Map<u128, MacAddr>, target: FlowEntryMatchMode) -> bool {
    exists|k: int|
        0 <= k < c.flow_match_rules@.len() && resolve_mode(
            #[trigger] c.flow_match_rules@[k].mode,
            devices,
        ) == Some(target)
}

/// The first flow from position `i` on, other than `exclude_id`, with a rule
/// that resolves to `target`.
pub open spec fn first_conflict(
    configs: Seq<FlowConfig>,
    devices: Map<u128, MacAddr>,
    exclude_id: u128,
    target: FlowEntryMatchMode,
    i: int,
) -> Option<int>
    decreases configs.len() - i,
{
    if i < 0 || i >= configs.len() {
        None
    } else if configs[i].id != exclude_id && flow_has_rule(configs[i], devices, target) {
        Some(i)
    } else {
        first_conflict(configs, devices, exclude_id, target, i + 1)
    }
}

/// The first rule from position `i` on that conflicts with some other flow,
/// with that flow's position.
pub open spec fn first_mode_conflict(
    modes: Seq<FlowEntryMatchMode>,
    configs: Seq<FlowConfig>,
    devices: Map<u128, MacAddr>,
    exclude_id: u128,
    i: int,
) -> Option<(int, int)>
    decreases modes.len() - i,
{
    if i < 0 || i >= modes.len() {
        None
    } else {
        match resolve_mode(modes[i], devices) {
            None => first_mode_conflict(modes, configs, devices, exclude_id, i + 1),
            Some(t) => match first_conflict(configs, devices, exclude_id, t, 0) {
                Some(c) => Some((i, c)),
                None => first_mode_conflict(modes, configs, devices, exclude_id, i + 1),
            },
        }
    }
}

/// The rules that resolve to a data-path rule, each with its resolution.
pub open spec fn resolved_pairs(modes: Seq<FlowEntryMatchMode>, devices: Map<u128, MacAddr>) -> Seq<
    (FlowEntryMatchMode, ResolvedFlowEntryMatchMode),
>
    decreases modes.len(),
{
    if modes.len() == 0 {
        seq![]
    } else {
        let r = resolved_pairs(modes.drop_last(), devices);
        match resolve_mode(modes.last(), devices) {
            Some(m) => match to_resolved(m) {
                Some(x) => r.push((modes.last(), x)),
                None => r,
            },
            None => r,
        }
    }
}

/// The ids of the devices the rules name.
pub fn collect_device_ids(modes: &[FlowEntryMatchMode]) -> (r: HashSet<u128>)
    ensures
        r@ == device_ids(modes@),
{
    let mut ids: HashSet<u128> = HashSet::new();
    let mut i: usize = 0;
    while i < modes.len()
        invariant
            i <= modes@.len(),
            ids@ == device_ids(modes@.take(i as int)),
        decreases modes@.len() - i,
    {
        let ghost before = ids@;
        if let FlowEntryMatchMode::Device { device_id } = modes[i] {
            ids.insert(device_id);
        }
        assert(ids@ =~= device_ids(modes@.take(i + 1))) by {
            assert(modes@.take(i + 1)[i as int] == modes@[i as int]);
            assert(ids@ == before || (device_of(modes@[i as int]) is Some && ids@ == before.insert(
                device_of(modes@[i as int])->0,
            )));
            assert forall|id: u128| device_ids(modes@.take(i + 1)).contains(id) implies ids@.contains(id) by {
                let j = choose|j: int| 0 <= j < i + 1 && #[trigger] device_of(modes@.take(i + 1)[j]) == Some(id);
                if j < i {
                    assert(modes@.take(i as int)[j] == modes@.take(i + 1)[j]);
                }
            }
            assert forall|id: u128| ids@.contains(id) implies device_ids(modes@.take(i + 1)).contains(id) by {
                if before.contains(id) {
                    let j = choose|j: int| 0 <= j < i && #[trigger] device_of(modes@.take(i as int)[j]) == Some(id);
                    assert(modes@.take(i + 1)[j] == modes@.take(i as int)[j]);
                } else {
                    assert(device_of(modes@.take(i + 1)[i as int]) == Some(id));
                }
            }
        }
        i = i + 1;
    }
    assert(modes@.take(i as int) =~= modes@);
    ids
}

/// The first device a rule names that is not enrolled.
pub fn find_missing_device_id(modes: &[FlowEntryMatchMode], devices: &DevicesById) -> (r: Option<u128>)
    ensures
        r == missing_device(modes@, devices@, 0),
{
    let mut i: usize = 0;
    while i < modes.len()
        invariant
            i <= modes@.len(),
            missing_device(modes@, devices@, 0) == missing_device(modes@, devices@, i as int),
        decreases modes@.len() - i,
    {
        if let FlowEntryMatchMode::Device { device_id } = modes[i] {
            if !devices.contains_key(&device_id) {
                return Some(device_id);
            }
        }
        i = i + 1;
    }
    None
}

/// Resolves a rule's device (see `resolve_mode`).
pub fn resolve_flow_entry_mode(mode: FlowEntryMatchMode, devices: &DevicesById) -> (r: Option<FlowEntryMatchMode>)
    ensures
        r == resolve_mode(mode, devices@),
{
    match mode {
        FlowEntryMatchMode::Device { device_id } => match devices.get(&device_id) {
            Some(mac) => Some(FlowEntryMatchMode::Mac { mac_addr: *mac }),
            None => None,
        },
        _ => Some(mode),
    }
}

/// The data-path form of a rule (see `to_resolved`).
pub fn into_resolved_match_mode(mode: FlowEntryMatchMode) -> (r: Option<ResolvedFlowEntryMatchMode>)
    ensures
        r == to_resolved(mode),
{
    match mode {
        FlowEntryMatchMode::Mac { mac_addr } => Some(ResolvedFlowEntryMatchMode::Mac { mac_addr }),
        FlowEntryMatchMode::Ip { ip, prefix_len } => Some(
            ResolvedFlowEntryMatchMode::Ip { ip, prefix_len },
        ),
        FlowEntryMatchMode::Device { .. } => None,
    }
}

/// Resolves an entry rule for the data path (see `resolve_rule`).
pub fn resolve_flow_entry_rule(rule: FlowEntryRule, devices: &DevicesById) -> (r: Option<ResolvedFlowEntryRule>)
    ensures
        r == resolve_rule(rule, devices@),
        r matches Some(x) ==> x.qos == rule.qos,
{
    match rule.mode {
        FlowEntryMatchMode::Device { device_id } => {
            let mac = match devices.get(&device_id) {
                Some(m) => *m,
                None => return None,
            };
            Some(ResolvedFlowEntryRule { qos: rule.qos, mode: ResolvedFlowEntryMatchMode::Mac { mac_addr: mac } })
        },
        FlowEntryMatchMode::Mac { mac_addr } => Some(
            ResolvedFlowEntryRule { qos: rule.qos, mode: ResolvedFlowEntryMatchMode::Mac { mac_addr } },
        ),
        FlowEntryMatchMode::Ip { ip, prefix_len } => Some(
            ResolvedFlowEntryRule { qos: rule.qos, mode: ResolvedFlowEntryMatchMode::Ip { ip, prefix_len } },
        ),
    }
}

/// Of rules paired with their resolutions, the rule as written of the first
/// one whose resolution was already seen.
pub fn find_duplicate_resolved_modes(
    resolved_modes: &[(FlowEntryMatchMode, ResolvedFlowEntryMatchMode)],
) -> (r: Option<FlowEntryMatchMode>)
    ensures
        match first_duplicate(resolved_modes@) {
            Some(j) => r == Some(resolved_modes@[j].0),
            None => r is None,
        },
{
    let mut seen: Vec<ResolvedFlowEntryMatchMode> = Vec::new();
    let mut i: usize = 0;
    while i < resolved_modes.len()
        invariant
            i <= resolved_modes@.len(),
            seen@ == resolved_modes@.take(i as int).map_values(
                |p: (FlowEntryMatchMode, ResolvedFlowEntryMatchMode)| p.1,
            ),
            first_duplicate(resolved_modes@.take(i as int)) is None,
        decreases resolved_modes@.len() - i,
    {
        let (written, resolved) = resolved_modes[i];
        let ghost pre = resolved_modes@.take(i as int);
        let ghost next = resolved_modes@.take(i + 1);
        assert(next.drop_last() =~= pre);
        let mut k: usize = 0;
        let mut dup = false;
        while k < seen.len()
            invariant
                k <= seen@.len(),
                seen@.len() == i,
                seen@ == pre.map_values(|p: (FlowEntryMatchMode, ResolvedFlowEntryMatchMode)| p.1),
                dup == exists|j: int| 0 <= j < k && seen@[j] == resolved,
            decreases seen@.len() - k,
        {
            if seen[k] == resolved {
                dup = true;
            }
            k = k + 1;
        }
        assert(dup == exists|j: int| 0 <= j < next.len() - 1 && next[j].1 == next.last().1) by {
            if dup {
                let j = choose|j: int| 0 <= j < k && seen@[j] == resolved;
                assert(next[j].1 == pre[j].1);
            }
            if exists|j: int| 0 <= j < next.len() - 1 && next[j].1 == next.last().1 {
                let j = choose|j: int| 0 <= j < next.len() - 1 && next[j].1 == next.last().1;
                assert(seen@[j] == pre[j].1);
            }
        }
        if dup {
            proof {
                lemma_first_duplicate_prefix(resolved_modes@, i as int);
            }
            return Some(written);
        }
        seen.push(resolved);
        assert(seen@ =~= next.map_values(|p: (FlowEntryMatchMode, ResolvedFlowEntryMatchMode)| p.1));
        i = i + 1;
    }
    assert(resolved_modes@.take(i as int) =~= resolved_modes@);
    None
}

/// A duplicate found at `i`, with none before, is the first one overall.
proof fn lemma_first_duplicate_prefix(pairs: Seq<(FlowEntryMatchMode, ResolvedFlowEntryMatchMode)>, i: int)
    requires
        0 <= i < pairs.len(),
        first_duplicate(pairs.take(i)) is None,
        exists|j: int| 0 <= j < i && pairs[j].1 == pairs[i].1,
    ensures
        first_duplicate(pairs) == Some(i),
    decreases pairs.len() - i,
{
    if i == pairs.len() - 1 {
        assert(pairs.drop_last() =~= pairs.take(i));
    } else {
        assert(pairs.drop_last().take(i) =~= pairs.take(i));
        let j = choose|j: int| 0 <= j < i && pairs[j].1 == pairs[i].1;
        assert(pairs.drop_last()[j] == pairs[j]);
        assert(pairs.drop_last()[i] == pairs[i]);
        lemma_first_duplicate_prefix(pairs.drop_last(), i);
    }
}

/// The flows the data path runs: each enabled flow with its rules resolved.
pub open spec fn runtime_view(configs: Seq<FlowConfig>, devices: Map<u128, MacAddr>) -> Seq<
    (u32, Seq<ResolvedFlowEntryRule>),
>
    decreases configs.len(),
{
    if configs.len() == 0 {
        seq![]
    } else {
        let r = runtime_view(configs.drop_last(), devices);
        let c = configs.last();
        if c.enable {
            r.push((c.flow_id, resolved_rules(c.flow_match_rules@, devices)))
        } else {
            r
        }
    }
}

pub open spec fn runtime_of(v: Seq<RuntimeFlowConfig>) -> Seq<(u32, Seq<ResolvedFlowEntryRule>)> {
    v.map_values(|c: RuntimeFlowConfig| (c.flow_id, c.flow_match_rules@))
}

fn resolve_rules(rules: &Vec<FlowEntryRule>, devices: &DevicesById) -> (r: Vec<ResolvedFlowEntryRule>)
    ensures
        r@ == resolved_rules(rules@, devices@),
{
    let mut out: Vec<ResolvedFlowEntryRule> = Vec::new();
    let mut i: usize = 0;
    while i < rules.len()
        invariant
            i <= rules@.len(),
            out@ == resolved_rules(rules@.take(i as int), devices@),
        decreases rules@.len() - i,
    {
        assert(rules@.take(i + 1).drop_last() =~= rules@.take(i as int));
        if let Some(x) = resolve_flow_entry_rule(rules[i], devices) {
            out.push(x);
        }
        i = i + 1;
    }
    assert(rules@.take(i as int) =~= rules@);
    out
}

/// The flows the data path runs (see `runtime_view`).
pub fn list_runtime_configs(configs: &[FlowConfig], devices: &DevicesById) -> (r: Vec<RuntimeFlowConfig>)
    ensures
        runtime_of(r@) == runtime_view(configs@, devices@),
{
    let mut out: Vec<RuntimeFlowConfig> = Vec::new();
    let mut i: usize = 0;
    while i < configs.len()
        invariant
            i <= configs@.len(),
            runtime_of(out@) == runtime_view(configs@.take(i as int), devices@),
        decreases configs@.len() - i,
    {
        assert(configs@.take(i + 1).drop_last() =~= configs@.take(i as int));
        let c = &configs[i];
        if c.enable {
            let rules = resolve_rules(&c.flow_match_rules, devices);
            let ghost before = runtime_of(out@);
            out.push(RuntimeFlowConfig { flow_id: c.flow_id, flow_match_rules: rules });
            assert(runtime_of(out@) =~= before.push((c.flow_id, rules@)));
        }
        i = i + 1;
    }
    assert(configs@.take(i as int) =~= configs@);
    out
}

/// Whether some rule of the flow resolves to `target`.
fn flow_has_resolved_rule(c: &FlowConfig, devices: &DevicesById, target: FlowEntryMatchMode) -> (r: bool)
    ensures
        r == flow_has_rule(*c, devices@, target),
{
    let mut k: usize = 0;
    while k < c.flow_match_rules.len()
        invariant
            k <= c.flow_match_rules@.len(),
            forall|j: int|
                0 <= j < k ==> resolve_mode(#[trigger] c.flow_match_rules@[j].mode, devices@) != Some(
                    target,
                ),
        decreases c.flow_match_rules@.len() - k,
    {
        if let Some(m) = resolve_flow_entry_mode(c.flow_match_rules[k].mode, devices) {
            if m == target {
                return true;
            }
        }
        k = k + 1;
    }
    false
}

/// The first flow other than `exclude_id` with a rule that resolves to `target`.
fn find_conflict_for(
    configs: &[FlowConfig],
    devices: &DevicesById,
    exclude_id: u128,
    target: FlowEntryMatchMode,
) -> (r: Option<usize>)
    ensures
        opt_index(r) == first_conflict(configs@, devices@, exclude_id, target, 0),
{
    let mut i: usize = 0;
    while i < configs.len()
        invariant
            i <= configs@.len(),
            first_conflict(configs@, devices@, exclude_id, target, 0) == first_conflict(
                configs@,
                devices@,
                exclude_id,
                target,
                i as int,
            ),
        decreases configs@.len() - i,
    {
        let c = &configs[i];
        if c.id != exclude_id && flow_has_resolved_rule(c, devices, target) {
            return Some(i);
        }
        i = i + 1;
    }
    None
}

pub open spec fn opt_index(o: Option<usize>) -> Option<int> {
    match o {
        Some(i) => Some(i as int),
        None => None,
    }
}

/// The position of the first flow, other than `exclude_id`, with a rule that
/// resolves to the same data-path rule as `mode`; none when `mode` names a
/// device that is not enrolled.
pub fn find_resolved_conflict_by_entry_mode(
    configs: &[FlowConfig],
    devices: &DevicesById,
    exclude_id: u128,
    mode: FlowEntryMatchMode,
) -> (r: Option<usize>)
    ensures
        opt_index(r) == match resolve_mode(mode, devices@) {
            Some(t) => first_conflict(configs@, devices@, exclude_id, t, 0),
            None => None,
        },
{
    match resolve_flow_entry_mode(mode, devices) {
        Some(t) => find_conflict_for(configs, devices, exclude_id, t),
        None => None,
    }
}

pub open spec fn pair_index(o: Option<(usize, usize)>) -> Option<(int, int)> {
    match o {
        Some((a, b)) => Some((a as int, b as int)),
        None => None,
    }
}

/// For rules about to be saved: a device that is not enrolled is an error;
/// otherwise the first rule that conflicts with another flow, as the rule's
/// position and the flow's position (see `first_mode_conflict`).
pub fn find_resolved_conflict_for_modes(
    configs: &[FlowConfig],
    devices: &DevicesById,
    exclude_id: u128,
    modes: &[FlowEntryMatchMode],
) -> (r: Result<Option<(usize, usize)>, FlowRuleError>)
    ensures
        match missing_device(modes@, devices@, 0) {
            Some(id) => r matches Err(FlowRuleError::DeviceNotFound(x)) && x == id,
            None => r matches Ok(found) && pair_index(found) == first_mode_conflict(
                modes@,
                configs@,
                devices@,
                exclude_id,
                0,
            ),
        },
{
    if let Some(device_id) = find_missing_device_id(modes, devices) {
        return Err(FlowRuleError::DeviceNotFound(device_id));
    }
    let mut i: usize = 0;
    while i < modes.len()
        invariant
            i <= modes@.len(),
            missing_device(modes@, devices@, 0) is None,
            first_mode_conflict(modes@, configs@, devices@, exclude_id, 0) == first_mode_conflict(
                modes@,
                configs@,
                devices@,
                exclude_id,
                i as int,
            ),
        decreases modes@.len() - i,
    {
        if let Some(resolved) = resolve_flow_entry_mode(modes[i], devices) {
            if let Some(c) = find_conflict_for(configs, devices, exclude_id, resolved) {
                return Ok(Some((i, c)));
            }
        }
        i = i + 1;
    }
    Ok(None)
}

/// Resolves rules about to be saved: a device that is not enrolled is an
/// error; otherwise the rules with their data-path forms (see `resolved_pairs`).
pub fn resolve_modes(modes: &[FlowEntryMatchMode], devices: &DevicesById) -> (r: Result<
    Vec<(FlowEntryMatchMode, ResolvedFlowEntryMatchMode)>,
    FlowRuleError,
>)
    ensures
        match missing_device(modes@, devices@, 0) {
            Some(id) => r matches Err(FlowRuleError::DeviceNotFound(x)) && x == id,
            None => r matches Ok(v) && v@ == resolved_pairs(modes@, devices@),
        },
{
    if let Some(device_id) = find_missing_device_id(modes, devices) {
        return Err(FlowRuleError::DeviceNotFound(device_id));
    }
    let mut out: Vec<(FlowEntryMatchMode, ResolvedFlowEntryMatchMode)> = Vec::new();
    let mut i: usize = 0;
    while i < modes.len()
        invariant
            i <= modes@.len(),
            out@ == resolved_pairs(modes@.take(i as int), devices@),
        decreases modes@.len() - i,
    {
        assert(modes@.take(i + 1).drop_last() =~= modes@.take(i as int));
        if let Some(m) = resolve_flow_entry_mode(modes[i], devices) {
            if let Some(x) = into_resolved_match_mode(m) {
                out.push((modes[i], x));
            }
        }
        i = i + 1;
    }
    assert(modes@.take(i as int) =~= modes@);
    Ok(out)
}

/// Checks that every device the rules name is enrolled.
pub fn validate_modes_resolvable(modes: &[FlowEntryMatchMode], devices: &DevicesById) -> (r: Result<
    (),
    FlowRuleError,
>)
    ensures
        match missing_device(modes@, devices@, 0) {
            Some(id) => r matches Err(FlowRuleError::DeviceNotFound(x)) && x == id,
            None => r is Ok,
        },
{
    if let Some(device_id) = find_missing_device_id(modes, devices) {
        return Err(FlowRuleError::DeviceNotFound(device_id));
    }
    Ok(())
}

/// Whether some rule of the flow is exactly `mode`.
pub open spec fn flow_has_mode(c: FlowConfig, mode: FlowEntryMatchMode) -> bool {
    exists|k: int| 0 <= k < c.flow_match_rules@.len() && (#[trigger] c.flow_match_rules@[k]).mode == mode
}

/// The first flow from position `i` on, other than `exclude_id`, with a rule
/// that is exactly `mode`.
pub open spec fn first_exact_conflict(
    configs: Seq<FlowConfig>,
    exclude_id: u128,
    mode: FlowEntryMatchMode,
    i: int,
) -> Option<int>
    decreases configs.len() - i,
{
    if i < 0 || i >= configs.len() {
        None
    } else if configs[i].id != exclude_id && flow_has_mode(configs[i], mode) {
        Some(i)
    } else {
        first_exact_conflict(configs, exclude_id, mode, i + 1)
    }
}

/// The position of the first flow, other than `exclude_id`, that already has
/// an entry rule equal to `mode` (devices compared by id, not resolved).
pub fn find_conflict_by_entry_mode(
    configs: &[FlowConfig],
    exclude_id: u128,
    mode: FlowEntryMatchMode,
) -> (r: Option<usize>)
    ensures
        opt_index(r) == first_exact_conflict(configs@, exclude_id, mode, 0),
{
    let mut i: usize = 0;
    while i < configs.len()
        invariant
            i <= configs@.len(),
            first_exact_conflict(configs@, exclude_id, mode, 0) == first_exact_conflict(
                configs@,
                exclude_id,
                mode,
                i as int,
            ),
        decreases configs@.len() - i,
    {
        let c = &configs[i];
        if c.id != exclude_id {
            let mut k: usize = 0;
            let mut found = false;
            while k < c.flow_match_rules.len()
                invariant
                    k <= c.flow_match_rules@.len(),
                    found == exists|j: int| 0 <= j < k && (#[trigger] c.flow_match_rules@[j]).mode == mode,
                decreases c.flow_match_rules@.len() - k,
            {
                if c.flow_match_rules[k].mode == mode {
                    found = true;
                }
                k = k + 1;
            }
            if found {
                return Some(i);
            }
        }
        i = i + 1;
    }
    None
}

/// Resolving a rule keeps its QoS class, whatever its mode; a MAC or IP rule
/// keeps its address, and a device rule becomes a MAC rule for the device's
/// address exactly when the device is enrolled.
pub proof fn lemma_resolve_rule_exactly(rule: FlowEntryRule, devices: Map<u128, MacAddr>)
    ensures
        resolve_rule(rule, devices) matches Some(x) ==> x.qos == rule.qos,
        rule.mode matches FlowEntryMatchMode::Mac { mac_addr } ==> resolve_rule(rule, devices)
            == Some(
            ResolvedFlowEntryRule { qos: rule.qos, mode: ResolvedFlowEntryMatchMode::Mac { mac_addr } },
        ),
        rule.mode matches FlowEntryMatchMode::Ip { ip, prefix_len } ==> resolve_rule(rule, devices)
            == Some(
            ResolvedFlowEntryRule {
                qos: rule.qos,
                mode: ResolvedFlowEntryMatchMode::Ip { ip, prefix_len },
            },
        ),
        rule.mode matches FlowEntryMatchMode::Device { device_id } ==> (if devices.contains_key(
            device_id,
        ) {
            resolve_rule(rule, devices) == Some(
                ResolvedFlowEntryRule {
                    qos: rule.qos,
                    mode: ResolvedFlowEntryMatchMode::Mac { mac_addr: devices[device_id] },
                },
            )
        } else {
            resolve_rule(rule, devices) is None
        }),
{
}

/// When every device a flow's rules name is enrolled, each rule resolves in
/// place: the resolved list has one rule per rule, in order, each with the
/// QoS class of the rule it came from.
pub proof fn lemma_resolved_rules_keep_qos(rules: Seq<FlowEntryRule>, devices: Map<u128, MacAddr>)
    requires
        forall|i: int|
            0 <= i < rules.len() ==> (device_of((#[trigger] rules[i]).mode) is Some
                ==> devices.contains_key(device_of(rules[i].mode)->0)),
    ensures
        resolved_rules(rules, devices).len() == rules.len(),
        forall|i: int|
            0 <= i < rules.len() ==> (#[trigger] resolved_rules(rules, devices)[i]).qos
                == rules[i].qos,
    decreases rules.len(),
{
    if rules.len() > 0 {
        let p = rules.drop_last();
        assert forall|i: int| 0 <= i < p.len() implies (device_of((#[trigger] p[i]).mode) is Some
            ==> devices.contains_key(device_of(p[i].mode)->0)) by {
            assert(p[i] == rules[i]);
        }
        lemma_resolved_rules_keep_qos(p, devices);
        let last = rules.last();
        assert(rules[rules.len() - 1] == last);
        lemma_resolve_rule_exactly(last, devices);
        assert(resolve_rule(last, devices) is Some);
        let r = resolved_rules(p, devices);
        assert forall|i: int| 0 <= i < rules.len() implies (#[trigger] resolved_rules(rules, devices)[i]).qos
            == rules[i].qos by {
            if i < p.len() {
                assert(resolved_rules(rules, devices)[i] == r[i]);
                assert(rules[i] == p[i]);
            }
        }
    }
}

} // verus!
