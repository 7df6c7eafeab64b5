//! Route decisions of the flow data path: the flow a client belongs to, the
//! mark a destination gets, the mark the route cache should hold, and how a
//! flow's weighted targets share its route slots.
use vstd::prelude::*;

use crate::flow::{
    FlowMark, FlowMatchResult, FlowMatchSource, FlowRuleMatchResult, FlowVerdictSource,
    SingleVerdictResult,
};
use crate::net::IpAddress;

verus! {

/// Bits of a mark that hold the flow id.
pub const FLOW_ID_MASK: u32 = 0x0000_00FF;

/// Bits of a mark that hold the action.
pub const FLOW_ACTION_MASK: u32 = 0x0000_7F00;

/// Number of route slots a flow's targets share.
pub const FLOW_TARGET_SLOT_COUNT: usize = 16;

// ─── Flow match ───────────────────────────────────────────────────────────

/// The flow that wins for one address family: the address match, then the
/// MAC match, then the default flow 0.
pub open spec fn effective_flow(
    flow_id_by_mac: Option<u32>,
    flow_id_by_ip: Option<u32>,
    ip_source: FlowMatchSource,
) -> (u32, FlowMatchSource) {
    match flow_id_by_ip {
        Some(f) => (f, ip_source),
        None => match flow_id_by_mac {
            Some(f) => (f, FlowMatchSource::Mac),
            None => (0, FlowMatchSource::Default),
        },
    }
}

pub fn pick_effective_flow(
    flow_id_by_mac: Option<u32>,
    flow_id_by_ip: Option<u32>,
    ip_source: FlowMatchSource,
) -> (r: (u32, FlowMatchSource))
    ensures
        r == effective_flow(flow_id_by_mac, flow_id_by_ip, ip_source),
{
    if let Some(flow_id) = flow_id_by_ip {
        return (flow_id, ip_source);
    }
    if let Some(flow_id) = flow_id_by_mac {
        return (flow_id, FlowMatchSource::Mac);
    }
    (0, FlowMatchSource::Default)
}

/// What a client's matches by MAC, IPv4 and IPv6 address add up to.
pub open spec fn match_result(
    by_mac: Option<u32>,
    by_ipv4: Option<u32>,
    by_ipv6: Option<u32>,
) -> FlowMatchResult {
    let v4 = effective_flow(by_mac, by_ipv4, FlowMatchSource::Ipv4);
    let v6 = effective_flow(by_mac, by_ipv6, FlowMatchSource::Ipv6);
    let overall = if by_ipv4 is Some {
        (v4.0, FlowMatchSource::Ipv4)
    } else if by_ipv6 is Some {
        (v6.0, FlowMatchSource::Ipv6)
    } else if by_mac is Some {
        (v4.0, FlowMatchSource::Mac)
    } else {
        (0u32, FlowMatchSource::Default)
    };
    FlowMatchResult {
        flow_id_by_mac: by_mac,
        flow_id_by_ip: if by_ipv4 is Some { by_ipv4 } else { by_ipv6 },
        flow_id_by_ipv4: by_ipv4,
        flow_id_by_ipv6: by_ipv6,
        effective_flow_id: overall.0,
        effective_flow_id_v4: v4.0,
        effective_flow_id_v6: v6.0,
        effective_flow_source: overall.1,
        effective_flow_source_v4: v4.1,
        effective_flow_source_v6: v6.1,
    }
}

/// Combines the flow lookups of a client (by MAC, IPv4 and IPv6 address) into
/// its match result; with no lookup at all it is the default flow.
pub fn flow_match_result(
    flow_id_by_mac: Option<u32>,
    flow_id_by_ipv4: Option<u32>,
    flow_id_by_ipv6: Option<u32>,
) -> (r: FlowMatchResult)
    ensures
        r == match_result(flow_id_by_mac, flow_id_by_ipv4, flow_id_by_ipv6),
{
    let flow_id_by_ip = match flow_id_by_ipv4 {
        Some(f) => Some(f),
        None => flow_id_by_ipv6,
    };
    let (effective_flow_id_v4, effective_flow_source_v4) = pick_effective_flow(
        flow_id_by_mac,
        flow_id_by_ipv4,
        FlowMatchSource::Ipv4,
    );
    let (effective_flow_id_v6, effective_flow_source_v6) = pick_effective_flow(
        flow_id_by_mac,
        flow_id_by_ipv6,
        FlowMatchSource::Ipv6,
    );
    let (effective_flow_id, effective_flow_source) = if flow_id_by_ipv4.is_some() {
        (effective_flow_id_v4, FlowMatchSource::Ipv4)
    } else if flow_id_by_ipv6.is_some() {
        (effective_flow_id_v6, FlowMatchSource::Ipv6)
    } else if flow_id_by_mac.is_some() {
        (effective_flow_id_v4, FlowMatchSource::Mac)
    } else {
        (0, FlowMatchSource::Default)
    };
    FlowMatchResult {
        flow_id_by_mac,
        flow_id_by_ip,
        flow_id_by_ipv4,
        flow_id_by_ipv6,
        effective_flow_id,
        effective_flow_id_v4,
        effective_flow_id_v6,
        effective_flow_source,
        effective_flow_source_v4,
        effective_flow_source_v6,
    }
}

// ─── Flow verdict ─────────────────────────────────────────────────────────

/// The mark of a destination: of the IP rule and the DNS rule that match, the
/// one with the lower priority value wins, the DNS rule on a tie; with neither
/// the default mark 0.
pub open spec fn effective_mark(
    ip_rule_match: Option<FlowRuleMatchResult>,
    dns_rule_match: Option<FlowRuleMatchResult>,
) -> (FlowVerdictSource, FlowMark) {
    match (ip_rule_match, dns_rule_match) {
        (Some(ip), Some(dns)) => if dns.priority <= ip.priority {
            (FlowVerdictSource::DnsRule, dns.mark)
        } else {
            (FlowVerdictSource::IpRule, ip.mark)
        },
        (Some(ip), None) => (FlowVerdictSource::IpRule, ip.mark),
        (None, Some(dns)) => (FlowVerdictSource::DnsRule, dns.mark),
        (None, None) => (FlowVerdictSource::Default, FlowMark(0)),
    }
}

pub fn compute_effective_mark(
    ip_rule_match: &Option<FlowRuleMatchResult>,
    dns_rule_match: &Option<FlowRuleMatchResult>,
) -> (r: (FlowVerdictSource, FlowMark))
    ensures
        r == effective_mark(*ip_rule_match, *dns_rule_match),
{
    match (ip_rule_match, dns_rule_match) {
        (Some(ip), Some(dns)) => {
            if dns.priority <= ip.priority {
                (FlowVerdictSource::DnsRule, dns.mark)
            } else {
                (FlowVerdictSource::IpRule, ip.mark)
            }
        },
        (Some(ip), None) => (FlowVerdictSource::IpRule, ip.mark),
        (None, Some(dns)) => (FlowVerdictSource::DnsRule, dns.mark),
        (None, None) => (FlowVerdictSource::Default, FlowMark::default()),
    }
}

/// The mark the route cache holds for a mark of the flow: a mark without an
/// action ("keep going") takes the flow's id in its id bits; any other mark is
/// cached as it is.
pub open spec fn cache_mark(flow_id: u32, mark: u32) -> u32 {
    if mark & FLOW_ACTION_MASK == 0 {
        (mark & !FLOW_ID_MASK) | (flow_id & FLOW_ID_MASK)
    } else {
        mark
    }
}

pub fn expected_cache_mark_value(flow_id: u32, effective_mark: &FlowMark) -> (r: u32)
    ensures
        r == cache_mark(flow_id, effective_mark.0),
{
    let mark_value: u32 = u32::from(*effective_mark);
    let shifted: u32 = (mark_value & FLOW_ACTION_MASK) >> 8u32;
    assert(shifted < 256 && (shifted == 0 <==> mark_value & FLOW_ACTION_MASK == 0)) by (bit_vector)
        requires
            shifted == (mark_value & 0x7F00u32) >> 8u32,
    ;
    let raw_action = shifted as u8;
    if raw_action == 0 {
        return (mark_value & !FLOW_ID_MASK) | (flow_id & FLOW_ID_MASK);
    }
    mark_value
}

/// What a route cache lookup says: whether an entry was found, its mark, and
/// whether that mark is the expected one (no entry counts as consistent).
pub open spec fn cache_check(cached: Option<u32>, expected: u32) -> (bool, Option<u32>, bool) {
    match cached {
        Some(m) => (true, Some(m), m == expected),
        None => (false, None, true),
    }
}

/// Judges the route cache entry found for a destination (`None` when there is
/// none, or it cannot be read) against the expected mark.
pub fn cache_check_result(cached: Option<u32>, expected: u32) -> (r: (bool, Option<u32>, bool))
    ensures
        r == cache_check(cached, expected),
{
    match cached {
        Some(m) => (true, Some(m), m == expected),
        None => (false, None, true),
    }
}

/// The verdict for one destination of a flow, from the rule lookups and the
/// route cache lookup made for it.
pub fn single_verdict(
    flow_id: u32,
    dst_ip: IpAddress,
    ip_rule_match: Option<FlowRuleMatchResult>,
    dns_rule_match: Option<FlowRuleMatchResult>,
    cached_mark: Option<u32>,
) -> (r: SingleVerdictResult)
    ensures
        r.dst_ip == dst_ip,
        r.ip_rule_match == ip_rule_match,
        r.dns_rule_match == dns_rule_match,
        (r.effective_rule_source, r.effective_mark) == effective_mark(ip_rule_match, dns_rule_match),
        r.expected_cache_mark == cache_mark(flow_id, r.effective_mark.0),
        (r.has_cache, r.cached_mark, r.cache_consistent) == cache_check(
            cached_mark,
            r.expected_cache_mark,
        ),
{
    let (effective_rule_source, effective_mark) = compute_effective_mark(
        &ip_rule_match,
        &dns_rule_match,
    );
    let expected_cache_mark = expected_cache_mark_value(flow_id, &effective_mark);
    let (has_cache, cached, cache_consistent) = cache_check_result(cached_mark, expected_cache_mark);
    SingleVerdictResult {
        dst_ip,
        ip_rule_match,
        dns_rule_match,
        effective_rule_source,
        effective_mark,
        expected_cache_mark,
        has_cache,
        cached_mark: cached,
        cache_consistent,
    }
}

// ─── Weighted route slots ─────────────────────────────────────────────────

/// The sum of the weights.
pub open spec fn weight_sum(w: Seq<u32>) -> int
    decreases w.len(),
{
    if w.len() == 0 {
        0
    } else {
        weight_sum(w.drop_last()) + w.last()
    }
}

/// The scores after each target of positive weight gains its weight.
pub open spec fn gain(c: Seq<int>, w: Seq<u32>) -> Seq<int> {
    Seq::new(c.len(), |i: int| if w[i] > 0 { c[i] + w[i] } else { c[i] })
}

/// Among the first `n` targets, the first of those with positive weight whose
/// score is highest; `None` when none of them has positive weight.
pub open spec fn leader(c: Seq<int>, w: Seq<u32>, n: int) -> Option<int>
    decreases n,
{
    if n <= 0 {
        None
    } else {
        let b = leader(c, w, n - 1);
        if w[n - 1] == 0 {
            b
        } else {
            match b {
                None => Some(n - 1),
                Some(j) => if c[n - 1] > c[j] {
                    Some(n - 1)
                } else {
                    Some(j)
                },
            }
        }
    }
}

/// Smooth weighted round robin, `r` rounds: each round every target of
/// positive weight gains its weight, the leader takes the slot and pays the
/// total weight. The scores and the slots taken so far.
pub open spec fn wrr_rounds(w: Seq<u32>, r: nat) -> (Seq<int>, Seq<int>)
    decreases r,
{
    if r == 0 {
        (Seq::new(w.len(), |i: int| 0int), seq![])
    } else {
        let (c, s) = wrr_rounds(w, (r - 1) as nat);
        let g = gain(c, w);
        match leader(g, w, w.len() as int) {
            Some(b) => (g.update(b, g[b] - weight_sum(w)), s.push(b)),
            None => (g, s),
        }
    }
}

/// The target of each route slot: none when all weights are zero, otherwise
/// the sixteen slots handed out by smooth weighted round robin.
pub open spec fn slot_indices(w: Seq<u32>) -> Seq<int> {
    if weight_sum(w) == 0 {
        seq![]
    } else {
        wrr_rounds(w, 16).1
    }
}

/// How often `x` occurs in `s`.
pub open spec fn count_of(s: Seq<int>, x: int) -> nat
    decreases s.len(),
{
    if s.len() == 0 {
        0
    } else {
        count_of(s.drop_last(), x) + if s.last() == x {
            1nat
        } else {
            0nat
        }
    }
}

/// The sum of a sequence of scores.
pub open spec fn score_sum(c: Seq<int>) -> int
    decreases c.len(),
{
    if c.len() == 0 {
        0
    } else {
        score_sum(c.drop_last()) + c.last()
    }
}

proof fn lemma_weight_sum_prefix(w: Seq<u32>, i: int)
    requires
        0 <= i <= w.len(),
    ensures
        0 <= weight_sum(w.take(i)) <= weight_sum(w),
    decreases w.len() - i,
{
    if i < w.len() {
        lemma_weight_sum_prefix(w, i + 1);
        assert(w.take(i + 1).drop_last() =~= w.take(i));
    } else {
        assert(w.take(i) =~= w);
    }
    lemma_weight_sum_nonneg(w.take(i));
}

proof fn lemma_weight_sum_nonneg(w: Seq<u32>)
    ensures
        weight_sum(w) >= 0,
    decreases w.len(),
{
    if w.len() > 0 {
        lemma_weight_sum_nonneg(w.drop_last());
    }
}

/// Each weight is at most the sum.
proof fn lemma_weight_le_sum(w: Seq<u32>, i: int)
    requires
        0 <= i < w.len(),
    ensures
        w[i] <= weight_sum(w),
    decreases w.len(),
{
    lemma_weight_sum_nonneg(w.drop_last());
    if i < w.len() - 1 {
        lemma_weight_le_sum(w.drop_last(), i);
    }
}

/// A positive sum has a positive weight.
proof fn lemma_positive_weight_exists(w: Seq<u32>) -> (i: int)
    requires
        weight_sum(w) > 0,
    ensures
        0 <= i < w.len(),
        w[i] > 0,
    decreases w.len(),
{
    if w.last() > 0 {
        (w.len() - 1) as int
    } else {
        lemma_positive_weight_exists(w.drop_last())
    }
}

/// The leader has positive weight and the highest score among those that do;
/// there is none only when no weight is positive.
proof fn lemma_leader(c: Seq<int>, w: Seq<u32>, n: int)
    requires
        0 <= n <= w.len(),
        n <= c.len(),
    ensures
        match leader(c, w, n) {
            Some(b) => 0 <= b < n && w[b] > 0 && forall|j: int|
                0 <= j < n && w[j] > 0 ==> c[j] <= c[b],
            None => forall|j: int| 0 <= j < n ==> w[j] == 0,
        },
    decreases n,
{
    if n > 0 {
        lemma_leader(c, w, n - 1);
    }
}

/// The scores stay within what `r` rounds can move them.
proof fn lemma_wrr_bounds(w: Seq<u32>, r: nat)
    ensures
        wrr_rounds(w, r).0.len() == w.len(),
        wrr_rounds(w, r).1.len() <= r,
        forall|i: int|
            0 <= i < w.len() ==> -(r * weight_sum(w)) <= #[trigger] wrr_rounds(w, r).0[i] <= r
                * w[i],
        forall|k: int|
            0 <= k < wrr_rounds(w, r).1.len() ==> 0 <= #[trigger] wrr_rounds(w, r).1[k] < w.len()
                && w[wrr_rounds(w, r).1[k]] > 0,
    decreases r,
{
    lemma_weight_sum_nonneg(w);
    if r > 0 {
        let rp = (r - 1) as nat;
        lemma_wrr_bounds(w, rp);
        let (c, s) = wrr_rounds(w, rp);
        let g = gain(c, w);
        lemma_leader(g, w, w.len() as int);
        assert forall|i: int| 0 <= i < w.len() implies -(r * weight_sum(w)) <= #[trigger] wrr_rounds(
            w,
            r,
        ).0[i] <= r * w[i] by {
            assert(-(rp * weight_sum(w)) <= c[i] <= rp * w[i]);
            assert(r * w[i] == rp * w[i] + w[i]) by (nonlinear_arith)
                requires
                    r == rp + 1,
            ;
            assert(r * weight_sum(w) == rp * weight_sum(w) + weight_sum(w)) by (nonlinear_arith)
                requires
                    r == rp + 1,
            ;
            lemma_weight_le_sum(w, i);
        }
    }
}

/// The sum of the weights, which must fit in 32 bits.
fn total_weight(weights: &[u32]) -> (r: u32)
    requires
        weight_sum(weights@) <= u32::MAX,
    ensures
        r == weight_sum(weights@),
{
    let mut total: u32 = 0;
    let mut i: usize = 0;
    while i < weights.len()
        invariant
            i <= weights@.len(),
            weight_sum(weights@) <= u32::MAX,
            total == weight_sum(weights@.take(i as int)),
        decreases weights@.len() - i,
    {
        assert(weights@.take(i + 1).drop_last() =~= weights@.take(i as int));
        proof {
            lemma_weight_sum_prefix(weights@, i + 1);
        }
        total = total + weights[i];
        i = i + 1;
    }
    assert(weights@.take(i as int) =~= weights@);
    total
}

pub open spec fn scores_of(v: Seq<i64>) -> Seq<int> {
    v.map_values(|x: i64| x as int)
}

pub open spec fn opt_index(o: Option<usize>) -> Option<int> {
    match o {
        Some(b) => Some(b as int),
        None => None,
    }
}

pub open spec fn slots_of(v: Seq<usize>) -> Seq<int> {
    v.map_values(|x: usize| x as int)
}

/// Hands the route slots of a flow to its targets by weight (see
/// `slot_indices`): the result holds, for each slot, the index of its target.
pub fn build_slot_indices(weights: &[u32]) -> (r: Vec<usize>)
    requires
        weight_sum(weights@) <= u32::MAX,
    ensures
        slots_of(r@) == slot_indices(weights@),
{
    let ghost w = weights@;
    let total = total_weight(weights);
    if total == 0 {
        let none: Vec<usize> = Vec::new();
        assert(slots_of(none@) =~= seq![]);
        return none;
    }
    let n = weights.len();
    let mut current: Vec<i64> = Vec::new();
    while current.len() < n
        invariant
            current@.len() <= n,
            forall|i: int| 0 <= i < current@.len() ==> #[trigger] current@[i] == 0,
        decreases n - current@.len(),
    {
        current.push(0);
    }
    assert(scores_of(current@) =~= wrr_rounds(w, 0).0);
    let mut slots: Vec<usize> = Vec::new();
    let mut round: usize = 0;
    while round < FLOW_TARGET_SLOT_COUNT
        invariant
            w == weights@,
            n == w.len(),
            total == weight_sum(w),
            total > 0,
            round <= 16,
            current@.len() == n,
            scores_of(current@) == wrr_rounds(w, round as nat).0,
            slots_of(slots@) == wrr_rounds(w, round as nat).1,
        ensures
            slots_of(slots@) == wrr_rounds(w, 16).1,
        decreases 16 - round,
    {
        let ghost c0 = scores_of(current@);
        let ghost g = gain(c0, w);
        proof {
            lemma_wrr_bounds(w, round as nat);
        }
        let mut best_idx: Option<usize> = None;
        let mut best_score: i64 = i64::MIN;
        let mut idx: usize = 0;
        while idx < n
            invariant
                w == weights@,
                n == w.len(),
                total == weight_sum(w),
                round < 16,
                idx <= n,
                current@.len() == n,
                c0.len() == n,
                g == gain(c0, w),
                forall|i: int| 0 <= i < n ==> -(round * weight_sum(w)) <= #[trigger] c0[i] <= round * w[i],
                forall|j: int| 0 <= j < idx ==> #[trigger] current@[j] as int == g[j],
                forall|j: int| idx <= j < n ==> #[trigger] current@[j] as int == c0[j],
                opt_index(best_idx) == leader(g, w, idx as int),
                match best_idx {
                    Some(b) => b < idx && best_score as int == g[b as int],
                    None => best_score == i64::MIN,
                },
            decreases n - idx,
        {
            if weights[idx] == 0 {
                assert(current@[idx as int] as int == g[idx as int]);
                idx = idx + 1;
                continue;
            }
            proof {
                assert(c0[idx as int] <= round * w[idx as int]);
                lemma_weight_le_sum(w, idx as int);
                assert(round * w[idx as int] <= 15 * 0xFFFF_FFFFint) by (nonlinear_arith)
                    requires
                        round <= 15,
                        w[idx as int] <= 0xFFFF_FFFFint,
                ;
                assert(round * weight_sum(w) <= 15 * 0xFFFF_FFFFint) by (nonlinear_arith)
                    requires
                        round <= 15,
                        weight_sum(w) <= 0xFFFF_FFFFint,
                ;
            }
            let bumped: i64 = current[idx] + weights[idx] as i64;
            current.set(idx, bumped);
            if bumped > best_score {
                best_score = bumped;
                best_idx = Some(idx);
            }
            idx = idx + 1;
        }
        proof {
            lemma_leader(g, w, n as int);
        }
        match best_idx {
            None => {
                proof {
                    let i = lemma_positive_weight_exists(w);
                }
                break;
            },
            Some(b) => {
                proof {
                    assert(-(round * weight_sum(w)) <= c0[b as int]);
                    assert(round * weight_sum(w) <= 15 * 0xFFFF_FFFFint) by (nonlinear_arith)
                        requires
                            round <= 15,
                            weight_sum(w) <= 0xFFFF_FFFFint,
                    ;
                }
                let paid: i64 = current[b] - total as i64;
                current.set(b, paid);
                slots.push(b);
                proof {
                    assert(scores_of(current@) =~= g.update(b as int, g[b as int] - weight_sum(w)));
                    assert(slots_of(slots@) =~= wrr_rounds(w, round as nat).1.push(b as int));
                }
            },
        }
        round = round + 1;
    }
    slots
}

proof fn lemma_count_push(s: Seq<int>, x: int, i: int)
    ensures
        count_of(s.push(x), i) == count_of(s, i) + if x == i {
            1nat
        } else {
            0nat
        },
{
    assert(s.push(x).drop_last() =~= s);
}

proof fn lemma_count_absent(s: Seq<int>, x: int)
    requires
        forall|k: int| 0 <= k < s.len() ==> s[k] != x,
    ensures
        count_of(s, x) == 0,
    decreases s.len(),
{
    if s.len() > 0 {
        lemma_count_absent(s.drop_last(), x);
    }
}

proof fn lemma_gain_sum(c: Seq<int>, w: Seq<u32>)
    requires
        c.len() == w.len(),
    ensures
        score_sum(gain(c, w)) == score_sum(c) + weight_sum(w),
    decreases c.len(),
{
    if c.len() > 0 {
        lemma_gain_sum(c.drop_last(), w.drop_last());
        assert(gain(c, w).drop_last() =~= gain(c.drop_last(), w.drop_last()));
    }
}

proof fn lemma_update_sum(c: Seq<int>, b: int, v: int)
    requires
        0 <= b < c.len(),
    ensures
        score_sum(c.update(b, v)) == score_sum(c) - c[b] + v,
    decreases c.len(),
{
    if b < c.len() - 1 {
        lemma_update_sum(c.drop_last(), b, v);
        assert(c.update(b, v).drop_last() =~= c.drop_last().update(b, v));
    } else {
        assert(c.update(b, v).drop_last() =~= c.drop_last());
    }
}

proof fn lemma_sum_nonpositive(c: Seq<int>)
    requires
        forall|j: int| 0 <= j < c.len() ==> c[j] <= 0,
    ensures
        score_sum(c) <= 0,
    decreases c.len(),
{
    if c.len() > 0 {
        lemma_sum_nonpositive(c.drop_last());
    }
}

/// With a positive total, every round hands out a slot; each score is the
/// target's earned weight minus what its slots cost, the scores sum to zero,
/// and no score falls to minus the total.
proof fn lemma_wrr_shares(w: Seq<u32>, r: nat)
    requires
        weight_sum(w) > 0,
    ensures
        wrr_rounds(w, r).1.len() == r,
        score_sum(wrr_rounds(w, r).0) == 0,
        forall|i: int|
            0 <= i < w.len() ==> #[trigger] wrr_rounds(w, r).0[i] == r * w[i] - count_of(
                wrr_rounds(w, r).1,
                i,
            ) * weight_sum(w),
        forall|i: int| 0 <= i < w.len() ==> #[trigger] wrr_rounds(w, r).0[i] > -weight_sum(w),
    decreases r,
{
    let t = weight_sum(w);
    lemma_wrr_bounds(w, r);
    if r == 0 {
        let z = Seq::new(w.len(), |i: int| 0int);
        lemma_sum_nonpositive(z);
        lemma_sum_nonneg_zero(z);
    } else {
        let rp = (r - 1) as nat;
        lemma_wrr_shares(w, rp);
        lemma_wrr_bounds(w, rp);
        let (c, s) = wrr_rounds(w, rp);
        let g = gain(c, w);
        lemma_leader(g, w, w.len() as int);
        let pw = lemma_positive_weight_exists(w);
        let b = leader(g, w, w.len() as int)->0;
        lemma_gain_sum(c, w);
        lemma_update_sum(g, b, g[b] - t);
        assert forall|j: int| 0 <= j < w.len() && w[j] == 0 implies #[trigger] g[j] == 0 by {
            assert forall|k: int| 0 <= k < s.len() implies s[k] != j by {
                assert(w[s[k]] > 0);
            }
            lemma_count_absent(s, j);
            assert(c[j] == rp * w[j] - count_of(s, j) * t);
            assert(rp * w[j] == 0) by (nonlinear_arith)
                requires
                    w[j] == 0,
            ;
        }
        if g[b] <= 0 {
            assert forall|j: int| 0 <= j < g.len() implies g[j] <= 0 by {
                if w[j] > 0 {
                    assert(g[j] <= g[b]);
                }
            }
            lemma_sum_nonpositive(g);
        }
        assert(g[b] > 0);
        let c2 = g.update(b, g[b] - t);
        let s2 = s.push(b);
        assert forall|i: int| 0 <= i < w.len() implies #[trigger] c2[i] == r * w[i] - count_of(
            s2,
            i,
        ) * t && c2[i] > -t by {
            lemma_count_push(s, b, i);
            let k = count_of(s, i);
            assert(c[i] == rp * w[i] - k * t);
            assert(c[i] > -t);
            assert(r * w[i] == rp * w[i] + w[i]) by (nonlinear_arith)
                requires
                    r == rp + 1,
            ;
            assert((k + 1) * t == k * t + t) by (nonlinear_arith);
            if w[i] == 0 {
                assert(rp * w[i] == 0 && r * w[i] == 0) by (nonlinear_arith)
                    requires
                        w[i] == 0,
                ;
            }
        }
    }
}

proof fn lemma_sum_nonneg_zero(c: Seq<int>)
    requires
        forall|j: int| 0 <= j < c.len() ==> c[j] == 0,
    ensures
        score_sum(c) == 0,
    decreases c.len(),
{
    if c.len() > 0 {
        lemma_sum_nonneg_zero(c.drop_last());
    }
}

/// Route slots go only to targets of positive weight: sixteen of them when
/// some weight is positive, none otherwise.
pub proof fn lemma_slot_indices_shape(w: Seq<u32>)
    ensures
        weight_sum(w) == 0 ==> slot_indices(w).len() == 0,
        weight_sum(w) > 0 ==> slot_indices(w).len() == 16,
        forall|k: int|
            0 <= k < slot_indices(w).len() ==> 0 <= #[trigger] slot_indices(w)[k] < w.len()
                && w[slot_indices(w)[k]] > 0,
{
    lemma_weight_sum_nonneg(w);
    lemma_wrr_bounds(w, 16);
    if weight_sum(w) > 0 {
        lemma_wrr_shares(w, 16);
    }
}

/// No target gets more than its share of the sixteen slots rounded up:
/// `count * total < 16 * weight + total`.
pub proof fn lemma_slot_share_bound(w: Seq<u32>, i: int)
    requires
        0 <= i < w.len(),
        weight_sum(w) > 0,
    ensures
        count_of(slot_indices(w), i) * weight_sum(w) < 16 * w[i] + weight_sum(w),
{
    lemma_wrr_shares(w, 16);
    let c = wrr_rounds(w, 16).0;
    assert(c[i] == 16 * w[i] - count_of(wrr_rounds(w, 16).1, i) * weight_sum(w));
    assert(c[i] > -weight_sum(w));
}

/// With two targets, each gets its share of the sixteen slots rounded down or
/// up: `16 * weight - total < count * total < 16 * weight + total`.
pub proof fn lemma_two_target_shares(w: Seq<u32>, i: int)
    requires
        w.len() == 2,
        0 <= i < 2,
        weight_sum(w) > 0,
    ensures
        16 * w[i] - weight_sum(w) < count_of(slot_indices(w), i) * weight_sum(w),
        count_of(slot_indices(w), i) * weight_sum(w) < 16 * w[i] + weight_sum(w),
{
    lemma_wrr_shares(w, 16);
    lemma_wrr_bounds(w, 16);
    let c = wrr_rounds(w, 16).0;
    let t = weight_sum(w);
    assert(c.len() == 2);
    assert(c.drop_last().drop_last().len() == 0);
    assert(score_sum(c) == c[0] + c[1]) by {
        assert(c.drop_last()[0] == c[0]);
        assert(score_sum(c.drop_last()) == score_sum(c.drop_last().drop_last()) + c.drop_last().last());
    }
    assert(c[i] == 16 * w[i] - count_of(wrr_rounds(w, 16).1, i) * t);
    assert(c[0] > -t && c[1] > -t);
    assert(c[i] < t);
}

/// Nonnegative scores that sum to zero are all zero.
proof fn lemma_nonneg_sum_zero(c: Seq<int>)
    requires
        forall|j: int| 0 <= j < c.len() ==> c[j] >= 0,
        score_sum(c) == 0,
    ensures
        forall|j: int| 0 <= j < c.len() ==> c[j] == 0,
    decreases c.len(),
{
    if c.len() > 0 {
        let p = c.drop_last();
        lemma_score_sum_nonneg(p);
        assert(score_sum(p) == 0);
        lemma_nonneg_sum_zero(p);
        assert forall|j: int| 0 <= j < c.len() implies c[j] == 0 by {
            if j < p.len() {
                assert(c[j] == p[j]);
            }
        }
    }
}

proof fn lemma_score_sum_nonneg(c: Seq<int>)
    requires
        forall|j: int| 0 <= j < c.len() ==> c[j] >= 0,
    ensures
        score_sum(c) >= 0,
    decreases c.len(),
{
    if c.len() > 0 {
        lemma_score_sum_nonneg(c.drop_last());
    }
}

/// When the total weight divides sixteen, each target gets exactly its share
/// of the sixteen slots: `count * total == 16 * weight`.
pub proof fn lemma_exact_shares(w: Seq<u32>)
    requires
        weight_sum(w) > 0,
        16int % weight_sum(w) == 0,
    ensures
        forall|i: int|
            0 <= i < w.len() ==> #[trigger] count_of(slot_indices(w), i) * weight_sum(w) == 16 * w[i],
{
    lemma_wrr_shares(w, 16);
    lemma_wrr_bounds(w, 16);
    let c = wrr_rounds(w, 16).0;
    let s = wrr_rounds(w, 16).1;
    let t = weight_sum(w);
    let m = 16int / t;
    assert(16 == m * t) by (nonlinear_arith)
        requires
            t > 0,
            16int % t == 0,
            m == 16int / t,
    ;
    assert forall|j: int| 0 <= j < c.len() implies c[j] >= 0 by {
        let n = count_of(s, j) as int;
        let x = w[j] as int;
        assert(c[j] == 16 * x - n * t);
        assert(c[j] == t * (m * x - n)) by (nonlinear_arith)
            requires
                c[j] == 16 * x - n * t,
                16 == m * t,
        ;
        assert(c[j] > -t);
        assert(m * x - n >= 0) by (nonlinear_arith)
            requires
                c[j] == t * (m * x - n),
                c[j] > -t,
                t > 0,
        ;
        assert(c[j] >= 0) by (nonlinear_arith)
            requires
                c[j] == t * (m * x - n),
                m * x - n >= 0,
                t > 0,
        ;
    }
    lemma_nonneg_sum_zero(c);
    assert forall|i: int| 0 <= i < w.len() implies #[trigger] count_of(slot_indices(w), i) * t == 16
        * w[i] by {
        assert(c[i] == 0);
    }
}

// ─── WAN route slots of a flow ────────────────────────────────────────────

/// Whether the address has the family that `v4` names.
pub open spec fn family_is(ip: IpAddress, v4: bool) -> bool {
    (ip is V4) == v4
}

/// The positions of the targets that can take slots: positive weight, and a
/// gateway of the wanted family.
pub open spec fn eligible_targets(t: Seq<(IpAddress, u32)>, v4: bool) -> Seq<int>
    decreases t.len(),
{
    if t.len() == 0 {
        seq![]
    } else {
        let r = eligible_targets(t.drop_last(), v4);
        if t.last().1 > 0 && family_is(t.last().0, v4) {
            r.push(t.len() - 1)
        } else {
            r
        }
    }
}

/// The weights of the eligible targets, in order.
pub open spec fn eligible_weights(t: Seq<(IpAddress, u32)>, v4: bool) -> Seq<u32> {
    eligible_targets(t, v4).map_values(|i: int| t[i].1)
}

/// For each route slot, the position of its target among all targets.
pub open spec fn wan_slot_targets(t: Seq<(IpAddress, u32)>, v4: bool) -> Seq<int> {
    let e = eligible_targets(t, v4);
    slot_indices(eligible_weights(t, v4)).map_values(|s: int| e[s])
}

proof fn lemma_eligible_targets(t: Seq<(IpAddress, u32)>, v4: bool)
    ensures
        forall|k: int|
            0 <= k < eligible_targets(t, v4).len() ==> 0 <= #[trigger] eligible_targets(t, v4)[k]
                < t.len() && t[eligible_targets(t, v4)[k]].1 > 0 && family_is(
                t[eligible_targets(t, v4)[k]].0,
                v4,
            ),
    decreases t.len(),
{
    if t.len() > 0 {
        let p = t.drop_last();
        lemma_eligible_targets(p, v4);
        assert forall|k: int| 0 <= k < eligible_targets(p, v4).len() implies #[trigger] t[
            eligible_targets(p, v4)[k]] == p[eligible_targets(p, v4)[k]] by {}
    }
}

/// Hands the WAN route slots of a flow to its targets of one family: targets
/// with zero weight or a gateway of the other family get none; the rest share
/// the slots by weight (see `slot_indices`). The result gives each slot's
/// target as its position in `targets`; it is empty when no target is eligible,
/// and then the flow's slots are cleared.
pub fn wan_route_slot_targets(targets: &[(IpAddress, u32)], v4: bool) -> (r: Vec<usize>)
    requires
        weight_sum(eligible_weights(targets@, v4)) <= u32::MAX,
    ensures
        slots_of(r@) == wan_slot_targets(targets@, v4),
        r@.len() == 0 || r@.len() == 16,
        forall|k: int|
            0 <= k < r@.len() ==> (#[trigger] r@[k]) < targets@.len() && targets@[r@[k] as int].1
                > 0 && family_is(targets@[r@[k] as int].0, v4),
{
    let ghost t = targets@;
    let mut eligible: Vec<usize> = Vec::new();
    let mut weights: Vec<u32> = Vec::new();
    let mut i: usize = 0;
    while i < targets.len()
        invariant
            i <= t.len(),
            t == targets@,
            slots_of(eligible@) == eligible_targets(t.take(i as int), v4),
            weights@ == eligible_weights(t.take(i as int), v4),
            eligible@.len() == weights@.len(),
        decreases t.len() - i,
    {
        let (ip, weight) = targets[i];
        let ghost pre = t.take(i as int);
        let ghost next = t.take(i + 1);
        assert(next.drop_last() =~= pre);
        proof {
            lemma_eligible_targets(pre, v4);
        }
        let is_v4 = match ip {
            IpAddress::V4(_) => true,
            IpAddress::V6(_) => false,
        };
        if weight > 0 && is_v4 == v4 {
            eligible.push(i);
            weights.push(weight);
            assert(slots_of(eligible@) =~= eligible_targets(next, v4));
            assert(weights@ =~= eligible_weights(next, v4)) by {
                assert forall|k: int| 0 <= k < weights@.len() implies weights@[k] == eligible_weights(
                    next,
                    v4,
                )[k] by {
                    if k < weights@.len() - 1 {
                        assert(pre[eligible_targets(pre, v4)[k]] == next[eligible_targets(pre, v4)[k]]);
                    }
                }
            }
        } else {
            assert(eligible_weights(next, v4) =~= eligible_weights(pre, v4)) by {
                assert forall|k: int| 0 <= k < eligible_weights(pre, v4).len() implies eligible_weights(
                    pre,
                    v4,
                )[k] == eligible_weights(next, v4)[k] by {
                    assert(pre[eligible_targets(pre, v4)[k]] == next[eligible_targets(pre, v4)[k]]);
                }
            }
        }
        i = i + 1;
    }
    assert(t.take(i as int) =~= t);
    let slots = build_slot_indices(weights.as_slice());
    proof {
        lemma_slot_indices_shape(weights@);
        lemma_weight_sum_nonneg(weights@);
        lemma_eligible_targets(t, v4);
    }
    let ghost e = eligible_targets(t, v4);
    let mut out: Vec<usize> = Vec::new();
    let mut k: usize = 0;
    while k < slots.len()
        invariant
            k <= slots@.len(),
            t == targets@,
            slots_of(eligible@) == e,
            e == eligible_targets(t, v4),
            eligible@.len() == weights@.len(),
            slots_of(slots@) == slot_indices(weights@),
            weights@ == eligible_weights(t, v4),
            forall|j: int|
                0 <= j < slots@.len() ==> 0 <= #[trigger] slot_indices(weights@)[j] < weights@.len(),
            slots_of(out@) == slot_indices(weights@).take(k as int).map_values(|s: int| e[s]),
        decreases slots@.len() - k,
    {
        let s = slots[k];
        assert(slot_indices(weights@)[k as int] == s as int);
        assert(slots_of(eligible@)[s as int] == e[s as int]);
        let ghost before = slots_of(out@);
        out.push(eligible[s]);
        assert(slots_of(out@) =~= before.push(e[s as int]));
        assert(slot_indices(weights@).take(k + 1) =~= slot_indices(weights@).take(k as int).push(
            s as int,
        ));
        assert(slots_of(out@) =~= slot_indices(weights@).take(k + 1).map_values(|s: int| e[s]));
        k = k + 1;
    }
    assert(slot_indices(weights@).take(k as int) =~= slot_indices(weights@));
    proof {
        assert forall|j: int| 0 <= j < out@.len() implies (#[trigger] out@[j]) < targets@.len()
            && targets@[out@[j] as int].1 > 0 && family_is(targets@[out@[j] as int].0, v4) by {
            assert(0 <= slot_indices(weights@)[j] < weights@.len());
            assert(slots_of(out@)[j] == e[slot_indices(weights@)[j]]);
        }
    }
    out
}

} // verus!
