use landscape::route::wan_route_slot_targets;
use landscape::flow::{FlowMark, FlowMatchSource, FlowRuleMatchResult, FlowVerdictSource};
use landscape::net::IpAddress;
use landscape::route::{
    build_slot_indices, cache_check_result, compute_effective_mark, expected_cache_mark_value,
    flow_match_result, pick_effective_flow, single_verdict,
};

fn counts(slots: &[usize], target_count: usize) -> Vec<usize> {
    let mut counts = vec![0; target_count];
    for &slot in slots {
        counts[slot] += 1;
    }
    counts
}

#[test]
fn slot_builder_balances_equal_weights() {
    let slots = build_slot_indices(&[1, 1]);
    assert_eq!(slots.len(), 16);
    assert_eq!(counts(&slots, 2), vec![8, 8]);
}

#[test]
fn slot_builder_respects_three_to_one_ratio() {
    let slots = build_slot_indices(&[3, 1]);
    assert_eq!(slots.len(), 16);
    assert_eq!(counts(&slots, 2), vec![12, 4]);
}

#[test]
fn slot_builder_skips_zero_weight_targets() {
    let slots = build_slot_indices(&[2, 0, 1]);
    assert_eq!(slots.len(), 16);
    assert_eq!(counts(&slots, 3), vec![11, 0, 5]);
}

#[test]
fn slot_builder_fills_all_slots_for_single_target() {
    let slots = build_slot_indices(&[1]);
    assert_eq!(slots.len(), 16);
    assert_eq!(counts(&slots, 1), vec![16]);
}

#[test]
fn slot_builder_distributes_prime_sum_weights() {
    let slots = build_slot_indices(&[5, 2]);
    assert_eq!(slots.len(), 16);
    // 5:2 ratio over 16 slots → 11:5 (nearest integer distribution)
    assert_eq!(counts(&slots, 2), vec![11, 5]);
}

#[test]
fn slot_builder_gives_no_slots_for_zero_weights() {
    assert!(build_slot_indices(&[0, 0]).is_empty());
    assert!(build_slot_indices(&[]).is_empty());
}

#[test]
fn slot_builder_interleaves_smoothly() {
    // Smooth round robin spreads the heavier target instead of bunching it.
    assert_eq!(
        build_slot_indices(&[2, 1]),
        vec![0, 1, 0, 0, 1, 0, 0, 1, 0, 0, 1, 0, 0, 1, 0, 0]
    );
}

#[test]
fn slot_builder_share_never_exceeds_rounded_up_proportion() {
    let weights = [100u32, 100, 5, 100, 5];
    let total: u32 = weights.iter().sum();
    let slots = build_slot_indices(&weights);
    let c = counts(&slots, weights.len());
    for i in 0..weights.len() {
        assert!((c[i] as u64) * (total as u64) < 16 * weights[i] as u64 + total as u64);
    }
}

#[test]
fn pick_effective_flow_prefers_ip_then_mac_then_default() {
    assert_eq!(pick_effective_flow(Some(3), Some(7), FlowMatchSource::Ipv4), (7, FlowMatchSource::Ipv4));
    assert_eq!(pick_effective_flow(Some(3), None, FlowMatchSource::Ipv4), (3, FlowMatchSource::Mac));
    assert_eq!(pick_effective_flow(None, None, FlowMatchSource::Ipv4), (0, FlowMatchSource::Default));
}

#[test]
fn expected_cache_mark_value_expands_keep_going_flow_id() {
    let keep_going = FlowMark::from(0x0000);
    let direct = FlowMark::from(0x0100);
    let redirect = FlowMark::from(0x0305);

    assert_eq!(expected_cache_mark_value(9, &keep_going), 0x0009);
    assert_eq!(expected_cache_mark_value(9, &direct), 0x0100);
    assert_eq!(expected_cache_mark_value(9, &redirect), 0x0305);
}

#[test]
fn expected_cache_mark_value_keeps_high_bits_of_keep_going_marks() {
    assert_eq!(expected_cache_mark_value(0x1_23, &FlowMark::from(0x0001_80FF)), 0x0001_8023);
}

#[test]
fn compute_effective_mark_prefers_dns_on_equal_priority() {
    let ip_rule = Some(FlowRuleMatchResult { mark: FlowMark::from(0x0100), priority: 10 });
    let dns_rule = Some(FlowRuleMatchResult { mark: FlowMark::from(0x0305), priority: 10 });

    let (source, mark) = compute_effective_mark(&ip_rule, &dns_rule);
    let mark_value: u32 = mark.into();

    assert_eq!(source, FlowVerdictSource::DnsRule);
    assert_eq!(mark_value, 0x0305);
}

#[test]
fn compute_effective_mark_lower_priority_value_wins() {
    let ip_rule = Some(FlowRuleMatchResult { mark: FlowMark::from(0x0100), priority: 5 });
    let dns_rule = Some(FlowRuleMatchResult { mark: FlowMark::from(0x0305), priority: 10 });
    assert_eq!(compute_effective_mark(&ip_rule, &dns_rule), (FlowVerdictSource::IpRule, FlowMark(0x0100)));
    assert_eq!(compute_effective_mark(&None, &dns_rule), (FlowVerdictSource::DnsRule, FlowMark(0x0305)));
    assert_eq!(compute_effective_mark(&None, &None), (FlowVerdictSource::Default, FlowMark(0)));
}

#[test]
fn flow_match_prefers_ipv4_then_ipv6_then_mac() {
    let r = flow_match_result(Some(1), Some(2), Some(3));
    assert_eq!(r.flow_id_by_ip, Some(2));
    assert_eq!((r.effective_flow_id, r.effective_flow_source), (2, FlowMatchSource::Ipv4));
    assert_eq!((r.effective_flow_id_v6, r.effective_flow_source_v6), (3, FlowMatchSource::Ipv6));

    let r = flow_match_result(Some(1), None, Some(3));
    assert_eq!(r.flow_id_by_ip, Some(3));
    assert_eq!((r.effective_flow_id, r.effective_flow_source), (3, FlowMatchSource::Ipv6));
    assert_eq!((r.effective_flow_id_v4, r.effective_flow_source_v4), (1, FlowMatchSource::Mac));

    let r = flow_match_result(Some(1), None, None);
    assert_eq!((r.effective_flow_id, r.effective_flow_source), (1, FlowMatchSource::Mac));

    let r = flow_match_result(None, None, None);
    assert_eq!((r.effective_flow_id, r.effective_flow_source), (0, FlowMatchSource::Default));
    assert_eq!(r.flow_id_by_ip, None);
}

#[test]
fn cache_check_compares_against_expected_mark() {
    assert_eq!(cache_check_result(None, 5), (false, None, true));
    assert_eq!(cache_check_result(Some(5), 5), (true, Some(5), true));
    assert_eq!(cache_check_result(Some(4), 5), (true, Some(4), false));
}

#[test]
fn single_verdict_fills_flow_id_for_keep_going_mark() {
    let dns = Some(FlowRuleMatchResult { mark: FlowMark::from(0x0000), priority: 1 });
    let v = single_verdict(7, IpAddress::V4(0x0A00_0001), None, dns, Some(7));
    assert_eq!(v.effective_rule_source, FlowVerdictSource::DnsRule);
    assert_eq!(v.expected_cache_mark, 7);
    assert!(v.has_cache);
    assert!(v.cache_consistent);
}

#[test]
fn wan_slots_skip_zero_weights_and_other_family() {
    let targets = [
        (IpAddress::V4(0x0A00_0001), 1),
        (IpAddress::V6(1), 5),
        (IpAddress::V4(0x0A00_0002), 0),
        (IpAddress::V4(0x0A00_0003), 3),
    ];
    let slots = wan_route_slot_targets(&targets, true);
    assert_eq!(slots.len(), 16);
    assert_eq!(counts(&slots, 4), vec![4, 0, 0, 12]);
    let v6 = wan_route_slot_targets(&targets, false);
    assert_eq!(v6, vec![1; 16]);
    assert!(wan_route_slot_targets(&[(IpAddress::V4(1), 0)], true).is_empty());
}

#[test]
fn slot_shares_are_exact_when_the_total_divides_sixteen() {
    let slots = build_slot_indices(&[1, 0, 3, 4]);
    assert_eq!(slots.len(), 16);
    let count = |i: usize| slots.iter().filter(|&&s| s == i).count();
    assert_eq!((count(0), count(1), count(2), count(3)), (2, 0, 6, 8));
}
