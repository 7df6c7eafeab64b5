use landscape::flow_rule::validate_modes_resolvable;
use landscape::flow_rule::find_conflict_by_entry_mode;
use std::collections::HashMap;

use landscape::flow::{FlowEntryMatchMode, FlowEntryRule, ResolvedFlowEntryMatchMode};
use landscape::flow_rule::{
    collect_device_ids, find_duplicate_resolved_modes, find_missing_device_id,
    find_resolved_conflict_by_entry_mode, find_resolved_conflict_for_modes, list_runtime_configs,
    resolve_modes, DevicesById, FlowConfig, FlowRuleError,
};
use landscape::net::{IpAddress, MacAddr};

#[test]
fn detects_duplicate_resolved_modes() {
    let mac_addr = MacAddr::new(0x00, 0x11, 0x22, 0x33, 0x44, 0x55);
    let resolved = vec![
        (
            FlowEntryMatchMode::Device { device_id: 0x1234_5678 },
            ResolvedFlowEntryMatchMode::Mac { mac_addr },
        ),
        (FlowEntryMatchMode::Mac { mac_addr }, ResolvedFlowEntryMatchMode::Mac { mac_addr }),
    ];

    let duplicate = find_duplicate_resolved_modes(&resolved);

    assert!(matches!(duplicate, Some(FlowEntryMatchMode::Mac { .. })));
}

#[test]
fn reports_missing_device_targets() {
    let device_id = 0xdead_beef_u128;
    let modes = vec![FlowEntryMatchMode::Device { device_id }];

    assert_eq!(find_missing_device_id(&modes, &HashMap::new()), Some(device_id));
}

#[test]
fn accepts_known_device_targets() {
    let device_id = 0xdead_beef_u128;
    let modes = vec![FlowEntryMatchMode::Device { device_id }];
    let devices: DevicesById =
        HashMap::from([(device_id, MacAddr::new(0x00, 0x11, 0x22, 0x33, 0x44, 0x55))]);

    assert_eq!(find_missing_device_id(&modes, &devices), None);
}

fn config(id: u128, enable: bool, flow_id: u32, modes: Vec<FlowEntryMatchMode>) -> FlowConfig {
    FlowConfig {
        id,
        enable,
        flow_id,
        flow_match_rules: modes.into_iter().map(|mode| FlowEntryRule { qos: None, mode }).collect(),
    }
}

#[test]
fn runtime_configs_skip_disabled_flows_and_unknown_devices() {
    let mac = MacAddr::new(1, 2, 3, 4, 5, 6);
    let devices: DevicesById = HashMap::from([(7, mac)]);
    let configs = vec![
        config(
            1,
            true,
            10,
            vec![
                FlowEntryMatchMode::Device { device_id: 7 },
                FlowEntryMatchMode::Device { device_id: 8 },
                FlowEntryMatchMode::Ip { ip: IpAddress::V4(0x0A00_0000), prefix_len: 8 },
            ],
        ),
        config(2, false, 11, vec![FlowEntryMatchMode::Mac { mac_addr: mac }]),
    ];
    let runtime = list_runtime_configs(&configs, &devices);
    assert_eq!(runtime.len(), 1);
    assert_eq!(runtime[0].flow_id, 10);
    assert_eq!(runtime[0].flow_match_rules.len(), 2);
    assert_eq!(runtime[0].flow_match_rules[0].mode, ResolvedFlowEntryMatchMode::Mac { mac_addr: mac });
}

#[test]
fn conflicts_are_found_through_devices_and_skip_own_flow() {
    let mac = MacAddr::new(1, 2, 3, 4, 5, 6);
    let devices: DevicesById = HashMap::from([(7, mac)]);
    let configs = vec![
        config(1, true, 10, vec![FlowEntryMatchMode::Mac { mac_addr: mac }]),
        config(2, true, 11, vec![FlowEntryMatchMode::Device { device_id: 7 }]),
    ];
    let device_rule = FlowEntryMatchMode::Device { device_id: 7 };
    assert_eq!(find_resolved_conflict_by_entry_mode(&configs, &devices, 1, device_rule), Some(1));
    assert_eq!(find_resolved_conflict_by_entry_mode(&configs, &devices, 2, device_rule), Some(0));
    assert_eq!(
        find_resolved_conflict_by_entry_mode(&configs, &devices, 2, FlowEntryMatchMode::Device { device_id: 9 }),
        None
    );

    let modes = vec![
        FlowEntryMatchMode::Ip { ip: IpAddress::V4(1), prefix_len: 32 },
        FlowEntryMatchMode::Mac { mac_addr: mac },
    ];
    assert!(matches!(find_resolved_conflict_for_modes(&configs, &devices, 1, &modes), Ok(Some((1, 1)))));
    let missing = vec![FlowEntryMatchMode::Device { device_id: 9 }];
    assert!(matches!(
        find_resolved_conflict_for_modes(&configs, &devices, 1, &missing),
        Err(FlowRuleError::DeviceNotFound(9))
    ));
}

#[test]
fn resolve_modes_pairs_rules_with_their_data_path_form() {
    let mac = MacAddr::new(1, 2, 3, 4, 5, 6);
    let devices: DevicesById = HashMap::from([(7, mac)]);
    let modes = vec![FlowEntryMatchMode::Device { device_id: 7 }];
    let pairs = resolve_modes(&modes, &devices).ok().unwrap();
    assert_eq!(pairs, vec![(modes[0], ResolvedFlowEntryMatchMode::Mac { mac_addr: mac })]);
    assert!(matches!(
        resolve_modes(&[FlowEntryMatchMode::Device { device_id: 3 }], &devices),
        Err(FlowRuleError::DeviceNotFound(3))
    ));
}

#[test]
fn collects_named_devices() {
    let ids = collect_device_ids(&[
        FlowEntryMatchMode::Device { device_id: 3 },
        FlowEntryMatchMode::Mac { mac_addr: MacAddr::new(0, 0, 0, 0, 0, 1) },
        FlowEntryMatchMode::Device { device_id: 3 },
        FlowEntryMatchMode::Device { device_id: 5 },
    ]);
    assert_eq!(ids.len(), 2);
    assert!(ids.contains(&3) && ids.contains(&5));
}

#[test]
fn exact_conflicts_compare_rules_as_written() {
    let mac = MacAddr::new(1, 2, 3, 4, 5, 6);
    let configs = vec![
        config(1, true, 10, vec![FlowEntryMatchMode::Mac { mac_addr: mac }]),
        config(2, true, 11, vec![FlowEntryMatchMode::Device { device_id: 7 }]),
    ];
    assert_eq!(find_conflict_by_entry_mode(&configs, 2, FlowEntryMatchMode::Mac { mac_addr: mac }), Some(0));
    assert_eq!(find_conflict_by_entry_mode(&configs, 1, FlowEntryMatchMode::Mac { mac_addr: mac }), None);
    assert_eq!(find_conflict_by_entry_mode(&configs, 1, FlowEntryMatchMode::Device { device_id: 7 }), Some(1));
}

#[test]
fn resolvable_modes_need_enrolled_devices() {
    let devices: DevicesById = HashMap::from([(7, MacAddr::new(1, 2, 3, 4, 5, 6))]);
    assert!(validate_modes_resolvable(&[FlowEntryMatchMode::Device { device_id: 7 }], &devices).is_ok());
    assert!(matches!(
        validate_modes_resolvable(&[FlowEntryMatchMode::Device { device_id: 8 }], &devices),
        Err(FlowRuleError::DeviceNotFound(8))
    ));
}
