use landscape::flow::{FlowEntryMatchMode, FlowEntryRule, FlowTarget, WeightedFlowTarget};
use landscape::net::IpAddress;
use landscape::service::ServiceConfigError;

fn reason(r: Result<(), ServiceConfigError>) -> String {
    match r {
        Err(ServiceConfigError::InvalidConfig { reason }) => reason,
        Ok(()) => panic!("expected an error"),
    }
}

#[test]
fn rejects_ipv4_prefixes_longer_than_32() {
    // 192.0.2.1
    let result = FlowEntryMatchMode::Ip { ip: IpAddress::V4(0xC000_0201), prefix_len: 33 }.validate();
    assert!(result.is_err());
}

#[test]
fn rejects_ipv6_prefixes_longer_than_128() {
    // 2001:db8::1
    let result = FlowEntryMatchMode::Ip {
        ip: IpAddress::V6(0x2001_0db8_0000_0000_0000_0000_0000_0001),
        prefix_len: 129,
    }
    .validate();
    assert!(result.is_err());
}

#[test]
fn accepts_ipv6_host_prefix() {
    let result = FlowEntryMatchMode::Ip {
        ip: IpAddress::V6(0x2001_0db8_0000_0000_0000_0000_0000_0001),
        prefix_len: 128,
    }
    .validate();
    assert!(result.is_ok());
}

#[test]
fn prefix_error_names_prefix_limit_and_address() {
    let r = FlowEntryMatchMode::Ip { ip: IpAddress::V4(0xC000_0201), prefix_len: 33 }.validate();
    assert_eq!(reason(r), "flow entry rule prefix_len (33) must be <= 32 for 192.0.2.1");
    let r = FlowEntryMatchMode::Ip {
        ip: IpAddress::V6(0x2001_0db8_0000_0000_0000_0000_0000_0001),
        prefix_len: 200,
    }
    .validate();
    assert_eq!(reason(r), "flow entry rule prefix_len (200) must be <= 128 for 2001:db8::1");
}

#[test]
fn prefix_error_renders_ipv6_in_canonical_form() {
    let cases: [(u128, &str); 6] = [
        (0, "::"),
        (1, "::1"),
        (0x0000_0000_0000_0000_0000_ffff_c000_0201, "::ffff:192.0.2.1"),
        (0x2001_0db8_0000_0001_0000_0000_0000_0001, "2001:db8:0:1::1"),
        (0x2001_0db8_0000_0000_0001_0000_0000_0001, "2001:db8::1:0:0:1"),
        (0x2001_0db8_0001_0002_0003_0004_0005_0006, "2001:db8:1:2:3:4:5:6"),
    ];
    for (bits, text) in cases {
        let r = FlowEntryMatchMode::Ip { ip: IpAddress::V6(bits), prefix_len: 129 }.validate();
        assert_eq!(reason(r), format!("flow entry rule prefix_len (129) must be <= 128 for {text}"));
    }
}

#[test]
fn mac_and_device_rules_are_always_valid() {
    let mac = landscape::net::MacAddr::new(0, 1, 2, 3, 4, 5);
    assert!(FlowEntryMatchMode::Mac { mac_addr: mac }.validate().is_ok());
    assert!(FlowEntryMatchMode::Device { device_id: 42 }.validate().is_ok());
    let rule = FlowEntryRule { qos: None, mode: FlowEntryMatchMode::Ip { ip: IpAddress::V4(1), prefix_len: 32 } };
    assert!(rule.validate().is_ok());
}

#[test]
fn weighted_target_keeps_target_and_weight() {
    let t = WeightedFlowTarget::new(FlowTarget::Interface { name: "wan0".to_string() }, 3);
    assert_eq!(t.weight, 3);
    assert!(matches!(t.target, FlowTarget::Interface { ref name } if name == "wan0"));
}
