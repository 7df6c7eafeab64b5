use landscape::dhcpv4::{
    is_reserved_option_code, is_server_managed, validate_custom_options, validate_filter_options,
    CustomDhcpOption, DHCPv4ServerConfig, DhcpV4DnrOptionConfig,
};
use landscape::service::ServiceConfigError;

fn reason(r: Result<(), ServiceConfigError>) -> String {
    match r {
        Err(ServiceConfigError::InvalidConfig { reason }) => reason,
        Ok(()) => panic!("expected an error"),
    }
}

fn ip(a: u8, b: u8, c: u8, d: u8) -> u32 {
    u32::from_be_bytes([a, b, c, d])
}

fn pool() -> DHCPv4ServerConfig {
    DHCPv4ServerConfig {
        ip_range_start: ip(192, 168, 5, 100),
        ip_range_end: None,
        server_ip_addr: ip(192, 168, 5, 1),
        network_mask: 24,
        address_lease_time: Some(86400),
        custom_options: vec![],
    }
}

#[test]
fn validate_filter_options_rejects_duplicates() {
    assert!(validate_filter_options(&[15, 28, 15]).is_err());
}

#[test]
fn validate_filter_options_accepts_valid_codes() {
    assert!(validate_filter_options(&[15, 28]).is_ok());
}

#[test]
fn validate_filter_options_explains_refusals() {
    assert_eq!(reason(validate_filter_options(&[15, 28, 15])), "duplicate filter option code 15");
    assert_eq!(
        reason(validate_filter_options(&[12, 255])),
        "filter_options: code 255 is protocol reserved (End) and cannot be used"
    );
    assert_eq!(
        reason(validate_filter_options(&[3])),
        "filter_options: code 3 (Router) is server-managed and cannot be filtered out (would break DHCP functionality)"
    );
}

#[test]
fn option_code_classes() {
    assert!(is_reserved_option_code(0) && is_reserved_option_code(255) && is_reserved_option_code(54));
    assert!(!is_reserved_option_code(66));
    assert!(is_server_managed(51) && !is_server_managed(0));
}

#[test]
fn duplicate_custom_option_codes_rejected() {
    let opts = vec![
        CustomDhcpOption::TFTPServerName("192.168.1.1".to_string()),
        CustomDhcpOption::TFTPServerName("192.168.1.2".to_string()),
    ];
    assert!(validate_custom_options(&opts).is_err());
}

#[test]
fn different_codes_accepted() {
    let opts = vec![
        CustomDhcpOption::TFTPServerName("192.168.1.1".to_string()),
        CustomDhcpOption::BootfileName("ipxe.kpxe".to_string()),
        CustomDhcpOption::VendorExtensions("ff".to_string()),
    ];
    assert!(validate_custom_options(&opts).is_ok());
}

#[test]
fn config_validate_accepts_valid_custom_options() {
    let mut config = pool();
    config.custom_options.push(CustomDhcpOption::TFTPServerName("192.168.1.1".to_string()));
    config.custom_options.push(CustomDhcpOption::BootfileName("ipxe.kpxe".to_string()));
    config.custom_options.push(CustomDhcpOption::VendorExtensions("ff0001".to_string()));
    assert!(config.validate().is_ok());
}

#[test]
fn validate_tftp_server_name_rejects_non_ascii() {
    let opt = CustomDhcpOption::TFTPServerName("中文服务器".to_string());
    assert!(opt.validate().is_err());
}

#[test]
fn validate_bootfile_name_rejects_non_ascii() {
    let opt = CustomDhcpOption::BootfileName("文件名.kpxe".to_string());
    assert!(opt.validate().is_err());
}

#[test]
fn validate_vendor_extensions_rejects_over_255_bytes() {
    let opt = CustomDhcpOption::VendorExtensions("ff".repeat(256));
    assert!(opt.validate().is_err());
}

#[test]
fn validate_string_options_rejects_over_255_bytes() {
    let long = "a".repeat(256);
    let opt = CustomDhcpOption::TFTPServerName(long);
    assert!(opt.validate().is_err());
}

#[test]
fn validate_custom_options_rejects_empty_data() {
    assert!(CustomDhcpOption::TFTPServerName("".to_string()).validate().is_err());
    assert!(CustomDhcpOption::BootfileName("".to_string()).validate().is_err());
    assert!(CustomDhcpOption::VendorExtensions("".to_string()).validate().is_err());
}

#[test]
fn validate_custom_options_propagates_data_errors() {
    let opts = vec![CustomDhcpOption::TFTPServerName("中文".to_string())];
    assert!(validate_custom_options(&opts).is_err());
}

#[test]
fn custom_option_messages() {
    assert_eq!(
        CustomDhcpOption::TFTPServerName("a".repeat(256)).validate(),
        Err("TFTPServerName too long (256 bytes, max 255)".to_string())
    );
    assert_eq!(
        CustomDhcpOption::VendorExtensions("abc".to_string()).validate(),
        Err("VendorExtensions: hex string must have even length, got 3".to_string())
    );
    assert_eq!(
        CustomDhcpOption::VendorExtensions("zz".to_string()).validate(),
        Err("VendorExtensions: invalid hex char: z".to_string())
    );
    assert_eq!(
        CustomDhcpOption::VendorExtensions("  ".to_string()).validate(),
        Err("VendorExtensions must not be empty".to_string())
    );
    let opts = vec![CustomDhcpOption::BootfileName("中".to_string())];
    assert_eq!(
        reason(validate_custom_options(&opts)),
        "custom option code 67: BootfileName must contain only ASCII characters"
    );
    let opts = vec![
        CustomDhcpOption::BootfileName("a".to_string()),
        CustomDhcpOption::BootfileName("b".to_string()),
    ];
    assert_eq!(reason(validate_custom_options(&opts)), "duplicate custom option code 67");
}

#[test]
fn to_raw_gives_code_and_payload() {
    let opt = CustomDhcpOption::TFTPServerName("192.168.1.1".to_string());
    assert_eq!(opt.code(), 66);
    assert_eq!(opt.to_raw().unwrap(), (66, b"192.168.1.1".to_vec()));
    let opt = CustomDhcpOption::VendorExtensions("ff0001".to_string());
    assert_eq!(opt.to_raw().unwrap(), (43, vec![0xff, 0x00, 0x01]));
    let long = CustomDhcpOption::BootfileName("a".repeat(300));
    assert_eq!(
        long.to_raw(),
        Err("DHCP option code 67 data too long or malformed (302 encoded bytes, max 255)".to_string())
    );
}

#[test]
fn empty_relay_agent_information_is_refused() {
    let opt = CustomDhcpOption::RelayAgentInformation(landscape::dhcpv4::RelayAgentInfo(Vec::new()));
    assert_eq!(opt.code(), 82);
    assert_eq!(
        opt.validate(),
        Err("RelayAgentInformation encode failed: DHCP option code 82 encoded no data".to_string())
    );
}

#[test]
fn pool_checks_explain_refusals() {
    let mut c = pool();
    c.network_mask = 31;
    assert_eq!(reason(c.validate()), "network_mask (31) must be between 1 and 30");
    let mut c = pool();
    c.server_ip_addr = ip(192, 168, 5, 255);
    assert_eq!(reason(c.validate()), "server_ip_addr (192.168.5.255) is not a usable host in the /24 subnet");
    let mut c = pool();
    c.ip_range_start = ip(192, 168, 6, 10);
    assert_eq!(reason(c.validate()), "ip_range_start (192.168.6.10) is not in the /24 subnet");
    let mut c = pool();
    c.ip_range_start = ip(192, 168, 5, 1);
    assert_eq!(reason(c.validate()), "ip_range_start (192.168.5.1) must not equal server_ip_addr");
    let mut c = pool();
    c.ip_range_end = Some(ip(192, 168, 5, 50));
    assert_eq!(
        reason(c.validate()),
        "ip_range_end (192.168.5.50) must be >= ip_range_start (192.168.5.100)"
    );
    let mut c = pool();
    c.ip_range_end = Some(ip(192, 168, 5, 0));
    assert_eq!(reason(c.validate()), "ip_range_end (192.168.5.0) is not in the /24 subnet");
    let mut c = pool();
    c.address_lease_time = Some(0);
    assert_eq!(reason(c.validate()), "address_lease_time must be > 0");
    assert!(pool().validate().is_ok());
}

#[test]
fn pool_range_defaults_to_last_host() {
    let c = pool();
    assert_eq!(c.get_ip_range(), (ip(192, 168, 5, 100), ip(192, 168, 5, 254)));
    let mut other = pool();
    other.ip_range_start = ip(192, 168, 5, 200);
    other.ip_range_end = Some(ip(192, 168, 5, 210));
    assert!(c.has_ip_range_overlap(&other));
    assert!(other.has_ip_range_overlap(&c));
    let mut low = pool();
    low.ip_range_start = ip(192, 168, 5, 2);
    low.ip_range_end = Some(ip(192, 168, 5, 99));
    assert!(!c.has_ip_range_overlap(&low));
    assert!(!low.has_ip_range_overlap(&c));
}

#[test]
fn valid_pools_are_not_empty() {
    let c = pool();
    assert!(c.validate().is_ok());
    let (start, end) = c.get_ip_range();
    assert!(start <= end);
    assert!(c.has_ip_range_overlap(&c));
}

#[test]
fn relay_agent_sub_options_encode_in_code_order() {
    let opt = CustomDhcpOption::RelayAgentInformation(landscape::dhcpv4::RelayAgentInfo(vec![
        (2, vec![9]),
        (1, vec![1, 2, 3]),
    ]));
    assert_eq!(opt.to_raw(), Ok((82, vec![1, 3, 1, 2, 3, 2, 1, 9])));
    assert_eq!(opt.validate(), Ok(()));
}

#[test]
fn relay_agent_sub_option_of_same_code_replaces_earlier() {
    let opt = CustomDhcpOption::RelayAgentInformation(landscape::dhcpv4::RelayAgentInfo(vec![
        (1, vec![7]),
        (5, vec![192, 168, 0, 1]),
        (1, vec![8, 8]),
    ]));
    assert_eq!(opt.to_raw(), Ok((82, vec![1, 2, 8, 8, 5, 4, 192, 168, 0, 1])));
}

#[test]
fn validate_dnr_rejects_invalid_custom_values() {
    let bad_port = CustomDhcpOption::Dnr(DhcpV4DnrOptionConfig::Custom {
        domains: vec![],
        ips: vec![],
        port: Some(0),
        doh_path: None,
    });
    assert!(bad_port.validate().is_err());

    let bad_domain = CustomDhcpOption::Dnr(DhcpV4DnrOptionConfig::Custom {
        domains: vec!["bad_domain.example".to_string()],
        ips: vec![],
        port: None,
        doh_path: None,
    });
    assert!(bad_domain.validate().is_err());

    let bad_path = CustomDhcpOption::Dnr(DhcpV4DnrOptionConfig::Custom {
        domains: vec![],
        ips: vec![],
        port: None,
        doh_path: Some("/dns-query?foo=bar".to_string()),
    });
    assert!(bad_path.validate().is_err());
}

#[test]
fn validate_dnr_accepts_valid_custom_values() {
    let opt = CustomDhcpOption::Dnr(DhcpV4DnrOptionConfig::Custom {
        domains: vec!["doh.example.com".to_string()],
        ips: vec![0xC0A8_0501],
        port: Some(6053),
        doh_path: Some("/dns-query".to_string()),
    });
    assert!(opt.validate().is_ok());
}

#[test]
fn dnr_option_code_messages_and_raw_form() {
    let local = CustomDhcpOption::Dnr(DhcpV4DnrOptionConfig::Local);
    assert_eq!(local.code(), 162);
    assert_eq!(local.validate(), Ok(()));
    assert_eq!(local.to_raw(), Err("DNR option requires runtime DNS context".to_string()));
    let custom = |domains: Vec<&str>, ips: Vec<u32>, port: Option<u16>, path: Option<&str>| {
        CustomDhcpOption::Dnr(DhcpV4DnrOptionConfig::Custom {
            domains: domains.into_iter().map(String::from).collect(),
            ips,
            port,
            doh_path: path.map(String::from),
        })
    };
    assert_eq!(
        custom(vec!["ok.example.com", "bad_domain.example"], vec![], None, None).validate(),
        Err("invalid DNR domain: bad_domain.example".to_string())
    );
    assert_eq!(custom(vec![" dns.example.net. "], vec![], None, None).validate(), Ok(()));
    assert_eq!(
        custom(vec![], vec![0xC0A8_0001, 0x7F00_0001], None, None).validate(),
        Err("invalid DNR IPv4 address: 127.0.0.1".to_string())
    );
    assert_eq!(
        custom(vec![], vec![0xE000_00FB], None, None).validate(),
        Err("invalid DNR IPv4 address: 224.0.0.251".to_string())
    );
    assert_eq!(
        custom(vec![], vec![], Some(0), Some("bad")).validate(),
        Err("port must be between 1 and 65535".to_string())
    );
    assert_eq!(
        custom(vec![], vec![], Some(443), Some("dns-query")).validate(),
        Err("doh_path must be an ASCII path starting with '/'".to_string())
    );
    let opts = vec![local, custom(vec![], vec![], None, None)];
    assert!(validate_custom_options(&opts).is_err());
}

#[test]
fn relay_sub_option_over_one_byte_of_length_is_refused() {
    let opt = CustomDhcpOption::RelayAgentInformation(landscape::dhcpv4::RelayAgentInfo(vec![
        (1, vec![7; 300]),
    ]));
    assert!(opt.validate().is_err());
}
