use landscape::geo::read_geo_ips_from_text;
use landscape::dns_rule::{DomainConfig, DomainMatchType};
use landscape::geo::{normalize_adguard_key, read_geo_ips_from_bytes_txt, GeoConfigKey, GeoIpError, GeoIpFileFormat, GeoSiteFileConfig};
use landscape::geo_proto::{
    convert_domain_from_proto, convert_geo_ip_entry, convert_geo_site_entry,
    convert_ipconfig_from_proto, convert_match_type_from_proto, Cidr, Domain, DomainAttribute,
    DomainType, GeoIp, GeoSite,
};
use landscape::net::{IpAddress, IpConfig};

#[test]
fn parse_txt_geo_ips_skips_invalid_lines() {
    let result = read_geo_ips_from_bytes_txt(
        b"\n# comment\n1.1.1.0/24\ninvalid\n2001:db8::/32\n10.0.0.1/33\n",
        Some("custom"),
    )
    .unwrap();

    assert_eq!(result.valid_lines, 2);
    assert_eq!(result.skipped_lines, 2);
    assert_eq!(result.entries.len(), 1);

    let values = result.entries.get("CUSTOM").unwrap();
    assert_eq!(values[0], IpConfig { ip: IpAddress::V4(u32::from_be_bytes([1, 1, 1, 0])), prefix: 24 });
    assert_eq!(
        values[1],
        IpConfig {
            ip: IpAddress::V6(u128::from_be_bytes([
                0x20, 0x01, 0x0d, 0xb8, 0, 0, 0, 0, 0, 0, 0, 0, 0, 0, 0, 0,
            ])),
            prefix: 32,
        }
    );
}

#[test]
fn parse_txt_geo_ips_uses_default_key() {
    let result = read_geo_ips_from_bytes_txt(b"1.1.1.0/24\n", Some("   ")).unwrap();
    assert!(result.entries.contains_key("DEFAULT"));
}

#[test]
fn parse_txt_geo_ips_without_prefixes_is_refused() {
    let r = read_geo_ips_from_bytes_txt(b"# only a comment\n\nnot a prefix\n", None);
    assert!(matches!(r, Err(GeoIpError::NoValidCidrFound)));
}

#[test]
fn parse_txt_geo_ips_trims_parts_and_carriage_returns() {
    let result = read_geo_ips_from_bytes_txt(b"  10.0.0.0 / 8 \r\n", Some(" lan ")).unwrap();
    assert_eq!(result.valid_lines, 1);
    let values = result.entries.get("LAN").unwrap();
    assert_eq!(values[0], IpConfig { ip: IpAddress::V4(0x0A00_0000), prefix: 8 });
}

#[test]
fn adguard_key_is_trimmed_upper_cased_and_defaulted() {
    assert_eq!(normalize_adguard_key("  my-list "), "MY-LIST");
    assert_eq!(normalize_adguard_key("   "), "ADGUARD");
    assert_eq!(normalize_adguard_key(&normalize_adguard_key(" x ")), "X");
}

#[test]
fn geo_config_key_gives_cache_key() {
    let key = GeoConfigKey { name: "src".to_string(), key: "CN".to_string(), inverse: true, attribute_key: None };
    let cache = key.get_file_cache_key();
    assert_eq!(cache.name, "src");
    assert_eq!(cache.key, "CN");
    assert_eq!(GeoIpFileFormat::default(), GeoIpFileFormat::Dat);
}

#[test]
fn domain_entry_converts_to_domain_config() {
    let entry = GeoSiteFileConfig {
        match_type: DomainMatchType::Full,
        value: "example.com".to_string(),
        attributes: Default::default(),
    };
    let config: DomainConfig = entry.into();
    assert_eq!(config.match_type, DomainMatchType::Full);
    assert_eq!(config.value, "example.com");
}

#[test]
fn proto_records_convert() {
    assert_eq!(convert_match_type_from_proto(DomainType::Regex), DomainMatchType::Regex);
    let d = Domain {
        type_pb: DomainType::Domain,
        value: "ExAmple.COM".to_string(),
        attribute: vec![DomainAttribute { key: "ads".to_string() }, DomainAttribute { key: "ads".to_string() }],
    };
    let c = convert_domain_from_proto(&d);
    assert_eq!(c.match_type, DomainMatchType::Domain);
    assert_eq!(c.value, "example.com");
    assert_eq!(c.attributes.len(), 1);
    assert!(c.attributes.contains("ads"));

    let v4 = Cidr { ip: vec![192, 168, 0, 0], prefix: 16 };
    assert_eq!(convert_ipconfig_from_proto(&v4), Some(IpConfig { ip: IpAddress::V4(0xC0A8_0000), prefix: 16 }));
    let mut b = vec![0u8; 16];
    b[0] = 0x20;
    b[1] = 0x01;
    b[15] = 1;
    let v6 = Cidr { ip: b, prefix: 64 };
    assert_eq!(
        convert_ipconfig_from_proto(&v6),
        Some(IpConfig { ip: IpAddress::V6(0x2001_0000_0000_0000_0000_0000_0000_0001), prefix: 64 })
    );
    assert_eq!(convert_ipconfig_from_proto(&Cidr { ip: vec![1, 2, 3], prefix: 8 }), None);
}

#[test]
fn parse_txt_geo_ips_from_text() {
    let text: Vec<char> = "fd00::/8\n# x\n192.168.1.1/40\n".chars().collect();
    let result = read_geo_ips_from_text(&text, None).unwrap();
    assert_eq!((result.valid_lines, result.skipped_lines), (1, 1));
    assert_eq!(
        result.entries.get("DEFAULT").unwrap()[0],
        IpConfig { ip: IpAddress::V6(0xfd00 << 112), prefix: 8 }
    );
}

#[test]
fn parse_txt_geo_ips_replaces_invalid_utf8() {
    let result = read_geo_ips_from_bytes_txt(b"\xff\xfe/8\n10.0.0.0/8\n", None).unwrap();
    assert_eq!((result.valid_lines, result.skipped_lines), (1, 1));
}

#[test]
fn geo_ip_entry_keeps_only_address_records() {
    let entry = GeoIp {
        country_code: "CN".to_string(),
        cidr: vec![
            Cidr { ip: vec![10, 0, 0, 0], prefix: 8 },
            Cidr { ip: vec![1, 2, 3], prefix: 24 },
            Cidr { ip: vec![0x20, 0x01, 0x0d, 0xb8, 0, 0, 0, 0, 0, 0, 0, 0, 0, 0, 0, 0], prefix: 32 },
        ],
    };
    let (code, cidrs) = convert_geo_ip_entry(&entry);
    assert_eq!(code, "CN");
    assert_eq!(
        cidrs,
        vec![
            IpConfig { ip: IpAddress::V4(0x0A00_0000), prefix: 8 },
            IpConfig { ip: IpAddress::V6(0x2001_0db8 << 96), prefix: 32 },
        ]
    );
}

#[test]
fn geo_site_entry_converts_each_domain() {
    let entry = GeoSite {
        country_code: "ADS".to_string(),
        domain: vec![
            Domain { type_pb: DomainType::Full, value: "Ads.Example.COM".to_string(), attribute: vec![] },
            Domain {
                type_pb: DomainType::Domain,
                value: "tracker.net".to_string(),
                attribute: vec![DomainAttribute { key: "cn".to_string() }],
            },
        ],
    };
    let (code, sites) = convert_geo_site_entry(&entry);
    assert_eq!(code, "ADS");
    assert_eq!(sites.len(), 2);
    assert_eq!(sites[0].match_type, DomainMatchType::Full);
    assert_eq!(sites[0].value, "ads.example.com");
    assert!(sites[0].attributes.is_empty());
    assert_eq!(sites[1].match_type, DomainMatchType::Domain);
    assert!(sites[1].attributes.contains("cn"));
}
