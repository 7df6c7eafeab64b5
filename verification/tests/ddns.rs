use landscape::ddns::{
    fqdn_for_zone_record, normalize_record_name, normalize_zone_name, DdnsJob, DdnsRecordConfig,
    DdnsSource, IpFamily,
};

fn job(sources: Vec<DdnsSource>, zone: &str, record: &str) -> DdnsJob {
    DdnsJob {
        id: 0,
        name: "test".to_string(),
        enable: true,
        sources,
        zone_name: zone.to_string(),
        provider_profile_id: 0,
        ttl: Some(120),
        records: vec![DdnsRecordConfig { name: record.to_string(), enable: true }],
    }
}

fn wan0() -> DdnsSource {
    DdnsSource::LocalWan { iface_name: "wan0".to_string(), family: IpFamily::Ipv4 }
}

#[test]
fn normalize_for_save_canonicalizes_zone_and_record_names() {
    let mut job = job(vec![wan0()], " Example.COM. ", "WWW.");

    job.normalize_for_save().unwrap();

    assert_eq!(job.zone_name, "example.com");
    assert_eq!(job.records[0].name, "www");
}

#[test]
fn validate_rejects_duplicate_sources() {
    let job = job(vec![wan0(), wan0()], "example.com", "www");

    let err = job.validate().unwrap_err();
    assert!(err.contains("duplicate DDNS source"));
}

#[test]
fn names_normalize_and_join() {
    assert_eq!(normalize_zone_name(" Example.COM. "), Ok("example.com".to_string()));
    assert_eq!(normalize_record_name("@"), Ok("@".to_string()));
    assert_eq!(fqdn_for_zone_record("example.com", "@"), Ok("example.com".to_string()));
    assert_eq!(fqdn_for_zone_record("example.com", "www"), Ok("www.example.com".to_string()));
    assert!(normalize_zone_name("").is_err());
}
