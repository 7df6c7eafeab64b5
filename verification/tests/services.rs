use landscape::client::{caller_identity, CallerIpVersion, CallerLookupMatch, CallerLookupSource};
use landscape::dns_provider::DnsProviderProfile;
use landscape::events::{FrontendEvent, IfaceObserverAction};
use landscape::gateway::{
    gateway_https_bind_addr, gateway_https_bind_failure_diagnosis, selected_alpn_proto, Alpn,
    BindErrorKind, GatewayRuntimeConfig, LandscapeGatewayConfig,
};
use landscape::iface::merge_wan_candidates;
use landscape::net::{IpAddress, MacAddr};
use landscape::system_config::{default_upload_only, init_config_filename};

#[test]
fn gateway_runtime_config_fills_defaults() {
    let empty = LandscapeGatewayConfig::default();
    let runtime = GatewayRuntimeConfig::from_file_config(&empty);
    assert_eq!(runtime, GatewayRuntimeConfig::default());
    assert_eq!(runtime, GatewayRuntimeConfig { enable: false, http_port: 80, https_port: 443 });
    let set = LandscapeGatewayConfig { enable: Some(true), http_port: None, https_port: Some(8443) };
    assert_eq!(
        GatewayRuntimeConfig::from_file_config(&set),
        GatewayRuntimeConfig { enable: true, http_port: 80, https_port: 8443 }
    );
}

#[test]
fn gateway_bind_address_and_diagnosis() {
    assert_eq!(gateway_https_bind_addr(443), "[::]:443");
    assert_eq!(gateway_https_bind_addr(0), "[::]:0");
    assert_eq!(gateway_https_bind_failure_diagnosis(BindErrorKind::AddrInUse), "port already in use");
    assert_eq!(
        gateway_https_bind_failure_diagnosis(BindErrorKind::PermissionDenied),
        "insufficient privilege to bind low port"
    );
    assert_eq!(gateway_https_bind_failure_diagnosis(BindErrorKind::Other), "unexpected bind failure");
}

#[test]
fn alpn_protocols_map_to_http_versions() {
    assert_eq!(selected_alpn_proto(Some(b"h2")), Some(Alpn::H2));
    assert_eq!(selected_alpn_proto(Some(b"http/1.1")), Some(Alpn::H1));
    assert_eq!(selected_alpn_proto(Some(b"h3")), None);
    assert_eq!(selected_alpn_proto(None), None);
}

#[test]
fn caller_identity_reports_match() {
    let m = CallerLookupMatch {
        iface_name: "lan0".to_string(),
        mac: Some(MacAddr::new(1, 2, 3, 4, 5, 6)),
        hostname: Some("phone".to_string()),
        source: CallerLookupSource::DhcpV4,
    };
    let r = caller_identity(IpAddress::V4(0xC0A8_0105), Some(m));
    assert_eq!(r.ip, "192.168.1.5");
    assert_eq!(r.ip_version, CallerIpVersion::Ipv4);
    assert_eq!(r.iface_name.as_deref(), Some("lan0"));
    assert_eq!(r.hostname.as_deref(), Some("phone"));
    assert_eq!(r.source, Some(CallerLookupSource::DhcpV4));

    let r = caller_identity(IpAddress::V6(0xfe80_0000_0000_0000_0000_0000_0000_0001), None);
    assert_eq!(r.ip, "fe80::1");
    assert_eq!(r.ip_version, CallerIpVersion::Ipv6);
    assert!(r.mac.is_none() && r.iface_name.is_none() && r.source.is_none() && r.hostname.is_none());
}

#[test]
fn iface_actions_become_frontend_events() {
    let e: FrontendEvent = IfaceObserverAction::Up("eth0".to_string()).into();
    assert!(matches!(e, FrontendEvent::IfaceUp(ref n) if n == "eth0"));
    let e: FrontendEvent = IfaceObserverAction::Down("eth1".to_string()).into();
    assert!(matches!(e, FrontendEvent::IfaceDown(ref n) if n == "eth1"));
}

#[test]
fn init_config_names() {
    assert_eq!(init_config_filename("0.12"), "landscape_init_v0.12.toml");
    assert!(default_upload_only());
}

#[test]
fn provider_profile_checks() {
    let mut p = DnsProviderProfile { id: 1, name: "  ".to_string(), remark: None, ddns_default_ttl: None };
    assert_eq!(p.validate(), Err("DNS provider profile name must not be empty".to_string()));
    p.name = "cf".to_string();
    assert_eq!(p.validate(), Ok(()));
    p.ddns_default_ttl = Some(0);
    assert_eq!(p.validate(), Err("ddns_default_ttl must be greater than 0 when provided".to_string()));
    p.ddns_default_ttl = Some(300);
    assert_eq!(p.default_record_ttl(), Some(300));
}

#[test]
fn wan_candidates_merge_without_repeats() {
    let names = vec!["wan0".to_string(), "ppp0".to_string()];
    let pppd = vec!["ppp0".to_string(), "ppp1".to_string(), "ppp1".to_string()];
    assert_eq!(merge_wan_candidates(names, pppd), vec!["wan0", "ppp0", "ppp1"]);
}
