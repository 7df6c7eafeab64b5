use landscape::pppoe::PPPoEFrame;
use landscape::pppoe_tags::PPPoETag;

#[test]
fn discover() {
    let data = [17, 9, 0, 0, 0, 4, 1, 1, 0, 0];
    let p1 = PPPoEFrame::new(&data).unwrap();
    assert_eq!(p1.clone().convert_to_payload(), data);

    let data2 = [17, 9, 0, 0, 0, 12, 1, 1, 0, 0, 1, 3, 0, 4, 34, 30, 2, 0];
    let p2 = PPPoEFrame::new(&data2).unwrap();
    assert_eq!(p2.convert_to_payload(), data2);
}

#[test]
fn offer_includes_host_uniq_tag() {
    let f = PPPoEFrame::get_offer_with_host_uniq(0x1234_5678);
    assert_eq!(f.ver, 1);
    assert_eq!(f.t, 1);
    assert_eq!(f.code, 0x07, "PADO");
    assert_eq!(f.sid, 0);

    let tags = PPPoETag::from_bytes(&f.payload);
    assert_eq!(tags.len(), 1);
    if let PPPoETag::HostUniq(id) = &tags[0] {
        assert_eq!(*id, 0x1234_5678);
    } else {
        panic!("expected HostUniq tag");
    }
}

#[test]
fn tags_read_back_what_was_written() {
    let tags = vec![
        PPPoETag::ServiceName(b"isp".to_vec()),
        PPPoETag::HostUniq(42),
        PPPoETag::AcCookie(vec![1, 2, 3]),
    ];
    let mut bytes = Vec::new();
    for t in &tags {
        bytes.extend(t.decode_options());
    }
    let back = PPPoETag::from_bytes(&bytes);
    assert_eq!(back.len(), 3);
    assert!(matches!(&back[0], PPPoETag::ServiceName(v) if v == b"isp"));
    assert!(matches!(&back[1], PPPoETag::HostUniq(42)));
    assert!(matches!(&back[2], PPPoETag::AcCookie(v) if v == &vec![1, 2, 3]));
}

#[test]
fn discover_without_multi_modem_has_no_host_uniq() {
    let (host_uniq, f) = PPPoEFrame::get_discover(false);
    assert_eq!(host_uniq, 0);
    assert_eq!(f.convert_to_payload(), vec![0x11, 0x09, 0, 0, 0, 4, 1, 1, 0, 0]);
    let (host_uniq, f) = PPPoEFrame::get_discover(true);
    let tags = PPPoETag::from_bytes(&f.payload);
    assert!(matches!(tags.last(), Some(PPPoETag::HostUniq(x)) if *x == host_uniq));
}

#[test]
fn session_frames_carry_ppp() {
    let f = PPPoEFrame::get_ppp_mru_config_request(0x0042, 1, 1492, 7);
    assert!(f.is_session_data());
    assert_eq!(f.sid, 0x0042);
    let ppp = f.conversion_payload_to_ppp().unwrap();
    assert!(ppp.is_lcp_config() && ppp.is_request());
}
