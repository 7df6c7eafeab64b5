use landscape::ppp::PointToPoint;
use md5::{Digest, Md5};

#[test]
fn gen_chap_response_packet_structure() {
    let id = 0x02;
    let peer_id = "client";
    let password = "secret";
    let challenge = [0x01u8, 0x02, 0x03, 0x04, 0x05, 0x06, 0x07, 0x08];

    let pkt = PointToPoint::gen_chap_response(id, peer_id, password, &challenge);

    assert_eq!(pkt[0], 0xc2, "protocol byte 0");
    assert_eq!(pkt[1], 0x23, "protocol byte 1");
    assert_eq!(pkt[2], 2, "code = Response");
    assert_eq!(pkt[3], id, "id preserved");

    let length = u16::from_be_bytes([pkt[4], pkt[5]]);
    assert_eq!(pkt.len(), length as usize + 2, "length field consistent");

    assert_eq!(pkt[6], 16, "value-size = 16 (MD5 digest)");

    let hash_bytes = &pkt[7..23];
    assert_eq!(hash_bytes.len(), 16, "hash is 16 bytes");

    let name_bytes = &pkt[23..];
    assert_eq!(name_bytes, peer_id.as_bytes(), "name follows hash");
}

#[test]
fn gen_chap_response_hash_is_correct() {
    let id = 0x01;
    let password = "clientPass";
    let challenge = [0x5eu8, 0x47, 0xb9, 0xc2, 0x7e, 0x34, 0x55, 0xc2];

    let pkt = PointToPoint::gen_chap_response(id, "peer", password, &challenge);

    let mut hasher = Md5::new();
    hasher.update(&[id]);
    hasher.update(password.as_bytes());
    hasher.update(&challenge);
    let expected = hasher.finalize();

    let hash_from_pkt = &pkt[7..23];
    assert_eq!(hash_from_pkt, expected.as_slice(), "MD5 hash matches independent computation");
}

#[test]
fn gen_chap_response_different_inputs_different_outputs() {
    let challenge1 = [1u8, 2, 3, 4];
    let challenge2 = [5u8, 6, 7, 8];

    let pkt1 = PointToPoint::gen_chap_response(1, "peer", "pass", &challenge1);
    let pkt2 = PointToPoint::gen_chap_response(1, "peer", "pass", &challenge2);

    let hash1 = &pkt1[7..23];
    let hash2 = &pkt2[7..23];
    assert_ne!(hash1, hash2, "different challenges produce different hashes");
}

fn ppp_u16_at(d: &[u8], o: usize) -> u16 {
    u16::from_be_bytes([d[o], d[o + 1]])
}
fn ppp_u32_at(d: &[u8], o: usize) -> u32 {
    u32::from_be_bytes([d[o], d[o + 1], d[o + 2], d[o + 3]])
}

#[test]
fn request_mru_encodes_mru_and_magic() {
    let pkt = PointToPoint::request_mru(0x42, 1400, 0xCAFE_BEEF);
    assert_eq!(ppp_u16_at(&pkt, 0), 0xc021, "protocol LCP");
    assert_eq!(pkt[2], 1, "code Request");
    assert_eq!(pkt[3], 0x42, "id");
    // option MRU
    assert_eq!(pkt[6], 1);
    assert_eq!(pkt[7], 4);
    assert_eq!(ppp_u16_at(&pkt, 8), 1400);
    // option magic
    assert_eq!(pkt[10], 5);
    assert_eq!(pkt[11], 6);
    assert_eq!(ppp_u32_at(&pkt, 12), 0xCAFE_BEEF);
}

#[test]
fn request_mru_with_auth_includes_3_options() {
    let pkt = PointToPoint::request_mru_with_auth(1, 1492, 0xDEAD, 0xc023);
    assert_eq!(pkt[2], 1, "code Request");
    // PPP total length = 4 + (4 + 4 + 6) = 18
    assert_eq!(ppp_u16_at(&pkt, 4), 18);
    // option 1: MRU=1492
    assert_eq!(pkt[6], 1);
    assert_eq!(pkt[7], 4);
    assert_eq!(ppp_u16_at(&pkt, 8), 1492);
    // option 2: auth=PAP
    assert_eq!(pkt[10], 3);
    assert_eq!(pkt[11], 4);
    assert_eq!(ppp_u16_at(&pkt, 12), 0xc023);
    // option 3: magic
    assert_eq!(pkt[14], 5);
    assert_eq!(pkt[15], 6);
    assert_eq!(ppp_u32_at(&pkt, 16), 0xDEAD);
}

#[test]
fn ack_mru_has_code_2() {
    let pkt = PointToPoint::ack_mru(7, 1492, 0xBEEF);
    assert_eq!(pkt[2], 2, "code Ack");
    assert_eq!(pkt[3], 7, "id");
}

#[test]
fn nak_mru_has_code_3() {
    let pkt = PointToPoint::nak_mru(5, 1400, 0xCAFE);
    assert_eq!(pkt[2], 3, "code Nak");
    assert_eq!(pkt[3], 5, "id");
}

#[test]
fn ppp_packet_encodes_back_to_its_bytes() {
    let bytes = PointToPoint::request_mru(7, 1492, 0xdead_beef);
    let p = PointToPoint::new(&bytes).unwrap();
    assert_eq!((p.protocol, p.code, p.id, p.length), (0xc021, 1, 7, 14));
    assert_eq!(p.convert_to_payload(), bytes);
}

#[test]
fn ppp_predicates_and_replies() {
    let req = PointToPoint::new(&PointToPoint::request_mru(3, 1492, 1)).unwrap();
    assert!(req.is_lcp_config() && req.is_request());
    assert!(!req.is_ack() && !req.is_nak() && !req.is_reject() && !req.is_ipcp() && !req.is_chap());
    let ack = PointToPoint::new(&req.gen_ack()).unwrap();
    assert!(ack.is_ack() && ack.id == 3 && ack.payload == req.payload);
    let echo = PointToPoint::new(&PointToPoint::gen_echo_request_with_magic(9, 0x0102_0304)).unwrap();
    assert!(echo.is_echo_request());
    let reply = PointToPoint::new(&echo.gen_reply_with_magic(0x0506_0708)).unwrap();
    assert!(reply.is_echo_reply());
    assert_eq!(reply.payload, vec![5, 6, 7, 8]);
    let term = PointToPoint::get_termination_request(4);
    assert!(term.is_termination());
    let term_ack = PointToPoint::new(&term.get_termination_ack()).unwrap();
    assert!(term_ack.is_termination_ack());
}
