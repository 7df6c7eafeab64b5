//! PPP (RFC 1661) control-protocol packets: parsing, predicates and builders.
use vstd::prelude::*;

use md5::Digest;
use vstd::string::StringSliceAdditionalSpecFns;

use crate::bytes::{
    be16, be16_value, be32, copy_range, push_all, push_be16, push_be32, read_be16,
};

verus! {

/// One PPP control packet: protocol, code, identifier, length and the option bytes.
///
/// Protocol numbers: 0xc021 LCP, 0xc023 PAP, 0xc223 CHAP, 0x8021 IPCP, 0x8057 IPV6CP.
#[derive(Debug, Clone)]
pub struct PointToPoint {
    pub protocol: u16,
    pub code: u8,
    pub id: u8,
    pub length: u16,
    pub payload: Vec<u8>,
}

/// The 16-bit length field declared by a PPP header held in `d[4..6]`.
pub open spec fn ppp_declared_len(d: Seq<u8>) -> int {
    be16_value(d[4], d[5]) as int
}

/// Whether `d` starts with a complete PPP packet whose declared length covers
/// at least the four-byte header after the protocol field.
pub open spec fn ppp_accepts(d: Seq<u8>) -> bool {
    &&& d.len() >= 6
    &&& ppp_declared_len(d) >= 4
    &&& ppp_declared_len(d) + 2 <= d.len()
}

/// The fields (protocol, code, id, length, payload) that a PPP packet at the
/// start of `d` carries, when `d` holds one.
pub open spec fn ppp_parse(d: Seq<u8>) -> Option<(u16, u8, u8, u16, Seq<u8>)> {
    if ppp_accepts(d) {
        Some(
            (
                be16_value(d[0], d[1]),
                d[2],
                d[3],
                be16_value(d[4], d[5]),
                d.subrange(6, ppp_declared_len(d) + 2),
            ),
        )
    } else {
        None
    }
}

/// The wire bytes of a packet made of the given fields.
pub open spec fn ppp_wire(protocol: u16, code: u8, id: u8, length: u16, payload: Seq<u8>) -> Seq<
    u8,
> {
    be16(protocol) + seq![code, id] + be16(length) + payload
}

/// The header length (in bytes, with the protocol field) of the option list `opts`,
/// as the 16-bit length field carries it (the sum wraps like `as u16`).
pub open spec fn ppp_len_field(opts_len: int) -> u16 {
    ((opts_len % 65536) + 4) as u16
}

/// The MD5 digest of `message`, as the `md-5` crate computes it.
pub uninterp spec fn md5_digest(message: Seq<u8>) -> Seq<u8>;

/// Calls `md5::Md5::digest` (crate `md-5`, trait `digest::Digest`) on `message`.
/// Claimed: the result is the crate's digest of exactly these bytes, named
/// `md5_digest`, and it is 16 bytes long (the MD5 output size).
#[verifier::external_body]
fn md5_of(message: &[u8]) -> (r: Vec<u8>)
    ensures
        r@ == md5_digest(message@),
        r@.len() == 16,
{
    md5::Md5::digest(message).to_vec()
}

/// The CHAP Response value: the identifier, the secret and the challenge, in that order.
pub open spec fn chap_hash_input(id: u8, password: Seq<u8>, challenge: Seq<u8>) -> Seq<u8> {
    seq![id] + password + challenge
}

/// The CHAP Response packet (RFC 1994) carrying `digest` as its value and
/// `peer` as its name; the length field wraps like `as u16`.
pub open spec fn chap_response_wire(id: u8, peer: Seq<u8>, digest: Seq<u8>) -> Seq<u8> {
    let payload = seq![(digest.len() % 256) as u8] + digest + peer;
    ppp_wire(0xc223, 2, id, ((payload.len() + 4) % 65536) as u16, payload)
}

/// The IPCP Configure-Request options: IP-Address (3), primary DNS (0x81), secondary DNS (0x83).
pub open spec fn ipcp_options(ip: Seq<u8>, dns1: Seq<u8>, dns2: Seq<u8>) -> Seq<u8> {
    seq![3u8, 6u8] + ip + seq![0x81u8, 6u8] + dns1 + seq![0x83u8, 6u8] + dns2
}

impl PointToPoint {
    pub open spec fn fields(&self) -> (u16, u8, u8, u16, Seq<u8>) {
        (self.protocol, self.code, self.id, self.length, self.payload@)
    }

    /// The bytes that `convert_to_payload` produces.
    pub open spec fn wire(&self) -> Seq<u8> {
        ppp_wire(self.protocol, self.code, self.id, self.length, self.payload@)
    }

    /// The length field agrees with the payload actually carried.
    pub open spec fn well_formed(&self) -> bool {
        self.length as int == self.payload@.len() + 4
    }

    /// Parses the PPP packet at the start of `data`; bytes past the declared length are ignored.
    pub fn new(data: &[u8]) -> (r: Option<PointToPoint>)
        ensures
            r is Some <==> ppp_accepts(data@),
            r matches Some(p) ==> ppp_parse(data@) == Some(p.fields()),
    {
        if data.len() < 6 {
            return None;
        }
        let protocol = read_be16(data, 0);
        let code = data[2];
        let id = data[3];
        let length = read_be16(data, 4);
        if length < 4 {
            return None;
        }
        let data_end = length as usize + 2;
        if data_end > data.len() {
            return None;
        }
        Some(PointToPoint { protocol, code, id, length, payload: copy_range(data, 6, data_end) })
    }

    pub fn is_lcp_config(&self) -> (r: bool)
        ensures
            r == (self.protocol == 0xc021),
    {
        self.protocol == 0xc021
    }

    pub fn is_pap_auth(&self) -> (r: bool)
        ensures
            r == (self.protocol == 0xc023),
    {
        self.protocol == 0xc023
    }

    pub fn is_ipcp(&self) -> (r: bool)
        ensures
            r == (self.protocol == 0x8021),
    {
        self.protocol == 0x8021
    }

    pub fn is_ipv6cp(&self) -> (r: bool)
        ensures
            r == (self.protocol == 0x8057),
    {
        self.protocol == 0x8057
    }

    pub fn is_chap(&self) -> (r: bool)
        ensures
            r == (self.protocol == 0xc223),
    {
        self.protocol == 0xc223
    }

    pub fn is_request(&self) -> (r: bool)
        ensures
            r == (self.code == 1),
    {
        self.code == 1
    }

    pub fn is_ack(&self) -> (r: bool)
        ensures
            r == (self.code == 2),
    {
        self.code == 2
    }

    pub fn is_nak(&self) -> (r: bool)
        ensures
            r == (self.code == 3),
    {
        self.code == 3
    }

    pub fn is_reject(&self) -> (r: bool)
        ensures
            r == (self.code == 4),
    {
        self.code == 4
    }

    pub fn is_termination(&self) -> (r: bool)
        ensures
            r == (self.code == 5),
    {
        self.code == 5
    }

    pub fn is_termination_ack(&self) -> (r: bool)
        ensures
            r == (self.code == 6),
    {
        self.code == 6
    }

    pub fn is_proto_reject(&self) -> (r: bool)
        ensures
            r == (self.code == 8),
    {
        self.code == 8
    }

    pub fn is_echo_request(&self) -> (r: bool)
        ensures
            r == (self.code == 9),
    {
        self.code == 9
    }

    pub fn is_echo_reply(&self) -> (r: bool)
        ensures
            r == (self.code == 10),
    {
        self.code == 10
    }

    /// CHAP code 1 (Challenge).
    pub fn is_challenge(&self) -> (r: bool)
        ensures
            r == (self.code == 1),
    {
        self.code == 1
    }

    /// CHAP code 3 (Success).
    pub fn is_chap_success(&self) -> (r: bool)
        ensures
            r == (self.code == 3),
    {
        self.code == 3
    }

    /// CHAP code 4 (Failure).
    pub fn is_chap_failure(&self) -> (r: bool)
        ensures
            r == (self.code == 4),
    {
        self.code == 4
    }

    /// LCP message with code `code` carrying the MRU and magic-number options.
    fn lcp_mru_message(code: u8, request_id: u8, mru: u16, magic_number: u32) -> (r: Vec<u8>)
        ensures
            r@ == seq![0xc0u8, 0x21u8, code, request_id] + be16(14) + seq![1u8, 4u8] + be16(mru)
                + seq![5u8, 6u8] + be32(magic_number),
    {
        let mut r: Vec<u8> = Vec::new();
        r.push(0xc0);
        r.push(0x21);
        r.push(code);
        r.push(request_id);
        push_be16(&mut r, 14);
        r.push(1);
        r.push(4);
        push_be16(&mut r, mru);
        r.push(5);
        r.push(6);
        push_be32(&mut r, magic_number);
        assert(r@ =~= seq![0xc0u8, 0x21u8, code, request_id] + be16(14) + seq![1u8, 4u8] + be16(
            mru,
        ) + seq![5u8, 6u8] + be32(magic_number));
        r
    }

    /// LCP Configure-Request with the MRU and magic-number options.
    pub fn request_mru(request_id: u8, mru: u16, magic_number: u32) -> (r: Vec<u8>)
        ensures
            r@ == seq![0xc0u8, 0x21u8, 1u8, request_id] + be16(14) + seq![1u8, 4u8] + be16(mru)
                + seq![5u8, 6u8] + be32(magic_number),
    {
        Self::lcp_mru_message(1, request_id, mru, magic_number)
    }

    /// LCP Configure-Request with the MRU, authentication-protocol and magic-number options.
    pub fn request_mru_with_auth(request_id: u8, mru: u16, magic_number: u32, auth_type: u16) -> (r:
        Vec<u8>)
        ensures
            r@ == seq![0xc0u8, 0x21u8, 1u8, request_id] + be16(18) + seq![1u8, 4u8] + be16(mru)
                + seq![3u8, 4u8] + be16(auth_type) + seq![5u8, 6u8] + be32(magic_number),
    {
        let mut r: Vec<u8> = Vec::new();
        r.push(0xc0);
        r.push(0x21);
        r.push(1);
        r.push(request_id);
        push_be16(&mut r, 18);
        r.push(1);
        r.push(4);
        push_be16(&mut r, mru);
        r.push(3);
        r.push(4);
        push_be16(&mut r, auth_type);
        r.push(5);
        r.push(6);
        push_be32(&mut r, magic_number);
        assert(r@ =~= seq![0xc0u8, 0x21u8, 1u8, request_id] + be16(18) + seq![1u8, 4u8] + be16(
            mru,
        ) + seq![3u8, 4u8] + be16(auth_type) + seq![5u8, 6u8] + be32(magic_number));
        r
    }

    /// LCP Configure-Ack with the MRU and magic-number options.
    pub fn ack_mru(request_id: u8, mru: u16, magic_number: u32) -> (r: Vec<u8>)
        ensures
            r@ == seq![0xc0u8, 0x21u8, 2u8, request_id] + be16(14) + seq![1u8, 4u8] + be16(mru)
                + seq![5u8, 6u8] + be32(magic_number),
    {
        Self::lcp_mru_message(2, request_id, mru, magic_number)
    }

    /// LCP Configure-Nak with the MRU and magic-number options.
    pub fn nak_mru(request_id: u8, mru: u16, magic_number: u32) -> (r: Vec<u8>)
        ensures
            r@ == seq![0xc0u8, 0x21u8, 3u8, request_id] + be16(14) + seq![1u8, 4u8] + be16(mru)
                + seq![5u8, 6u8] + be32(magic_number),
    {
        Self::lcp_mru_message(3, request_id, mru, magic_number)
    }

    /// The bytes of a packet with this protocol and id, code `code`, the given
    /// length field and option bytes.
    fn encode_with(&self, code: u8, length: u16, options: &[u8]) -> (r: Vec<u8>)
        ensures
            r@ == ppp_wire(self.protocol, code, self.id, length, options@),
    {
        let mut r: Vec<u8> = Vec::new();
        push_be16(&mut r, self.protocol);
        r.push(code);
        r.push(self.id);
        push_be16(&mut r, length);
        push_all(&mut r, options);
        assert(r@ =~= ppp_wire(self.protocol, code, self.id, length, options@));
        r
    }

    /// Configure-Reject (code 4) echoing this packet's id and carrying `reject_option`.
    pub fn gen_reject(&self, reject_option: Vec<u8>) -> (r: Vec<u8>)
        requires
            (reject_option@.len() % 65536) + 4 <= u16::MAX,
        ensures
            r@ == ppp_wire(
                self.protocol,
                4,
                self.id,
                ppp_len_field(reject_option@.len() as int),
                reject_option@,
            ),
    {
        let n = (reject_option.len() % 65536) as u16;
        self.encode_with(4, n + 4, reject_option.as_slice())
    }

    /// Configure-Ack (code 2) of this packet: same protocol, id, length and options.
    pub fn gen_ack(&self) -> (r: Vec<u8>)
        ensures
            r@ == ppp_wire(self.protocol, 2, self.id, self.length, self.payload@),
    {
        self.encode_with(2, self.length, self.payload.as_slice())
    }

    /// Echo-Reply (code 10) of this packet: same protocol, id, length and data.
    pub fn gen_reply(&self) -> (r: Vec<u8>)
        ensures
            r@ == ppp_wire(self.protocol, 10, self.id, self.length, self.payload@),
    {
        self.encode_with(10, self.length, self.payload.as_slice())
    }

    /// Echo-Reply (code 10) of this packet carrying only `magic_number`.
    pub fn gen_reply_with_magic(&self, magic_number: u32) -> (r: Vec<u8>)
        ensures
            r@ == ppp_wire(self.protocol, 10, self.id, 8, be32(magic_number)),
    {
        let mut m: Vec<u8> = Vec::new();
        push_be32(&mut m, magic_number);
        assert(m@ =~= be32(magic_number));
        self.encode_with(10, 8, m.as_slice())
    }

    /// LCP Echo-Request (code 9) with identifier `id` carrying `magic_number`.
    pub fn gen_echo_request_with_magic(id: u8, magic_number: u32) -> (r: Vec<u8>)
        ensures
            r@ == ppp_wire(0xc021, 9, id, 8, be32(magic_number)),
    {
        let mut r: Vec<u8> = Vec::new();
        r.push(0xc0);
        r.push(0x21);
        r.push(9);
        r.push(id);
        push_be16(&mut r, 8);
        push_be32(&mut r, magic_number);
        assert(r@ =~= ppp_wire(0xc021, 9, id, 8, be32(magic_number)));
        r
    }

    /// The PAP Authenticate-Request payload: each of `peer_id` and `password`
    /// preceded by its length (as one byte, wrapping).
    pub open spec fn pap_payload(peer: Seq<u8>, password: Seq<u8>) -> Seq<u8> {
        seq![(peer.len() % 256) as u8] + peer + seq![(password.len() % 256) as u8] + password
    }

    /// PAP Authenticate-Request (protocol 0xc023, code 1, id 1).
    pub fn gen_pap(peer_id: &str, password: &str) -> (r: PointToPoint)
        requires
            ((peer_id.spec_bytes().len() + password.spec_bytes().len() + 2) % 65536) + 4
                <= u16::MAX,
        ensures
            r.protocol == 0xc023,
            r.code == 1,
            r.id == 1,
            r.payload@ == Self::pap_payload(peer_id.spec_bytes(), password.spec_bytes()),
            r.length == ppp_len_field(r.payload@.len() as int),
    {
        let peer = peer_id.as_bytes();
        let pass = password.as_bytes();
        let mut payload: Vec<u8> = Vec::new();
        payload.push((peer.len() % 256) as u8);
        push_all(&mut payload, peer);
        payload.push((pass.len() % 256) as u8);
        push_all(&mut payload, pass);
        assert(payload@ =~= Self::pap_payload(peer_id.spec_bytes(), password.spec_bytes()));
        let n = (payload.len() % 65536) as u16;
        PointToPoint { protocol: 0xc023, code: 1, id: 1, length: n + 4, payload }
    }

    /// CHAP Response (protocol 0xc223, code 2) for challenge `challenge`: the MD5
    /// digest of `id`, `password` and `challenge`, followed by `peer_id`.
    pub fn gen_chap_response(id: u8, peer_id: &str, password: &str, challenge: &[u8]) -> (r: Vec<
        u8,
    >)
        ensures
            r@ == chap_response_wire(
                id,
                peer_id.spec_bytes(),
                md5_digest(chap_hash_input(id, password.spec_bytes(), challenge@)),
            ),
            md5_digest(chap_hash_input(id, password.spec_bytes(), challenge@)).len() == 16,
    {
        let mut message: Vec<u8> = Vec::new();
        message.push(id);
        push_all(&mut message, password.as_bytes());
        push_all(&mut message, challenge);
        assert(message@ =~= chap_hash_input(id, password.spec_bytes(), challenge@));
        let digest = md5_of(message.as_slice());
        Self::chap_response_with_digest(id, peer_id, digest.as_slice())
    }

    /// The CHAP Response packet carrying a digest computed elsewhere.
    pub fn chap_response_with_digest(id: u8, peer_id: &str, digest: &[u8]) -> (r: Vec<u8>)
        ensures
            r@ == chap_response_wire(id, peer_id.spec_bytes(), digest@),
    {
        let peer = peer_id.as_bytes();
        let mut payload: Vec<u8> = Vec::new();
        payload.push((digest.len() % 256) as u8);
        push_all(&mut payload, digest);
        push_all(&mut payload, peer);
        let length = ((payload.len() % 65536 + 4) % 65536) as u16;
        assert(((payload@.len() % 65536 + 4) % 65536) == ((payload@.len() + 4) % 65536));
        let mut r: Vec<u8> = Vec::new();
        r.push(0xc2);
        r.push(0x23);
        r.push(2);
        r.push(id);
        push_be16(&mut r, length);
        push_all(&mut r, payload.as_slice());
        assert(r@ =~= chap_response_wire(id, peer_id.spec_bytes(), digest@));
        r
    }

    /// IPCP Configure-Request asking only for the IP-Address option `ip`.
    pub fn get_ipcp_request_only_client_ip(id: u8, ip: [u8; 4]) -> (r: PointToPoint)
        ensures
            r.protocol == 0x8021,
            r.code == 1,
            r.id == id,
            r.length == 10,
            r.payload@ == seq![3u8, 6u8] + ip@,
    {
        let options: Vec<u8> = vec![3, 6, ip[0], ip[1], ip[2], ip[3]];
        assert(options@ =~= seq![3u8, 6u8] + ip@);
        PointToPoint { protocol: 0x8021, code: 1, id, length: 10, payload: options }
    }

    /// IPCP Configure-Request asking for the IP address and both DNS servers.
    pub fn get_ipcp_request(id: u8, ip: [u8; 4], dns1: [u8; 4], dns2: [u8; 4]) -> (r:
        PointToPoint)
        ensures
            r.protocol == 0x8021,
            r.code == 1,
            r.id == id,
            r.length == 22,
            r.payload@ == ipcp_options(ip@, dns1@, dns2@),
    {
        let options: Vec<u8> = vec![
            3,
            6,
            ip[0],
            ip[1],
            ip[2],
            ip[3],
            0x81,
            6,
            dns1[0],
            dns1[1],
            dns1[2],
            dns1[3],
            0x83,
            6,
            dns2[0],
            dns2[1],
            dns2[2],
            dns2[3],
        ];
        assert(options@ =~= ipcp_options(ip@, dns1@, dns2@));
        PointToPoint { protocol: 0x8021, code: 1, id, length: 22, payload: options }
    }

    /// IPV6CP Configure-Request carrying the interface-identifier option.
    pub fn get_ipv6cp_request(ipv6_interface_id: Vec<u8>, id: u8) -> (r: PointToPoint)
        requires
            ((ipv6_interface_id@.len() + 2) % 65536) + 4 <= u16::MAX,
        ensures
            r.protocol == 0x8057,
            r.code == 1,
            r.id == id,
            r.payload@ == seq![1u8, 0x0au8] + ipv6_interface_id@,
            r.length == ppp_len_field(r.payload@.len() as int),
    {
        let mut options: Vec<u8> = Vec::new();
        options.push(1);
        options.push(0x0a);
        push_all(&mut options, ipv6_interface_id.as_slice());
        let n = (options.len() % 65536) as u16;
        PointToPoint { protocol: 0x8057, code: 1, id, length: n + 4, payload: options }
    }

    /// The text "User request" carried by an LCP Terminate-Request.
    pub open spec fn user_request_text() -> Seq<u8> {
        seq![0x55u8, 0x73, 0x65, 0x72, 0x20, 0x72, 0x65, 0x71, 0x75, 0x65, 0x73, 0x74]
    }

    /// LCP Terminate-Request (code 5) whose data reads "User request".
    pub fn get_termination_request(id: u8) -> (r: PointToPoint)
        ensures
            r.protocol == 0xc021,
            r.code == 5,
            r.id == id,
            r.payload@ == Self::user_request_text(),
            r.length == 16,
    {
        let options: Vec<u8> = vec![
            0x55,
            0x73,
            0x65,
            0x72,
            0x20,
            0x72,
            0x65,
            0x71,
            0x75,
            0x65,
            0x73,
            0x74,
        ];
        assert(options@ =~= Self::user_request_text());
        let n = options.len() as u16;
        PointToPoint { protocol: 0xc021, code: 5, id, length: n + 4, payload: options }
    }

    /// Terminate-Ack (code 6) of this packet: same protocol, id, length and data.
    pub fn get_termination_ack(&self) -> (r: Vec<u8>)
        ensures
            r@ == ppp_wire(self.protocol, 6, self.id, self.length, self.payload@),
    {
        self.encode_with(6, self.length, self.payload.as_slice())
    }

    /// The wire bytes of this packet.
    pub fn convert_to_payload(&self) -> (r: Vec<u8>)
        ensures
            r@ == self.wire(),
    {
        self.encode_with(self.code, self.length, self.payload.as_slice())
    }
}

/// Encoding a well-formed packet and parsing the bytes back gives the same fields.
pub proof fn lemma_ppp_encode_then_parse(p: PointToPoint)
    requires
        p.well_formed(),
    ensures
        ppp_accepts(p.wire()),
        ppp_parse(p.wire()) == Some(p.fields()),
{
    let w = p.wire();
    crate::bytes::lemma_be16_roundtrip(p.protocol);
    crate::bytes::lemma_be16_roundtrip(p.length);
    assert(w[4] == be16(p.length)[0]);
    assert(w[5] == be16(p.length)[1]);
    assert(w.subrange(6, p.length + 2) =~= p.payload@);
    assert(w[0] == be16(p.protocol)[0]);
    assert(w[1] == be16(p.protocol)[1]);
}

/// Parsing bytes and encoding the parsed fields again gives back the bytes the
/// packet occupied (its declared length plus the protocol field).
pub proof fn lemma_ppp_parse_then_encode(d: Seq<u8>)
    requires
        ppp_accepts(d),
    ensures
        ({
            let (protocol, code, id, length, payload) = ppp_parse(d).unwrap();
            ppp_wire(protocol, code, id, length, payload) == d.subrange(0, length + 2)
        }),
{
    crate::bytes::lemma_be16_value_roundtrip(d[0], d[1]);
    crate::bytes::lemma_be16_value_roundtrip(d[4], d[5]);
    let (protocol, code, id, length, payload) = ppp_parse(d).unwrap();
    assert(ppp_wire(protocol, code, id, length, payload) =~= d.subrange(0, length + 2));
}

} // verus!
