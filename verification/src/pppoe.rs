//! PPPoE (RFC 2516) frames: discovery packets and session packets carrying PPP.
use vstd::prelude::*;
use vstd::string::StringSliceAdditionalSpecFns;

use crate::bytes::{be16, be16_value, copy_range, push_all, push_be16, read_be16};
use crate::ppp::{ipcp_options, ppp_accepts, ppp_parse, ppp_len_field, ppp_wire, PointToPoint};
use crate::pppoe_tags::{tag_wire, PPPoETag, TagValue};

verus! {

/// A PPPoE frame: version and type nibbles, code, session id, length field and payload.
#[derive(Debug, Clone)]
pub struct PPPoEFrame {
    pub ver: u8,
    pub t: u8,
    pub code: u8,
    pub sid: u16,
    pub length: u16,
    pub payload: Vec<u8>,
}

/// The fields (ver, type, code, session id, length, payload) of the frame that `d` holds.
pub open spec fn pppoe_parse(d: Seq<u8>) -> Option<(u8, u8, u8, u16, u16, Seq<u8>)> {
    if d.len() >= 6 {
        Some(
            (
                d[0] / 16,
                d[0] % 16,
                d[1],
                be16_value(d[2], d[3]),
                be16_value(d[4], d[5]),
                d.subrange(6, d.len() as int),
            ),
        )
    } else {
        None
    }
}

/// The wire bytes of a frame: the nibbles packed into one byte, the code, the
/// session id, the payload length (wrapping like `as u16`) and the payload.
pub open spec fn pppoe_wire(ver: u8, t: u8, code: u8, sid: u16, payload: Seq<u8>) -> Seq<u8> {
    seq![((ver % 16) * 16 + t % 16) as u8, code] + be16(sid) + be16(
        (payload.len() % 65536) as u16,
    ) + payload
}

/// Discovery payload holding an empty Service-Name tag.
pub open spec fn empty_service_name() -> Seq<u8> {
    seq![1u8, 1u8, 0u8, 0u8]
}

/// The payload of a PADR: an empty Service-Name, then (for a nonzero Host-Uniq)
/// the Host-Uniq tag and, when given, the AC-Cookie tag.
pub open spec fn request_payload(host_uniq_id: u32, ac_cookie: Option<Seq<u8>>) -> Seq<u8> {
    if host_uniq_id != 0 {
        match ac_cookie {
            Some(c) => empty_service_name() + tag_wire(TagValue::HostUniq(host_uniq_id)) + tag_wire(
                TagValue::AcCookie(c),
            ),
            None => empty_service_name() + tag_wire(TagValue::HostUniq(host_uniq_id)),
        }
    } else {
        empty_service_name()
    }
}

/// Seconds since the Unix epoch, from `std::time::UNIX_EPOCH.elapsed()`
/// (`SystemTime::elapsed`); `None` when the clock reads earlier than the epoch.
/// Nothing is claimed of the value: it is the machine's clock.
#[verifier::external_body]
fn unix_time_secs() -> Option<u64> {
    match std::time::UNIX_EPOCH.elapsed() {
        Ok(d) => Some(d.as_secs()),
        Err(_) => None,
    }
}

impl PPPoEFrame {
    pub open spec fn fields(&self) -> (u8, u8, u8, u16, u16, Seq<u8>) {
        (self.ver, self.t, self.code, self.sid, self.length, self.payload@)
    }

    /// The bytes that `convert_to_payload` produces.
    pub open spec fn wire(&self) -> Seq<u8> {
        pppoe_wire(self.ver, self.t, self.code, self.sid, self.payload@)
    }

    /// A session frame (ver 1, type 1, code 0) in session `sid` carrying `payload`.
    pub open spec fn is_session_frame(&self, sid: u16, payload: Seq<u8>) -> bool {
        &&& self.ver == 1
        &&& self.t == 1
        &&& self.code == 0
        &&& self.sid == sid
        &&& self.length == (payload.len() % 65536) as u16
        &&& self.payload@ == payload
    }

    /// Parses a PPPoE frame; everything after the six-byte header is the payload.
    pub fn new(data: &[u8]) -> (r: Option<PPPoEFrame>)
        ensures
            r is Some <==> data@.len() >= 6,
            r matches Some(f) ==> pppoe_parse(data@) == Some(f.fields()),
    {
        if data.len() < 6 {
            return None;
        }
        let ver = data[0] / 16;
        let t = data[0] % 16;
        let sid = read_be16(data, 2);
        let length = read_be16(data, 4);
        Some(PPPoEFrame { ver, t, code: data[1], sid, length, payload: copy_range(data, 6, data.len()) })
    }

    /// PADO.
    pub fn is_offer(&self) -> (r: bool)
        ensures
            r == (self.code == 0x07),
    {
        self.code == 0x07
    }

    /// PADT.
    pub fn is_terminate(&self) -> (r: bool)
        ensures
            r == (self.code == 0xa7),
    {
        self.code == 0xa7
    }

    /// PADS.
    pub fn is_confirm(&self) -> (r: bool)
        ensures
            r == (self.code == 0x65),
    {
        self.code == 0x65
    }

    /// Session data.
    pub fn is_session_data(&self) -> (r: bool)
        ensures
            r == (self.code == 0x00),
    {
        self.code == 0x00
    }

    /// The wire bytes of this frame; the length field is recomputed from the payload.
    pub fn convert_to_payload(self) -> (r: Vec<u8>)
        ensures
            r@ == self.wire(),
    {
        let mut r: Vec<u8> = Vec::new();
        r.push(((self.ver % 16) * 16 + self.t % 16) as u8);
        r.push(self.code);
        push_be16(&mut r, self.sid);
        push_be16(&mut r, (self.payload.len() % 65536) as u16);
        push_all(&mut r, self.payload.as_slice());
        assert(r@ =~= self.wire());
        r
    }

    fn discover_base() -> (r: PPPoEFrame)
        ensures
            r.fields() == (1u8, 1u8, 9u8, 0u16, 4u16, empty_service_name()),
    {
        let payload: Vec<u8> = vec![1, 1, 0, 0];
        assert(payload@ =~= empty_service_name());
        PPPoEFrame { ver: 1, t: 1, code: 9, sid: 0, length: 4, payload }
    }

    /// PADI. With `multi_modem`, a Host-Uniq taken from the clock (seconds since the
    /// epoch, truncated to 32 bits) is added and returned; otherwise the Host-Uniq is 0.
    pub fn get_discover(multi_modem: bool) -> (r: (u32, PPPoEFrame))
        ensures
            !multi_modem ==> r.0 == 0 && r.1.fields() == (
                1u8,
                1u8,
                9u8,
                0u16,
                4u16,
                empty_service_name(),
            ),
            multi_modem ==> r.1.fields() == (
                1u8,
                1u8,
                9u8,
                0u16,
                4u16,
                empty_service_name() + tag_wire(TagValue::HostUniq(r.0)),
            ),
    {
        if multi_modem {
            let host_uniq: u32 = match unix_time_secs() {
                Some(secs) => (secs % 0x1_0000_0000) as u32,
                None => 0,
            };
            (host_uniq, Self::get_discover_with_host_uniq(host_uniq))
        } else {
            (0, Self::discover_base())
        }
    }

    /// PADI carrying the Host-Uniq tag `host_uniq` (the length field keeps the
    /// value 4 of the bare Service-Name payload).
    pub fn get_discover_with_host_uniq(host_uniq: u32) -> (r: PPPoEFrame)
        ensures
            r.fields() == (
                1u8,
                1u8,
                9u8,
                0u16,
                4u16,
                empty_service_name() + tag_wire(TagValue::HostUniq(host_uniq)),
            ),
    {
        let mut result = Self::discover_base();
        let tag = PPPoETag::HostUniq(host_uniq).decode_options();
        push_all(&mut result.payload, tag.as_slice());
        result
    }

    /// PADO carrying only the Host-Uniq tag `host_uniq`.
    pub fn get_offer_with_host_uniq(host_uniq: u32) -> (r: PPPoEFrame)
        ensures
            r.fields() == (1u8, 1u8, 7u8, 0u16, 8u16, tag_wire(TagValue::HostUniq(host_uniq))),
    {
        let tag = PPPoETag::HostUniq(host_uniq).decode_options();
        let mut payload: Vec<u8> = Vec::new();
        push_all(&mut payload, tag.as_slice());
        let length = payload.len() as u16;
        PPPoEFrame { ver: 1, t: 1, code: 7, sid: 0, length, payload }
    }

    /// PADR: empty Service-Name, then Host-Uniq and AC-Cookie when `host_uniq_id` is nonzero.
    pub fn get_request(host_uniq_id: u32, ac_cookie: Option<Vec<u8>>) -> (r: PPPoEFrame)
        ensures
            r.ver == 1 && r.t == 1 && r.code == 0x19 && r.sid == 0,
            r.payload@ == request_payload(
                host_uniq_id,
                match ac_cookie {
                    Some(c) => Some(c@),
                    None => None,
                },
            ),
            r.length == (r.payload@.len() % 65536) as u16,
    {
        let mut payload: Vec<u8> = vec![1, 1, 0, 0];
        assert(payload@ =~= empty_service_name());
        if host_uniq_id != 0 {
            let tag = PPPoETag::HostUniq(host_uniq_id).decode_options();
            push_all(&mut payload, tag.as_slice());
            if let Some(cookie) = ac_cookie {
                let ctag = PPPoETag::AcCookie(cookie).decode_options();
                push_all(&mut payload, ctag.as_slice());
            }
        }
        let length = (payload.len() % 65536) as u16;
        PPPoEFrame { ver: 1, t: 1, code: 0x19, sid: 0, length, payload }
    }

    /// The PPP packet carried by this (session) frame.
    pub fn conversion_payload_to_ppp(&self) -> (r: Option<PointToPoint>)
        ensures
            r is Some <==> ppp_accepts(self.payload@),
            r matches Some(p) ==> ppp_parse(self.payload@) == Some(p.fields()),
    {
        PointToPoint::new(self.payload.as_slice())
    }

    fn session(sid: u16, payload: Vec<u8>) -> (r: PPPoEFrame)
        ensures
            r.is_session_frame(sid, payload@),
    {
        let length = (payload.len() % 65536) as u16;
        PPPoEFrame { ver: 1, t: 1, code: 0, sid, length, payload }
    }

    /// Session frame carrying an LCP Configure-Request for `mru` and `magic_number`.
    pub fn get_ppp_mru_config_request(sid: u16, request_id: u8, mru: u16, magic_number: u32) -> (r:
        PPPoEFrame)
        ensures
            r.is_session_frame(
                sid,
                seq![0xc0u8, 0x21u8, 1u8, request_id] + be16(14) + seq![1u8, 4u8] + be16(mru)
                    + seq![5u8, 6u8] + crate::bytes::be32(magic_number),
            ),
    {
        Self::session(sid, PointToPoint::request_mru(request_id, mru, magic_number))
    }

    /// Session frame carrying a PAP Authenticate-Request.
    pub fn get_ppp_lcp_pap(sid: u16, peer_id: &str, password: &str) -> (r: PPPoEFrame)
        requires
            ((peer_id.spec_bytes().len() + password.spec_bytes().len() + 2) % 65536) + 4
                <= u16::MAX,
        ensures
            ({
                let payload = PointToPoint::pap_payload(peer_id.spec_bytes(), password.spec_bytes());
                r.is_session_frame(
                    sid,
                    ppp_wire(0xc023, 1, 1, ppp_len_field(payload.len() as int), payload),
                )
            }),
    {
        let p = PointToPoint::gen_pap(peer_id, password);
        Self::session(sid, p.convert_to_payload())
    }

    /// Session frame carrying the given bytes.
    pub fn get_ppp_auth_response(sid: u16, payload: Vec<u8>) -> (r: PPPoEFrame)
        ensures
            r.is_session_frame(sid, payload@),
    {
        Self::session(sid, payload)
    }

    /// Session frame carrying an LCP Echo-Request with `magic_number`.
    pub fn gen_echo_request_with_magic(sid: u16, req_id: u8, magic_number: u32) -> (r: PPPoEFrame)
        ensures
            r.is_session_frame(sid, ppp_wire(0xc021, 9, req_id, 8, crate::bytes::be32(magic_number))),
    {
        Self::session(sid, PointToPoint::gen_echo_request_with_magic(req_id, magic_number))
    }

    /// Session frame carrying an IPCP Configure-Request for address and DNS servers,
    /// all given as 0.0.0.0.
    pub fn get_ipcp_request(sid: u16, req_id: u8) -> (r: PPPoEFrame)
        ensures
            r.is_session_frame(
                sid,
                ppp_wire(
                    0x8021,
                    1,
                    req_id,
                    22,
                    ipcp_options(seq![0u8, 0, 0, 0], seq![0u8, 0, 0, 0], seq![0u8, 0, 0, 0]),
                ),
            ),
    {
        let zero: [u8; 4] = [0, 0, 0, 0];
        assert(zero@ =~= seq![0u8, 0, 0, 0]);
        let p = PointToPoint::get_ipcp_request(req_id, zero, zero, zero);
        Self::session(sid, p.convert_to_payload())
    }

    /// Session frame carrying an IPCP Configure-Request for the address `ip` only.
    pub fn get_ipcp_request_only_client_ip(sid: u16, req_id: u8, ip: [u8; 4]) -> (r: PPPoEFrame)
        ensures
            r.is_session_frame(sid, ppp_wire(0x8021, 1, req_id, 10, seq![3u8, 6u8] + ip@)),
    {
        let p = PointToPoint::get_ipcp_request_only_client_ip(req_id, ip);
        Self::session(sid, p.convert_to_payload())
    }

    /// Session frame carrying an IPCP Configure-Request for `ip`, `dns1` and `dns2`.
    pub fn get_ipcp_request_with_ip(
        sid: u16,
        req_id: u8,
        ip: [u8; 4],
        dns1: [u8; 4],
        dns2: [u8; 4],
    ) -> (r: PPPoEFrame)
        ensures
            r.is_session_frame(sid, ppp_wire(0x8021, 1, req_id, 22, ipcp_options(ip@, dns1@, dns2@))),
    {
        let p = PointToPoint::get_ipcp_request(req_id, ip, dns1, dns2);
        Self::session(sid, p.convert_to_payload())
    }

    /// Session frame carrying an IPV6CP Configure-Request with the interface identifier.
    pub fn get_ipv6cp_request(sid: u16, ipv6_interface_id: Vec<u8>, req_id: u8) -> (r: PPPoEFrame)
        requires
            ((ipv6_interface_id@.len() + 2) % 65536) + 4 <= u16::MAX,
        ensures
            ({
                let opts = seq![1u8, 0x0au8] + ipv6_interface_id@;
                r.is_session_frame(
                    sid,
                    ppp_wire(0x8057, 1, req_id, ppp_len_field(opts.len() as int), opts),
                )
            }),
    {
        let p = PointToPoint::get_ipv6cp_request(ipv6_interface_id, req_id);
        Self::session(sid, p.convert_to_payload())
    }

    /// Session frame carrying an LCP Terminate-Request ("User request").
    pub fn get_termination_request(sid: u16, req_id: u8) -> (r: PPPoEFrame)
        ensures
            r.is_session_frame(
                sid,
                ppp_wire(0xc021, 5, req_id, 16, PointToPoint::user_request_text()),
            ),
    {
        let p = PointToPoint::get_termination_request(req_id);
        Self::session(sid, p.convert_to_payload())
    }
}

/// A frame whose length field matches its payload encodes back to exactly the
/// bytes it was parsed from.
pub proof fn lemma_pppoe_parse_then_encode(d: Seq<u8>)
    requires
        d.len() >= 6,
        be16_value(d[4], d[5]) == d.len() - 6,
    ensures
        ({
            let (ver, t, code, sid, length, payload) = pppoe_parse(d).unwrap();
            pppoe_wire(ver, t, code, sid, payload) == d
        }),
{
    crate::bytes::lemma_be16_value_roundtrip(d[2], d[3]);
    crate::bytes::lemma_be16_value_roundtrip(d[4], d[5]);
    let (ver, t, code, sid, length, payload) = pppoe_parse(d).unwrap();
    assert(((ver % 16) * 16 + t % 16) as u8 == d[0]);
    assert((payload.len() % 65536) as u16 == be16_value(d[4], d[5]));
    assert(pppoe_wire(ver, t, code, sid, payload) =~= d);
}

/// Encoding a frame whose nibbles fit and whose payload fits the length field,
/// then parsing, gives back its fields with the length set to the payload's length.
pub proof fn lemma_pppoe_encode_then_parse(f: PPPoEFrame)
    requires
        f.ver < 16,
        f.t < 16,
        f.payload@.len() <= u16::MAX,
    ensures
        pppoe_parse(f.wire()) == Some(
            (f.ver, f.t, f.code, f.sid, f.payload@.len() as u16, f.payload@),
        ),
{
    let w = f.wire();
    crate::bytes::lemma_be16_roundtrip(f.sid);
    crate::bytes::lemma_be16_roundtrip(f.payload@.len() as u16);
    assert(w[2] == be16(f.sid)[0] && w[3] == be16(f.sid)[1]);
    assert(w[4] == be16(f.payload@.len() as u16)[0] && w[5] == be16(f.payload@.len() as u16)[1]);
    assert(w.subrange(6, w.len() as int) =~= f.payload@);
}

} // verus!
