//! DHCPv4 server settings: which option codes may be configured or filtered,
//! custom option payloads, and the address pool checks.
use vstd::prelude::*;
use vstd::utf8::encode_utf8;

use dhcproto::v4::relay::{RelayAgentInformation, RelayInfo, UnknownInfo};
use dhcproto::v4::DhcpOption;
use dhcproto::{Encodable, Encoder};

use crate::render::{dec_text, ipv4_text, push_chars, push_dec, push_ipv4, push_str};
use crate::service::ServiceConfigError;
use crate::domain::{is_valid_dns_domain, valid_dns_domain};
use crate::text::{chars_of, string_from_chars, trim, trim_slice};

verus! {

/// Longest data a custom option may carry.
pub const MAX_CUSTOM_OPTION_DATA_LEN: usize = 255;

// ─── Option code classification ───────────────────────────────────────────

/// Codes that the protocol reserves: Pad and End.
pub open spec fn protocol_reserved(code: u8) -> bool {
    code == 0 || code == 255
}

/// Codes the server fills in itself: subnet mask, router, name servers, lease
/// time, message type and server identifier.
pub open spec fn server_managed(code: u8) -> bool {
    code == 1 || code == 3 || code == 6 || code == 51 || code == 53 || code == 54
}

/// Whether an option code is reserved and cannot be used as a custom option.
pub fn is_reserved_option_code(code: u8) -> (r: bool)
    ensures
        r == (protocol_reserved(code) || server_managed(code)),
{
    is_protocol_reserved(code) || is_server_managed(code)
}

fn is_protocol_reserved(code: u8) -> (r: bool)
    ensures
        r == protocol_reserved(code),
{
    code == 0 || code == 255
}

/// Whether an option code is server-managed and must not be filtered out.
pub fn is_server_managed(code: u8) -> (r: bool)
    ensures
        r == server_managed(code),
{
    code == 1 || code == 3 || code == 6 || code == 51 || code == 53 || code == 54
}

/// The name of a common option code.
pub open spec fn code_name(code: u8) -> Seq<char> {
    if code == 0 {
        "Pad"@
    } else if code == 1 {
        "Subnet Mask"@
    } else if code == 3 {
        "Router"@
    } else if code == 6 {
        "Domain Name Server"@
    } else if code == 12 {
        "Host Name"@
    } else if code == 15 {
        "Domain Name"@
    } else if code == 28 {
        "Broadcast Address"@
    } else if code == 43 {
        "Vendor Extensions"@
    } else if code == 51 {
        "Address Lease Time"@
    } else if code == 53 {
        "Message Type"@
    } else if code == 54 {
        "Server Identifier"@
    } else if code == 66 {
        "TFTP Server Name"@
    } else if code == 67 {
        "Bootfile Name"@
    } else if code == 82 {
        "Relay Agent Information"@
    } else if code == 255 {
        "End"@
    } else {
        "unknown"@
    }
}

/// Human-readable name of a common option code ("unknown" for the others).
fn option_code_name(code: u8) -> (r: &'static str)
    ensures
        r@ == code_name(code),
{
    match code {
        0 => "Pad",
        1 => "Subnet Mask",
        3 => "Router",
        6 => "Domain Name Server",
        12 => "Host Name",
        15 => "Domain Name",
        28 => "Broadcast Address",
        43 => "Vendor Extensions",
        51 => "Address Lease Time",
        53 => "Message Type",
        54 => "Server Identifier",
        66 => "TFTP Server Name",
        67 => "Bootfile Name",
        82 => "Relay Agent Information",
        255 => "End",
        _ => "unknown",
    }
}

// ─── Filter options ───────────────────────────────────────────────────────

/// Why the filter code at `i` is refused: reserved, server-managed, or seen before.
pub open spec fn filter_code_problem(codes: Seq<u8>, i: int) -> Option<Seq<char>> {
    let code = codes[i];
    if protocol_reserved(code) {
        Some(
            "filter_options: code "@ + dec_text(code as nat) + " is protocol reserved ("@
                + code_name(code) + ") and cannot be used"@,
        )
    } else if server_managed(code) {
        Some(
            "filter_options: code "@ + dec_text(code as nat) + " ("@ + code_name(code)
                + ") is server-managed and cannot be filtered out (would break DHCP functionality)"@,
        )
    } else if codes.take(i).contains(code) {
        Some("duplicate filter option code "@ + dec_text(code as nat))
    } else {
        None
    }
}

/// The first refused filter code from `i` on, if any.
pub open spec fn first_filter_problem(codes: Seq<u8>, i: int) -> Option<Seq<char>>
    decreases codes.len() - i,
{
    if i < 0 || i >= codes.len() {
        None
    } else {
        match filter_code_problem(codes, i) {
            Some(p) => Some(p),
            None => first_filter_problem(codes, i + 1),
        }
    }
}

/// Whether every code may be filtered and none occurs twice.
pub open spec fn filter_codes_ok(codes: Seq<u8>) -> bool {
    &&& forall|i: int|
        0 <= i < codes.len() ==> !protocol_reserved(#[trigger] codes[i]) && !server_managed(
            codes[i],
        )
    &&& forall|i: int, j: int| 0 <= i < j < codes.len() ==> codes[i] != codes[j]
}

proof fn lemma_first_filter_problem(codes: Seq<u8>, i: int)
    requires
        0 <= i <= codes.len(),
        forall|k: int|
            0 <= k < i ==> !protocol_reserved(#[trigger] codes[k]) && !server_managed(codes[k]),
        forall|k: int, l: int| 0 <= k < l < i ==> codes[k] != codes[l],
    ensures
        first_filter_problem(codes, i) is None <==> filter_codes_ok(codes),
    decreases codes.len() - i,
{
    if i < codes.len() {
        let code = codes[i];
        if filter_code_problem(codes, i) is None {
            assert forall|k: int| 0 <= k < i implies codes[k] != code by {
                assert(codes.take(i)[k] == codes[k]);
            }
            lemma_first_filter_problem(codes, i + 1);
        } else {
            if codes.take(i).contains(code) {
                let k = choose|k: int| 0 <= k < i && codes.take(i)[k] == code;
                assert(codes[k] == codes[i]);
            }
        }
    }
}

fn holds_code(seen: &Vec<u8>, code: u8) -> (r: bool)
    ensures
        r == seen@.contains(code),
{
    let mut i: usize = 0;
    while i < seen.len()
        invariant
            i <= seen@.len(),
            forall|k: int| 0 <= k < i ==> seen@[k] != code,
        decreases seen@.len() - i,
    {
        if seen[i] == code {
            return true;
        }
        i = i + 1;
    }
    false
}

/// Checks the option codes to filter out of responses: server-managed and
/// protocol-reserved codes cannot be filtered, and no code may occur twice.
/// The first refused code gives the error.
pub fn validate_filter_options(filters: &[u8]) -> (r: Result<(), ServiceConfigError>)
    ensures
        match first_filter_problem(filters@, 0) {
            None => r is Ok,
            Some(reason) => r matches Err(e) && e.reason_text() == reason,
        },
        r is Ok <==> filter_codes_ok(filters@),
{
    proof {
        lemma_first_filter_problem(filters@, 0);
    }
    let mut seen: Vec<u8> = Vec::new();
    let mut i: usize = 0;
    while i < filters.len()
        invariant
            i <= filters@.len(),
            seen@ == filters@.take(i as int),
            first_filter_problem(filters@, 0) == first_filter_problem(filters@, i as int),
        decreases filters@.len() - i,
    {
        let code = filters[i];
        if is_protocol_reserved(code) {
            let mut text: Vec<char> = Vec::new();
            push_str(&mut text, "filter_options: code ");
            push_dec(&mut text, code as u64);
            push_str(&mut text, " is protocol reserved (");
            push_str(&mut text, option_code_name(code));
            push_str(&mut text, ") and cannot be used");
            return Err(ServiceConfigError::InvalidConfig { reason: string_from_chars(text.as_slice()) });
        }
        if is_server_managed(code) {
            let mut text: Vec<char> = Vec::new();
            push_str(&mut text, "filter_options: code ");
            push_dec(&mut text, code as u64);
            push_str(&mut text, " (");
            push_str(&mut text, option_code_name(code));
            push_str(
                &mut text,
                ") is server-managed and cannot be filtered out (would break DHCP functionality)",
            );
            return Err(ServiceConfigError::InvalidConfig { reason: string_from_chars(text.as_slice()) });
        }
        if holds_code(&seen, code) {
            let mut text: Vec<char> = Vec::new();
            push_str(&mut text, "duplicate filter option code ");
            push_dec(&mut text, code as u64);
            return Err(ServiceConfigError::InvalidConfig { reason: string_from_chars(text.as_slice()) });
        }
        seen.push(code);
        assert(filters@.take(i + 1) =~= filters@.take(i as int).push(code));
        i = i + 1;
    }
    Ok(())
}

// ─── Hex payloads ─────────────────────────────────────────────────────────

/// The value of an ASCII hex digit.
pub open spec fn hex_digit(b: u8) -> Option<u8> {
    if 48 <= b <= 57 {
        Some((b - 48) as u8)
    } else if 97 <= b <= 102 {
        Some((b - 97 + 10) as u8)
    } else if 65 <= b <= 70 {
        Some((b - 65 + 10) as u8)
    } else {
        None
    }
}

fn from_hex_digit(b: u8) -> (r: Option<u8>)
    ensures
        r == hex_digit(b),
{
    if 48 <= b && b <= 57 {
        Some(b - 48)
    } else if 97 <= b && b <= 102 {
        Some(b - 97 + 10)
    } else if 65 <= b && b <= 70 {
        Some(b - 65 + 10)
    } else {
        None
    }
}

/// Decodes the byte pairs of `b` from `i` on; the first byte that is not a
/// hex digit gives the error.
pub open spec fn hex_pairs(b: Seq<u8>, i: int) -> Result<Seq<u8>, Seq<char>>
    decreases b.len() - i,
{
    if i < 0 || i + 1 >= b.len() {
        Ok(seq![])
    } else {
        match (hex_digit(b[i]), hex_digit(b[i + 1])) {
            (None, _) => Err("invalid hex char: "@ + seq![(b[i] as u32) as char]),
            (Some(_), None) => Err("invalid hex char: "@ + seq![(b[i + 1] as u32) as char]),
            (Some(h), Some(l)) => match hex_pairs(b, i + 2) {
                Ok(rest) => Ok(seq![(h * 16 + l) as u8] + rest),
                Err(e) => Err(e),
            },
        }
    }
}

/// What a hex text decodes to: the UTF-8 bytes of the trimmed text, two hex
/// digits per byte; an empty text is no bytes.
pub open spec fn hex_result(text: Seq<char>) -> Result<Seq<u8>, Seq<char>> {
    let b = encode_utf8(trim(text));
    if b.len() == 0 {
        Ok(seq![])
    } else if b.len() % 2 != 0 {
        Err("hex string must have even length, got "@ + dec_text(b.len()))
    } else {
        hex_pairs(b, 0)
    }
}

fn hex_decode_pairs(b: &[u8], i: usize) -> (r: Result<Vec<u8>, String>)
    requires
        i <= b@.len(),
        (b@.len() - i) % 2 == 0,
    ensures
        match hex_pairs(b@, i as int) {
            Ok(v) => r matches Ok(x) && x@ == v,
            Err(e) => r matches Err(x) && x@ == e,
        },
    decreases b@.len() - i,
{
    if i >= b.len() {
        return Ok(Vec::new());
    }
    let hi = match from_hex_digit(b[i]) {
        Some(h) => h,
        None => {
            let mut text: Vec<char> = Vec::new();
            push_str(&mut text, "invalid hex char: ");
            text.push(b[i] as char);
            return Err(string_from_chars(text.as_slice()));
        },
    };
    let lo = match from_hex_digit(b[i + 1]) {
        Some(l) => l,
        None => {
            let mut text: Vec<char> = Vec::new();
            push_str(&mut text, "invalid hex char: ");
            text.push(b[i + 1] as char);
            return Err(string_from_chars(text.as_slice()));
        },
    };
    match hex_decode_pairs(b, i + 2) {
        Ok(rest) => {
            let mut out: Vec<u8> = Vec::new();
            out.push(hi * 16 + lo);
            let mut k: usize = 0;
            while k < rest.len()
                invariant
                    k <= rest@.len(),
                    out@ == seq![(hi * 16 + lo) as u8] + rest@.take(k as int),
                decreases rest@.len() - k,
            {
                out.push(rest[k]);
                assert(rest@.take(k + 1) =~= rest@.take(k as int).push(rest@[k as int]));
                k = k + 1;
            }
            assert(rest@.take(k as int) =~= rest@);
            Ok(out)
        },
        Err(e) => Err(e),
    }
}

/// Decodes a hex text (see `hex_result`).
fn hex_decode(hex: &str) -> (r: Result<Vec<u8>, String>)
    ensures
        match hex_result(hex@) {
            Ok(v) => r matches Ok(x) && x@ == v,
            Err(e) => r matches Err(x) && x@ == e,
        },
{
    let chars = chars_of(hex);
    let trimmed = string_from_chars(trim_slice(chars.as_slice()));
    let b = trimmed.as_str().as_bytes();
    if b.len() == 0 {
        return Ok(Vec::new());
    }
    if b.len() % 2 != 0 {
        let mut text: Vec<char> = Vec::new();
        push_str(&mut text, "hex string must have even length, got ");
        push_dec(&mut text, b.len() as u64);
        return Err(string_from_chars(text.as_slice()));
    }
    hex_decode_pairs(b, 0)
}

// ─── Custom options ───────────────────────────────────────────────────────

/// Relay agent sub-options (option 82): each a sub-option code with the
/// bytes it carries on the wire.
#[derive(Debug)]
pub struct RelayAgentInfo(pub Vec<(u8, Vec<u8>)>);

/// The sub-options as plain values.
pub open spec fn sub_options_view(subs: Seq<(u8, Vec<u8>)>) -> Seq<(u8, Seq<u8>)> {
    subs.map_values(|p: (u8, Vec<u8>)| (p.0, p.1@))
}

/// The options that can be configured by hand, each with its payload.
#[derive(Debug)]
pub enum CustomDhcpOption {
    /// Option 66: TFTP server name (ASCII text).
    TFTPServerName(String),
    /// Option 67: boot file name (ASCII text).
    BootfileName(String),
    /// Option 43: vendor-specific data, as hex text.
    VendorExtensions(String),
    /// Option 82: relay agent information.
    RelayAgentInformation(RelayAgentInfo),
    /// Option 162: discovery of network-designated resolvers (RFC 9463).
    Dnr(DhcpV4DnrOptionConfig),
}

/// What a DNR option advertises: the server's own resolver, or resolvers
/// given by name, address, port and DoH path.
#[derive(Debug)]
pub enum DhcpV4DnrOptionConfig {
    Local,
    Custom {
        domains: Vec<String>,
        /// IPv4 addresses as 32-bit numbers.
        ips: Vec<u32>,
        port: Option<u16>,
        doh_path: Option<String>,
    },
}

pub open spec fn option_code(o: CustomDhcpOption) -> u8 {
    match o {
        CustomDhcpOption::TFTPServerName(_) => 66,
        CustomDhcpOption::BootfileName(_) => 67,
        CustomDhcpOption::VendorExtensions(_) => 43,
        CustomDhcpOption::RelayAgentInformation(_) => 82,
        CustomDhcpOption::Dnr(_) => 162,
    }
}

/// The options whose payload is plain bytes.
#[derive(Debug, Clone, Copy, PartialEq, Eq, Structural)]
pub enum DataOptionKind {
    TftpServerName,
    BootfileName,
    VendorExtensions,
}

pub open spec fn data_option_code(k: DataOptionKind) -> u8 {
    match k {
        DataOptionKind::TftpServerName => 66,
        DataOptionKind::BootfileName => 67,
        DataOptionKind::VendorExtensions => 43,
    }
}

/// An option's wire bytes, or why it could not be encoded.
pub type EncodedOption = Result<Vec<u8>, String>;

/// How `dhcproto` writes an option with a byte payload: in pieces of at most
/// 255 bytes, each preceded by the code and the piece's length.
pub open spec fn long_option(code: u8, data: Seq<u8>) -> Seq<u8>
    decreases data.len(),
{
    if data.len() == 0 {
        seq![]
    } else {
        let n: int = if data.len() <= 255 {
            data.len() as int
        } else {
            255
        };
        seq![code, n as u8] + data.take(n) + long_option(code, data.skip(n))
    }
}

/// An option to encode: a byte payload of one of the data options, or relay
/// agent sub-options.
pub enum OptionPayload<'a> {
    Data(DataOptionKind, Vec<u8>),
    Relay(&'a [(u8, Vec<u8>)]),
}

/// The data of the last sub-option of code `c`, if any.
pub open spec fn relay_value(subs: Seq<(u8, Seq<u8>)>, c: u8) -> Option<Seq<u8>>
    decreases subs.len(),
{
    if subs.len() == 0 {
        None
    } else if subs.last().0 == c {
        Some(subs.last().1)
    } else {
        relay_value(subs.drop_last(), c)
    }
}

/// The sub-options of codes `c` to 255 as `dhcproto` writes them: one per
/// code, the last given, in code order, each as its code, its length (as a
/// byte) and its data.
pub open spec fn relay_body(subs: Seq<(u8, Seq<u8>)>, c: int) -> Seq<u8>
    decreases 256 - c,
{
    if c < 0 || c >= 256 {
        seq![]
    } else {
        let rest = relay_body(subs, c + 1);
        match relay_value(subs, c as u8) {
            Some(d) => seq![c as u8, d.len() as u8] + d + rest,
            None => rest,
        }
    }
}

/// How `dhcproto` encodes option 82 with these sub-options: they are kept in
/// a `RelayAgentInformation` keyed by code (a later one replacing an earlier
/// one), written in code order, and the whole is framed like any long option.
pub open spec fn relay_encoding(subopts: Seq<(u8, Seq<u8>)>) -> Result<Seq<u8>, Seq<char>> {
    Ok(long_option(82, relay_body(subopts, 0)))
}

/// Encodes one option with `dhcproto` (`DhcpOption::encode`). Claimed: it does
/// not fail; an option with a byte payload encodes to `long_option` of its
/// code and data (`encode_long_opt_bytes`); relay agent sub-options, each
/// handed over as an `UnknownInfo` of its code and bytes, encode to
/// `relay_encoding` of them (`RelayAgentInformation::insert` and `encode`,
/// then `encode_long_opt_bytes` with code 82).
#[verifier::external_body]
fn encode_option(payload: OptionPayload) -> (r: EncodedOption)
    ensures
        payload matches OptionPayload::Data(kind, data) ==> r is Ok && r->Ok_0@ == long_option(
            data_option_code(kind),
            data@,
        ),
        payload matches OptionPayload::Relay(subs) ==> r is Ok && r->Ok_0@ == long_option(
            82,
            relay_body(sub_options_view(subs@), 0),
        ),
{
    let opt = match payload {
        OptionPayload::Data(DataOptionKind::TftpServerName, d) => DhcpOption::TFTPServerName(d),
        OptionPayload::Data(DataOptionKind::BootfileName, d) => DhcpOption::BootfileName(d),
        OptionPayload::Data(DataOptionKind::VendorExtensions, d) => DhcpOption::VendorExtensions(d),
        OptionPayload::Relay(subs) => {
            let mut info = RelayAgentInformation::default();
            for (code, data) in subs {
                info.insert(RelayInfo::Unknown(UnknownInfo::new((*code).into(), data.clone())));
            }
            DhcpOption::RelayAgentInformation(info)
        },
    };
    let mut buf = Vec::new();
    opt.encode(&mut Encoder::new(&mut buf)).map(|()| buf).map_err(|e| e.to_string())
}

pub open spec fn code_prefix(code: u8) -> Seq<char> {
    "DHCP option code "@ + dec_text(code as nat)
}

/// What an encoded option yields as `(code, data)`: the encoding must be a
/// single piece of the expected code with non-empty data.
pub open spec fn raw_option_result(code: u8, enc: Result<Seq<u8>, Seq<char>>) -> Result<
    (u8, Seq<u8>),
    Seq<char>,
> {
    match enc {
        Err(e) => Err(code_prefix(code) + " encode failed: "@ + e),
        Ok(buf) => if buf.len() < 2 {
            Err(code_prefix(code) + " encoded no data"@)
        } else if buf[0] != code {
            Err(code_prefix(code) + " encoded as unexpected code "@ + dec_text(buf[0] as nat))
        } else if buf[1] == 0 {
            Err(code_prefix(code) + " data must not be empty"@)
        } else if buf[1] != buf.len() - 2 {
            Err(
                code_prefix(code) + " data too long or malformed ("@ + dec_text(
                    (buf.len() - 2) as nat,
                ) + " encoded bytes, max 255)"@,
            )
        } else {
            Ok((buf[0], buf.skip(2)))
        },
    }
}

pub open spec fn result_chars<T>(r: Result<T, String>) -> Result<T, Seq<char>> {
    match r {
        Ok(v) => Ok(v),
        Err(e) => Err(e@),
    }
}

pub open spec fn bytes_result(r: Result<Vec<u8>, String>) -> Result<Seq<u8>, Seq<char>> {
    match r {
        Ok(v) => Ok(v@),
        Err(e) => Err(e@),
    }
}

pub open spec fn raw_view(r: Result<(u8, Vec<u8>), String>) -> Result<(u8, Seq<u8>), Seq<char>> {
    match r {
        Ok((c, d)) => Ok((c, d@)),
        Err(e) => Err(e@),
    }
}

fn code_text(text: &mut Vec<char>, code: u8)
    ensures
        final(text)@ == old(text)@ + code_prefix(code),
{
    push_str(text, "DHCP option code ");
    push_dec(text, code as u64);
}

/// Checks an option's encoding and takes its data (see `raw_option_result`).
pub fn raw_option(code: u8, encoded: Result<Vec<u8>, String>) -> (r: Result<(u8, Vec<u8>), String>)
    ensures
        raw_view(r) == raw_option_result(code, bytes_result(encoded)),
{
    let buf = match encoded {
        Err(e) => {
            let mut text: Vec<char> = Vec::new();
            code_text(&mut text, code);
            push_str(&mut text, " encode failed: ");
            push_str(&mut text, e.as_str());
            return Err(string_from_chars(text.as_slice()));
        },
        Ok(b) => b,
    };
    if buf.len() < 2 {
        let mut text: Vec<char> = Vec::new();
        code_text(&mut text, code);
        push_str(&mut text, " encoded no data");
        return Err(string_from_chars(text.as_slice()));
    }
    let encoded_code = buf[0];
    if encoded_code != code {
        let mut text: Vec<char> = Vec::new();
        code_text(&mut text, code);
        push_str(&mut text, " encoded as unexpected code ");
        push_dec(&mut text, encoded_code as u64);
        return Err(string_from_chars(text.as_slice()));
    }
    let data_len = buf[1] as usize;
    if data_len == 0 {
        let mut text: Vec<char> = Vec::new();
        code_text(&mut text, code);
        push_str(&mut text, " data must not be empty");
        return Err(string_from_chars(text.as_slice()));
    }
    if data_len != buf.len() - 2 {
        let mut text: Vec<char> = Vec::new();
        code_text(&mut text, code);
        push_str(&mut text, " data too long or malformed (");
        push_dec(&mut text, (buf.len() - 2) as u64);
        push_str(&mut text, " encoded bytes, max 255)");
        return Err(string_from_chars(text.as_slice()));
    }
    let data = vstd::slice::slice_to_vec(vstd::slice::slice_subrange(buf.as_slice(), 2, buf.len()));
    Ok((encoded_code, data))
}

/// The encoding of an option with a byte payload: text options carry their
/// UTF-8 bytes, vendor extensions their decoded hex.
pub open spec fn data_option_encoding(o: CustomDhcpOption) -> Seq<u8> {
    match o {
        CustomDhcpOption::TFTPServerName(s) => long_option(66, encode_utf8(s@)),
        CustomDhcpOption::BootfileName(s) => long_option(67, encode_utf8(s@)),
        CustomDhcpOption::VendorExtensions(h) => long_option(
            43,
            hex_result(h@)->Ok_0,
        ),
        CustomDhcpOption::RelayAgentInformation(_) => seq![],
        CustomDhcpOption::Dnr(_) => seq![],
    }
}

/// Why a text option is refused: empty, not ASCII, or longer than 255 bytes.
pub open spec fn text_option_problem(name: Seq<char>, s: Seq<char>) -> Option<Seq<char>> {
    if s.len() == 0 {
        Some(name + " must not be empty"@)
    } else if !vstd::utf8::is_ascii_chars(s) {
        Some(name + " must contain only ASCII characters"@)
    } else if encode_utf8(s).len() > 255 {
        Some(name + " too long ("@ + dec_text(encode_utf8(s).len()) + " bytes, max 255)"@)
    } else {
        None
    }
}

/// What encoding an option gives: a relay agent option its
/// `relay_encoding`, the others their `data_option_encoding`.
pub open spec fn option_encoding(o: CustomDhcpOption) -> Result<Seq<u8>, Seq<char>> {
    match o {
        CustomDhcpOption::RelayAgentInformation(info) => relay_encoding(sub_options_view(info.0@)),
        _ => Ok(data_option_encoding(o)),
    }
}

/// Whether an option's data may be sent; a relay agent option is judged by
/// what its encoding yields.
pub open spec fn option_validation(o: CustomDhcpOption) -> Result<
    (),
    Seq<char>,
> {
    match o {
        CustomDhcpOption::TFTPServerName(s) => match text_option_problem("TFTPServerName"@, s@) {
            Some(p) => Err(p),
            None => Ok(()),
        },
        CustomDhcpOption::BootfileName(s) => match text_option_problem("BootfileName"@, s@) {
            Some(p) => Err(p),
            None => Ok(()),
        },
        CustomDhcpOption::VendorExtensions(h) => if h@.len() == 0 {
            Err("VendorExtensions must not be empty"@)
        } else {
            match hex_result(h@) {
                Err(e) => Err("VendorExtensions: "@ + e),
                Ok(b) => if b.len() == 0 {
                    Err("VendorExtensions must not be empty"@)
                } else if b.len() > 255 {
                    Err("VendorExtensions too long ("@ + dec_text(b.len()) + " bytes, max 255)"@)
                } else {
                    Ok(())
                },
            }
        },
        CustomDhcpOption::RelayAgentInformation(_) => match raw_option_result(82, option_encoding(o)) {
            Ok(_) => Ok(()),
            Err(e) => Err("RelayAgentInformation encode failed: "@ + e),
        },
        CustomDhcpOption::Dnr(c) => match dnr_problem(c) {
            Some(p) => Err(p),
            None => Ok(()),
        },
    }
}

/// What `to_raw` gives: a DNR option is refused, since its data depends on
/// the running resolver; the others are checked as `raw_option_result` says.
pub open spec fn option_raw_result(o: CustomDhcpOption) -> Result<(u8, Seq<u8>), Seq<char>> {
    match o {
        CustomDhcpOption::Dnr(_) => Err("DNR option requires runtime DNS context"@),
        _ => raw_option_result(option_code(o), option_encoding(o)),
    }
}

fn text_option_check(name: &str, s: &String) -> (r: Result<(), String>)
    ensures
        match text_option_problem(name@, s@) {
            Some(p) => r matches Err(e) && e@ == p,
            None => r is Ok,
        },
{
    let t = s.as_str();
    if t.is_empty() {
        let mut text: Vec<char> = Vec::new();
        push_str(&mut text, name);
        push_str(&mut text, " must not be empty");
        return Err(string_from_chars(text.as_slice()));
    }
    if !t.is_ascii() {
        let mut text: Vec<char> = Vec::new();
        push_str(&mut text, name);
        push_str(&mut text, " must contain only ASCII characters");
        return Err(string_from_chars(text.as_slice()));
    }
    let chars = chars_of(t);
    proof {
        vstd::utf8::is_ascii_chars_encode_utf8(s@);
    }
    if chars.len() > MAX_CUSTOM_OPTION_DATA_LEN {
        let mut text: Vec<char> = Vec::new();
        push_str(&mut text, name);
        push_str(&mut text, " too long (");
        push_dec(&mut text, chars.len() as u64);
        push_str(&mut text, " bytes, max 255)");
        return Err(string_from_chars(text.as_slice()));
    }
    Ok(())
}

impl CustomDhcpOption {
    /// The option code.
    pub fn code(&self) -> (r: u8)
        ensures
            r == option_code(*self),
    {
        match self {
            CustomDhcpOption::TFTPServerName(_) => 66,
            CustomDhcpOption::BootfileName(_) => 67,
            CustomDhcpOption::VendorExtensions(_) => 43,
            CustomDhcpOption::RelayAgentInformation(RelayAgentInfo(_)) => 82,
            CustomDhcpOption::Dnr(_) => 162,
        }
    }

    /// Encodes the option and returns its code and data. The vendor
    /// extensions' hex must decode (which `validate` checks).
    pub fn to_raw(&self) -> (r: Result<(u8, Vec<u8>), String>)
        requires
            self is VendorExtensions ==> hex_result(self->VendorExtensions_0@) is Ok,
        ensures
            raw_view(r) == option_raw_result(*self),
    {
        match self {
            CustomDhcpOption::TFTPServerName(s) => {
                let data = vstd::slice::slice_to_vec(s.as_str().as_bytes());
                raw_option(66, encode_option(OptionPayload::Data(DataOptionKind::TftpServerName, data)))
            },
            CustomDhcpOption::BootfileName(s) => {
                let data = vstd::slice::slice_to_vec(s.as_str().as_bytes());
                raw_option(67, encode_option(OptionPayload::Data(DataOptionKind::BootfileName, data)))
            },
            CustomDhcpOption::VendorExtensions(hex) => {
                let data = match hex_decode(hex.as_str()) {
                    Ok(d) => d,
                    Err(_) => Vec::new(),
                };
                raw_option(43, encode_option(OptionPayload::Data(DataOptionKind::VendorExtensions, data)))
            },
            CustomDhcpOption::RelayAgentInformation(RelayAgentInfo(subs)) => {
                raw_option(82, encode_option(OptionPayload::Relay(subs.as_slice())))
            },
            CustomDhcpOption::Dnr(_) => {
                Err(string_from_chars(chars_of("DNR option requires runtime DNS context").as_slice()))
            },
        }
    }

    /// Checks the option's data (see `option_validation`).
    pub fn validate(&self) -> (r: Result<(), String>)
        ensures
            result_chars(r) == option_validation(*self),
    {
        match self {
            CustomDhcpOption::TFTPServerName(s) => text_option_check("TFTPServerName", s),
            CustomDhcpOption::BootfileName(s) => text_option_check("BootfileName", s),
            CustomDhcpOption::VendorExtensions(hex) => {
                if hex.as_str().is_empty() {
                    return Err(string_from_chars(chars_of("VendorExtensions must not be empty").as_slice()));
                }
                match hex_decode(hex.as_str()) {
                    Err(e) => {
                        let mut text: Vec<char> = Vec::new();
                        push_str(&mut text, "VendorExtensions: ");
                        push_str(&mut text, e.as_str());
                        Err(string_from_chars(text.as_slice()))
                    },
                    Ok(bytes) => {
                        if bytes.len() == 0 {
                            return Err(string_from_chars(chars_of("VendorExtensions must not be empty").as_slice()));
                        }
                        if bytes.len() > MAX_CUSTOM_OPTION_DATA_LEN {
                            let mut text: Vec<char> = Vec::new();
                            push_str(&mut text, "VendorExtensions too long (");
                            push_dec(&mut text, bytes.len() as u64);
                            push_str(&mut text, " bytes, max 255)");
                            return Err(string_from_chars(text.as_slice()));
                        }
                        Ok(())
                    },
                }
            },
            CustomDhcpOption::RelayAgentInformation(_) => {
                match self.to_raw() {
                    Ok(_) => Ok(()),
                    Err(e) => {
                        let mut text: Vec<char> = Vec::new();
                        push_str(&mut text, "RelayAgentInformation encode failed: ");
                        push_str(&mut text, e.as_str());
                        Err(string_from_chars(text.as_slice()))
                    },
                }
            },
            CustomDhcpOption::Dnr(config) => validate_dnr_config(config),
        }
    }
}

// ─── DNR options ──────────────────────────────────────────────────────────

/// A domain a DNR option may advertise: after trimming, and without one
/// trailing dot, a valid DNS domain name.
pub open spec fn dnr_domain_ok(d: Seq<char>) -> bool {
    let t = trim(d);
    let name = if t.len() > 0 && t.last() == '.' {
        t.drop_last()
    } else {
        t
    };
    valid_dns_domain(name)
}

/// An IPv4 address a DNR option may advertise: neither unspecified nor the
/// broadcast address, and not in the loopback (127/8) or multicast (224/4)
/// ranges.
pub open spec fn dnr_ipv4_ok(ip: u32) -> bool {
    ip != 0 && ip != 0xFFFF_FFFF && ip / 0x100_0000 != 127 && !(224 <= ip / 0x100_0000 < 240)
}

/// A printable ASCII character other than space.
pub open spec fn is_ascii_graphic(c: char) -> bool {
    0x21 <= (c as u32) <= 0x7E
}

/// A DoH path a DNR option may advertise: it starts with `/`, holds only
/// printable ASCII, and has no query (`?`) or fragment (`#`).
pub open spec fn doh_path_ok(p: Seq<char>) -> bool {
    &&& p.len() > 0
    &&& p[0] == '/'
    &&& forall|i: int|
        0 <= i < p.len() ==> is_ascii_graphic(#[trigger] p[i]) && p[i] != '?' && p[i] != '#'
}

/// The first domain of `ds` that may not be advertised.
pub open spec fn first_bad_domain(ds: Seq<Seq<char>>) -> Option<Seq<char>>
    decreases ds.len(),
{
    if ds.len() == 0 {
        None
    } else if !dnr_domain_ok(ds[0]) {
        Some(ds[0])
    } else {
        first_bad_domain(ds.drop_first())
    }
}

/// The first address of `ips` that may not be advertised.
pub open spec fn first_bad_ipv4(ips: Seq<u32>) -> Option<u32>
    decreases ips.len(),
{
    if ips.len() == 0 {
        None
    } else if !dnr_ipv4_ok(ips[0]) {
        Some(ips[0])
    } else {
        first_bad_ipv4(ips.drop_first())
    }
}

pub open spec fn strings_view(v: Seq<String>) -> Seq<Seq<char>> {
    v.map_values(|s: String| s@)
}

/// Why a DNR option is refused: the server's own resolver is always
/// accepted; given resolvers are checked domains first, then addresses, then
/// the port (which may not be 0), then the DoH path.
pub open spec fn dnr_problem(c: DhcpV4DnrOptionConfig) -> Option<Seq<char>> {
    match c {
        DhcpV4DnrOptionConfig::Local => None,
        DhcpV4DnrOptionConfig::Custom { domains, ips, port, doh_path } => {
            match first_bad_domain(strings_view(domains@)) {
                Some(d) => Some("invalid DNR domain: "@ + d),
                None => match first_bad_ipv4(ips@) {
                    Some(ip) => Some("invalid DNR IPv4 address: "@ + ipv4_text(ip)),
                    None => if port == Some(0u16) {
                        Some("port must be between 1 and 65535"@)
                    } else if doh_path is Some && !doh_path_ok(doh_path->0@) {
                        Some("doh_path must be an ASCII path starting with '/'"@)
                    } else {
                        None
                    },
                },
            }
        },
    }
}

fn dnr_domain_check(d: &str) -> (r: bool)
    ensures
        r == dnr_domain_ok(d@),
{
    let chars = chars_of(d);
    let t = trim_slice(chars.as_slice());
    if t.len() > 0 && t[t.len() - 1] == '.' {
        let name = vstd::slice::slice_subrange(t, 0, t.len() - 1);
        assert(name@ =~= t@.drop_last());
        is_valid_dns_domain(name)
    } else {
        is_valid_dns_domain(t)
    }
}

fn dnr_ipv4_check(ip: u32) -> (r: bool)
    ensures
        r == dnr_ipv4_ok(ip),
{
    let top = ip / 0x100_0000;
    ip != 0 && ip != 0xFFFF_FFFF && top != 127 && !(224 <= top && top < 240)
}

fn doh_path_check(p: &str) -> (r: bool)
    ensures
        r == doh_path_ok(p@),
{
    let chars = chars_of(p);
    if chars.len() == 0 || chars[0] != '/' {
        return false;
    }
    let mut i: usize = 0;
    while i < chars.len()
        invariant
            i <= chars@.len(),
            chars@ == p@,
            forall|j: int|
                0 <= j < i ==> is_ascii_graphic(#[trigger] chars@[j]) && chars@[j] != '?'
                    && chars@[j] != '#',
        decreases chars@.len() - i,
    {
        let c = chars[i];
        if !((c as u32) >= 0x21 && (c as u32) <= 0x7E) || c == '?' || c == '#' {
            return false;
        }
        i = i + 1;
    }
    true
}

/// Checks a DNR option (see `dnr_problem`).
fn validate_dnr_config(config: &DhcpV4DnrOptionConfig) -> (r: Result<(), String>)
    ensures
        match dnr_problem(*config) {
            Some(p) => r matches Err(e) && e@ == p,
            None => r is Ok,
        },
{
    let (domains, ips, port, doh_path) = match config {
        DhcpV4DnrOptionConfig::Local => return Ok(()),
        DhcpV4DnrOptionConfig::Custom { domains, ips, port, doh_path } => (domains, ips, port, doh_path),
    };
    assert(config->domains == *domains && config->ips == *ips);
    let ghost dv = strings_view(domains@);
    assert(dv.skip(0) =~= dv);
    let mut i: usize = 0;
    while i < domains.len()
        invariant
            i <= domains@.len(),
            dv == strings_view(domains@),
            config is Custom,
            config->domains == *domains,
            first_bad_domain(dv) == first_bad_domain(dv.skip(i as int)),
        decreases domains@.len() - i,
    {
        assert(dv.skip(i as int).drop_first() =~= dv.skip(i + 1));
        assert(dv.skip(i as int)[0] == domains@[i as int]@);
        assert(dv.skip(i as int).len() > 0);
        if !dnr_domain_check(domains[i].as_str()) {
            assert(first_bad_domain(dv) == Some(domains@[i as int]@));
            let mut text: Vec<char> = Vec::new();
            push_str(&mut text, "invalid DNR domain: ");
            push_str(&mut text, domains[i].as_str());
            assert(text@ =~= "invalid DNR domain: "@ + domains@[i as int]@);
            return Err(string_from_chars(text.as_slice()));
        }
        i = i + 1;
    }
    assert(dv.skip(i as int) =~= Seq::<Seq<char>>::empty());
    assert(ips@.skip(0) =~= ips@);
    let mut j: usize = 0;
    while j < ips.len()
        invariant
            j <= ips@.len(),
            config is Custom,
            config->ips == *ips,
            first_bad_domain(strings_view(config->domains@)) is None,
            first_bad_ipv4(ips@) == first_bad_ipv4(ips@.skip(j as int)),
        decreases ips@.len() - j,
    {
        assert(ips@.skip(j as int).drop_first() =~= ips@.skip(j + 1));
        assert(ips@.skip(j as int)[0] == ips@[j as int]);
        if !dnr_ipv4_check(ips[j]) {
            assert(first_bad_ipv4(ips@) == Some(ips@[j as int]));
            let mut text: Vec<char> = Vec::new();
            push_str(&mut text, "invalid DNR IPv4 address: ");
            push_ipv4(&mut text, ips[j]);
            assert(text@ =~= "invalid DNR IPv4 address: "@ + ipv4_text(ips@[j as int]));
            return Err(string_from_chars(text.as_slice()));
        }
        j = j + 1;
    }
    assert(ips@.skip(j as int) =~= Seq::<u32>::empty());
    if let Some(p) = port {
        if *p == 0 {
            return Err(string_from_chars(chars_of("port must be between 1 and 65535").as_slice()));
        }
    }
    if let Some(path) = doh_path {
        if !doh_path_check(path.as_str()) {
            return Err(string_from_chars(chars_of("doh_path must be an ASCII path starting with '/'").as_slice()));
        }
    }
    Ok(())
}

pub open spec fn config_error_view(r: Result<(), ServiceConfigError>) -> Result<(), Seq<char>> {
    match r {
        Ok(()) => Ok(()),
        Err(e) => Err(e.reason_text()),
    }
}

pub open spec fn codes_of(opts: Seq<CustomDhcpOption>) -> Seq<u8> {
    opts.map_values(|o: CustomDhcpOption| option_code(o))
}

/// Checks a list of custom options from `i` on: each option's data must pass
/// and no code may occur twice. The first problem gives the error.
pub open spec fn custom_options_result(opts: Seq<CustomDhcpOption>, i: int) -> Result<(), Seq<char>>
    decreases opts.len() - i,
{
    if i < 0 || i >= opts.len() {
        Ok(())
    } else {
        let o = opts[i];
        match option_validation(o) {
            Err(e) => Err("custom option code "@ + dec_text(option_code(o) as nat) + ": "@ + e),
            Ok(_) => if codes_of(opts).take(i).contains(option_code(o)) {
                Err("duplicate custom option code "@ + dec_text(option_code(o) as nat))
            } else {
                custom_options_result(opts, i + 1)
            },
        }
    }
}

proof fn lemma_options_prefix(opts: Seq<CustomDhcpOption>, i: int, k: int)
    requires
        0 <= k <= i <= opts.len(),
        forall|j: int|
            0 <= j < i ==> (#[trigger] option_validation(opts[j])) is Ok && !codes_of(
                opts,
            ).take(j).contains(option_code(opts[j])),
    ensures
        custom_options_result(opts, k) == custom_options_result(opts, i),
    decreases i - k,
{
    if k < i {
        lemma_options_prefix(opts, i, k + 1);
        assert(option_validation(opts[k]) is Ok);
    }
}

/// Checks a list of custom options (see `custom_options_result`).
pub fn validate_custom_options(opts: &[CustomDhcpOption]) -> (r: Result<(), ServiceConfigError>)
    ensures
        config_error_view(r) == custom_options_result(opts@, 0),
{
    let mut seen: Vec<u8> = Vec::new();
    let mut i: usize = 0;
    while i < opts.len()
        invariant
            i <= opts@.len(),
            seen@ == codes_of(opts@).take(i as int),
            forall|j: int|
                0 <= j < i ==> (#[trigger] option_validation(opts@[j])) is Ok
                    && !codes_of(opts@).take(j).contains(option_code(opts@[j])),
        decreases opts@.len() - i,
    {
        let opt = &opts[i];
        let checked = opt.validate();
        proof {
            lemma_options_prefix(opts@, i as int, 0);
        }
        let code = opt.code();
        match checked {
            Err(e) => {
                let mut text: Vec<char> = Vec::new();
                push_str(&mut text, "custom option code ");
                push_dec(&mut text, code as u64);
                push_str(&mut text, ": ");
                push_str(&mut text, e.as_str());
                return Err(ServiceConfigError::InvalidConfig { reason: string_from_chars(text.as_slice()) });
            },
            Ok(()) => {},
        }
        if holds_code(&seen, code) {
            let mut text: Vec<char> = Vec::new();
            push_str(&mut text, "duplicate custom option code ");
            push_dec(&mut text, code as u64);
            return Err(ServiceConfigError::InvalidConfig { reason: string_from_chars(text.as_slice()) });
        }
        seen.push(code);
        assert(codes_of(opts@).take(i + 1) =~= codes_of(opts@).take(i as int).push(code));
        i = i + 1;
    }
    proof {
        lemma_options_prefix(opts@, i as int, 0);
    }
    Ok(())
}

// ─── Server configuration ─────────────────────────────────────────────────

/// The address pool of a DHCPv4 server, addresses as 32-bit numbers.
#[derive(Debug)]
pub struct DHCPv4ServerConfig {
    /// First address handed out.
    pub ip_range_start: u32,
    /// Last address handed out; by default the last host of the subnet.
    pub ip_range_end: Option<u32>,
    /// The server's own address.
    pub server_ip_addr: u32,
    /// Prefix length of the subnet.
    pub network_mask: u8,
    pub address_lease_time: Option<u32>,
    /// Options sent in every response.
    pub custom_options: Vec<CustomDhcpOption>,
}

/// The subnet mask of a prefix length from 1 to 31.
pub open spec fn mask_bits(m: u8) -> u32 {
    (0xFFFF_FFFFu32 << ((32 - m) as u32)) as u32
}

/// Whether `ip` is in the subnet of `server` and neither its network nor its
/// broadcast address.
pub open spec fn usable_host(ip: u32, server: u32, m: u8) -> bool {
    let mask = mask_bits(m);
    let network = server & mask;
    let broadcast = network | !mask;
    ip & mask == network && ip != network && ip != broadcast
}

/// The first problem of the pool settings, before the custom options.
pub open spec fn pool_problem(c: DHCPv4ServerConfig) -> Option<Seq<char>> {
    let m = c.network_mask;
    let net = c.server_ip_addr & mask_bits(m);
    if m == 0 || m > 30 {
        Some("network_mask ("@ + dec_text(m as nat) + ") must be between 1 and 30"@)
    } else if !usable_host(c.server_ip_addr, c.server_ip_addr, m) {
        Some(
            "server_ip_addr ("@ + ipv4_text(c.server_ip_addr) + ") is not a usable host in the /"@
                + dec_text(m as nat) + " subnet"@,
        )
    } else if !usable_host(c.ip_range_start, c.server_ip_addr, m) {
        Some(
            "ip_range_start ("@ + ipv4_text(c.ip_range_start) + ") is not in the /"@ + dec_text(
                m as nat,
            ) + " subnet"@,
        )
    } else if c.ip_range_start == c.server_ip_addr {
        Some("ip_range_start ("@ + ipv4_text(c.ip_range_start) + ") must not equal server_ip_addr"@)
    } else if c.ip_range_end is Some && ((c.ip_range_end->0 & mask_bits(m)) != net
        || c.ip_range_end->0 == net) {
        Some(
            "ip_range_end ("@ + ipv4_text(c.ip_range_end->0) + ") is not in the /"@ + dec_text(
                m as nat,
            ) + " subnet"@,
        )
    } else if c.ip_range_end is Some && c.ip_range_end->0 < c.ip_range_start {
        Some(
            "ip_range_end ("@ + ipv4_text(c.ip_range_end->0) + ") must be >= ip_range_start ("@
                + ipv4_text(c.ip_range_start) + ")"@,
        )
    } else if c.address_lease_time == Some(0u32) {
        Some("address_lease_time must be > 0"@)
    } else {
        None
    }
}

/// The last address of the pool: the configured end, or the address before
/// the subnet's broadcast address.
pub open spec fn range_end(c: DHCPv4ServerConfig) -> u32 {
    match c.ip_range_end {
        Some(e) => e,
        None => (((c.ip_range_start & mask_bits(c.network_mask)) | (0xFFFF_FFFFu32 >> (
        c.network_mask as u32))) - 1) as u32,
    }
}

/// Whether the pools of two servers share an address.
pub open spec fn ranges_overlap(a: DHCPv4ServerConfig, b: DHCPv4ServerConfig) -> bool {
    a.ip_range_start <= range_end(b) && b.ip_range_start <= range_end(a)
}

/// A pool's range can be computed: it has an end, or a prefix length that
/// leaves a broadcast address.
pub open spec fn range_defined(c: DHCPv4ServerConfig) -> bool {
    c.ip_range_end is Some || 1 <= c.network_mask <= 31
}

fn mask_of(m: u8) -> (r: u32)
    requires
        1 <= m <= 31,
    ensures
        r == mask_bits(m),
{
    0xFFFF_FFFFu32 << (32 - m as u32)
}

fn push_subnet(text: &mut Vec<char>, m: u8)
    ensures
        final(text)@ == old(text)@ + ") is not in the /"@ + dec_text(m as nat) + " subnet"@,
{
    let ghost start = text@;
    push_str(text, ") is not in the /");
    push_dec(text, m as u64);
    push_str(text, " subnet");
    assert(text@ =~= start + ") is not in the /"@ + dec_text(m as nat) + " subnet"@);
}

impl DHCPv4ServerConfig {
    /// Checks the pool settings (see `pool_problem`), then the custom options
    /// (see `validate_custom_options`).
    pub fn validate(&self) -> (r: Result<(), ServiceConfigError>)
        ensures
            pool_problem(*self) matches Some(p) ==> config_error_view(r) == Err::<(), Seq<char>>(p),
            pool_problem(*self) is None ==> config_error_view(r) == custom_options_result(
                self.custom_options@,
                0,
            ),
            r is Ok ==> pool_in_subnet(*self),
    {
        let m = self.network_mask;
        if m == 0 || m > 30 {
            let mut text: Vec<char> = Vec::new();
            push_str(&mut text, "network_mask (");
            push_dec(&mut text, m as u64);
            push_str(&mut text, ") must be between 1 and 30");
            return Err(ServiceConfigError::InvalidConfig { reason: string_from_chars(text.as_slice()) });
        }
        let mask = mask_of(m);
        let server = self.server_ip_addr;
        let network = server & mask;
        let broadcast = network | !mask;
        let start = self.ip_range_start;
        if !(server & mask == network && server != network && server != broadcast) {
            let mut text: Vec<char> = Vec::new();
            push_str(&mut text, "server_ip_addr (");
            push_ipv4(&mut text, server);
            push_str(&mut text, ") is not a usable host in the /");
            push_dec(&mut text, m as u64);
            push_str(&mut text, " subnet");
            return Err(ServiceConfigError::InvalidConfig { reason: string_from_chars(text.as_slice()) });
        }
        if !(start & mask == network && start != network && start != broadcast) {
            let mut text: Vec<char> = Vec::new();
            push_str(&mut text, "ip_range_start (");
            push_ipv4(&mut text, start);
            push_subnet(&mut text, m);
            return Err(ServiceConfigError::InvalidConfig { reason: string_from_chars(text.as_slice()) });
        }
        if start == server {
            let mut text: Vec<char> = Vec::new();
            push_str(&mut text, "ip_range_start (");
            push_ipv4(&mut text, start);
            push_str(&mut text, ") must not equal server_ip_addr");
            return Err(ServiceConfigError::InvalidConfig { reason: string_from_chars(text.as_slice()) });
        }
        if let Some(end) = self.ip_range_end {
            if end & mask != network || end == network {
                let mut text: Vec<char> = Vec::new();
                push_str(&mut text, "ip_range_end (");
                push_ipv4(&mut text, end);
                push_subnet(&mut text, m);
                return Err(ServiceConfigError::InvalidConfig { reason: string_from_chars(text.as_slice()) });
            }
            if end < start {
                let mut text: Vec<char> = Vec::new();
                push_str(&mut text, "ip_range_end (");
                push_ipv4(&mut text, end);
                push_str(&mut text, ") must be >= ip_range_start (");
                push_ipv4(&mut text, start);
                push_str(&mut text, ")");
                return Err(ServiceConfigError::InvalidConfig { reason: string_from_chars(text.as_slice()) });
            }
        }
        if let Some(lease) = self.address_lease_time {
            if lease == 0 {
                let reason = string_from_chars(chars_of("address_lease_time must be > 0").as_slice());
                return Err(ServiceConfigError::InvalidConfig { reason });
            }
        }
        proof {
            lemma_valid_pool_in_subnet(*self);
        }
        validate_custom_options(self.custom_options.as_slice())
    }

    /// The first and last address of the pool (see `range_end`).
    pub fn get_ip_range(&self) -> (r: (u32, u32))
        requires
            range_defined(*self),
        ensures
            r == (self.ip_range_start, range_end(*self)),
    {
        let start = self.ip_range_start;
        let end = match self.ip_range_end {
            Some(e) => e,
            None => {
                let m = self.network_mask;
                let network = start & mask_of(m);
                let broadcast = network | (0xFFFF_FFFFu32 >> m as u32);
                assert(broadcast >= 1) by (bit_vector)
                    requires
                        broadcast == network | (0xFFFF_FFFFu32 >> m as u32),
                        1 <= m <= 31,
                ;
                broadcast - 1
            },
        };
        (start, end)
    }

    /// Whether the two pools share an address.
    pub fn has_ip_range_overlap(&self, other: &DHCPv4ServerConfig) -> (r: bool)
        requires
            range_defined(*self),
            range_defined(*other),
        ensures
            r == ranges_overlap(*self, *other),
    {
        let (start1, end1) = self.get_ip_range();
        let (start2, end2) = other.get_ip_range();
        start1 <= end2 && start2 <= end1
    }
}

/// What a valid pool looks like: the prefix length is 1 to 30; the server,
/// the start and, when given, the end share the server's network part; the
/// server and the start are neither the network nor the broadcast address,
/// and differ; the end is not the network address and not below the start;
/// a given lease time is positive.
pub open spec fn pool_in_subnet(c: DHCPv4ServerConfig) -> bool {
    let m = c.network_mask;
    let mask = (0xFFFF_FFFFu32 << ((32 - m) as u32)) as u32;
    let net = c.server_ip_addr & mask;
    let bcast = net | !mask;
    &&& 1 <= m <= 30
    &&& c.server_ip_addr != net && c.server_ip_addr != bcast
    &&& c.ip_range_start & mask == net
    &&& c.ip_range_start != net && c.ip_range_start != bcast
    &&& c.ip_range_start != c.server_ip_addr
    &&& (c.ip_range_end matches Some(e) ==> e & mask == net && e != net && e >= c.ip_range_start)
    &&& c.address_lease_time != Some(0u32)
}

/// A pool that passes its checks lies in the server's subnet (see
/// `pool_in_subnet`).
pub proof fn lemma_valid_pool_in_subnet(c: DHCPv4ServerConfig)
    requires
        pool_problem(c) is None,
    ensures
        pool_in_subnet(c),
{
}

/// Pool overlap does not depend on which pool is asked.
pub proof fn lemma_overlap_symmetric(a: DHCPv4ServerConfig, b: DHCPv4ServerConfig)
    ensures
        ranges_overlap(a, b) == ranges_overlap(b, a),
{
}

/// A pool that passes its checks is not empty: its start is at most its end,
/// so it overlaps itself.
pub proof fn lemma_valid_pool_nonempty(c: DHCPv4ServerConfig)
    requires
        pool_problem(c) is None,
    ensures
        range_defined(c),
        c.ip_range_start <= range_end(c),
        ranges_overlap(c, c),
{
    let mm = c.network_mask as u32;
    let st = c.ip_range_start;
    let sv = c.server_ip_addr;
    if c.ip_range_end is None {
        assert(mask_bits(c.network_mask) == (0xFFFF_FFFFu32 << ((32 - mm) as u32)));
        assert(st <= (((st & (0xFFFF_FFFFu32 << ((32 - mm) as u32))) | (0xFFFF_FFFFu32 >> mm))
            - 1) as u32) by (bit_vector)
            requires
                1 <= mm <= 30,
                (st & (0xFFFF_FFFFu32 << ((32 - mm) as u32))) == (sv & (0xFFFF_FFFFu32 << ((32
                    - mm) as u32))),
                st != ((sv & (0xFFFF_FFFFu32 << ((32 - mm) as u32))) | !(0xFFFF_FFFFu32 << ((32
                    - mm) as u32))),
        ;
    }
}

} // verus!
