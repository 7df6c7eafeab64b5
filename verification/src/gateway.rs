//! Settings of the HTTP(S) gateway: the stored settings, the settings it runs
//! with, its listening address and how its failures are reported.
use vstd::prelude::*;

use crate::render::{dec_text, push_dec, push_str};
use crate::text::string_from_chars;

verus! {

/// Whether the gateway runs when the settings do not say.
pub const DEFAULT_ENABLE: bool = false;

/// HTTP port when the settings do not say.
pub const DEFAULT_HTTP_PORT: u16 = 80;

/// HTTPS port when the settings do not say.
pub const DEFAULT_HTTPS_PORT: u16 = 443;

/// The gateway settings as stored; each one may be left out.
#[derive(Debug, Clone, Copy, PartialEq, Eq, Structural)]
pub struct LandscapeGatewayConfig {
    pub enable: Option<bool>,
    pub http_port: Option<u16>,
    pub https_port: Option<u16>,
}

impl Default for LandscapeGatewayConfig {
    fn default() -> (r: Self)
        ensures
            r.enable is None,
            r.http_port is None,
            r.https_port is None,
    {
        LandscapeGatewayConfig { enable: None, http_port: None, https_port: None }
    }
}

/// The settings the gateway runs with.
#[derive(Debug, Clone, Copy, PartialEq, Eq, Structural)]
pub struct GatewayRuntimeConfig {
    pub enable: bool,
    pub http_port: u16,
    pub https_port: u16,
}

impl Default for GatewayRuntimeConfig {
    fn default() -> (r: Self)
        ensures
            r == (GatewayRuntimeConfig { enable: false, http_port: 80, https_port: 443 }),
    {
        Self { enable: DEFAULT_ENABLE, http_port: DEFAULT_HTTP_PORT, https_port: DEFAULT_HTTPS_PORT }
    }
}

/// The stored settings, with the defaults for what they leave out.
pub open spec fn runtime_of(c: LandscapeGatewayConfig) -> GatewayRuntimeConfig {
    GatewayRuntimeConfig {
        enable: match c.enable {
            Some(v) => v,
            None => false,
        },
        http_port: match c.http_port {
            Some(v) => v,
            None => 80,
        },
        https_port: match c.https_port {
            Some(v) => v,
            None => 443,
        },
    }
}

impl GatewayRuntimeConfig {
    pub fn from_file_config(config: &LandscapeGatewayConfig) -> (r: Self)
        ensures
            r == runtime_of(*config),
    {
        Self {
            enable: match config.enable {
                Some(v) => v,
                None => DEFAULT_ENABLE,
            },
            http_port: match config.http_port {
                Some(v) => v,
                None => DEFAULT_HTTP_PORT,
            },
            https_port: match config.https_port {
                Some(v) => v,
                None => DEFAULT_HTTPS_PORT,
            },
        }
    }
}

/// Settings that leave everything out run the gateway with its defaults.
pub proof fn lemma_empty_settings_run_defaults()
    ensures
        runtime_of(LandscapeGatewayConfig { enable: None, http_port: None, https_port: None })
            == (GatewayRuntimeConfig { enable: false, http_port: 80, https_port: 443 }),
{
}

/// The gateway settings with the hash of the stored file.
#[derive(Debug, Clone)]
pub struct GetGatewayConfigResponse {
    pub gateway: LandscapeGatewayConfig,
    pub hash: String,
}

/// New gateway settings, to be stored only if the file still has `expected_hash`.
#[derive(Debug, Clone)]
pub struct UpdateGatewayConfigRequest {
    pub new_gateway: LandscapeGatewayConfig,
    pub expected_hash: String,
}

/// The address the HTTPS listener binds: every IPv6 (and mapped IPv4) address.
pub fn gateway_https_bind_addr(https_port: u16) -> (r: String)
    ensures
        r@ == "[::]:"@ + dec_text(https_port as nat),
{
    let mut text: Vec<char> = Vec::new();
    push_str(&mut text, "[::]:");
    push_dec(&mut text, https_port as u64);
    string_from_chars(text.as_slice())
}

/// Why binding a listener failed, as far as the diagnosis tells them apart.
#[derive(Debug, Clone, Copy, PartialEq, Eq, Structural)]
pub enum BindErrorKind {
    AddrInUse,
    PermissionDenied,
    Other,
}

pub open spec fn bind_diagnosis(kind: BindErrorKind) -> Seq<char> {
    match kind {
        BindErrorKind::AddrInUse => "port already in use"@,
        BindErrorKind::PermissionDenied => "insufficient privilege to bind low port"@,
        BindErrorKind::Other => "unexpected bind failure"@,
    }
}

/// A hint for the log when the HTTPS listener cannot bind.
pub fn gateway_https_bind_failure_diagnosis(kind: BindErrorKind) -> (r: &'static str)
    ensures
        r@ == bind_diagnosis(kind),
{
    match kind {
        BindErrorKind::AddrInUse => "port already in use",
        BindErrorKind::PermissionDenied => "insufficient privilege to bind low port",
        BindErrorKind::Other => "unexpected bind failure",
    }
}

/// The HTTP versions the gateway speaks over TLS.
#[derive(Debug, Clone, Copy, PartialEq, Eq, Structural)]
pub enum Alpn {
    H1,
    H2,
}

/// The HTTP version a negotiated ALPN protocol id stands for: `h2` or
/// `http/1.1`; anything else, or no protocol, is none.
pub open spec fn alpn_of(proto: Option<Seq<u8>>) -> Option<Alpn> {
    match proto {
        Some(p) => if p == seq![104u8, 50] {
            Some(Alpn::H2)
        } else if p == seq![104u8, 116, 116, 112, 47, 49, 46, 49] {
            Some(Alpn::H1)
        } else {
            None
        },
        None => None,
    }
}

fn bytes_equal(a: &[u8], b: &[u8]) -> (r: bool)
    ensures
        r == (a@ == b@),
{
    if a.len() != b.len() {
        return false;
    }
    let mut i: usize = 0;
    while i < a.len()
        invariant
            i <= a@.len(),
            a@.len() == b@.len(),
            forall|j: int| 0 <= j < i ==> a@[j] == b@[j],
        decreases a@.len() - i,
    {
        if a[i] != b[i] {
            return false;
        }
        i = i + 1;
    }
    assert(a@ =~= b@);
    true
}

/// The HTTP version of the protocol the TLS handshake negotiated (see `alpn_of`).
pub fn selected_alpn_proto(proto: Option<&[u8]>) -> (r: Option<Alpn>)
    ensures
        r == alpn_of(
            match proto {
                Some(p) => Some(p@),
                None => None,
            },
        ),
{
    match proto {
        Some(p) => {
            let h2: [u8; 2] = [104, 50];
            let h1: [u8; 8] = [104, 116, 116, 112, 47, 49, 46, 49];
            assert(h2@ =~= seq![104u8, 50]);
            assert(h1@ =~= seq![104u8, 116, 116, 112, 47, 49, 46, 49]);
            if bytes_equal(p, &h2) {
                Some(Alpn::H2)
            } else if bytes_equal(p, &h1) {
                Some(Alpn::H1)
            } else {
                None
            }
        },
        None => None,
    }
}

} // verus!
