//! Verified core of the Landscape router: PPP/PPPoE frame codecs, AdGuard rule
//! conversion, geo data, DNS name normalisation, DHCPv4 checks, flow matching
//! and routing decisions, and kernel map maintenance.
pub mod bytes;
pub mod text;
pub mod render;
pub mod net;
pub mod ip_text;
pub mod domain;
pub mod service;
pub mod ppp;
pub mod pppoe_tags;
pub mod pppoe;
pub mod dns_rule;
pub mod geo;
pub mod geo_proto;
pub mod adguard;
pub mod ddns;
pub mod dns_provider;
pub mod flow;
pub mod flow_rule;
pub mod route;
pub mod dhcpv4;
pub mod ebpf_map;
pub mod gateway;
pub mod client;
pub mod events;
pub mod iface;
pub mod system_config;
