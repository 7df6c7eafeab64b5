# landscape

The verified core of the Landscape router, written in Verus.

`src/` holds the logic, each function with a contract proved by Verus:

- `ppp`, `pppoe`, `pppoe_tags`, `bytes`: PPP and PPPoE frame codecs, with
  encode/decode round-trip laws.
- `adguard`, `domain`, `text`, `geo`, `geo_proto`, `ip_text`: AdGuard Home list
  conversion, geo site and geo IP data, the plain-text CIDR list format, and the
  text and address parsing they rest on.
- `ddns`: DNS zone and record name normalisation and DDNS job checks.
- `flow`, `flow_rule`, `route`: flow entry rules, device resolution, flow
  matching, route-cache marks and the smooth weighted round robin that shares a
  flow's route slots between its targets.
- `dhcpv4`: DHCPv4 option code rules, custom option payloads and pool checks.
  A DNR option (code 162) is checked here but has no raw form, since its data
  depends on the running resolver. Which domains, IPv4 addresses and DoH
  paths it may advertise is this library's own rule, stated in
  `dnr_domain_ok`, `dnr_ipv4_ok` and `doh_path_ok`: a valid domain name (one
  trailing dot allowed), no unspecified, broadcast, loopback or multicast
  address, and a printable ASCII path from `/` without query or fragment.
- `ebpf_map`: diffs of kernel map entries, pinned map reuse, firewall block
  list changes and NPT masks.
- `gateway`, `client`, `events`, `iface`, `dns_provider`, `system_config`,
  `service`, `render`, `net`: smaller settings, requests and text rendering.

`tests/` runs the library on concrete values. `app/` holds what Verus does not
see: conversions from `std::net` and `uuid` types, JSON forms of library types,
and reading list files from disk.
