use landscape::adguard::parse_adguard_rules;
use landscape::dns_rule::DomainMatchType;

#[test]
fn parse_adguard_basic_domain_rules() {
    let input = b"||ads.example.com^
||tracker.com^
||doubleclick.net^
";
    let result = parse_adguard_rules(input);
    assert_eq!(result.len(), 3);
    assert_eq!(result[0].match_type, DomainMatchType::Domain);
    assert_eq!(result[0].value, "ads.example.com");
    assert_eq!(result[1].match_type, DomainMatchType::Domain);
    assert_eq!(result[1].value, "tracker.com");
    assert_eq!(result[2].match_type, DomainMatchType::Domain);
    assert_eq!(result[2].value, "doubleclick.net");
}

#[test]
fn parse_adguard_skips_comments_and_short_rules() {
    let input = b"! This is a comment
# Another comment
a
||valid.com^
";
    let result = parse_adguard_rules(input);
    assert_eq!(result.len(), 1);
    assert_eq!(result[0].value, "valid.com");
}

#[test]
fn parse_adguard_skips_exception_rules() {
    let input = b"||ads.example.com^
@@||whitelist.com^
||tracker.com^
";
    let result = parse_adguard_rules(input);
    assert_eq!(result.len(), 2);
    assert_eq!(result[0].value, "ads.example.com");
    assert_eq!(result[1].value, "tracker.com");
}

#[test]
fn parse_adguard_skips_context_dependent_modifiers() {
    let input = b"||tracker.com^$third-party
||analytics.com^$domain=site.com
||ads.com^$3p
||evil.com^$denyallow=good.com
||beacon.com^$to=example.com
||not-third-party.com^$~third-party
||not-domain.com^$~domain=site.com
||image-only.com^$image
||method-only.com^$method=get
||header-only.com^$header=set-cookie
||app-only.com^$app=org.example.app
||rewrite.com^$dnsrewrite=NOERROR;A;192.0.2.1
||safe.com^$important
||ok.com^$document
bare-safe.com$important
bare-image.com$image
";
    let result = parse_adguard_rules(input);
    assert_eq!(result.len(), 2);
    assert_eq!(result[0].value, "safe.com");
    assert_eq!(result[1].value, "bare-safe.com");
}

#[test]
fn parse_adguard_hosts_format_to_full_match() {
    let input = b"0.0.0.0 blocked.com
127.0.0.1 malware.com
:: ipv6-tracker.com
::1 loopback-v6.com
0.0.0.0 first.com second.com # inline comment
1.2.3.4 not-a-block-entry.com
";
    let result = parse_adguard_rules(input);
    assert_eq!(result.len(), 6);
    for item in &result {
        assert_eq!(item.match_type, DomainMatchType::Full);
    }
    assert_eq!(result[0].value, "blocked.com");
    assert_eq!(result[1].value, "malware.com");
    assert_eq!(result[2].value, "ipv6-tracker.com");
    assert_eq!(result[3].value, "loopback-v6.com");
    assert_eq!(result[4].value, "first.com");
    assert_eq!(result[5].value, "second.com");
}

#[test]
fn parse_adguard_skips_full_url_rule_to_avoid_path_broadening() {
    let input = b"|https://exact.example.com|
|http://another.example.com|
|https://example.com/path|
|https://example.com?query=1|
|https://example.com:8443|
";
    let result = parse_adguard_rules(input);
    assert!(result.is_empty());
}

#[test]
fn parse_adguard_skips_rules_with_path() {
    let input = b"||example.com/ads/banner^
||example.com^
";
    let result = parse_adguard_rules(input);
    assert_eq!(result.len(), 1);
    assert_eq!(result[0].value, "example.com");
}

#[test]
fn parse_adguard_skips_cosmetic_and_regex_rules() {
    let input = b"example.com##.ad-banner
example.com#@#.whitelisted
/example\\.com\\/ads\\/
||real-domain.com^
";
    let result = parse_adguard_rules(input);
    assert_eq!(result.len(), 1);
    assert_eq!(result[0].value, "real-domain.com");
}

#[test]
fn parse_adguard_case_normalization() {
    let input = b"||Example.COM^
0.0.0.0 BLOCKED.COM
BARE.EXAMPLE.Com
";
    let result = parse_adguard_rules(input);
    assert_eq!(result.len(), 3);
    for item in &result {
        assert_eq!(item.value, item.value.to_lowercase());
    }
}

#[test]
fn parse_adguard_deduplicates_same_match_type_and_domain() {
    let input = b"||example.com^
||Example.COM^
0.0.0.0 exact.example.com
|https://exact.example.com|
";
    let result = parse_adguard_rules(input);
    assert_eq!(result.len(), 2);
    assert_eq!(result[0].match_type, DomainMatchType::Domain);
    assert_eq!(result[0].value, "example.com");
    assert_eq!(result[1].match_type, DomainMatchType::Full);
    assert_eq!(result[1].value, "exact.example.com");
}

#[test]
fn parse_adguard_complex_real_world_ruleset() {
    let input = b"! Title: AdGuard DNS filter
! Homepage: https://github.com/AdguardTeam
# License: https://github.com/AdguardTeam/AdguardSDNSFilter/blob/master/LICENSE

||ad.doubleclick.net^
||pagead2.googlesyndication.com^$third-party
||adservice.google.com^
@@||googleadservices.com^$document
0.0.0.0 telemetry.example.org
||malware.example.com^$important
/example\\.com\\/popup/\\
example.com##.ad-container
||cdn.example.com/banners^
|https://tracking.pixel.io|
||safe-analytics.net^$domain=trusted.com
||simple-tracker.io^
! End of filter
";
    let result = parse_adguard_rules(input);
    let domains: Vec<&str> = result.iter().map(|d| d.value.as_str()).collect();

    // Should include:
    assert!(domains.contains(&"ad.doubleclick.net"));
    assert!(domains.contains(&"adservice.google.com"));
    assert!(domains.contains(&"malware.example.com"));
    assert!(domains.contains(&"simple-tracker.io"));

    // telemetry.example.org is hosts format → Full match
    let telemetry = result.iter().find(|d| d.value == "telemetry.example.org").unwrap();
    assert_eq!(telemetry.match_type, DomainMatchType::Full);

    // Should NOT include:
    assert!(!domains.contains(&"pagead2.googlesyndication.com")); // $third-party
    assert!(!domains.contains(&"googleadservices.com")); // @@ exception
    assert!(!domains.contains(&"cdn.example.com")); // has path
    assert!(!domains.contains(&"tracking.pixel.io")); // exact URL rule
    assert!(!domains.contains(&"safe-analytics.net")); // $domain=
}

#[test]
fn parse_adguard_bare_domain_lines() {
    let input = b"example.com
ads.tracker.com
cdn.example.org
xn--fiqs8s.example
invalid
example.com/path
example.com$third-party
0.0.0.0
127.0.0.1
192.168.1.1
::1
fe80::1
user@domain.com
.example.com
";
    let result = parse_adguard_rules(input);
    let domains: Vec<&str> = result.iter().map(|d| d.value.as_str()).collect();

    // Should include bare domains
    assert!(domains.contains(&"example.com"));
    assert!(domains.contains(&"ads.tracker.com"));
    assert!(domains.contains(&"cdn.example.org"));
    assert!(domains.contains(&"xn--fiqs8s.example"));
    assert_eq!(result.len(), 4);

    // All should be Domain match type
    for item in &result {
        assert_eq!(item.match_type, DomainMatchType::Domain);
    }

    // Should NOT include:
    assert!(!domains.contains(&"invalid")); // no dot
    assert!(!domains.contains(&"example.com/path")); // has path
    assert!(!domains.contains(&"example.com$third-party")); // has modifier
    assert!(!domains.contains(&"0.0.0.0")); // bare IPv4
    assert!(!domains.contains(&"127.0.0.1")); // bare IPv4
    assert!(!domains.contains(&"192.168.1.1")); // bare IPv4
    assert!(!domains.contains(&"::1")); // bare IPv6
    assert!(!domains.contains(&"fe80::1")); // bare IPv6
    assert!(!domains.contains(&"user@domain.com")); // email
    assert!(!domains.contains(&".example.com")); // leading dot
}

#[test]
fn parse_adguard_rejects_invalid_bare_domain_syntax() {
    let input = b"example.com^
|example.com
example..com
-example.com
example-.com
exa_mple.com
*.example.com
example.com.
example.com|$important
valid-example.com
sub.valid-example.com
";
    let result = parse_adguard_rules(input);
    let domains: Vec<&str> = result.iter().map(|d| d.value.as_str()).collect();

    assert_eq!(domains, vec!["valid-example.com", "sub.valid-example.com"]);
    assert!(!domains.contains(&"example.com^"));
    assert!(!domains.contains(&"|example.com"));
    assert!(!domains.contains(&"example..com"));
    assert!(!domains.contains(&"-example.com"));
    assert!(!domains.contains(&"example-.com"));
    assert!(!domains.contains(&"exa_mple.com"));
    assert!(!domains.contains(&"*.example.com"));
    assert!(!domains.contains(&"example.com."));
    assert!(!domains.contains(&"example.com|$important"));
}

#[test]
fn parse_adguard_rejects_invalid_domain_rule_syntax() {
    let input = b"||*.example.com^
||example..com^
||-example.com^
||example-.com^
||example.com^foo
||example.com:443^
||valid.example.com^$important
";
    let result = parse_adguard_rules(input);
    let domains: Vec<&str> = result.iter().map(|d| d.value.as_str()).collect();

    assert_eq!(domains, vec!["valid.example.com"]);
}

#[test]
fn parse_adguard_skips_wildcard_domain_rules() {
    let input = b"||*serror*.wo.com.cn^
||*.example.com^
*serror*.wo.com.cn
*.example.com
||valid.wo.com.cn^
";
    let result = parse_adguard_rules(input);
    let domains: Vec<&str> = result.iter().map(|d| d.value.as_str()).collect();

    assert_eq!(domains, vec!["valid.wo.com.cn"]);
}

#[test]
fn parse_adguard_applies_exceptions_conservatively() {
    let input = b"||example.com^
@@||ads.example.com^
||safe.com^
0.0.0.0 exact.example.com
@@|https://exact.example.com/path
||parent.test^
@@||parent.test^$document
";
    let result = parse_adguard_rules(input);
    let domains: Vec<&str> = result.iter().map(|d| d.value.as_str()).collect();

    assert_eq!(domains, vec!["safe.com"]);
}

#[test]
fn parse_adguard_badfilter_removes_overlapping_candidates() {
    let input = b"||bad.example.com^
||bad.example.com^$badfilter
||also-bad.example.com^
||also-bad.example.com^$image,badfilter
||ok.example.com^
";
    let result = parse_adguard_rules(input);
    let domains: Vec<&str> = result.iter().map(|d| d.value.as_str()).collect();

    assert_eq!(domains, vec!["ok.example.com"]);
}

#[test]
fn parse_adguard_skips_unparseable_exception_rules() {
    let input = b"||example.com^
@@/example\\.com/
||other.example.com^
";
    let result = parse_adguard_rules(input);
    let domains: Vec<&str> = result.iter().map(|d| d.value.as_str()).collect();

    // Unparseable exceptions (regex, etc.) are skipped silently;
    // they no longer drop everything.
    assert_eq!(domains, vec!["example.com", "other.example.com"]);
}

#[test]
fn parse_adguard_bare_domain_dedup_with_other_formats() {
    let input = b"||example.com^
0.0.0.0 example.com
example.com
|https://full.example.com|
full.example.com
";
    let result = parse_adguard_rules(input);

    // example.com appears as both Domain(||example.com^) and Full(0.0.0.0 example.com),
    // bare "example.com" de-duplicates with the Domain one.
    // Total: Domain("example.com"), Full("example.com"), Domain("full.example.com")
    assert_eq!(result.len(), 3);

    let domain_items: Vec<_> = result.iter().filter(|d| d.value == "example.com").collect();
    assert_eq!(domain_items.len(), 2);
    assert!(domain_items.iter().any(|d| d.match_type == DomainMatchType::Domain));
    assert!(domain_items.iter().any(|d| d.match_type == DomainMatchType::Full));

    let full_items: Vec<_> = result.iter().filter(|d| d.value == "full.example.com").collect();
    assert_eq!(full_items.len(), 1);
    assert!(full_items.iter().any(|d| d.match_type == DomainMatchType::Domain));
}

fn pairs(input: &[u8]) -> Vec<(DomainMatchType, String)> {
    parse_adguard_rules(input).into_iter().map(|e| (e.match_type, e.value)).collect()
}

#[test]
fn parse_adguard_inert_lines_add_nothing() {
    let plain = b"||ads.example.com^\n0.0.0.0 tracker.net\nbare.org\n";
    let padded = b"||ads.example.com^\n! comment\n##.banner\n/ads[0-9]+/\n0.0.0.0 tracker.net\n\n# hash\nab\nexample.com#@#.x\nbare.org\n";
    assert_eq!(pairs(plain), pairs(padded));
    assert_eq!(pairs(plain).len(), 3);
}

#[test]
fn parse_adguard_exceptions_act_wherever_they_stand() {
    let first = b"@@||good.ads.com^\n||ads.com^\n||other.com^\n";
    let last = b"||ads.com^\n||other.com^\n@@||good.ads.com^\n";
    let middle = b"||ads.com^\n||other.com^$badfilter\n||other.com^\n";
    assert_eq!(pairs(first), pairs(last));
    assert_eq!(pairs(first), vec![(DomainMatchType::Domain, "other.com".to_string())]);
    assert_eq!(pairs(middle), vec![(DomainMatchType::Domain, "ads.com".to_string())]);
}
