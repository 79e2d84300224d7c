use netprobe::{determine_ipaddress_type, expand_addresses, generate_ipv4_ips_from_cidr,
    AddressKind, CustomError};

fn strings(items: &[&str]) -> Vec<String> {
    items.iter().map(|s| s.to_string()).collect()
}

#[test]
fn classifies_ipv4_literal() {
    assert!(matches!(determine_ipaddress_type("1.2.3.4"), AddressKind::Ipv4));
    assert!(matches!(determine_ipaddress_type("255.255.255.255"), AddressKind::Ipv4));
    assert!(matches!(determine_ipaddress_type("0.0.0.0"), AddressKind::Ipv4));
}

#[test]
fn classifies_cidr() {
    assert!(matches!(determine_ipaddress_type("10.0.0.0/8"), AddressKind::Ipv4Cidr));
    assert!(matches!(determine_ipaddress_type("1.2.3.0/30"), AddressKind::Ipv4Cidr));
}

#[test]
fn classifies_domain() {
    assert!(matches!(determine_ipaddress_type("example.com"), AddressKind::DomainName));
    assert!(matches!(determine_ipaddress_type("http://example.com"), AddressKind::DomainName));
    assert!(matches!(
        determine_ipaddress_type("https://example.com/path"),
        AddressKind::DomainName
    ));
}

#[test]
fn classifies_unsupported() {
    assert!(matches!(determine_ipaddress_type(""), AddressKind::Unsupported));
    assert!(matches!(determine_ipaddress_type("fe80::1"), AddressKind::Unsupported));
    assert!(matches!(determine_ipaddress_type("2001:db8::/32"), AddressKind::Unsupported));
    assert!(matches!(determine_ipaddress_type("not an address"), AddressKind::Unsupported));
    // A numeric final label makes the URL parser read the host as IPv4,
    // so an over-range octet is no host either.
    assert!(matches!(determine_ipaddress_type("999.1.1.1"), AddressKind::Unsupported));
}

#[test]
fn rejects_leading_zero_octets_as_ipv4() {
    // Not an IPv4 literal; the URL parser still takes it as a host.
    assert!(matches!(determine_ipaddress_type("01.2.3.4"), AddressKind::DomainName));
}

#[test]
fn cidr_expansion_of_size_four() {
    let ips = generate_ipv4_ips_from_cidr("10.0.0.0/30");
    assert_eq!(ips, strings(&["10.0.0.0", "10.0.0.1", "10.0.0.2", "10.0.0.3"]));
}

#[test]
fn cidr_expansion_masks_host_bits() {
    let ips = generate_ipv4_ips_from_cidr("1.2.3.1/30");
    assert_eq!(ips, strings(&["1.2.3.0", "1.2.3.1", "1.2.3.2", "1.2.3.3"]));
}

#[test]
fn cidr_expansion_single_address() {
    let ips = generate_ipv4_ips_from_cidr("192.168.7.9/32");
    assert_eq!(ips, strings(&["192.168.7.9"]));
}

#[test]
fn cidr_expansion_of_invalid_input_is_empty() {
    assert!(generate_ipv4_ips_from_cidr("300.1.2.3/24").is_empty());
    assert!(generate_ipv4_ips_from_cidr("1.2.3.4/33").is_empty());
    assert!(generate_ipv4_ips_from_cidr("1.2.3.4").is_empty());
    assert!(generate_ipv4_ips_from_cidr("1.2.3.4/8/8").is_empty());
}

#[test]
fn expander_rejects_input_without_targets() {
    let lines = strings(&["", "   ", "fe80::1", "not an address", "\t"]);
    let r = expand_addresses(&lines);
    assert_eq!(r, Err(CustomError::InputError));
}

#[test]
fn expander_rejects_empty_input() {
    let lines: Vec<String> = Vec::new();
    assert_eq!(expand_addresses(&lines), Err(CustomError::InputError));
}

#[test]
fn expander_merges_cidr_and_literal() {
    let lines = strings(&["1.2.3.0/30", "1.2.3.1"]);
    let mut out = expand_addresses(&lines).unwrap();
    out.sort();
    assert_eq!(out, strings(&["1.2.3.0", "1.2.3.1", "1.2.3.2", "1.2.3.3"]));
}

#[test]
fn expander_deduplicates_repeats() {
    let lines = strings(&["1.1.1.1", "1.1.1.1", " 1.1.1.1 ", "1.1.1.1"]);
    let out = expand_addresses(&lines).unwrap();
    assert_eq!(out, strings(&["1.1.1.1"]));
}

#[test]
fn expander_trims_and_keeps_domains() {
    let lines = strings(&["  example.com  ", "9.9.9.9", ""]);
    let mut out = expand_addresses(&lines).unwrap();
    out.sort();
    assert_eq!(out, strings(&["9.9.9.9", "example.com"]));
}

#[test]
fn expander_deduplicates_overlapping_blocks() {
    let lines = strings(&["8.8.8.0/31", "8.8.8.0/30"]);
    let mut out = expand_addresses(&lines).unwrap();
    out.sort();
    assert_eq!(out, strings(&["8.8.8.0", "8.8.8.1", "8.8.8.2", "8.8.8.3"]));
}
