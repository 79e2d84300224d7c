use netprobe::{find_cca2, generate_ipv4_ips_from_cidr, resolve_country, DataCenterLocations};

fn entry(iata: &str, cca2: &str) -> DataCenterLocations {
    DataCenterLocations { iata: iata.to_string(), cca2: cca2.to_string() }
}

#[test]
fn lookup_finds_exact_match() {
    let table = vec![entry("IAD", "US"), entry("FRA", "DE")];
    assert_eq!(find_cca2(&table, "FRA"), Some("DE".to_string()));
    assert_eq!(find_cca2(&table, "IAD"), Some("US".to_string()));
}

#[test]
fn lookup_misses_yield_none_and_empty_country() {
    let table = vec![entry("IAD", "US")];
    assert_eq!(find_cca2(&table, "XYZ"), None);
    assert_eq!(resolve_country(&table, "XYZ"), "");
    assert_eq!(find_cca2(&Vec::new(), "IAD"), None);
}

#[test]
fn lookup_is_case_sensitive() {
    let table = vec![entry("IAD", "US")];
    assert_eq!(find_cca2(&table, "iad"), None);
}

#[test]
fn first_entry_wins_on_equal_keys() {
    let table = vec![entry("IAD", "US"), entry("IAD", "ZZ")];
    assert_eq!(find_cca2(&table, "IAD"), Some("US".to_string()));
}

#[test]
fn large_block_expands_to_full_size() {
    let ips = generate_ipv4_ips_from_cidr("10.20.0.0/16");
    assert_eq!(ips.len(), 65536);
    assert_eq!(ips[0], "10.20.0.0");
    assert_eq!(ips[255], "10.20.0.255");
    assert_eq!(ips[256], "10.20.1.0");
    assert_eq!(ips[65535], "10.20.255.255");
}
