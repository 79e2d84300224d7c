use netprobe::aggregate::{join_lines, license_server_content, should_write};
use netprobe::{aggregate_results, csv_records, flagged_addresses, CustomError, ProbeSuccess};

fn success(address: &str, port: u16, status: u16, server_env: &str, license: bool) -> ProbeSuccess {
    ProbeSuccess {
        address: address.to_string(),
        port,
        elapsed_ms: 12,
        status_code: status,
        routing_tag: "IAD".to_string(),
        country_code: "US".to_string(),
        server_env: server_env.to_string(),
        is_license_server: license,
    }
}

#[test]
fn status_zero_is_drained_but_not_written() {
    let results = vec![
        Ok(success("1.2.3.4", 80, 0, "cloudflare", true)),
        Ok(success("5.6.7.8", 80, 200, "nginx", false)),
        Err(CustomError::Timeout),
    ];
    let out = aggregate_results(&results);
    assert_eq!(out.rows.len(), 1);
    assert_eq!(out.rows[0][0], "5.6.7.8");
    assert_eq!(out.rows[0][2], "200");
    // The status-zero entry is fully excluded, buckets included.
    assert!(out.domain_addresses.is_empty());
    assert!(out.ip_addresses.is_empty());
    assert!(out.license_servers.is_empty());
}

#[test]
fn row_fields_are_in_output_order() {
    let results = vec![Ok(success("example.com", 80, 301, "cloudflare srv", false))];
    let out = aggregate_results(&results);
    assert_eq!(
        out.rows[0],
        vec!["example.com", "12", "301", "IAD", "US", "cloudflare srv"]
    );
}

#[test]
fn mixed_case_cloudflare_domain_lands_in_domain_bucket() {
    let results = vec![
        Ok(success("example.com", 80, 200, "CloudFlare", false)),
        Ok(success("1.2.3.4", 80, 200, "cloudflare", false)),
        Ok(success("plain.org", 80, 200, "nginx", false)),
    ];
    let out = aggregate_results(&results);
    assert_eq!(out.domain_addresses, vec!["example.com".to_string()]);
    assert_eq!(out.ip_addresses, vec!["1.2.3.4".to_string()]);
    // Concatenation puts every domain entry before every IP entry.
    let flagged = flagged_addresses(&out);
    assert_eq!(flagged, vec!["example.com".to_string(), "1.2.3.4".to_string()]);
}

#[test]
fn license_servers_carry_port_for_ip_addresses() {
    let results = vec![
        Ok(success("example.com", 443, 200, "nginx", true)),
        Ok(success("1.2.3.4", 80, 200, "nginx", true)),
        Ok(success("5.6.7.8", 80, 200, "nginx", false)),
    ];
    let out = aggregate_results(&results);
    assert_eq!(
        out.license_servers,
        vec!["example.com".to_string(), "1.2.3.4:80".to_string()]
    );
}

#[test]
fn csv_records_have_header_and_marker() {
    let results = vec![Ok(success("1.2.3.4", 80, 200, "nginx", false))];
    let out = aggregate_results(&results);
    let records = csv_records(&out.rows);
    assert_eq!(records.len(), 3);
    assert_eq!(
        records[0],
        vec!["address", "response_time_ms", "status_code", "routing_tag", "country_code",
            "server_env"]
    );
    assert_eq!(records[1][0], "1.2.3.4");
    assert_eq!(records[2][5], "note: invalid entries excluded");
}

#[test]
fn csv_records_without_rows_have_no_marker() {
    let rows: Vec<Vec<String>> = Vec::new();
    let records = csv_records(&rows);
    assert_eq!(records.len(), 1);
    assert_eq!(records[0][0], "address");
}

#[test]
fn join_lines_has_no_trailing_newline() {
    let v = vec!["a".to_string(), "b".to_string(), "c".to_string()];
    assert_eq!(join_lines(&v), "a\nb\nc");
    assert_eq!(join_lines(&vec!["solo".to_string()]), "solo");
    assert_eq!(join_lines(&Vec::new()), "");
}

#[test]
fn license_content_has_trailing_newline() {
    let v = vec!["x".to_string(), "y".to_string()];
    assert_eq!(license_server_content(&v), "x\ny\n");
}

#[test]
fn should_write_ignores_whitespace_content() {
    assert!(!should_write(""));
    assert!(!should_write("  \n\t "));
    assert!(should_write("a"));
    assert!(should_write("  a  "));
}
