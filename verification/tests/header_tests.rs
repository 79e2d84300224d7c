use netprobe::{classify_response, get_parameters_from_curl, DataCenterLocations};

fn table() -> Vec<DataCenterLocations> {
    vec![
        DataCenterLocations { iata: "IAD".to_string(), cca2: "US".to_string() },
        DataCenterLocations { iata: "FRA".to_string(), cca2: "DE".to_string() },
    ]
}

const RESPONSE: &str = "HTTP/1.1 301 Moved Permanently\r\n\
Server: cloudflare nginx\r\n\
CF-RAY: 8abc123def-IAD\r\n\
Location: https://account.jetbrains.com/fls-auth\r\n\r\n";

#[test]
fn extracts_the_three_signals() {
    let params = get_parameters_from_curl(RESPONSE);
    assert_eq!(params.len(), 3);
    assert_eq!(params[0], "cloudflare");
    assert_eq!(params[1], "8abc123def-iad");
    assert_eq!(params[2], "true");
}

#[test]
fn absent_headers_yield_empty_signals() {
    let params = get_parameters_from_curl("HTTP/1.1 200 OK\r\nContent-Length: 5\r\n");
    assert_eq!(params, vec!["".to_string(), "".to_string(), "".to_string()]);
}

#[test]
fn last_header_occurrence_wins() {
    let params = get_parameters_from_curl(
        "Server: nginx one\r\nServer: apache two\r\nCF-RAY: a-b\r\nCF-RAY: c-d\r\n",
    );
    assert_eq!(params[0], "apache");
    assert_eq!(params[1], "c-d");
}

#[test]
fn location_without_license_host_is_false() {
    let params = get_parameters_from_curl("Location: https://example.com/login\r\n");
    assert_eq!(params[2], "false");
}

#[test]
fn header_without_colon_space_has_empty_value() {
    let params = get_parameters_from_curl("Server:cloudflare\r\n");
    assert_eq!(params[0], "");
}

#[test]
fn classify_full_response() {
    let p = classify_response("example.com", 80, 321, RESPONSE, &table()).unwrap();
    assert_eq!(p.address, "example.com");
    assert_eq!(p.port, 80);
    assert_eq!(p.elapsed_ms, 321);
    assert_eq!(p.status_code, 301);
    assert_eq!(p.server_env, "cloudflare");
    assert_eq!(p.routing_tag, "IAD");
    assert_eq!(p.country_code, "US");
    assert!(p.is_license_server);
}

#[test]
fn classify_resolves_known_tag_to_country() {
    let p = classify_response("1.2.3.4", 80, 5, "HTTP/1.1 200 OK\r\nCF-RAY: 77-iad\r\n", &table())
        .unwrap();
    assert_eq!(p.routing_tag, "IAD");
    assert_eq!(p.country_code, "US");
}

#[test]
fn classify_unknown_tag_has_empty_country() {
    let p = classify_response("1.2.3.4", 80, 5, "HTTP/1.1 200 OK\r\nCF-RAY: 77-xyz\r\n", &table())
        .unwrap();
    assert_eq!(p.routing_tag, "XYZ");
    assert_eq!(p.country_code, "");
}

#[test]
fn classify_without_cf_ray_has_empty_tag() {
    let p = classify_response("1.2.3.4", 80, 5, "HTTP/1.1 200 OK\r\n", &table()).unwrap();
    assert_eq!(p.routing_tag, "");
    assert_eq!(p.country_code, "");
    assert!(!p.is_license_server);
}

#[test]
fn status_code_malformed_reads_zero() {
    let p = classify_response("h", 80, 1, "HTTP/1.1 abc\r\n", &table()).unwrap();
    assert_eq!(p.status_code, 0);
    let p = classify_response("h", 80, 1, "HTTP/1.1 99999 Huge\r\n", &table()).unwrap();
    assert_eq!(p.status_code, 0);
    let p = classify_response("h", 80, 1, "", &table()).unwrap();
    assert_eq!(p.status_code, 0);
    let p = classify_response("h", 80, 1, "onlyoneword\r\n", &table()).unwrap();
    assert_eq!(p.status_code, 0);
}

#[test]
fn status_code_tolerates_leading_zeros() {
    let p = classify_response("h", 80, 1, "HTTP/1.1 0301\r\n", &table()).unwrap();
    assert_eq!(p.status_code, 301);
}
