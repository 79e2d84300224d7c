use netprobe::{
    aggregate_results, default_policy, retry_decision, run_probe, AttemptOutcome, CustomError,
    DataCenterLocations,
};

fn no_table() -> Vec<DataCenterLocations> {
    Vec::new()
}

#[test]
fn default_policy_constants() {
    let p = default_policy();
    assert_eq!(p.max_attempts, 3);
    assert_eq!(p.attempt_timeout_ms, 5000);
    assert_eq!(p.total_budget_ms, 15000);
}

#[test]
fn retry_decision_respects_attempts_and_budget() {
    let p = default_policy();
    assert!(retry_decision(&p, 1, 4000));
    assert!(retry_decision(&p, 2, 14999));
    assert!(!retry_decision(&p, 3, 4000));
    assert!(!retry_decision(&p, 1, 15000));
    assert!(!retry_decision(&p, 1, 20000));
}

#[test]
fn three_timeouts_give_one_timeout_error() {
    let p = default_policy();
    let outcomes = vec![
        AttemptOutcome::TimedOut { duration_ms: 5000 },
        AttemptOutcome::TimedOut { duration_ms: 5000 },
        AttemptOutcome::TimedOut { duration_ms: 5000 },
    ];
    let (result, attempts) = run_probe(&p, "9.9.9.9", 80, &outcomes, &no_table());
    assert_eq!(attempts, 3);
    assert_eq!(result, Err(CustomError::Timeout));

    // A probe that timed out leaves no record and no bucket entry.
    let results = vec![result];
    let out = aggregate_results(&results);
    assert!(out.rows.is_empty());
    assert!(out.domain_addresses.is_empty());
    assert!(out.ip_addresses.is_empty());
    assert!(out.license_servers.is_empty());
}

#[test]
fn success_on_second_attempt() {
    let p = default_policy();
    let outcomes = vec![
        AttemptOutcome::TransportError { message: "connection refused".to_string(), duration_ms: 100 },
        AttemptOutcome::Completed {
            stdout: "HTTP/1.1 200 OK\r\nServer: nginx\r\n".to_string(),
            duration_ms: 50,
        },
        AttemptOutcome::TimedOut { duration_ms: 5000 },
    ];
    let (result, attempts) = run_probe(&p, "9.9.9.9", 80, &outcomes, &no_table());
    assert_eq!(attempts, 2);
    let success = result.unwrap();
    assert_eq!(success.status_code, 200);
    assert_eq!(success.server_env, "nginx");
    assert_eq!(success.elapsed_ms, 50);
}

#[test]
fn transport_success_is_final_even_with_error_status() {
    let p = default_policy();
    let outcomes = vec![
        AttemptOutcome::Completed { stdout: "HTTP/1.1 503 Down\r\n".to_string(), duration_ms: 7 },
        AttemptOutcome::Completed { stdout: "HTTP/1.1 200 OK\r\n".to_string(), duration_ms: 7 },
        AttemptOutcome::Completed { stdout: "HTTP/1.1 200 OK\r\n".to_string(), duration_ms: 7 },
    ];
    let (result, attempts) = run_probe(&p, "9.9.9.9", 80, &outcomes, &no_table());
    assert_eq!(attempts, 1);
    assert_eq!(result.unwrap().status_code, 503);
}

#[test]
fn budget_exhaustion_stops_retrying_early() {
    let p = default_policy();
    let outcomes = vec![
        AttemptOutcome::TransportError { message: "reset".to_string(), duration_ms: 20000 },
        AttemptOutcome::Completed { stdout: "HTTP/1.1 200 OK\r\n".to_string(), duration_ms: 5 },
        AttemptOutcome::Completed { stdout: "HTTP/1.1 200 OK\r\n".to_string(), duration_ms: 5 },
    ];
    let (result, attempts) = run_probe(&p, "9.9.9.9", 80, &outcomes, &no_table());
    assert_eq!(attempts, 1);
    assert_eq!(result, Err(CustomError::CommandExecutionFailed("reset".to_string())));
}

#[test]
fn last_error_message_is_carried() {
    let p = default_policy();
    let outcomes = vec![
        AttemptOutcome::TransportError { message: "first".to_string(), duration_ms: 10 },
        AttemptOutcome::TransportError { message: "second".to_string(), duration_ms: 10 },
        AttemptOutcome::TransportError { message: "third".to_string(), duration_ms: 10 },
    ];
    let (result, attempts) = run_probe(&p, "9.9.9.9", 80, &outcomes, &no_table());
    assert_eq!(attempts, 3);
    assert_eq!(result, Err(CustomError::CommandExecutionFailed("third".to_string())));
}
