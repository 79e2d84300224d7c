//! The prober: one HTTP HEAD-equivalent probe of a (target, port) pair,
//! with bounded retries and a total-elapsed budget.
//!
//! The outside world — issuing one request attempt and timing it — is the
//! caller's; the prober itself is the decision logic. `run_probe` folds a
//! sequence of attempt outcomes into the probe's one result: a transport
//! success ends the probe at once whatever the status code, a transport
//! failure or timeout is retried while attempts and budget remain, and
//! the budget is checked between attempts, never preemptively.

use vstd::prelude::*;

use crate::error::CustomError;
use crate::headers::{
    routing_tag_of, scan_cf_ray, scan_license, scan_server, split_lines, status_code_of,
};
use crate::locations::{country_of, DataCenterLocations};

verus! {

/// The retry constants of one probe driver: total attempts allowed
/// (first connection included), the per-attempt timeout, and the
/// total-elapsed budget across all attempts.
#[derive(Debug, Clone, Copy)]
pub struct RetryPolicy {
    pub max_attempts: u64,
    pub attempt_timeout_ms: u64,
    pub total_budget_ms: u64,
}

impl RetryPolicy {
    /// A policy must allow at least one attempt.
    pub open spec fn wf(self) -> bool {
        self.max_attempts >= 1
    }
}

/// The default driver: three attempts, five seconds each, fifteen
/// seconds in all.
pub fn default_policy() -> (p: RetryPolicy)
    ensures
        p.wf(),
        p.max_attempts == 3,
        p.attempt_timeout_ms == 5000,
        p.total_budget_ms == 15000,
{
    RetryPolicy { max_attempts: 3, attempt_timeout_ms: 5000, total_budget_ms: 15000 }
}

/// The URL one probe requests: plain HTTP against the address, with the
/// port spelled out for everything but a domain name (a domain keeps the
/// default-port semantics).
pub open spec fn probe_url(address: Seq<char>, port: u16) -> Seq<char> {
    if crate::addr::address_kind(address) == crate::addr::AddressKind::DomainName {
        "http://"@ + address
    } else {
        "http://"@ + address + seq![':'] + crate::chars::fmt_nat(port as int)
    }
}

/// Builds the request URL for one (address, port) pair.
pub fn build_probe_url(address: &str, port: u16) -> (r: String)
    ensures
        r@ == probe_url(address@, port),
{
    let base = String::from_str("http://").concat(address);
    if crate::addr::determine_ipaddress_type(address) == crate::addr::AddressKind::DomainName {
        base
    } else {
        let with_colon = base.concat(":");
        proof {
            reveal_strlit(":");
            assert(":"@ =~= seq![':']);
        }
        with_colon.concat(crate::chars::fmt_u64(port as u64).as_str())
    }
}

/// What one request attempt came to: a transport-level response (its raw
/// header text), a transport error, or a per-attempt timeout. Each
/// carries how long the attempt took.
#[derive(Debug, Clone)]
pub enum AttemptOutcome {
    Completed { stdout: String, duration_ms: u64 },
    TransportError { message: String, duration_ms: u64 },
    TimedOut { duration_ms: u64 },
}

/// How long an attempt took.
pub open spec fn duration_of(o: AttemptOutcome) -> int {
    match o {
        AttemptOutcome::Completed { stdout, duration_ms } => duration_ms as int,
        AttemptOutcome::TransportError { message, duration_ms } => duration_ms as int,
        AttemptOutcome::TimedOut { duration_ms } => duration_ms as int,
    }
}

/// Whether an attempt reached the server.
pub open spec fn is_completed(o: AttemptOutcome) -> bool {
    o matches AttemptOutcome::Completed { .. }
}

/// After `attempts_done` attempts and `elapsed_ms` total elapsed time, a
/// failed probe is retried exactly when attempts and budget both remain.
pub open spec fn should_retry(policy: RetryPolicy, attempts_done: int, elapsed_ms: int) -> bool {
    attempts_done < policy.max_attempts && elapsed_ms < policy.total_budget_ms
}

/// The retry decision after a failed attempt.
pub fn retry_decision(policy: &RetryPolicy, attempts_done: u64, elapsed_ms: u64) -> (r: bool)
    ensures
        r == should_retry(*policy, attempts_done as int, elapsed_ms as int),
{
    attempts_done < policy.max_attempts && elapsed_ms < policy.total_budget_ms
}

/// The number of attempts a probe makes, folding the outcomes from
/// attempt `i` with `elapsed` already spent.
pub open spec fn attempts_used(
    policy: RetryPolicy,
    outcomes: Seq<AttemptOutcome>,
    i: int,
    elapsed: int,
) -> int
    decreases outcomes.len() - i,
{
    if i < 0 || i >= outcomes.len() {
        i
    } else if is_completed(outcomes[i]) {
        i + 1
    } else {
        let e2 = elapsed + duration_of(outcomes[i]);
        if should_retry(policy, i + 1, e2) {
            attempts_used(policy, outcomes, i + 1, e2)
        } else {
            i + 1
        }
    }
}

/// The total time spent in the first `k` attempts.
pub open spec fn elapsed_through(outcomes: Seq<AttemptOutcome>, k: int) -> int
    decreases k,
{
    if k <= 0 {
        0
    } else {
        elapsed_through(outcomes, k - 1) + duration_of(outcomes[k - 1])
    }
}

/// The outcome of one full probe: the extracted signals on success, or
/// the reason the probe was given up.
#[derive(Debug, Clone, PartialEq, Eq)]
pub struct ProbeSuccess {
    pub address: String,
    pub port: u16,
    pub elapsed_ms: u64,
    pub status_code: u16,
    pub routing_tag: String,
    pub country_code: String,
    pub server_env: String,
    pub is_license_server: bool,
}

/// The fields a successful probe of `address:port` must carry, given the
/// raw response `stdout` and the attempt's duration.
pub open spec fn classified_as(
    p: ProbeSuccess,
    address: Seq<char>,
    port: u16,
    elapsed_ms: u64,
    stdout: Seq<char>,
    locations: Seq<DataCenterLocations>,
) -> bool {
    &&& p.address@ == address
    &&& p.port == port
    &&& p.elapsed_ms == elapsed_ms
    &&& p.status_code as int == status_code_of(stdout)
    &&& p.server_env@ == scan_server(split_lines(stdout))
    &&& p.routing_tag@ == routing_tag_of(scan_cf_ray(split_lines(stdout)))
    &&& p.country_code@ == country_of(locations, routing_tag_of(scan_cf_ray(split_lines(stdout))))
    &&& p.is_license_server == (scan_license(split_lines(stdout)) == "true"@)
}

/// Builds the probe record for one completed attempt: status code,
/// server environment, routing tag, country code and license-server flag
/// extracted from the raw response.
///
/// The error arm is a defensive check on the shape of the extracted
/// header signals; the extraction always yields three fields, so the
/// check never fires.
pub fn classify_response(
    address: &str,
    port: u16,
    elapsed_ms: u64,
    stdout: &str,
    locations: &Vec<DataCenterLocations>,
) -> (r: Result<ProbeSuccess, CustomError>)
    ensures
        match r {
            Ok(p) => classified_as(p, address@, port, elapsed_ms, stdout@, locations@),
            Err(_) => false,
        },
{
    let params = crate::headers::get_parameters_from_curl(stdout);
    if params.len() != 3 {
        return Err(
            CustomError::UnexpectedError(String::from_str("Unexpected number of headers")),
        );
    }
    let status_code = crate::headers::status_code_of_output(stdout);
    let server_env = params[0].clone();
    let cf_ray = params[1].clone();
    let license_flag = params[2].clone();
    proof {
        assert(server_env@ == params.deep_view()[0]);
        assert(cf_ray@ == params.deep_view()[1]);
        assert(license_flag@ == params.deep_view()[2]);
    }
    let cf_chars = crate::chars::str_chars(cf_ray.as_str());
    let tag_chars = crate::headers::ex_routing_tag(&cf_chars);
    let routing_tag = crate::chars::chars_to_string(&tag_chars);
    let country_code = crate::locations::resolve_country(locations, routing_tag.as_str());
    let truth: String = String::from_str("true");
    let is_license_server = license_flag.eq(&truth);
    Ok(
        ProbeSuccess {
            address: address.to_owned(),
            port,
            elapsed_ms,
            status_code,
            routing_tag,
            country_code,
            server_env,
            is_license_server,
        },
    )
}

/// Runs one probe: attempts are consumed in order until one reaches the
/// server, attempts run out, or the budget is spent. Returns the result
/// and how many attempts were made — always between one and the policy's
/// ceiling, with the time spent exceeding the budget by at most the last
/// attempt's duration.
pub fn run_probe(
    policy: &RetryPolicy,
    address: &str,
    port: u16,
    outcomes: &Vec<AttemptOutcome>,
    locations: &Vec<DataCenterLocations>,
) -> (r: (Result<ProbeSuccess, CustomError>, usize))
    requires
        policy.wf(),
        outcomes@.len() >= policy.max_attempts,
        forall|j: int|
            0 <= j < outcomes@.len() ==> duration_of(#[trigger] outcomes@[j])
                + policy.total_budget_ms <= u64::MAX,
    ensures
        1 <= r.1 <= policy.max_attempts,
        r.1 as int == attempts_used(*policy, outcomes@, 0, 0),
        elapsed_through(outcomes@, r.1 as int) <= policy.total_budget_ms + duration_of(
            outcomes@[r.1 - 1],
        ),
        match outcomes@[r.1 - 1] {
            AttemptOutcome::Completed { stdout, duration_ms } => match r.0 {
                Ok(p) => classified_as(p, address@, port, duration_ms, stdout@, locations@),
                Err(_) => false,
            },
            AttemptOutcome::TransportError { message, duration_ms } => r.0 == Err::<
                ProbeSuccess,
                CustomError,
            >(CustomError::CommandExecutionFailed(message)),
            AttemptOutcome::TimedOut { duration_ms } => r.0 == Err::<ProbeSuccess, CustomError>(
                CustomError::Timeout,
            ),
        },
{
    let n = outcomes.len();
    let mut elapsed: u64 = 0;
    let mut i: usize = 0;
    loop
        invariant
            policy.wf(),
            n == outcomes@.len(),
            outcomes@.len() >= policy.max_attempts,
            forall|j: int|
                0 <= j < outcomes@.len() ==> duration_of(#[trigger] outcomes@[j])
                    + policy.total_budget_ms <= u64::MAX,
            (i as int) < policy.max_attempts as int,
            elapsed as int == elapsed_through(outcomes@, i as int),
            i > 0 ==> (elapsed as int) < policy.total_budget_ms,
            attempts_used(*policy, outcomes@, 0, 0) == attempts_used(
                *policy,
                outcomes@,
                i as int,
                elapsed as int,
            ),
        decreases outcomes@.len() - i,
    {
        let ghost prev_elapsed = elapsed as int;
        match &outcomes[i] {
            AttemptOutcome::Completed { stdout, duration_ms } => {
                let result = classify_response(
                    address,
                    port,
                    *duration_ms,
                    stdout.as_str(),
                    locations,
                );
                proof {
                    assert(attempts_used(*policy, outcomes@, i as int, prev_elapsed) == i + 1);
                    assert(elapsed_through(outcomes@, i as int + 1) == prev_elapsed + duration_of(
                        outcomes@[i as int],
                    ));
                }
                return (result, i + 1);
            },
            AttemptOutcome::TransportError { message, duration_ms } => {
                let d: u64 = *duration_ms;
                let msg: String = message.clone();
                elapsed = elapsed + d;
                if retry_decision(policy, (i as u64) + 1, elapsed) {
                    i += 1;
                } else {
                    proof {
                        assert(attempts_used(*policy, outcomes@, i as int, prev_elapsed) == i + 1);
                    }
                    return (Err(CustomError::CommandExecutionFailed(msg)), i + 1);
                }
            },
            AttemptOutcome::TimedOut { duration_ms } => {
                let d: u64 = *duration_ms;
                elapsed = elapsed + d;
                if retry_decision(policy, (i as u64) + 1, elapsed) {
                    i += 1;
                } else {
                    proof {
                        assert(attempts_used(*policy, outcomes@, i as int, prev_elapsed) == i + 1);
                    }
                    return (Err(CustomError::Timeout), i + 1);
                }
            },
        }
    }
}

} // verus!
