//! A verified bounded-concurrency HTTP probing engine: address-space
//! expansion and deduplication, a retry-bounded prober modelled over its
//! attempt outcomes, response-header classification, a worker-pool
//! concurrency model, and a result-aggregation pipeline.
//!
//! The outside world — reading the address file, issuing the actual
//! requests, timing them, and writing the output files — belongs to the
//! program around this library; everything that decides or computes is
//! here, with its contract.

use vstd::prelude::*;

pub mod addr;
pub mod aggregate;
pub mod chars;
pub mod cidr;
mod error;
pub mod headers;
pub mod ipv4;
pub mod locations;
pub mod pool;
pub mod probe;

pub use addr::{determine_ipaddress_type, expand_addresses, AddressKind};
pub use aggregate::{aggregate_results, csv_records, flagged_addresses, AggregateOutput};
pub use cidr::generate_ipv4_ips_from_cidr;
pub use error::CustomError;
pub use headers::get_parameters_from_curl;
pub use locations::{find_cca2, resolve_country, DataCenterLocations};
pub use pool::WorkerPool;
pub use probe::{
    build_probe_url,
    classify_response, default_policy, retry_decision, run_probe, AttemptOutcome, ProbeSuccess,
    RetryPolicy,
};

verus! {

} // verus!
