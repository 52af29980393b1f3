//! What the service is started with.

use vstd::prelude::*;

verus! {

/// The settings of the service.
#[derive(Debug)]
pub struct Config {
    /// The port that the API listens on.
    pub port: u16,
    /// The address of the metrics service.
    pub prometheus_svc: String,
    pub database_url: String,
    /// Whether the database is reset at the start.
    pub dev: bool,
    /// The address of the service that rolls projects out and deletes them.
    pub knative_serving_svc: String,
    /// The seconds between two billing cycles.
    pub billing_interval: u64,
}

} // verus!
