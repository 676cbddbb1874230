//! Runtime configuration threaded into the pipeline at construction.

use vstd::prelude::*;

verus! {

/// Configuration for the service: where the records live, the credential
/// and model name for the external ruling service, and the listen port.
///
/// The credential is optional: a ruling request without one is rejected
/// at the boundary with a clear "not configured" message instead of
/// attempting the external call.
#[derive(Clone)]
pub struct Config {
    pub database_url: String,
    pub api_key: Option<String>,
    pub model: String,
    pub port: u16,
}

} // verus!
