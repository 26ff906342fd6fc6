//! Per-project configuration: the domain a project is served under
//! and how its start command learns the assigned port.

use vstd::prelude::*;

verus! {

/// Configuration from a project's `unport.json`.
#[derive(Debug)]
pub struct Config {
    /// Domain name; `api` is served as `api.localhost`.
    pub domain: String,
    /// Custom start command, overriding detection.
    pub start: Option<String>,
    /// Environment variable that carries the port.
    pub port_env: Option<String>,
    /// Command-line flag that carries the port.
    pub port_arg: Option<String>,
}

impl Config {
    /// The full hostname the project is served under.
    pub fn full_domain(&self) -> (r: String)
        ensures
            r@ == self.domain@ + ".localhost"@,
    {
        let mut s = self.domain.clone();
        s.append(".localhost");
        s
    }

    /// The start command that takes effect: the configured one when
    /// present, the detected one otherwise.
    pub fn effective_start_command(&self, detected: &str) -> (r: String)
        ensures
            r@ == match self.start {
                Some(s) => s@,
                None => detected@,
            },
    {
        match &self.start {
            Some(s) => s.clone(),
            None => detected.to_owned(),
        }
    }
}

} // verus!
