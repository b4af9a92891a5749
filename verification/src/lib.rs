pub mod codec;
pub mod config;
pub mod credential;
pub mod fspath;
pub mod logs;
pub mod ports;
pub mod runtime;

use vstd::prelude::*;

verus! {

/// The errors a supervisor or config operation can report.
#[derive(Debug)]
pub enum SupError {
    NoPortAvailable,
    IoError(String),
    ParseError(String),
    NotADirectory(String),
    SpawnFailed(String),
    HealthCheckTimeout,
    BackendNotReady,
    ReloadFailed(String),
    LockPoisoned,
}

/// The human-readable description of each error, as surfaced to the
/// UI layer.
pub open spec fn err_msg(e: SupError) -> Seq<char> {
    match e {
        SupError::NoPortAvailable => "no open port found in 8765-8864"@,
        SupError::IoError(d) => "io error: "@ + d@,
        SupError::ParseError(d) => "invalid config json: "@ + d@,
        SupError::NotADirectory(d) => "not a folder: "@ + d@,
        SupError::SpawnFailed(d) => "failed to spawn backend: "@ + d@,
        SupError::HealthCheckTimeout => "backend health check timed out"@,
        SupError::BackendNotReady => "backend is not ready"@,
        SupError::ReloadFailed(d) => "backend config reload failed: "@ + d@,
        SupError::LockPoisoned => "runtime lock poisoned"@,
    }
}

impl SupError {
    pub fn is_backend_not_ready(&self) -> (r: bool)
        ensures
            r == (self is BackendNotReady),
    {
        match self {
            SupError::BackendNotReady => true,
            _ => false,
        }
    }

    /// The description shown to a user.
    pub fn message(&self) -> (r: String)
        ensures
            r@ == err_msg(*self),
    {
        match self {
            SupError::NoPortAvailable => String::from_str("no open port found in 8765-8864"),
            SupError::IoError(d) => String::from_str("io error: ").concat(d.as_str()),
            SupError::ParseError(d) => String::from_str("invalid config json: ").concat(
                d.as_str(),
            ),
            SupError::NotADirectory(d) => String::from_str("not a folder: ").concat(d.as_str()),
            SupError::SpawnFailed(d) => String::from_str("failed to spawn backend: ").concat(
                d.as_str(),
            ),
            SupError::HealthCheckTimeout => String::from_str("backend health check timed out"),
            SupError::BackendNotReady => String::from_str("backend is not ready"),
            SupError::ReloadFailed(d) => String::from_str("backend config reload failed: ").concat(
                d.as_str(),
            ),
            SupError::LockPoisoned => String::from_str("runtime lock poisoned"),
        }
    }
}

} // verus!
