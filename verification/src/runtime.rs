use vstd::prelude::*;
use crate::SupError;
use crate::err_msg;
use crate::ports::PORT_MIN;
use crate::ports::PORT_MAX;
use crate::ports::base_url_chars;
use crate::ports::make_base_url;
use crate::ports::port_digits;
use crate::ports::port_to_string;

verus! {

/// The single mutable runtime object of the supervisor; callers keep
/// it behind one mutual-exclusion lock.
pub struct RuntimeState {
    /// Bearer credential of the current backend session, empty before
    /// the first spawn.
    pub token: String,
    /// `http://127.0.0.1:<port>` of the active backend, empty before
    /// the first spawn.
    pub base_url: String,
    /// Fixed path of the append-only backend log file.
    pub log_path: String,
    /// True only after a health check succeeded for the current child.
    pub backend_ready: bool,
    /// Description of the most recent spawn or health failure.
    pub last_error: Option<String>,
    /// Fixed filesystem root for config and logs.
    pub data_dir: String,
    /// Identifier of the live child process, if one is tracked.
    pub backend_child: Option<u32>,
}

/// Snapshot of the connection state handed to the UI layer.
pub struct ApiConfig {
    pub base_url: String,
    pub token: String,
    pub backend_ready: bool,
    pub last_error: Option<String>,
    pub log_path: String,
}

impl RuntimeState {
    /// A ready backend always has a tracked child.
    pub open spec fn wf(&self) -> bool {
        self.backend_ready ==> self.backend_child is Some
    }

    /// The state at application startup: nothing spawned yet.
    pub fn new(data_dir: String, log_path: String) -> (r: RuntimeState)
        ensures
            r.token@ == Seq::<char>::empty(),
            r.base_url@ == Seq::<char>::empty(),
            r.log_path@ == log_path@,
            r.backend_ready == false,
            r.last_error is None,
            r.data_dir@ == data_dir@,
            r.backend_child is None,
            r.wf(),
    {
        let token = String::new();
        let base_url = String::new();
        RuntimeState {
            token,
            base_url,
            log_path,
            backend_ready: false,
            last_error: None,
            data_dir,
            backend_child: None,
        }
    }

    /// Pure snapshot of base URL, token, readiness, last error and log
    /// path; the state itself is untouched.
    pub fn get_api_config(&self) -> (r: ApiConfig)
        ensures
            r.base_url@ == self.base_url@,
            r.token@ == self.token@,
            r.backend_ready == self.backend_ready,
            r.last_error is Some <==> self.last_error is Some,
            r.last_error matches Some(m) ==> self.last_error matches Some(n) && m@ == n@,
            r.log_path@ == self.log_path@,
    {
        let last_error = match &self.last_error {
            Some(m) => Some(m.clone()),
            None => None,
        };
        ApiConfig {
            base_url: self.base_url.clone(),
            token: self.token.clone(),
            backend_ready: self.backend_ready,
            last_error,
            log_path: self.log_path.clone(),
        }
    }

    /// Forgets the tracked child and readiness; returns the child the
    /// caller must terminate (kill then wait, best effort).  With no
    /// child tracked this is a no-op.
    pub fn stop_backend(&mut self) -> (kill: Option<u32>)
        ensures
            kill == old(self).backend_child,
            final(self).backend_child is None,
            final(self).backend_ready == false,
            final(self).token == old(self).token,
            final(self).base_url == old(self).base_url,
            final(self).log_path == old(self).log_path,
            final(self).last_error == old(self).last_error,
            final(self).data_dir == old(self).data_dir,
            final(self).wf(),
    {
        let kill = self.backend_child;
        self.backend_child = None;
        self.backend_ready = false;
        kill
    }

    /// Records a freshly launched child: new credential, new base URL
    /// for its port, not yet ready, previous error cleared.
    pub fn record_spawn(&mut self, port: u16, token: String, child: u32)
        requires
            old(self).backend_child is None,
            PORT_MIN <= port <= PORT_MAX,
        ensures
            final(self).token@ == token@,
            final(self).base_url@ == base_url_chars(port),
            final(self).backend_child == Some(child),
            final(self).backend_ready == false,
            final(self).last_error is None,
            final(self).log_path == old(self).log_path,
            final(self).data_dir == old(self).data_dir,
            final(self).wf(),
    {
        self.base_url = make_base_url(port);
        self.token = token;
        self.backend_child = Some(child);
        self.backend_ready = false;
        self.last_error = None;
    }

    /// A health check answered 200 for the current child: the backend
    /// is ready; nothing else changes.
    pub fn record_health_success(&mut self)
        requires
            old(self).backend_child is Some,
        ensures
            final(self).backend_ready == true,
            final(self).last_error == old(self).last_error,
            final(self).token == old(self).token,
            final(self).base_url == old(self).base_url,
            final(self).log_path == old(self).log_path,
            final(self).data_dir == old(self).data_dir,
            final(self).backend_child == old(self).backend_child,
            final(self).wf(),
    {
        self.backend_ready = true;
    }

    /// No 200 arrived before the deadline: not ready, the timeout is
    /// recorded as the last error, and the half-started child is
    /// handed back for termination.
    pub fn record_health_failure(&mut self) -> (kill: Option<u32>)
        ensures
            kill == old(self).backend_child,
            final(self).backend_child is None,
            final(self).backend_ready == false,
            final(self).last_error matches Some(m) && m@ == err_msg(SupError::HealthCheckTimeout),
            final(self).token == old(self).token,
            final(self).base_url == old(self).base_url,
            final(self).log_path == old(self).log_path,
            final(self).data_dir == old(self).data_dir,
            final(self).wf(),
    {
        self.backend_ready = false;
        self.last_error = Some(SupError::HealthCheckTimeout.message());
        let kill = self.backend_child;
        self.backend_child = None;
        kill
    }

    /// Records a failure that happened before a child was launched
    /// (no free port, log file trouble, spawn refusal).
    pub fn mark_error(&mut self, err: &SupError)
        ensures
            final(self).last_error matches Some(m) && m@ == err_msg(*err),
            final(self).backend_ready == old(self).backend_ready,
            final(self).backend_child == old(self).backend_child,
            final(self).token == old(self).token,
            final(self).base_url == old(self).base_url,
            final(self).log_path == old(self).log_path,
            final(self).data_dir == old(self).data_dir,
            old(self).wf() ==> final(self).wf(),
    {
        self.last_error = Some(err.message());
    }

    /// The authenticated probe of the fixed health endpoint: URL and
    /// `Authorization` header value.
    pub fn health_request(&self) -> (r: (String, String))
        ensures
            r.0@ == self.base_url@ + "/v1/health"@,
            r.1@ == "Bearer "@ + self.token@,
    {
        let url = self.base_url.clone().concat("/v1/health");
        let auth = String::from_str("Bearer ").concat(self.token.as_str());
        (url, auth)
    }

    /// The reload call is only made while ready; otherwise the
    /// operation fails with `BackendNotReady` and no request exists
    /// for the caller to send.
    pub fn reload_request(&self) -> (r: Result<(String, String), SupError>)
        ensures
            self.backend_ready ==> (r matches Ok(req) && req.0@ == self.base_url@
                + "/v1/config/reload"@ && req.1@ == "Bearer "@ + self.token@),
            !self.backend_ready ==> (r matches Err(e) && e is BackendNotReady),
    {
        if !self.backend_ready {
            return Err(SupError::BackendNotReady);
        }
        let url = self.base_url.clone().concat("/v1/config/reload");
        let auth = String::from_str("Bearer ").concat(self.token.as_str());
        Ok((url, auth))
    }
}

/// The whole launch-time contract between supervisor and backend:
/// three environment variables carrying the session credential, the
/// data directory and the chosen port, in this order; nothing else
/// is passed at startup.
pub fn launch_env(token: &str, data_dir: &str, port: u16) -> (r: Vec<(String, String)>)
    requires
        PORT_MIN <= port <= PORT_MAX,
    ensures
        r@.len() == 3,
        r@[0].0@ == "LITECLAW_AUTH_TOKEN"@ && r@[0].1@ == token@,
        r@[1].0@ == "LITECLAW_DATA_DIR"@ && r@[1].1@ == data_dir@,
        r@[2].0@ == "LITECLAW_PORT"@ && r@[2].1@ == port_digits(port),
{
    let mut r: Vec<(String, String)> = Vec::new();
    r.push((String::from_str("LITECLAW_AUTH_TOKEN"), token.to_owned()));
    r.push((String::from_str("LITECLAW_DATA_DIR"), data_dir.to_owned()));
    r.push((String::from_str("LITECLAW_PORT"), port_to_string(port)));
    r
}

/// A backend answer counts as healthy exactly on HTTP 200; transport
/// errors (`None`) and every other status mean "not yet healthy".
pub fn is_healthy_status(status: Option<u16>) -> (r: bool)
    ensures
        r <==> (status matches Some(s) && s == 200),
{
    match status {
        Some(s) => s == 200,
        None => false,
    }
}

/// Reload outcome: 200 is success, anything else or a transport error
/// surfaces as `ReloadFailed` carrying the caller's detail text.
pub fn interpret_reload_status(status: Option<u16>, detail: String) -> (r: Result<(), SupError>)
    ensures
        (status matches Some(s) && s == 200) ==> r is Ok,
        !(status matches Some(s) && s == 200) ==> (r matches Err(e) && e matches
            SupError::ReloadFailed(d) && d@ == detail@),
{
    match status {
        Some(s) => {
            if s == 200 {
                Ok(())
            } else {
                Err(SupError::ReloadFailed(detail))
            }
        },
        None => Err(SupError::ReloadFailed(detail)),
    }
}

} // verus!
