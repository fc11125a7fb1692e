//! Where a request goes, by method and path.
use vstd::prelude::*;

use crate::textops::{occurs_at_exec, seq_starts_with, str_chars, str_eq};

verus! {

/// The handler a request is sent to.
#[derive(Debug, Clone, Copy, PartialEq, Eq, Structural)]
pub enum RouteTarget {
    Process,
    ProcessBatch,
    HealthLive,
    HealthReady,
    Proxy,
    Metrics,
    ConfigReload,
    NotFound,
}

/// The public and service routing tables.
pub struct Router;

/// Where a public request goes.
pub open spec fn public_target(method: Seq<char>, path: Seq<char>) -> RouteTarget {
    if method == "POST"@ && path == "/process"@ {
        RouteTarget::Process
    } else if method == "POST"@ && path == "/process/batch"@ {
        RouteTarget::ProcessBatch
    } else if method == "GET"@ && path == "/health/live"@ {
        RouteTarget::HealthLive
    } else if method == "GET"@ && path == "/health/ready"@ {
        RouteTarget::HealthReady
    } else if seq_starts_with(path, "/proxy/"@) {
        RouteTarget::Proxy
    } else {
        RouteTarget::NotFound
    }
}

/// Where a request to the service port goes.
pub open spec fn admin_target_spec(method: Seq<char>, path: Seq<char>) -> RouteTarget {
    if method == "GET"@ && path == "/metrics"@ {
        RouteTarget::Metrics
    } else if method == "GET"@ && path == "/health/live"@ {
        RouteTarget::HealthLive
    } else if method == "GET"@ && path == "/health/ready"@ {
        RouteTarget::HealthReady
    } else if method == "POST"@ && path == "/admin/config/reload"@ {
        RouteTarget::ConfigReload
    } else {
        RouteTarget::NotFound
    }
}

fn starts_with_str(s: &str, prefix: &str) -> (r: bool)
    ensures
        r == seq_starts_with(s@, prefix@),
{
    let a = str_chars(s);
    let b = str_chars(prefix);
    occurs_at_exec(a.as_slice(), b.as_slice(), 0)
}

impl Router {
    /// The handler of a public request.
    pub fn target(&self, method: &str, path: &str) -> (r: RouteTarget)
        ensures
            r == public_target(method@, path@),
    {
        if str_eq(method, "POST") && str_eq(path, "/process") {
            RouteTarget::Process
        } else if str_eq(method, "POST") && str_eq(path, "/process/batch") {
            RouteTarget::ProcessBatch
        } else if str_eq(method, "GET") && str_eq(path, "/health/live") {
            RouteTarget::HealthLive
        } else if str_eq(method, "GET") && str_eq(path, "/health/ready") {
            RouteTarget::HealthReady
        } else if starts_with_str(path, "/proxy/") {
            RouteTarget::Proxy
        } else {
            RouteTarget::NotFound
        }
    }

    /// The handler of a request to the service port.
    pub fn admin_target(&self, method: &str, path: &str) -> (r: RouteTarget)
        ensures
            r == admin_target_spec(method@, path@),
    {
        if str_eq(method, "GET") && str_eq(path, "/metrics") {
            RouteTarget::Metrics
        } else if str_eq(method, "GET") && str_eq(path, "/health/live") {
            RouteTarget::HealthLive
        } else if str_eq(method, "GET") && str_eq(path, "/health/ready") {
            RouteTarget::HealthReady
        } else if str_eq(method, "POST") && str_eq(path, "/admin/config/reload") {
            RouteTarget::ConfigReload
        } else {
            RouteTarget::NotFound
        }
    }
}

} // verus!
