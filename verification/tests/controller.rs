use pd_guard::controller::dto::ProcessRequest;
use pd_guard::controller::error_mapper::ServiceError;
use pd_guard::controller::process::{batch_masks, process_step, ProcessStep};
use pd_guard::controller::proxy::{proxy_action, route_path_of, ProxyAction};
use pd_guard::controller::router::{RouteTarget, Router};
use pd_guard::config::loader::PolicyError;

fn req(operation: Option<&str>, payload_id: Option<&str>, session: Option<&str>, text: Option<&str>) -> ProcessRequest {
    ProcessRequest {
        operation: operation.map(String::from),
        payload: Some("p".to_string()),
        payload_id: payload_id.map(String::from),
        session_id: session.map(String::from),
        mask_context: None,
        text: text.map(String::from),
        route: None,
        dry_run: false,
    }
}

#[test]
fn routing_tables() {
    let r = Router;
    assert_eq!(r.target("POST", "/process"), RouteTarget::Process);
    assert_eq!(r.target("POST", "/process/batch"), RouteTarget::ProcessBatch);
    assert_eq!(r.target("GET", "/health/live"), RouteTarget::HealthLive);
    assert_eq!(r.target("PUT", "/proxy/v1/chat"), RouteTarget::Proxy);
    assert_eq!(r.target("GET", "/process"), RouteTarget::NotFound);
    assert_eq!(r.admin_target("GET", "/metrics"), RouteTarget::Metrics);
    assert_eq!(r.admin_target("POST", "/admin/config/reload"), RouteTarget::ConfigReload);
    assert_eq!(r.admin_target("GET", "/process"), RouteTarget::NotFound);
}

#[test]
fn process_steps() {
    assert!(matches!(process_step(&req(None, Some("id-1"), None, None)),
        ProcessStep::Tz { payload_id, payload } if payload_id == "id-1" && payload == "p"));
    assert!(matches!(process_step(&req(Some("mask"), None, None, Some("t"))),
        ProcessStep::Mask { text } if text == "t"));
    assert!(matches!(process_step(&req(Some("demask"), None, Some("s"), Some("t"))),
        ProcessStep::Demask { session_id, text } if session_id == "s" && text == "t"));
    assert!(matches!(process_step(&req(Some("demask"), None, None, Some("t"))),
        ProcessStep::Reject(ServiceError::BadRequest(m)) if m == "session_id required"));
    assert!(matches!(process_step(&req(Some("other"), None, None, None)),
        ProcessStep::Reject(ServiceError::BadRequest(m)) if m == "operation must be mask or demask"));
    assert!(batch_masks("mask"));
    assert!(!batch_masks("demask"));
}

#[test]
fn errors_map_to_statuses() {
    assert_eq!(ServiceError::Unauthorized.status(), 401);
    assert_eq!(ServiceError::PayloadTooLarge.status(), 413);
    assert_eq!(ServiceError::UpstreamTimeout.code(), "UPSTREAM_ERROR");
    assert_eq!(ServiceError::BadRequest("x".into()).message(), "x");
    assert_eq!(ServiceError::from_policy_error(PolicyError::UnknownSystem).status(), 401);
}

#[test]
fn proxy_helpers() {
    assert_eq!(route_path_of("/proxy/v1/chat"), "v1/chat");
    assert_eq!(route_path_of("/other"), "");
    assert_eq!(proxy_action(&Some("block".to_string())), ProxyAction::Block);
    assert_eq!(proxy_action(&Some("bypass".to_string())), ProxyAction::Bypass);
    assert_eq!(proxy_action(&None), ProxyAction::Mask);
}
