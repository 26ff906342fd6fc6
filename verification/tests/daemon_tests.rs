//! The daemon's decision logic end to end: the request handler, the
//! liveness sweep, snapshot persistence, the startup check, and the
//! routing scenarios it serves.

use unport_cli::daemon::{handle_request, pid_file_pid, startup_decision, Action, Registry,
    RegistryError, StartupDecision};
use unport_cli::proxy::{render_dashboard, render_not_found, route_request, RouteDecision};
use unport_cli::types::{Request, Response, Service, PORT_RANGE_END, PORT_RANGE_START};

fn service(domain: &str, port: u16, pid: u32, directory: &str) -> Service {
    Service {
        domain: domain.to_string(),
        port,
        pid,
        directory: directory.to_string(),
    }
}

fn register(reg: &mut Registry, domain: &str, port: u16, pid: u32) -> Response {
    let (resp, action) = handle_request(
        reg,
        Request::Register {
            domain: domain.to_string(),
            port,
            pid,
            directory: "/app".to_string(),
        },
        false,
    );
    assert!(matches!(action, Action::NoEffect));
    resp
}

#[test]
fn test_handle_register_then_lookup_returns_port() {
    let mut reg = Registry::new();
    let resp = register(&mut reg, "api.localhost", 4000, 111);
    assert_eq!(resp, Response::Okay(Some("Registered api.localhost".to_string())));
    assert_eq!(reg.get("api.localhost").unwrap().port, 4000);
}

#[test]
fn test_handle_register_duplicate_domain_rejected() {
    let mut reg = Registry::new();
    register(&mut reg, "api.localhost", 4000, 111);
    let resp = register(&mut reg, "api.localhost", 4001, 222);
    assert_eq!(
        resp,
        Response::Error("Domain 'api.localhost' already registered".to_string())
    );
    // The first binding is untouched.
    assert_eq!(reg.get("api.localhost").unwrap().port, 4000);
}

#[test]
fn test_handle_unregister_not_found() {
    let mut reg = Registry::new();
    let (resp, _) = handle_request(
        &mut reg,
        Request::Unregister { domain: "nope.localhost".to_string() },
        false,
    );
    assert_eq!(resp, Response::Error("Domain 'nope.localhost' not found".to_string()));
}

#[test]
fn test_handle_stop_sends_sigterm_to_pid() {
    let mut reg = Registry::new();
    register(&mut reg, "api.localhost", 4000, 4242);
    let (resp, action) = handle_request(
        &mut reg,
        Request::Stop { domain: "api.localhost".to_string() },
        false,
    );
    assert_eq!(resp, Response::Okay(Some("Stopped api.localhost".to_string())));
    assert!(matches!(action, Action::SendSigterm(4242)));
    assert!(reg.get("api.localhost").is_none());
}

#[test]
fn test_handle_get_port_advances_cursor() {
    let mut reg = Registry::new();
    let (resp, _) = handle_request(&mut reg, Request::GetPort, false);
    assert_eq!(resp, Response::Port(4000));
    let (resp, _) = handle_request(&mut reg, Request::GetPort, false);
    assert_eq!(resp, Response::Port(4001));
}

#[test]
fn test_handle_list_returns_bindings() {
    let mut reg = Registry::new();
    register(&mut reg, "api.localhost", 4000, 111);
    let (resp, _) = handle_request(&mut reg, Request::List, false);
    match resp {
        Response::Services(list) => {
            assert_eq!(list.len(), 1);
            assert_eq!(list[0].domain, "api.localhost");
        }
        _ => panic!("expected Services"),
    }
}

#[test]
fn test_handle_shutdown_action() {
    let mut reg = Registry::new();
    let (_, action) = handle_request(&mut reg, Request::Shutdown, false);
    assert!(matches!(action, Action::Shutdown));
}

#[test]
fn test_handle_https_status() {
    let mut reg = Registry::new();
    let (resp, _) = handle_request(&mut reg, Request::HttpsStatus, true);
    assert_eq!(resp, Response::HttpsEnabled(true));
    let (resp, _) = handle_request(&mut reg, Request::HttpsStatus, false);
    assert_eq!(resp, Response::HttpsEnabled(false));
}

#[test]
fn test_port_allocations_stay_in_window() {
    let mut reg = Registry::new();
    for _ in 0..2500 {
        let p = reg.get_port();
        assert!(p >= PORT_RANGE_START && p <= PORT_RANGE_END);
    }
}

#[test]
fn test_port_cursor_wraps_to_start() {
    let mut reg = Registry::new();
    reg.next_port = PORT_RANGE_END;
    assert_eq!(reg.get_port(), PORT_RANGE_END);
    assert_eq!(reg.get_port(), PORT_RANGE_START);
}

#[test]
fn test_register_unregister_restores_registry_and_snapshot() {
    let mut reg = Registry::new();
    register(&mut reg, "a.localhost", 4000, 1);
    let snapshot_before = reg.snapshot_json();
    register(&mut reg, "b.localhost", 4001, 2);
    let removed = reg.unregister("b.localhost");
    assert!(removed.is_some());
    assert_eq!(reg.snapshot_json(), snapshot_before);
    assert_eq!(reg.services.len(), 1);
}

#[test]
fn test_snapshot_round_trip_after_mutations() {
    let mut reg = Registry::new();
    register(&mut reg, "api.localhost", 4000, 111);
    register(&mut reg, "web.localhost", 4001, 222);
    reg.unregister("api.localhost");
    let snapshot = reg.snapshot_json();
    let parsed = unport_cli::codec::parse_snapshot(&snapshot).unwrap();
    assert_eq!(parsed.len(), 1);
    assert_eq!(parsed[0], reg.services[0]);
}

#[test]
fn test_cleanup_dead_removes_only_dead() {
    let mut reg = Registry::new();
    register(&mut reg, "a.localhost", 4000, 1);
    register(&mut reg, "b.localhost", 4001, 2);
    register(&mut reg, "c.localhost", 4002, 3);
    // The middle process is gone; the others are alive (one of them
    // perhaps only reachable as another user, which still counts).
    reg.cleanup_dead(&vec![true, false, true]);
    assert_eq!(reg.services.len(), 2);
    assert!(reg.get("a.localhost").is_some());
    assert!(reg.get("b.localhost").is_none());
    assert!(reg.get("c.localhost").is_some());
}

#[test]
fn test_cleanup_dead_idempotent() {
    let mut reg = Registry::new();
    register(&mut reg, "a.localhost", 4000, 1);
    register(&mut reg, "b.localhost", 4001, 2);
    reg.cleanup_dead(&vec![true, false]);
    let after_first = reg.snapshot_json();
    // Sweeping again with the same liveness verdicts changes nothing.
    reg.cleanup_dead(&vec![true]);
    assert_eq!(reg.snapshot_json(), after_first);
}

#[test]
fn test_load_missing_snapshot_starts_empty() {
    let reg = Registry::load(None);
    assert!(reg.services.is_empty());
    assert_eq!(reg.next_port, PORT_RANGE_START);
}

#[test]
fn test_load_corrupt_snapshot_starts_empty() {
    let reg = Registry::load(Some("{ not json"));
    assert!(reg.services.is_empty());
    assert_eq!(reg.next_port, PORT_RANGE_START);
}

#[test]
fn test_load_derives_cursor_past_max_port() {
    let services = vec![
        service("a.localhost", 4000, 1, "/a"),
        service("b.localhost", 4005, 2, "/b"),
    ];
    let doc = unport_cli::codec::render_snapshot(&services);
    let reg = Registry::load(Some(&doc));
    assert_eq!(reg.services.len(), 2);
    assert_eq!(reg.next_port, 4006);
}

#[test]
fn test_load_cursor_wraps_at_window_end() {
    let services = vec![service("a.localhost", 5000, 1, "/a")];
    let doc = unport_cli::codec::render_snapshot(&services);
    let reg = Registry::load(Some(&doc));
    assert_eq!(reg.next_port, PORT_RANGE_START);
}

#[test]
fn test_pid_file_pid_reads_decimal_line() {
    assert_eq!(pid_file_pid("1234\n"), Some(1234));
    assert_eq!(pid_file_pid("  98765  "), Some(98765));
    assert_eq!(pid_file_pid("0"), Some(0));
}

#[test]
fn test_pid_file_pid_rejects_garbage() {
    assert_eq!(pid_file_pid(""), None);
    assert_eq!(pid_file_pid("   "), None);
    assert_eq!(pid_file_pid("12a4"), None);
    assert_eq!(pid_file_pid("99999999999999999999"), None);
}

#[test]
fn test_startup_fails_on_live_pid_file() {
    assert_eq!(
        startup_decision(Some(4321), true),
        StartupDecision::AlreadyRunning(4321)
    );
}

#[test]
fn test_startup_proceeds_after_stale_pid_file() {
    assert_eq!(
        startup_decision(Some(4321), false),
        StartupDecision::RemoveStaleAndStart
    );
    assert_eq!(
        startup_decision(None, false),
        StartupDecision::RemoveStaleAndStart
    );
}

#[test]
fn test_routing_known_domain_forwards() {
    // With api.localhost registered at 4000, a plain request for it
    // is forwarded to that backend.
    let mut reg = Registry::new();
    register(&mut reg, "api.localhost", 4000, 111);
    let port = reg.get("api.localhost").map(|s| s.port);
    let d = route_request("api.localhost", port, false, "/");
    assert!(matches!(d, RouteDecision::Forward(4000)));
}

#[test]
fn test_routing_websocket_tunnels() {
    let d = route_request("ws.localhost", Some(4100), true, "/");
    assert!(matches!(d, RouteDecision::Tunnel(4100)));
    let d = route_request("ws.localhost", None, true, "/");
    assert!(matches!(d, RouteDecision::TunnelNotFound));
}

#[test]
fn test_routing_unknown_domain_gets_listing() {
    let mut reg = Registry::new();
    register(&mut reg, "api.localhost", 4000, 111);
    let port = reg.get("nope.localhost").map(|s| s.port);
    let d = route_request("nope.localhost", port, false, "/");
    assert!(matches!(d, RouteDecision::NotFoundListing));
    let body = render_not_found("nope.localhost", &reg.list());
    assert!(body.contains("nope.localhost"));
    assert!(body.contains("api.localhost"));
}

#[test]
fn test_routing_localhost_serves_dashboard() {
    let mut reg = Registry::new();
    register(&mut reg, "api.localhost", 4000, 111);
    let d = route_request("localhost", None, false, "/");
    assert!(matches!(d, RouteDecision::Dashboard));
    let html = render_dashboard(&reg.list(), &vec![true]);
    assert!(html.starts_with("<!DOCTYPE html>"));
    assert!(html.contains("text") || html.contains("html"));
    assert!(html.contains("api.localhost"));
    assert!(html.contains("4000"));
}

#[test]
fn test_dashboard_empty_lists_no_services() {
    let html = render_dashboard(&vec![], &vec![]);
    assert!(html.contains("No services running"));
}

#[test]
fn test_kill_endpoint_unregisters_and_signals() {
    let mut reg = Registry::new();
    register(&mut reg, "api.localhost", 4000, 4242);
    let d = route_request("localhost", None, false, "/api/kill/api.localhost");
    let target = match d {
        RouteDecision::KillApi(t) => t,
        _ => panic!("expected the kill endpoint"),
    };
    let (resp, action) = handle_request(&mut reg, Request::Stop { domain: target }, false);
    assert_eq!(resp, Response::Okay(Some("Stopped api.localhost".to_string())));
    assert!(matches!(action, Action::SendSigterm(4242)));
    let (resp, _) = handle_request(&mut reg, Request::List, false);
    match resp {
        Response::Services(list) => assert!(list.is_empty()),
        _ => panic!("expected Services"),
    }
}

#[test]
fn test_not_found_listing_empty_registry() {
    let body = render_not_found("nope.localhost", &vec![]);
    assert!(body.contains("(none)"));
}

#[test]
fn test_wire_round_trip_through_handler() {
    // A request travels the wire, is decided, and the reply travels
    // back, all through the codec.
    let line = unport_cli::codec::render_request(&Request::GetPort);
    let mut reg = Registry::new();
    let req = unport_cli::codec::parse_request(&line).unwrap();
    let (resp, _) = handle_request(&mut reg, req, false);
    let reply = unport_cli::codec::render_response(&resp);
    assert_eq!(
        unport_cli::codec::parse_response(&reply).unwrap(),
        Response::Port(4000)
    );
}

#[test]
fn test_register_refuses_taken_domain() {
    let mut reg = Registry::new();
    reg.register(service("api.localhost", 4000, 1, "/a")).unwrap();
    let second = reg.register(service("api.localhost", 4001, 2, "/b"));
    assert!(matches!(second, Err(RegistryError::DomainTaken)));
    // The original binding is untouched.
    assert_eq!(reg.get("api.localhost").unwrap().port, 4000);
    assert_eq!(reg.services.len(), 1);
}

#[test]
fn test_allocate_step_hands_out_available_port() {
    let mut reg = Registry::new();
    let start = reg.next_port;
    assert_eq!(reg.allocate_step(start, true), Some(4000));
    assert_eq!(reg.next_port, 4001);
}

#[test]
fn test_allocate_step_advances_past_unavailable_port() {
    let mut reg = Registry::new();
    let start = reg.next_port;
    assert_eq!(reg.allocate_step(start, false), None);
    assert_eq!(reg.next_port, 4001);
}

#[test]
fn test_allocate_step_falls_back_after_full_cycle() {
    let mut reg = Registry::new();
    reg.next_port = 4999;
    // A probe loop that started at 5000 has come all the way around
    // once this step advances the cursor back to 5000; the probed
    // port is handed out even though it was not available.
    assert_eq!(reg.allocate_step(5000, false), Some(4999));
    assert_eq!(reg.next_port, 5000);
}

#[test]
fn test_allocation_skips_taken_ports() {
    // Ports 4000 and 4002 are taken, 4001 is free: the probe loop
    // built on allocate_step lands on 4001.
    let mut reg = Registry::new();
    let taken = [4000u16, 4002u16];
    let start = reg.next_port;
    let port = loop {
        let available = !taken.contains(&reg.next_port);
        if let Some(p) = reg.allocate_step(start, available) {
            break p;
        }
    };
    assert_eq!(port, 4001);
    assert_eq!(reg.next_port, 4002);
}
