//! The data model and the wire format of the control messages.

use unport_cli::codec::{parse_request, parse_response, render_request, render_response};
use unport_cli::types::{Request, Response, Service, PORT_RANGE_END, PORT_RANGE_START};

fn service(domain: &str, port: u16, pid: u32, directory: &str) -> Service {
    Service {
        domain: domain.to_string(),
        port,
        pid,
        directory: directory.to_string(),
    }
}

#[test]
fn test_service_creation() {
    let service = Service {
        domain: "api.localhost".to_string(),
        port: 4000,
        pid: 12345,
        directory: "/home/user/api".to_string(),
    };

    assert_eq!(service.domain, "api.localhost");
    assert_eq!(service.port, 4000);
    assert_eq!(service.pid, 12345);
    assert_eq!(service.directory, "/home/user/api");
}

#[test]
fn test_service_clone() {
    let service = service("api.localhost", 4000, 12345, "/home/user/api");
    let cloned = service.clone();
    assert_eq!(service, cloned);
}

#[test]
fn test_service_serialize() {
    let service = service("api.localhost", 4000, 12345, "/home/user/api");

    let json = unport_cli::codec::render_service(&service);
    assert!(json.contains("api.localhost"));
    assert!(json.contains("4000"));
    assert!(json.contains("12345"));
}

#[test]
fn test_service_deserialize() {
    let json = r#"{
        "domain": "api.localhost",
        "port": 4000,
        "pid": 12345,
        "directory": "/home/user/api"
    }"#;

    let service = unport_cli::codec::parse_service(json).unwrap();
    assert_eq!(service.domain, "api.localhost");
    assert_eq!(service.port, 4000);
    assert_eq!(service.pid, 12345);
}

#[test]
fn test_service_roundtrip() {
    let service = service("test.localhost", 4500, 99999, "/tmp/test");

    let json = unport_cli::codec::render_service(&service);
    let deserialized = unport_cli::codec::parse_service(&json).unwrap();
    assert_eq!(service, deserialized);
}

#[test]
fn test_register_request() {
    let req = Request::Register {
        domain: "api.localhost".to_string(),
        port: 4000,
        pid: 12345,
        directory: "/home/user/api".to_string(),
    };

    let json = render_request(&req);
    assert!(json.contains("Register"));
    assert!(json.contains("api.localhost"));
}

#[test]
fn test_unregister_request() {
    let req = Request::Unregister {
        domain: "api.localhost".to_string(),
    };

    let json = render_request(&req);
    assert!(json.contains("Unregister"));
    assert!(json.contains("api.localhost"));
}

#[test]
fn test_getport_request() {
    let req = Request::GetPort;
    let json = render_request(&req);
    assert_eq!(json, "\"GetPort\"");
}

#[test]
fn test_list_request() {
    let req = Request::List;
    let json = render_request(&req);
    assert_eq!(json, "\"List\"");
}

#[test]
fn test_stop_request() {
    let req = Request::Stop {
        domain: "api.localhost".to_string(),
    };

    let json = render_request(&req);
    assert!(json.contains("Stop"));
    assert!(json.contains("api.localhost"));
}

#[test]
fn test_shutdown_request() {
    let req = Request::Shutdown;
    let json = render_request(&req);
    assert_eq!(json, "\"Shutdown\"");
}

#[test]
fn test_request_deserialize_register() {
    let json = r#"{"Register":{"domain":"api.localhost","port":4000,"pid":12345,"directory":"/home/user/api"}}"#;
    let req = parse_request(json).unwrap();

    match req {
        Request::Register { domain, port, pid, .. } => {
            assert_eq!(domain, "api.localhost");
            assert_eq!(port, 4000);
            assert_eq!(pid, 12345);
        }
        _ => panic!("Expected Register request"),
    }
}

#[test]
fn test_https_status_request() {
    let req = Request::HttpsStatus;
    let json = render_request(&req);
    assert_eq!(json, "\"HttpsStatus\"");
}

#[test]
fn test_https_status_request_deserialize() {
    let json = "\"HttpsStatus\"";
    let req = parse_request(json).unwrap();
    assert_eq!(req, Request::HttpsStatus);
}

#[test]
fn test_ok_response_with_message() {
    let resp = Response::Okay(Some("Success".to_string()));
    let json = render_response(&resp);
    assert!(json.contains("Ok"));
    assert!(json.contains("Success"));
}

#[test]
fn test_ok_response_without_message() {
    let resp = Response::Okay(None);
    let json = render_response(&resp);
    assert!(json.contains("Ok"));
    assert!(json.contains("null"));
}

#[test]
fn test_port_response() {
    let resp = Response::Port(4000);
    let json = render_response(&resp);
    assert!(json.contains("Port"));
    assert!(json.contains("4000"));
}

#[test]
fn test_services_response_empty() {
    let resp = Response::Services(vec![]);
    let json = render_response(&resp);
    assert!(json.contains("Services"));
    assert!(json.contains("[]"));
}

#[test]
fn test_services_response_with_items() {
    let services = vec![
        service("api.localhost", 4000, 1000, "/app/api"),
        service("web.localhost", 4001, 1001, "/app/web"),
    ];

    let resp = Response::Services(services);
    let json = render_response(&resp);
    assert!(json.contains("api.localhost"));
    assert!(json.contains("web.localhost"));
}

#[test]
fn test_error_response() {
    let resp = Response::Error("Something went wrong".to_string());
    let json = render_response(&resp);
    assert!(json.contains("Error"));
    assert!(json.contains("Something went wrong"));
}

#[test]
fn test_response_roundtrip() {
    let resp = Response::Port(4500);
    let json = render_response(&resp);
    let deserialized = parse_response(&json).unwrap();
    assert_eq!(resp, deserialized);
}

#[test]
fn test_https_enabled_response_true() {
    let resp = Response::HttpsEnabled(true);
    let json = render_response(&resp);
    assert!(json.contains("HttpsEnabled"));
    assert!(json.contains("true"));
}

#[test]
fn test_https_enabled_response_false() {
    let resp = Response::HttpsEnabled(false);
    let json = render_response(&resp);
    assert!(json.contains("HttpsEnabled"));
    assert!(json.contains("false"));
}

#[test]
fn test_https_enabled_response_deserialize() {
    let json = r#"{"HttpsEnabled":true}"#;
    let resp = parse_response(json).unwrap();
    assert_eq!(resp, Response::HttpsEnabled(true));

    let json = r#"{"HttpsEnabled":false}"#;
    let resp = parse_response(json).unwrap();
    assert_eq!(resp, Response::HttpsEnabled(false));
}

#[test]
fn test_https_enabled_response_roundtrip() {
    let resp = Response::HttpsEnabled(true);
    let json = render_response(&resp);
    let deserialized = parse_response(&json).unwrap();
    assert_eq!(resp, deserialized);
}

#[test]
fn test_port_range_start() {
    assert_eq!(PORT_RANGE_START, 4000);
}

#[test]
fn test_port_range_end() {
    assert_eq!(PORT_RANGE_END, 5000);
}

#[test]
fn test_port_range_valid() {
    assert!(PORT_RANGE_END > PORT_RANGE_START);
}

#[test]
fn test_port_range_size() {
    assert_eq!(PORT_RANGE_END - PORT_RANGE_START, 1000);
}

#[test]
fn test_port_in_range() {
    let port = 4500;
    assert!(port >= PORT_RANGE_START && port <= PORT_RANGE_END);
}

#[test]
fn test_port_below_range() {
    let port = 3000;
    assert!(port < PORT_RANGE_START);
}

#[test]
fn test_port_above_range() {
    let port = 6000;
    assert!(port > PORT_RANGE_END);
}

#[test]
fn test_unport_dir() {
    let dir = unport_cli::types::unport_dir("/home/user");
    assert!(dir.ends_with(".unport"));
}

#[test]
fn test_socket_path() {
    let path = unport_cli::types::socket_path("/home/user");
    assert!(path.ends_with("unport.sock"));
}

#[test]
fn test_pid_path() {
    let path = unport_cli::types::pid_path("/home/user");
    assert!(path.ends_with("unport.pid"));
}

#[test]
fn test_registry_path() {
    let path = unport_cli::types::registry_path("/home/user");
    assert!(path.ends_with("registry.json"));
}

#[test]
fn test_paths_in_unport_dir() {
    let dir = unport_cli::types::unport_dir("/home/user");
    let sock = unport_cli::types::socket_path("/home/user");
    let pid = unport_cli::types::pid_path("/home/user");
    let reg = unport_cli::types::registry_path("/home/user");

    assert!(sock.starts_with(&dir));
    assert!(pid.starts_with(&dir));
    assert!(reg.starts_with(&dir));
}
