//! The registry: port cursor, binding table, and snapshot format.

use unport_cli::daemon::Registry;
use unport_cli::types::{Service, PORT_RANGE_END, PORT_RANGE_START};

fn service(domain: &str, port: u16, pid: u32, directory: &str) -> Service {
    Service {
        domain: domain.to_string(),
        port,
        pid,
        directory: directory.to_string(),
    }
}

#[test]
fn test_registry_new() {
    let registry = Registry::new();
    assert!(registry.services.is_empty());
    assert_eq!(registry.next_port, PORT_RANGE_START);
}

#[test]
fn test_get_port_increments() {
    let mut registry = Registry::new();
    assert_eq!(registry.get_port(), 4000);
    assert_eq!(registry.get_port(), 4001);
    assert_eq!(registry.get_port(), 4002);
}

#[test]
fn test_get_port_wraps_around() {
    let mut registry = Registry::new();
    registry.next_port = PORT_RANGE_END;

    let port = registry.get_port();
    assert_eq!(port, PORT_RANGE_END);
    assert_eq!(registry.next_port, PORT_RANGE_START);
}

#[test]
fn test_register_service() {
    let mut registry = Registry::new();
    let service = service("api.localhost", 4000, 12345, "/home/user/api");

    registry.register(service.clone()).unwrap();
    assert_eq!(registry.services.len(), 1);
    assert!(registry.get("api.localhost").is_some());
}

#[test]
fn test_register_multiple_services() {
    let mut registry = Registry::new();

    registry.register(service("api.localhost", 4000, 1000, "/app/api")).unwrap();
    registry.register(service("web.localhost", 4001, 1001, "/app/web")).unwrap();

    assert_eq!(registry.services.len(), 2);
}

#[test]
fn test_register_overwrites_existing() {
    let mut registry = Registry::new();

    // A second registration of the same domain is refused and the
    // first binding is kept: a domain is taken until unregistered,
    // and bindings are never mutated in place.
    registry.register(service("api.localhost", 4000, 1000, "/app/api")).unwrap();
    let second = registry.register(service("api.localhost", 4001, 1001, "/app/api-new"));

    assert!(second.is_err());
    assert_eq!(registry.services.len(), 1);
    assert_eq!(registry.get("api.localhost").unwrap().port, 4000);
}

#[test]
fn test_unregister_service() {
    let mut registry = Registry::new();
    let svc = service("api.localhost", 4000, 12345, "/home/user/api");

    registry.register(svc.clone()).unwrap();
    let removed = registry.unregister("api.localhost");

    assert!(removed.is_some());
    assert_eq!(removed.unwrap().domain, "api.localhost");
    assert!(registry.services.is_empty());
}

#[test]
fn test_unregister_nonexistent() {
    let mut registry = Registry::new();
    let removed = registry.unregister("nonexistent.localhost");
    assert!(removed.is_none());
}

#[test]
fn test_get_service() {
    let mut registry = Registry::new();
    registry.register(service("api.localhost", 4000, 12345, "/home/user/api")).unwrap();

    let result = registry.get("api.localhost");
    assert!(result.is_some());
    assert_eq!(result.unwrap().port, 4000);
}

#[test]
fn test_get_nonexistent_service() {
    let registry = Registry::new();
    let result = registry.get("nonexistent.localhost");
    assert!(result.is_none());
}

#[test]
fn test_list_empty() {
    let registry = Registry::new();
    let list = registry.list();
    assert!(list.is_empty());
}

#[test]
fn test_list_services() {
    let mut registry = Registry::new();

    registry.register(service("api.localhost", 4000, 1000, "/app/api")).unwrap();
    registry.register(service("web.localhost", 4001, 1001, "/app/web")).unwrap();

    let list = registry.list();
    assert_eq!(list.len(), 2);
}

#[test]
fn test_service_serialization() {
    let svc = service("api.localhost", 4000, 12345, "/home/user/api");

    let json = unport_cli::codec::render_service(&svc);
    assert!(json.contains("api.localhost"));
    assert!(json.contains("4000"));
    assert!(json.contains("12345"));
}

#[test]
fn test_service_deserialization() {
    let json = r#"{
        "domain": "api.localhost",
        "port": 4000,
        "pid": 12345,
        "directory": "/home/user/api"
    }"#;

    let svc = unport_cli::codec::parse_service(json).unwrap();
    assert_eq!(svc.domain, "api.localhost");
    assert_eq!(svc.port, 4000);
    assert_eq!(svc.pid, 12345);
}

#[test]
fn test_registry_serialization() {
    let services = vec![service("api.localhost", 4000, 12345, "/home/user/api")];

    let json = unport_cli::codec::render_snapshot(&services);
    let deserialized = unport_cli::codec::parse_snapshot(&json).unwrap();

    assert_eq!(deserialized.len(), 1);
    assert_eq!(services[0], deserialized[0]);
}

#[test]
fn test_max_port_calculation() {
    let mut registry = Registry::new();

    registry.register(service("a.localhost", 4000, 1, "/a")).unwrap();
    registry.register(service("b.localhost", 4005, 2, "/b")).unwrap();
    registry.register(service("c.localhost", 4002, 3, "/c")).unwrap();

    let max_port = registry.services.iter().map(|s| s.port).max().unwrap();
    assert_eq!(max_port, 4005);
}

#[test]
fn test_port_range_constants() {
    assert_eq!(PORT_RANGE_START, 4000);
    assert_eq!(PORT_RANGE_END, 5000);
    assert!(PORT_RANGE_END > PORT_RANGE_START);
    assert_eq!(PORT_RANGE_END - PORT_RANGE_START, 1000);
}
