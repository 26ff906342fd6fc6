//! The wire codec: round trips for every message variant, escaping,
//! whitespace tolerance, and rejection of malformed documents.

use unport_cli::codec::{parse_request, parse_response, parse_snapshot, render_request,
    render_response, render_snapshot};
use unport_cli::types::{Request, Response, Service};

fn service(domain: &str, port: u16, pid: u32, directory: &str) -> Service {
    Service {
        domain: domain.to_string(),
        port,
        pid,
        directory: directory.to_string(),
    }
}

#[test]
fn test_request_round_trip_every_variant() {
    let requests = vec![
        Request::Register {
            domain: "api.localhost".to_string(),
            port: 4000,
            pid: 12345,
            directory: "/home/user/api".to_string(),
        },
        Request::Unregister { domain: "api.localhost".to_string() },
        Request::GetPort,
        Request::List,
        Request::Stop { domain: "web.localhost".to_string() },
        Request::Shutdown,
        Request::HttpsStatus,
    ];
    for req in requests {
        let json = render_request(&req);
        let back = parse_request(&json).unwrap();
        assert_eq!(req, back);
    }
}

#[test]
fn test_response_round_trip_every_variant() {
    let responses = vec![
        Response::Okay(Some("Registered api.localhost".to_string())),
        Response::Okay(None),
        Response::Port(4000),
        Response::Services(vec![
            service("api.localhost", 4000, 1, "/a"),
            service("web.localhost", 4001, 2, "/b"),
        ]),
        Response::Services(vec![]),
        Response::Error("Domain 'x' not found".to_string()),
        Response::HttpsEnabled(true),
        Response::HttpsEnabled(false),
    ];
    for resp in responses {
        let json = render_response(&resp);
        let back = parse_response(&json).unwrap();
        assert_eq!(resp, back);
    }
}

#[test]
fn test_round_trip_with_escaped_characters() {
    let svc = service("quo\"te.localhost", 4000, 7, "C:\\Users\\dev\tproject");
    let json = unport_cli::codec::render_service(&svc);
    // The quote and the backslashes travel escaped.
    assert!(json.contains("quo\\\"te"));
    assert!(json.contains("C:\\\\Users"));
    let back = unport_cli::codec::parse_service(&json).unwrap();
    assert_eq!(svc, back);
}

#[test]
fn test_round_trip_with_newline_in_directory() {
    let svc = service("a.localhost", 4000, 7, "line one\nline two");
    let json = unport_cli::codec::render_service(&svc);
    // The newline is escaped, so the document stays on one line.
    assert!(!json.contains('\n'));
    let back = unport_cli::codec::parse_service(&json).unwrap();
    assert_eq!(svc, back);
}

#[test]
fn test_round_trip_with_unicode_domain() {
    let svc = service("my-app-測試.localhost", 4000, 7, "/home/ünïcode");
    let json = unport_cli::codec::render_service(&svc);
    let back = unport_cli::codec::parse_service(&json).unwrap();
    assert_eq!(svc, back);
}

#[test]
fn test_parse_service_tolerates_whitespace() {
    let json = "  {  \"domain\" : \"a.localhost\" ,\n \"port\" : 4000 , \"pid\" : 1 , \"directory\" : \"/a\" }  ";
    let svc = unport_cli::codec::parse_service(json).unwrap();
    assert_eq!(svc.domain, "a.localhost");
    assert_eq!(svc.port, 4000);
}

#[test]
fn test_parse_rejects_malformed_documents() {
    assert!(parse_request("").is_none());
    assert!(parse_request("{").is_none());
    assert!(parse_request("\"NoSuchTag\"").is_none());
    assert!(parse_request("{\"Register\":{}}").is_none());
    assert!(parse_request("\"GetPort\" trailing").is_none());
    assert!(parse_response("{\"Port\":}").is_none());
    assert!(parse_response("{\"Okayish\":null}").is_none());
    assert!(parse_snapshot("[]").is_none());
}

#[test]
fn test_parse_rejects_out_of_range_numbers() {
    // A port must fit in sixteen bits.
    assert!(unport_cli::codec::parse_service(
        "{\"domain\":\"a\",\"port\":65536,\"pid\":1,\"directory\":\"/a\"}"
    )
    .is_none());
    assert!(unport_cli::codec::parse_service(
        "{\"domain\":\"a\",\"port\":65535,\"pid\":1,\"directory\":\"/a\"}"
    )
    .is_some());
    // A pid must fit in thirty-two bits.
    assert!(unport_cli::codec::parse_service(
        "{\"domain\":\"a\",\"port\":80,\"pid\":4294967296,\"directory\":\"/a\"}"
    )
    .is_none());
}

#[test]
fn test_snapshot_round_trip_many_services() {
    let services = vec![
        service("a.localhost", 4000, 1, "/a"),
        service("b.localhost", 4001, 2, "/b"),
        service("c.localhost", 4002, 3, "/c"),
    ];
    let doc = render_snapshot(&services);
    let back = parse_snapshot(&doc).unwrap();
    assert_eq!(back.len(), 3);
    for (x, y) in services.iter().zip(back.iter()) {
        assert_eq!(x, y);
    }
}

#[test]
fn test_snapshot_empty_is_empty_object() {
    let doc = render_snapshot(&vec![]);
    assert_eq!(doc, "{}");
    let back = parse_snapshot(&doc).unwrap();
    assert!(back.is_empty());
}

#[test]
fn test_snapshot_keys_are_domains() {
    let services = vec![service("api.localhost", 4000, 1, "/a")];
    let doc = render_snapshot(&services);
    assert!(doc.starts_with("{\"api.localhost\":{"));
}

#[test]
fn test_request_wire_shapes_match_protocol() {
    let req = Request::Unregister { domain: "api.localhost".to_string() };
    assert_eq!(
        render_request(&req),
        "{\"Unregister\":{\"domain\":\"api.localhost\"}}"
    );
    let resp = Response::Okay(None);
    assert_eq!(render_response(&resp), "{\"Ok\":null}");
    let resp = Response::Port(4096);
    assert_eq!(render_response(&resp), "{\"Port\":4096}");
}
