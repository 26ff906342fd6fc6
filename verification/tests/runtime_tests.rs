//! Client-side helpers, child-process planning, configuration, and
//! TLS material planning.

use unport_cli::client::{format_duration, normalize_domain};
use unport_cli::config::Config;
use unport_cli::detect::PortStrategy;
use unport_cli::process::plan_spawn;
use unport_cli::tls::{build_san_list, ensure_cert, trust_ca, SanEntry, TrustAction};

#[test]
fn test_format_duration_seconds() {
    assert_eq!(format_duration(0), "0s");
    assert_eq!(format_duration(59), "59s");
}

#[test]
fn test_format_duration_minutes() {
    assert_eq!(format_duration(60), "1m 0s");
    assert_eq!(format_duration(125), "2m 5s");
}

#[test]
fn test_format_duration_hours() {
    assert_eq!(format_duration(3600), "1h 0m");
    assert_eq!(format_duration(3725), "1h 2m");
}

#[test]
fn test_format_duration_days() {
    assert_eq!(format_duration(86400), "1d 0h");
    assert_eq!(format_duration(90000), "1d 1h");
}

#[test]
fn test_normalize_domain_adds_suffix() {
    assert_eq!(normalize_domain("api"), "api.localhost");
}

#[test]
fn test_normalize_domain_keeps_dotted_name() {
    assert_eq!(normalize_domain("api.localhost"), "api.localhost");
    assert_eq!(normalize_domain("my.example.test"), "my.example.test");
}

#[test]
fn test_config_full_domain() {
    let config = Config {
        domain: "myapp".to_string(),
        start: None,
        port_env: None,
        port_arg: None,
    };
    assert_eq!(config.full_domain(), "myapp.localhost");
}

#[test]
fn test_plan_spawn_env_var_strategy() {
    let plan = plan_spawn(
        "npm run dev",
        4001,
        &PortStrategy::EnvVar("PORT".to_string()),
        None,
        None,
    )
    .unwrap();
    assert_eq!(plan.program, "npm");
    assert_eq!(plan.args, vec!["run", "dev"]);
    assert_eq!(plan.env, Some(("PORT".to_string(), "4001".to_string())));
}

#[test]
fn test_plan_spawn_cli_flag_strategy() {
    let plan = plan_spawn(
        "npm run dev --",
        4002,
        &PortStrategy::CliFlag("--port".to_string()),
        None,
        None,
    )
    .unwrap();
    assert_eq!(plan.program, "npm");
    assert_eq!(plan.args, vec!["run", "dev", "--", "--port", "4002"]);
    assert_eq!(plan.env, None);
}

#[test]
fn test_plan_spawn_colon_flag_appends_port_directly() {
    let plan = plan_spawn(
        "python manage.py runserver",
        4003,
        &PortStrategy::CliFlag("0.0.0.0:".to_string()),
        None,
        None,
    )
    .unwrap();
    assert_eq!(plan.args, vec!["manage.py", "runserver", "0.0.0.0:4003"]);
}

#[test]
fn test_plan_spawn_arg_override_wins_over_env_override() {
    // With both a portArg and a portEnv configured, the flag wins.
    let plan = plan_spawn(
        "rails server",
        4004,
        &PortStrategy::EnvVar("PORT".to_string()),
        Some("SERVER_PORT"),
        Some("--port"),
    )
    .unwrap();
    assert_eq!(plan.args, vec!["server", "--port", "4004"]);
    assert_eq!(plan.env, None);
}

#[test]
fn test_plan_spawn_env_override_beats_detection() {
    let plan = plan_spawn(
        "rails server",
        4004,
        &PortStrategy::CliFlag("-p".to_string()),
        Some("SERVER_PORT"),
        None,
    )
    .unwrap();
    assert_eq!(plan.args, vec!["server"]);
    assert_eq!(plan.env, Some(("SERVER_PORT".to_string(), "4004".to_string())));
}

#[test]
fn test_effective_start_command() {
    let configured = Config {
        domain: "api".to_string(),
        start: Some("python app.py".to_string()),
        port_env: None,
        port_arg: None,
    };
    assert_eq!(configured.effective_start_command("npm run dev"), "python app.py");

    let detected = Config {
        domain: "api".to_string(),
        start: None,
        port_env: None,
        port_arg: None,
    };
    assert_eq!(detected.effective_start_command("npm run dev"), "npm run dev");
}

#[test]
fn test_plan_spawn_arg_override_beats_detection() {
    let plan = plan_spawn(
        "rails server",
        4005,
        &PortStrategy::EnvVar("PORT".to_string()),
        None,
        Some("-p"),
    )
    .unwrap();
    assert_eq!(plan.args, vec!["server", "-p", "4005"]);
    assert_eq!(plan.env, None);
}

#[test]
fn test_plan_spawn_empty_command_fails() {
    assert!(plan_spawn("", 4000, &PortStrategy::EnvVar("PORT".to_string()), None, None).is_none());
    assert!(plan_spawn("   ", 4000, &PortStrategy::EnvVar("PORT".to_string()), None, None)
        .is_none());
}

#[test]
fn test_san_list_contains_localhost_and_loopback() {
    let domains = vec!["api.localhost".to_string(), "web.localhost".to_string()];
    let sans = build_san_list(&domains);
    assert_eq!(sans.len(), 4);
    assert!(matches!(&sans[0], SanEntry::Dns(d) if d == "localhost"));
    assert!(matches!(&sans[1], SanEntry::Ip(127, 0, 0, 1)));
    assert!(matches!(&sans[2], SanEntry::Dns(d) if d == "api.localhost"));
    assert!(matches!(&sans[3], SanEntry::Dns(d) if d == "web.localhost"));
}

#[test]
fn test_san_list_never_holds_bare_wildcard() {
    let domains = vec!["api.localhost".to_string()];
    let sans = build_san_list(&domains);
    for entry in &sans {
        if let SanEntry::Dns(d) = entry {
            assert_ne!(d, "*.localhost");
        }
    }
}

#[test]
fn test_san_list_empty_registry() {
    let sans = build_san_list(&vec![]);
    assert_eq!(sans.len(), 2);
    assert!(matches!(&sans[0], SanEntry::Dns(d) if d == "localhost"));
    assert!(matches!(&sans[1], SanEntry::Ip(127, 0, 0, 1)));
}

#[test]
fn test_leaf_cert_plan_subject() {
    let plan = unport_cli::tls::leaf_cert_plan(&vec!["api.localhost".to_string()]);
    assert_eq!(plan.common_name, "localhost");
    assert_eq!(plan.organization, "unport");
    assert_eq!(plan.sans.len(), 3);
}

#[test]
fn test_ca_cert_plan_subject_and_usages() {
    let plan = unport_cli::tls::ca_cert_plan();
    assert_eq!(plan.common_name, "unport Local CA");
    assert_eq!(plan.organization, "unport");
    assert!(plan.is_ca);
    assert!(plan.key_cert_sign);
    assert!(plan.crl_sign);
}

#[test]
fn test_ensure_cert_generates_only_when_missing() {
    assert!(!ensure_cert(true, true));
    assert!(ensure_cert(false, true));
    assert!(ensure_cert(true, false));
    assert!(ensure_cert(false, false));
}

#[test]
fn test_trust_ca_requires_existing_ca() {
    assert!(trust_ca(false, false).is_err());
    assert!(matches!(trust_ca(true, false), Ok(TrustAction::Install)));
    assert!(matches!(trust_ca(true, true), Ok(TrustAction::Remove)));
}

#[test]
fn test_tls_paths() {
    let home = "/home/user";
    assert!(unport_cli::tls::ca_key_path(home).ends_with("/.unport/ca.key"));
    assert!(unport_cli::tls::ca_cert_path(home).ends_with("/.unport/ca.crt"));
    assert!(unport_cli::tls::certs_dir(home).ends_with("/.unport/certs"));
    assert!(unport_cli::tls::localhost_key_path(home).ends_with("/certs/localhost.key"));
    assert!(unport_cli::tls::localhost_cert_path(home).ends_with("/certs/localhost.crt"));
}
