use pata::server::{check_server_config, listen_address, run_failed, server_persona, validate_goal_request, ServerConfig};

fn config(host: &str, port: u16, persona: Option<&str>) -> ServerConfig {
    ServerConfig { mode: "deterministic".to_string(), host: host.to_string(), port, persona: persona.map(|p| p.to_string()) }
}

#[test]
fn empty_goal_request_is_a_bad_request() {
    let e = validate_goal_request("   ").unwrap_err();
    assert_eq!(e.status, 400);
    assert_eq!(e.code, "INVALID_GOAL");
    let long = "x".repeat(2001);
    let e = validate_goal_request(&long).unwrap_err();
    assert_eq!(e.status, 400);
    assert_eq!(e.code, "GOAL_TOO_LONG");
    assert!(validate_goal_request("Organize my week").is_ok());
}

#[test]
fn server_config_is_checked() {
    assert!(check_server_config(&config("127.0.0.1", 8080, Some("smb"))).is_ok());
    assert_eq!(check_server_config(&config(" ", 8080, None)).unwrap_err(), "config.server.host must not be empty");
    assert_eq!(check_server_config(&config("h", 0, None)).unwrap_err(), "config.server.port must be > 0");
    assert_eq!(
        check_server_config(&config("h", 1, Some("nobody"))).unwrap_err(),
        "invalid config.persona.name 'nobody': unknown persona"
    );
    assert_eq!(listen_address(&config("127.0.0.1", 8080, None)), "127.0.0.1:8080");
    assert_eq!(server_persona(&config("h", 1, None)), "developer");
    assert_eq!(server_persona(&config("h", 1, Some("teacher"))), "teacher");
    let f = run_failed("boom".to_string());
    assert_eq!((f.status, f.code.as_str(), f.message.as_str()), (500, "RUN_FAILED", "boom"));
}
