//! The HTTP front of the persona agents: its configuration and the errors
//! it answers with.
use crate::personas::persona_names;
use crate::runtime::{goal_problem, validate_goal};
use crate::suite::opt_view;
use crate::text::{contains_sub, dec, is_blank, owned, push_dec, push_str, str_contains, str_trim, string_of, trim};
use vstd::prelude::*;

verus! {

/// The server configuration.
#[derive(Debug)]
pub struct ServerConfig {
    pub mode: String,
    pub host: String,
    pub port: u16,
    pub persona: Option<String>,
}

/// An error answered to a request: its HTTP status, a code and a message.
#[derive(Debug)]
pub struct ApiError {
    pub status: u16,
    pub code: String,
    pub message: String,
}

/// Why a server configuration is refused, if it is.
pub open spec fn server_config_problem(host: Seq<char>, port: u16, persona: Option<Seq<char>>) -> Option<Seq<char>> {
    if trim(host).len() == 0 {
        Some("config.server.host must not be empty"@)
    } else if port == 0 {
        Some("config.server.port must be > 0"@)
    } else {
        match persona {
            Some(p) => if persona_names().contains(trim(p)) {
                None
            } else {
                Some("invalid config.persona.name '"@ + p + "': unknown persona"@)
            },
            None => None,
        }
    }
}

/// Checks a server configuration: a host, a port other than 0, and a
/// registered persona where one is named.
pub fn check_server_config(config: &ServerConfig) -> (r: Result<(), String>)
    ensures
        match r {
            Ok(()) => server_config_problem(config.host@, config.port, opt_view(config.persona)) is None,
            Err(m) => server_config_problem(config.host@, config.port, opt_view(config.persona)) == Some(m@),
        },
{
    if is_blank(config.host.as_str()) {
        return Err(owned("config.server.host must not be empty"));
    }
    if config.port == 0 {
        return Err(owned("config.server.port must be > 0"));
    }
    match &config.persona {
        None => Ok(()),
        Some(p) => {
            let t = string_of(&str_trim(p.as_str()));
            if crate::personas::PersonaRegistry::is_registered(t.as_str()) {
                Ok(())
            } else {
                let mut m = owned("invalid config.persona.name '");
                push_str(&mut m, p.as_str());
                push_str(&mut m, "': unknown persona");
                Err(m)
            }
        },
    }
}

/// The persona the server runs: the configured one, else `developer`.
pub fn server_persona(config: &ServerConfig) -> (r: String)
    ensures
        r@ == match config.persona {
            Some(p) => p@,
            None => "developer"@,
        },
{
    match &config.persona {
        Some(p) => owned(p.as_str()),
        None => owned("developer"),
    }
}

/// The address the server listens on, `host:port`.
pub fn listen_address(config: &ServerConfig) -> (r: String)
    ensures
        r@ == config.host@ + ":"@ + dec(config.port as nat),
{
    let mut a = owned(config.host.as_str());
    push_str(&mut a, ":");
    push_dec(&mut a, config.port as u64);
    a
}

/// The error answered to a goal, if it is refused: 400 with the code
/// `GOAL_TOO_LONG` when the message says the goal is too long, else
/// `INVALID_GOAL`.
pub open spec fn goal_request_error(goal: Seq<char>) -> Option<(u16, Seq<char>, Seq<char>)> {
    match goal_problem(goal) {
        None => None,
        Some(m) => Some(
            (
                400u16,
                if contains_sub(m, "too long"@) {
                    "GOAL_TOO_LONG"@
                } else {
                    "INVALID_GOAL"@
                },
                m,
            ),
        ),
    }
}

/// Checks the goal of a run request.
pub fn validate_goal_request(goal: &str) -> (r: Result<(), ApiError>)
    ensures
        match r {
            Ok(()) => goal_request_error(goal@) is None,
            Err(e) => goal_request_error(goal@) == Some((e.status, e.code@, e.message@)),
        },
{
    match validate_goal(goal) {
        Ok(()) => Ok(()),
        Err(message) => {
            let code = if str_contains(message.as_str(), "too long") {
                owned("GOAL_TOO_LONG")
            } else {
                owned("INVALID_GOAL")
            };
            Err(ApiError { status: 400, code, message })
        },
    }
}

/// The error answered when a run fails.
pub fn run_failed(message: String) -> (r: ApiError)
    ensures
        r.status == 500,
        r.code@ == "RUN_FAILED"@,
        r.message@ == message@,
{
    ApiError { status: 500, code: owned("RUN_FAILED"), message }
}

} // verus!
