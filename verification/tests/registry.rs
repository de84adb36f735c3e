use pata::personas::PersonaRegistry;
use pata::registry::{build_tool_registry, SimpleAgent, ToolRegistry};

#[test]
fn registry_registers_and_looks_up_tools() {
    let mut r = ToolRegistry::new();
    assert!(!r.contains("git.diff"));
    assert_eq!(r.check_invoke("git.diff").unwrap_err(), "unknown tool: git.diff");
    r.register("git.diff");
    r.register("git.diff");
    assert!(r.contains("git.diff"));
    assert!(r.check_invoke("git.diff").is_ok());
    let needed = vec!["git.diff".to_string(), "cargo.test".to_string(), "x".to_string()];
    assert_eq!(r.first_unregistered_of(&needed), Some("cargo.test".to_string()));
    assert_eq!(build_tool_registry().first_unregistered_of(&needed), Some("x".to_string()));
}

#[test]
fn simple_agent_checks_tools_then_validates_the_draft() {
    let persona = PersonaRegistry::create("developer").unwrap();
    let mut tools = ToolRegistry::new();
    tools.register("filesystem.read");
    let agent = SimpleAgent::new(persona, tools);
    assert_eq!(agent.check_tools().unwrap_err(), "persona expects unavailable tool: filesystem.write");
    let agent = SimpleAgent::new(PersonaRegistry::create("teacher").unwrap(), build_tool_registry());
    assert!(agent.check_tools().is_ok());
    let err = agent.finish("no sections".to_string()).unwrap_err();
    assert!(err.starts_with("validation failed: "));
    let draft = "LEARNING_OBJECTIVE: a\nLEVEL_ADAPTATION: beginner\nEXPLANATION: c\nGUIDED_PRACTICE: d\nUNDERSTANDING_CHECK: e\nFINAL_ANSWER: f\n";
    match agent.finish(draft.to_string()) {
        Ok(res) => {
            assert_eq!(res.answer, draft);
            assert_eq!(res.confidence_pct, 50);
            assert_eq!(res.events.len(), 2);
        }
        Err(e) => panic!("unexpected refusal: {e}"),
    }
}
