use pata::agent::Persona;
use pata::personas::{DeveloperPersona, PersonaRegistry, PersonalPersona, SmbPersona, TeacherPersona};
use pata::runtime::{ensure_deterministic_mode, validate_goal, DeterministicModelProvider, MAX_GOAL_LEN};

#[test]
fn system_prompt_exposes_objectives_behaviors_and_contract() {
    let persona = DeveloperPersona;
    let prompt = persona.system_prompt();
    assert!(prompt.contains("Objectives:"));
    assert!(prompt.contains("Behaviors:"));
    assert!(prompt.contains("Quality criteria:"));
    assert!(prompt.contains("Guardrails:"));
    assert!(prompt.contains("ANALYSIS"));
    assert!(prompt.contains("FINAL_ANSWER"));
}

#[test]
fn validate_accepts_structured_developer_output() {
    let persona = DeveloperPersona;
    let draft = "ANALYSIS: Investigate compile failure\n\
HYPOTHESIS: Lifetime mismatch\n\
ACTION_PLAN: Narrow mutable borrow scope\n\
VALIDATION: cargo test passes\n\
DURABLE_RULES_CHECK: No rule contradiction\n\
FINAL_ANSWER: Apply scoped borrow refactor.";
    assert!(persona.validate(draft).is_ok());
}

#[test]
fn validate_rejects_missing_sections() {
    let persona = DeveloperPersona;
    let draft = "ANALYSIS: issue\nFINAL_ANSWER: do this";
    let err = persona.validate(draft).expect_err("missing sections should be rejected");
    assert!(err.to_string().contains("missing required sections"));
}

#[test]
fn allowed_tools_cover_developer_workflow() {
    let persona = DeveloperPersona;
    let tools = persona.allowed_tools();
    assert!(tools.contains(&"filesystem.read".to_string()));
    assert!(tools.contains(&"cargo.check".to_string()));
    assert!(tools.contains(&"cargo.test".to_string()));
}

#[test]
fn system_prompt_exposes_personal_contract() {
    let persona = PersonalPersona;
    let prompt = persona.system_prompt();
    assert!(prompt.contains("personal productivity assistant"));
    assert!(prompt.contains("CONTEXT_SUMMARY"));
    assert!(prompt.contains("NEXT_STEP"));
}

#[test]
fn validate_accepts_structured_personal_output() {
    let persona = PersonalPersona;
    let draft = "CONTEXT_SUMMARY: You need better weekly organization with limited evening time.\n\
PRIMARY_OBJECTIVE: Build a realistic weekly routine for priorities.\n\
ACTION_STRUCTURE: Block planning Sunday, daily top-3 tasks, evening review in 10 minutes.\n\
RISK_CHECK: Main constraint is limited energy after work; reduce task load accordingly.\n\
NEXT_STEP: Tonight, write tomorrow's top-3 priorities in one note.\n\
FINAL_ANSWER: Start with a light routine, review weekly, and adapt by energy constraints.";
    assert!(persona.validate(draft).is_ok());
}

#[test]
fn lib_validate_rejects_missing_sections() {
    let persona = PersonalPersona;
    let draft = "CONTEXT_SUMMARY: busy\nFINAL_ANSWER: plan";
    let err = persona.validate(draft).expect_err("missing sections should be rejected");
    assert!(err.to_string().contains("missing required sections"));
}

#[test]
fn teacher_validate_rejects_missing_sections() {
    let persona = TeacherPersona;
    let draft = "EXPLANATION: ownership\nFINAL_ANSWER: done";
    let err = persona.validate(draft).expect_err("missing sections should be rejected");
    assert!(err.to_string().contains("missing required sections"));
}

#[test]
fn system_prompt_exposes_smb_contract() {
    let persona = SmbPersona;
    let prompt = persona.system_prompt();
    assert!(prompt.contains("SMB operations copilot"));
    assert!(prompt.contains("ACTION_BACKLOG"));
    assert!(prompt.contains("FOLLOW_UP_METRICS"));
}

#[test]
fn validate_accepts_structured_smb_output() {
    let persona = SmbPersona;
    let draft = "BUSINESS_CONTEXT: Small local shop with limited staff and marketing budget.\n\
OPERATIONAL_OBJECTIVE: Increase weekly repeat customers in 30 days.\n\
ACTION_BACKLOG: 1) Daily follow-up messages, 2) Weekly promo bundle, 3) Track top-selling items.\n\
DECISION_SUPPORT: Assumption: existing customers respond better to loyalty nudges than broad ads.\n\
FOLLOW_UP_METRICS: Repeat visits/week, promo conversion rate, average basket size.\n\
FINAL_ANSWER: Start with low-cost retention actions, review metrics weekly, then adjust.";
    assert!(persona.validate(draft).is_ok());
}

#[test]
fn system_prompt_exposes_teacher_contract() {
    let persona = TeacherPersona;
    let prompt = persona.system_prompt();
    assert!(prompt.contains("pedagogical AI teacher"));
    assert!(prompt.contains("Objectives:"));
    assert!(prompt.contains("LEVEL_ADAPTATION"));
    assert!(prompt.contains("UNDERSTANDING_CHECK"));
}

#[test]
fn validate_accepts_structured_teacher_output() {
    let persona = TeacherPersona;
    let draft = "LEARNING_OBJECTIVE: Understand ownership basics\n\
LEVEL_ADAPTATION: beginner audience with simple language\n\
EXPLANATION: Ownership means one owner at a time with clear transfer rules.\n\
GUIDED_PRACTICE: Try rewriting one function to avoid moving values unexpectedly.\n\
UNDERSTANDING_CHECK: Can you explain why moving invalidates prior binding?\n\
FINAL_ANSWER: Start with ownership then borrowing; practice with one short example.";
    assert!(persona.validate(draft).is_ok());
}

#[test]
fn validate_requires_explicit_level() {
    let persona = TeacherPersona;
    let draft = "LEARNING_OBJECTIVE: Understand ownership\n\
LEVEL_ADAPTATION: adjust tone\n\
EXPLANATION: Ownership means one owner at a time.\n\
GUIDED_PRACTICE: Explain with one example.\n\
UNDERSTANDING_CHECK: What happens after move?\n\
FINAL_ANSWER: ownership basics summary.";
    let err = persona.validate(draft).expect_err("missing learner level should be rejected");
    assert!(err.to_string().contains("explicit learner level"));
}

#[test]
fn registry_lists_expected_personas() {
    let list = PersonaRegistry::list();
    assert!(list.iter().any(|m| m.name == "developer"));
    assert!(list.iter().any(|m| m.name == "teacher"));
    assert!(list.iter().any(|m| m.name == "personal"));
    assert!(list.iter().any(|m| m.name == "smb"));
}

#[test]
fn registry_can_create_personas() {
    let dev = PersonaRegistry::create("developer").expect("developer persona");
    let teacher = PersonaRegistry::create("teacher").expect("teacher persona");
    let personal = PersonaRegistry::create("personal").expect("personal persona");
    let smb = PersonaRegistry::create("smb").expect("smb persona");
    assert_eq!(dev.name(), "developer");
    assert_eq!(teacher.name(), "teacher");
    assert_eq!(personal.name(), "personal");
    assert_eq!(smb.name(), "smb");
}

#[test]
fn registry_refuses_unknown_persona() {
    assert!(PersonaRegistry::create("pirate").is_err());
    assert!(PersonaRegistry::is_registered("teacher"));
    assert!(!PersonaRegistry::is_registered("pirate"));
}

#[test]
fn reject_empty_goal() {
    assert!(validate_goal("   ").is_err());
}

#[test]
fn print_personas_lists_teacher_and_developer() {
    let list = PersonaRegistry::list();
    assert!(list.iter().any(|p| p.name == "developer"));
    assert!(list.iter().any(|p| p.name == "teacher"));
    assert!(list.iter().any(|p| p.name == "personal"));
    assert!(list.iter().any(|p| p.name == "smb"));
}

#[test]
fn rejects_unknown_model_mode() {
    assert!(ensure_deterministic_mode("openai").is_err());
}

#[test]
fn accepts_deterministic_model_mode() {
    assert!(ensure_deterministic_mode("deterministic").is_ok());
}

#[test]
fn registry_contains_expected_tools() {
    let registry = pata::registry::build_tool_registry();
    for tool in ["filesystem.read", "filesystem.write", "cargo.check", "cargo.test", "git.diff"] {
        assert!(registry.contains(tool));
    }
}

#[test]
fn validate_goal_rejects_empty_and_too_long_inputs() {
    assert!(validate_goal("  ").is_err());
    assert!(validate_goal(&"x".repeat(MAX_GOAL_LEN + 1)).is_err());
}

#[test]
fn validate_goal_accepts_valid_input() {
    assert!(validate_goal("Fix rust compile error").is_ok());
}

#[test]
fn smb_provider_output_matches_persona_contract() {
    let persona = PersonaRegistry::create("smb").expect("smb persona");
    let provider = DeterministicModelProvider;
    let draft = provider.reply(&persona.system_prompt(), "Step: Validation");
    assert!(persona.validate(&draft).is_ok());
}
