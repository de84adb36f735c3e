use pata::suite::{
    check_config, check_suite, failed_case, finish_suite, grade_case, suite_verdict, summarize, AppConfig,
    EvalCaseSpec, EvaluationSuite,
};

fn case(id: &str, persona: &str, goal: &str, min_pct: i64, sections: &[&str]) -> EvalCaseSpec {
    EvalCaseSpec {
        case_id: id.to_string(),
        persona: persona.to_string(),
        goal: goal.to_string(),
        require_accept_verification: false,
        minimum_confidence_pct: min_pct,
        required_sections: sections.iter().map(|s| s.to_string()).collect(),
    }
}

fn suite(cases: Vec<EvalCaseSpec>) -> EvaluationSuite {
    EvaluationSuite { suite_id: "suite".to_string(), suite_version: "1".to_string(), cases }
}

#[test]
fn reject_eval_suite_with_duplicate_case_ids() {
    let s = suite(vec![
        case("dup", "developer", "Fix compile error", 10, &[]),
        case("dup", "teacher", "Explain ownership", 10, &[]),
    ]);
    let result = check_suite(&s);
    assert!(result.is_err());
    assert_eq!(result.unwrap_err(), "duplicate case_id found in eval suite: 'dup'");
}

#[test]
fn reject_unknown_persona_in_config() {
    let c = AppConfig { mode: "deterministic".to_string(), persona: Some("unknown".to_string()) };
    let result = check_config(&c);
    assert!(result.is_err());
    assert_eq!(result.unwrap_err(), "invalid config.persona.name 'unknown': unknown persona");
}

#[test]
fn config_checks_mode_and_trims_persona() {
    let ok = AppConfig { mode: "deterministic".to_string(), persona: Some(" teacher ".to_string()) };
    assert!(check_config(&ok).is_ok());
    let none = AppConfig { mode: "x".to_string(), persona: None };
    assert!(check_config(&none).is_ok());
    let blank = AppConfig { mode: "  ".to_string(), persona: None };
    assert_eq!(check_config(&blank).unwrap_err(), "config.model.mode must not be empty");
}

#[test]
fn suite_checks_report_the_first_problem() {
    let empty_id = EvaluationSuite { suite_id: " ".to_string(), suite_version: "1".to_string(), cases: Vec::new() };
    assert_eq!(
        check_suite(&empty_id).unwrap_err(),
        "eval suite must include non-empty suite_id and suite_version"
    );
    assert_eq!(check_suite(&suite(Vec::new())).unwrap_err(), "eval suite must include at least one case");
    let bad_goal = suite(vec![case("a", "developer", "   ", 10, &[])]);
    assert_eq!(check_suite(&bad_goal).unwrap_err(), "invalid goal in case a");
    let bad_persona = suite(vec![case("a", "developer", "g", 10, &[]), case("b", "pirate", "g", 10, &[])]);
    assert_eq!(
        check_suite(&bad_persona).unwrap_err(),
        "invalid persona 'pirate' in case 'b': unknown persona"
    );
    let bad_conf = suite(vec![case("a", "smb", "g", 101, &[])]);
    assert_eq!(
        check_suite(&bad_conf).unwrap_err(),
        "invalid minimum_confidence in case 'a': expected value in [0, 1]"
    );
    let good = suite(vec![case("a", "smb", "g", 0, &[]), case("b", " personal", "g", 100, &[])]);
    assert!(check_suite(&good).is_ok());
}

#[test]
fn grading_follows_sections_status_and_confidence() {
    let mut spec = case("c", "developer", "g", 50, &["Plan", "Risks"]);
    spec.require_accept_verification = true;
    let r = grade_case(spec, "answer", 60, Some("Accept"), Some("Plan and Risks"), 7);
    assert!(r.passed);
    assert_eq!(r.sections_present, vec!["Plan".to_string(), "Risks".to_string()]);
    assert!(r.sections_missing.is_empty());
    assert_eq!(r.duration_ms, 7);

    let r = grade_case(case("c", "developer", "g", 50, &["Plan", "Risks"]), "answer", 60, None, None, 1);
    assert!(!r.passed);
    assert_eq!(r.verification_status, "Unknown");
    assert_eq!(r.sections_missing, vec!["Plan".to_string(), "Risks".to_string()]);

    let r = grade_case(case("c", "developer", "g", 50, &[]), "answer", 49, None, None, 1);
    assert!(!r.passed);
    let r = grade_case(case("c", "developer", "g", 50, &[]), "  ", 90, None, None, 1);
    assert!(!r.passed && !r.answer_non_empty);
    let mut strict = case("c", "developer", "g", 0, &[]);
    strict.require_accept_verification = true;
    let r = grade_case(strict, "a", 90, Some("Revise"), None, 1);
    assert!(!r.passed);
}

#[test]
fn suite_summary_and_verdict() {
    let a = grade_case(case("a", "smb", "g", 0, &[]), "ok", 80, None, None, 1);
    let b = failed_case(case("b", "smb", "g", 0, &["X"]), "boom".to_string(), 2);
    assert_eq!(b.sections_missing, vec!["X".to_string()]);
    assert_eq!(b.error.as_deref(), Some("boom"));
    let c = grade_case(case("c", "smb", "g", 0, &[]), "ok", 80, None, None, 1);
    let cases = vec![a, b, c];
    let s = summarize(&cases);
    assert_eq!((s.total_cases, s.passed_cases, s.failed_cases, s.pass_rate_pct), (3, 2, 1, 66));
    assert_eq!(suite_verdict(&s).unwrap_err(), "evaluation suite failed: 2 / 3 cases passed");
    assert!(finish_suite("ollama", "s".to_string(), "1".to_string(), 0, Vec::new()).is_err());
    let rep = finish_suite("deterministic", "s".to_string(), "1".to_string(), 5, cases).unwrap();
    assert_eq!(rep.summary.failed_cases, 1);
    assert_eq!(rep.generated_at_epoch_sec, 5);
    let empty = summarize(&Vec::new());
    assert_eq!(empty.pass_rate_pct, 0);
    assert!(suite_verdict(&empty).is_ok());
}
