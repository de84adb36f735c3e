use pata::pipeline::DurableMemoryChecker;
use pata::reasoning::{
    CorrectionDecision, GlobalDecision, GlobalFailureKind, GlobalReasoningVerifier, NoopDurableRuleChecker,
    ReasoningExecution, ReasoningPhase, ReasoningPlan, ReasoningStep, StepResult, StepStatus,
    ValidationFailure, VerificationFailure, VerificationFailureKind,
};
use pata::reasoning::ConfidenceLevel;

fn valid_plan() -> ReasoningPlan {
    ReasoningPlan::new(
        "Diagnose rust borrow checker issue",
        vec![
            ReasoningStep::new(
                ReasoningPhase::Analyze,
                "Read compiler error and context",
                "problem statement",
            ),
            ReasoningStep::new(
                ReasoningPhase::Hypothesis,
                "Propose likely root cause",
                "root cause hypothesis",
            ),
            ReasoningStep::new(
                ReasoningPhase::ActionOrTest,
                "Run focused code change/test",
                "test result",
            ),
            ReasoningStep::new(
                ReasoningPhase::Validation,
                "Verify with tests and constraints",
                "validation report",
            ),
        ],
    )
}

/// The durable rule of the contradiction tests, checked as permanent
/// memory rules are: an output carrying `violate:core-decoupling` breaks it.
fn contradiction_checker() -> DurableMemoryChecker {
    DurableMemoryChecker { rules: vec!["core-decoupling".to_string()] }
}

#[test]
fn builds_valid_reasoning_plan() {
    let plan = valid_plan();
    assert!(plan.validate_structure().is_ok());
}

#[test]
fn rejects_incomplete_reasoning_plan() {
    let plan = ReasoningPlan::new(
        "Incomplete",
        vec![ReasoningStep::new(ReasoningPhase::Analyze, "Only analyze", "analysis")],
    );
    let err = plan.validate_structure().expect_err("must reject incomplete plan");
    assert!(matches!(err, ValidationFailure::IncompletePlan { .. }));
}

#[test]
fn rejects_invalid_step_order() {
    let plan = ReasoningPlan::new(
        "Invalid order",
        vec![
            ReasoningStep::new(ReasoningPhase::Hypothesis, "h", "h"),
            ReasoningStep::new(ReasoningPhase::Analyze, "a", "a"),
            ReasoningStep::new(ReasoningPhase::ActionOrTest, "t", "t"),
            ReasoningStep::new(ReasoningPhase::Validation, "v", "v"),
        ],
    );
    let err = plan.validate_structure().expect_err("must reject invalid order");
    assert!(matches!(err, ValidationFailure::InvalidStepOrder { .. }));
}

#[test]
fn valid_path_without_correction() {
    let mut execution = ReasoningExecution::new(valid_plan(), NoopDurableRuleChecker)
        .expect("valid plan should initialize execution");
    let v1 = execution
        .verify_and_push(StepResult::succeeded(
            ReasoningPhase::Analyze,
            "problem statement extracted".to_string(),
        ))
        .expect("step should verify");
    assert!(v1.passed);
    assert!(matches!(v1.decision, CorrectionDecision::Accept));
    let v2 = execution
        .verify_and_push(StepResult::succeeded(
            ReasoningPhase::Hypothesis,
            "root cause hypothesis: overlapping borrow".to_string(),
        ))
        .expect("step should verify");
    assert!(v2.passed);
    let v3 = execution
        .verify_and_push(StepResult::succeeded(
            ReasoningPhase::ActionOrTest,
            "test result: compile succeeds".to_string(),
        ))
        .expect("step should verify");
    assert!(v3.passed);
    let v4 = execution
        .verify_and_push(StepResult::succeeded(
            ReasoningPhase::Validation,
            "validation report: tests pass".to_string(),
        ))
        .expect("step should verify");
    assert!(v4.passed);
    assert_eq!(execution.results.len(), 4);
}

#[test]
fn detects_internal_inconsistency() {
    let mut execution = ReasoningExecution::new(valid_plan(), NoopDurableRuleChecker)
        .expect("valid plan should initialize execution");
    let verification = execution
        .verify_and_push(StepResult::succeeded(
            ReasoningPhase::Analyze,
            "totally unrelated output".to_string(),
        ))
        .expect("verification should run");
    assert!(!verification.passed);
    assert!(matches!(
        verification.failure,
        Some(VerificationFailure { kind: VerificationFailureKind::InternalInconsistency, .. })
    ));
    assert_eq!(execution.results.len(), 0);
}

#[test]
fn detects_contradiction_with_durable_rule() {
    let mut execution = ReasoningExecution::new(valid_plan(), contradiction_checker())
        .expect("valid plan should initialize execution");
    let _ = execution
        .verify_and_push(StepResult::succeeded(
            ReasoningPhase::Analyze,
            "problem statement complete".to_string(),
        ))
        .expect("first step should pass");
    let verification = execution
        .verify_and_push(StepResult::succeeded(
            ReasoningPhase::Hypothesis,
            "root cause hypothesis violate:core-decoupling".to_string(),
        ))
        .expect("verification should run");
    assert!(!verification.passed);
    assert!(matches!(
        verification.failure,
        Some(VerificationFailure { kind: VerificationFailureKind::DurableRuleContradiction, .. })
    ));
}

#[test]
fn produces_correction_decision_on_invalid_step() {
    let mut execution = ReasoningExecution::new(valid_plan(), NoopDurableRuleChecker)
        .expect("valid plan should initialize execution");
    let verification = execution
        .verify_and_push(StepResult {
            phase: ReasoningPhase::Analyze,
            output: String::new(),
            status: StepStatus::Failed,
        })
        .expect("verification should run");
    match verification.decision {
        CorrectionDecision::ReviseStep { phase, reason } => {
            assert_eq!(phase, ReasoningPhase::Analyze);
            assert_eq!(reason.kind, VerificationFailureKind::InvalidOrInsufficientStep);
            assert_eq!(reason.message, "step output is empty or failed".to_string());
        }
        other => panic!("unexpected decision {other:?}"),
    }
}

#[test]
fn global_verification_accepts_coherent_reasoning() {
    let mut execution = ReasoningExecution::new(valid_plan(), NoopDurableRuleChecker)
        .expect("valid plan should initialize execution");
    let _ = execution.verify_and_push(StepResult::succeeded(
        ReasoningPhase::Analyze,
        "problem statement extracted".to_string(),
    ));
    let _ = execution.verify_and_push(StepResult::succeeded(
        ReasoningPhase::Hypothesis,
        "root cause hypothesis: overlapping borrow".to_string(),
    ));
    let _ = execution.verify_and_push(StepResult::succeeded(
        ReasoningPhase::ActionOrTest,
        "test result confirms root cause hypothesis".to_string(),
    ));
    let _ = execution.verify_and_push(StepResult::succeeded(
        ReasoningPhase::Validation,
        "validation report confirms test result and hypothesis".to_string(),
    ));
    let report = execution.verify_global();
    assert!(report.passed);
    assert_eq!(report.decision, GlobalDecision::Accept);
    assert_eq!(report.confidence, ConfidenceLevel::High);
}

#[test]
fn global_verification_detects_incomplete_reasoning() {
    let mut execution = ReasoningExecution::new(valid_plan(), NoopDurableRuleChecker)
        .expect("valid plan should initialize execution");
    let _ = execution.verify_and_push(StepResult::succeeded(
        ReasoningPhase::Analyze,
        "problem statement extracted".to_string(),
    ));
    let report = execution.verify_global();
    assert!(!report.passed);
    assert!(report.failures.iter().any(|f| f.kind == GlobalFailureKind::IncompleteReasoning));
}

#[test]
fn global_verification_detects_durable_rule_contradiction() {
    let mut execution = ReasoningExecution::new(valid_plan(), contradiction_checker())
        .expect("valid plan should initialize execution");
    let _ = execution.verify_and_push(StepResult::succeeded(
        ReasoningPhase::Analyze,
        "problem statement complete".to_string(),
    ));
    let _ = execution.verify_and_push(StepResult::succeeded(
        ReasoningPhase::Hypothesis,
        "root cause hypothesis violate:core-decoupling".to_string(),
    ));
    let report = execution.verify_global();
    assert!(report.failures.iter().any(|f| f.kind == GlobalFailureKind::DurableRuleContradiction));
}

#[test]
fn global_verification_can_request_revision() {
    let mut execution = ReasoningExecution::new(valid_plan(), NoopDurableRuleChecker)
        .expect("valid plan should initialize execution");
    let _ = execution.verify_and_push(StepResult::succeeded(
        ReasoningPhase::Analyze,
        "totally unrelated output".to_string(),
    ));
    let report = execution.verify_global();
    assert_eq!(report.decision, GlobalDecision::NeedsRevision);
    assert!(!report.passed);
}
