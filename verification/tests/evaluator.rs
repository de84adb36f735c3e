use pata::evaluator::{DeterministicPipelineEvaluator, EvaluationCase, EvaluationDimension, EvaluationResult};
use pata::json::{parse, JsonValue};

fn structured(verification_status: &str, steps: u64, local_verifications: u64, global_failures: Vec<&str>) -> JsonValue {
    let failures: Vec<String> = global_failures.iter().map(|f| format!("\"{f}\"")).collect();
    parse(&format!(
        "{{\"verification_status\":\"{verification_status}\",\"reasoning_steps_executed\":{steps},\"local_verifications\":{local_verifications},\"global_failures\":[{}]}}",
        failures.join(",")
    ))
    .unwrap()
}

fn eval(case: &EvaluationCase, answer: &str, confidence_milli: i64, s: &JsonValue) -> EvaluationResult {
    DeterministicPipelineEvaluator::evaluate_case(case, answer, confidence_milli, Some(s))
}

#[test]
fn evaluation_nominal_case_passes() {
    let case = EvaluationCase {
        case_id: "nominal".to_string(),
        minimum_overall_milli: 700,
        require_accept_verification: true,
    };
    let e = eval(&case, "final answer", 900, &structured("Accept", 4, 4, vec![]));
    assert!(e.passed);
    assert!(e.overall_milli >= 700);
}

#[test]
fn evaluation_low_confidence_case_is_penalized() {
    let case = EvaluationCase {
        case_id: "low-confidence".to_string(),
        minimum_overall_milli: 800,
        require_accept_verification: false,
    };
    let e = eval(&case, "final answer", 200, &structured("Accept", 4, 4, vec![]));
    assert!(!e.passed);
    let confidence_dim = e
        .dimension_scores
        .iter()
        .find(|d| d.dimension == EvaluationDimension::ConfidenceLevel)
        .expect("confidence dimension must exist");
    assert!(confidence_dim.score_milli <= 200);
}

#[test]
fn evaluation_revision_required_case_fails_when_required() {
    let case = EvaluationCase {
        case_id: "must-accept".to_string(),
        minimum_overall_milli: 400,
        require_accept_verification: true,
    };
    let e = eval(
        &case,
        "partial answer",
        800,
        &structured("NeedsRevision", 3, 3, vec!["IncompleteReasoning: missing validation"]),
    );
    assert!(!e.passed);
    assert_eq!(e.verification_status, "NeedsRevision");
}

#[test]
fn evaluation_summary_is_coherent() {
    let case = EvaluationCase {
        case_id: "summary-case".to_string(),
        minimum_overall_milli: 600,
        require_accept_verification: false,
    };
    let a = eval(&case, "ok", 900, &structured("Accept", 4, 4, vec![]));
    let b = eval(&case, "needs work", 300, &structured("NeedsRevision", 2, 2, vec!["failure"]));
    let summary = DeterministicPipelineEvaluator::summarize(&vec![a, b]);
    assert_eq!(summary.total_cases, 2);
    assert!(summary.average_milli <= 1000);
    assert!(!summary.average_by_dimension.is_empty());
}

#[test]
fn evaluation_scores_each_dimension_exactly() {
    let case = EvaluationCase { case_id: "c".to_string(), minimum_overall_milli: 0, require_accept_verification: false };
    let e = eval(&case, "answer", 1500, &structured("Accept", 4, 2, vec![]));
    let scores: Vec<u32> = e.dimension_scores.iter().map(|d| d.score_milli).collect();
    assert_eq!(scores, vec![1000, 1000, 1000, 1000, 500]);
    assert_eq!(e.overall_milli, 900);
    let e = eval(&case, "  ", -5, &structured("NeedsRevision", 4, 1, vec!["x"]));
    let scores: Vec<u32> = e.dimension_scores.iter().map(|d| d.score_milli).collect();
    assert_eq!(scores, vec![200, 400, 300, 0, 275]);
    assert_eq!(e.overall_milli, 235);
    let e = DeterministicPipelineEvaluator::evaluate_case(&case, "a", 500, None);
    assert_eq!(e.verification_status, "Unknown");
    assert_eq!(e.dimension_scores[0].score_milli, 200);
}

#[test]
fn evaluation_summary_averages_by_dimension() {
    let case = EvaluationCase { case_id: "c".to_string(), minimum_overall_milli: 900, require_accept_verification: false };
    let a = eval(&case, "a", 1000, &structured("Accept", 1, 1, vec![]));
    let b = eval(&case, "b", 0, &structured("Accept", 1, 1, vec![]));
    let s = DeterministicPipelineEvaluator::summarize(&vec![a, b]);
    assert_eq!(s.passed_cases, 1);
    assert_eq!(s.average_milli, (900 + 700) / 2);
    let dims: Vec<EvaluationDimension> = s.average_by_dimension.iter().map(|d| d.dimension).collect();
    assert_eq!(dims.len(), 5);
    assert_eq!(dims[3], EvaluationDimension::ConfidenceLevel);
    assert_eq!(s.average_by_dimension[3].score_milli, 500);
    assert_eq!(s.average_by_dimension[0].note, "average score across evaluated cases");
    let empty = DeterministicPipelineEvaluator::summarize(&Vec::new());
    assert_eq!(empty.average_milli, 0);
    assert!(empty.average_by_dimension.is_empty());
}

#[test]
fn self_evaluation_reads_the_run_summary() {
    let summary = pata::pipeline::ExecutionSummary {
        verification_status: "Accept".to_string(),
        confidence_pct: 90,
        reasoning_steps_executed: 4,
        local_verifications: 4,
        global_failures: Vec::new(),
    };
    let e = DeterministicPipelineEvaluator::self_evaluation(&summary, "final answer");
    assert_eq!(e.case_id, "default-orchestrated-run");
    assert_eq!(e.overall_milli, 880);
    assert!(e.passed);
    let failed = pata::pipeline::ExecutionSummary {
        verification_status: "NeedsRevision".to_string(),
        confidence_pct: 10,
        reasoning_steps_executed: 0,
        local_verifications: 0,
        global_failures: vec!["x".to_string()],
    };
    let e = DeterministicPipelineEvaluator::self_evaluation(&failed, "a");
    let scores: Vec<u32> = e.dimension_scores.iter().map(|d| d.score_milli).collect();
    assert_eq!(scores, vec![200, 400, 300, 100, 150]);
    assert!(!e.passed);
}
