use pata::pipeline::{PipelineEventType, PipelineRun};
use pata::reasoning::GlobalDecision;

fn nominal_model(prompt: &str) -> String {
    if prompt.contains("Analyze") {
        return "problem statement extracted".to_string();
    }
    if prompt.contains("Hypothesis") {
        return "root cause hypothesis: ownership mismatch".to_string();
    }
    if prompt.contains("ActionOrTest") {
        return "test result confirms root cause hypothesis".to_string();
    }
    "validation report confirms test result and hypothesis".to_string()
}

fn retry_model(prompt: &str, analyze_calls: &mut usize, fail_always: bool) -> String {
    if prompt.contains("Step: Analyze") {
        *analyze_calls += 1;
        if fail_always || *analyze_calls == 1 {
            return "content intentionally incoherent".to_string();
        }
        return "problem statement extracted".to_string();
    }
    nominal_model(prompt)
}

fn drive(mut model: impl FnMut(&str) -> String) -> (PipelineRun, GlobalDecision, u32, String) {
    let mut run = PipelineRun::start("Fix rust compile error", Vec::new(), Vec::new());
    let mut calls = 0;
    while !run.steps_done {
        let prompt = run.prompt("test");
        let out = model(&prompt);
        run.on_model_output(out);
        calls += 1;
        assert!(calls <= 12, "the run must end");
    }
    let (report, content) = run.finish();
    run.record_final();
    (run, report.decision, report.score_pct, content)
}

#[test]
fn orchestrated_flow_nominal_run() {
    let (run, decision, score, content) = drive(nominal_model);
    assert!(content.contains("validation report"));
    assert!(score >= 75);
    assert_eq!(decision, GlobalDecision::Accept);
    assert_eq!(run.execution.results.len(), 4);
    let events = run.trace.into_events();
    let types: Vec<PipelineEventType> = events.iter().map(|e| e.event_type).collect();
    let pos = |t: PipelineEventType| types.iter().position(|x| *x == t).expect("event must exist");
    assert!(pos(PipelineEventType::ExecutionStarted) < pos(PipelineEventType::MemoryRetrieved));
    assert!(pos(PipelineEventType::MemoryRetrieved) < pos(PipelineEventType::ReasoningPlanPrepared));
    assert!(pos(PipelineEventType::ReasoningPlanPrepared) < pos(PipelineEventType::GlobalVerificationCompleted));
    assert!(pos(PipelineEventType::GlobalVerificationCompleted) < pos(PipelineEventType::FinalResultProduced));
    for (i, e) in events.iter().enumerate() {
        assert_eq!(e.index, i);
    }
}

#[test]
fn retry_success_is_recorded() {
    let mut n = 0;
    let (run, _, _, _) = drive(|p| retry_model(p, &mut n, false));
    assert_eq!(n, 2);
    assert_eq!(run.correction_attempts, 1);
    assert!(run.final_failure_phase.is_none());
    assert_eq!(run.step_retry_count.len(), 1);
    assert_eq!(run.step_retry_count[0].phase, "Analyze");
    assert_eq!(run.step_retry_count[0].count, 1);
    assert_eq!(run.correction_history.len(), 1);
    assert_eq!(run.correction_history[0].phase, "Analyze");
    assert_eq!(run.correction_history[0].attempt_number, 2);
    assert!(run.correction_history[0].succeeded);
    let types: Vec<PipelineEventType> = run.trace.into_events().iter().map(|e| e.event_type).collect();
    let started = types.iter().position(|t| *t == PipelineEventType::CorrectionAttemptStarted).unwrap();
    let succeeded = types.iter().position(|t| *t == PipelineEventType::CorrectionAttemptSucceeded).unwrap();
    assert!(started < succeeded);
}

#[test]
fn retry_failure_ends_with_revision_required() {
    let mut n = 0;
    let (run, decision, _, _) = drive(|p| retry_model(p, &mut n, true));
    assert_eq!(decision, GlobalDecision::NeedsRevision);
    assert_eq!(n, 3);
    assert_eq!(run.correction_attempts, 2);
    assert_eq!(run.step_retry_count[0].count, 2);
    assert_eq!(run.correction_history.len(), 2);
    assert!(run.correction_history.iter().all(|h| h.phase == "Analyze" && !h.succeeded));
    assert_eq!(run.final_failure_phase.as_deref(), Some("Analyze"));
    let types: Vec<PipelineEventType> = run.trace.into_events().iter().map(|e| e.event_type).collect();
    assert!(types.contains(&PipelineEventType::CorrectionAttemptFailed));
}
