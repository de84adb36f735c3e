use pata::checksum::checksum_str;
use pata::coder::persona_contract_snapshot;
use pata::evals::{run, EVAL_SUITE_VERSION};
use pata::fingerprint::{extract_from_file, index_text, load_index, similar_functions};
use pata::intelligence::{mode_from_setting, IntelligenceMode};
use pata::json::{get, obj, parse, strv, JsonValue};
use pata::mission::{mission_text, parse_mission, Mission};
use pata::multiverse::{branch_score, diff_lines, plan_branches, rank_outcomes, BranchOutcome};
use pata::patch::validate_patch_id;
use pata::review::review;
use pata::session::{civil_from_days, day_week_from_epoch, days_from_civil};
use pata::types::{PatchProposal, ValidationResult};
use pata::ui::{on_key, render_string, show_history, KeyOutcome, UiState};
use pata::validation::{detect_regressions, read_baseline, baseline_text, ValidationRun, validate, looks_transient};

#[test]
fn mode_parsing_works() {
    assert_eq!(IntelligenceMode::from_str("safe"), Some(IntelligenceMode::Safe));
    assert_eq!(IntelligenceMode::from_str("bad"), None);
}

#[test]
fn mode_names_and_budgets() {
    assert_eq!(IntelligenceMode::LowPower.as_str(), "low-power");
    assert_eq!(IntelligenceMode::from_str("low-power"), Some(IntelligenceMode::LowPower));
    assert_eq!(IntelligenceMode::Safe.retrieval_n(8), 5);
    assert_eq!(IntelligenceMode::Fast.retrieval_n(8), 4);
    assert_eq!(IntelligenceMode::Deep.retrieval_n(8), 10);
    assert_eq!(IntelligenceMode::Deep.retrieval_n(usize::MAX), usize::MAX);
    assert_eq!(IntelligenceMode::LowPower.retrieval_n(2), 2);
    assert!(!IntelligenceMode::Fast.run_full_validation());
    assert!(IntelligenceMode::Deep.run_full_validation());
    assert_eq!(mode_from_setting(Some("deep")), IntelligenceMode::Deep);
    assert_eq!(mode_from_setting(Some("turbo")), IntelligenceMode::Safe);
    assert_eq!(mode_from_setting(None), IntelligenceMode::Safe);
}

#[test]
fn diff_line_count_works() {
    let d = "+a\n+b\n-c\n context\n";
    assert_eq!(diff_lines(d), 3);
}

#[test]
fn branch_score_follows_the_checks() {
    // 100 - 30 - min(24/12, 18) + 20 + 15
    assert_eq!(branch_score(30, 24, true, true, true, true), 103);
    // 100 - 10 - 18 - 40 - 25
    assert_eq!(branch_score(10, 1000, false, false, false, false), 7);
}

#[test]
fn multiverse_plans_clamped_branches() {
    let plans = plan_branches("fix scanner", true, 9);
    assert_eq!(plans.len(), 4);
    assert_eq!(plans[0].strategy, "minimal");
    assert_eq!(plans[0].objective, "fix scanner [minimal: minimal patch surface]");
    assert_eq!(plans[0].retrieval, 3);
    assert!(!plans[0].run_tests);
    let plans = plan_branches("x", false, 0);
    assert_eq!(plans.len(), 2);
    assert!(plans[0].run_tests);
    assert!(!plans[1].run_tests);
    assert_eq!(plans[1].retrieval, 5);
}

fn outcome(name: &str, score: i32) -> BranchOutcome {
    BranchOutcome {
        strategy: name.to_string(),
        patch_id: format!("p-{name}"),
        risk: 0,
        apply_check_ok: true,
        check_ok: true,
        test_ok: false,
        diff_lines: 1,
        score,
        note: String::new(),
    }
}

#[test]
fn outcomes_rank_best_first_and_keep_ties_in_order() {
    let ranked = rank_outcomes(&vec![outcome("a", 10), outcome("b", 30), outcome("c", 10), outcome("d", 20)]);
    let names: Vec<&str> = ranked.iter().map(|o| o.strategy.as_str()).collect();
    assert_eq!(names, vec!["b", "d", "a", "c"]);
}

#[test]
fn calendar_conversion_stable() {
    let (day, week) = day_week_from_epoch(1_704_067_200);
    assert_eq!(day, "2024-01-01");
    assert!(week.starts_with("2024-W"));
}

#[test]
fn calendar_round_trips_and_pads() {
    assert_eq!(civil_from_days(0), (1970, 1, 1));
    assert_eq!(days_from_civil(2000, 2, 29), 11016);
    assert_eq!(civil_from_days(11016), (2000, 2, 29));
    assert_eq!(civil_from_days(-1), (1969, 12, 31));
    let (day, week) = day_week_from_epoch(0);
    assert_eq!(day, "1970-01-01");
    assert_eq!(week, "1970-W01");
}

#[test]
fn function_extraction_works() {
    let src = "pub fn a(x:i32)->Result<(),String>{if x>0 {Ok(())} else {Err(\"x\".into())}}\nfn b(){for _i in 0..1 {}}\n";
    let fps = extract_from_file("src/t.rs", src);
    assert_eq!(fps.len(), 2);
    assert_eq!(fps[0].name, "a");
    assert!(fps[0].has_result);
}

#[test]
fn fingerprint_shapes_and_similarity() {
    let src = "pub fn a(x: i32, y: i32) -> i32 { if x > y { x } else { y } }\nfn b(x: i32) -> i32 { x }\nasync fn c() {}\n";
    let fps = extract_from_file("src/t.rs", src);
    assert_eq!(fps.len(), 3);
    assert_eq!(fps[0].args, 2);
    assert!(fps[0].has_return);
    assert_eq!(fps[0].control_score, 1);
    assert!(fps[2].has_async);
    assert_eq!(fps[0].shape_hash.len() > 0, true);
    let table = index_text(&fps);
    let back = load_index(&table);
    assert_eq!(back.len(), 3);
    assert_eq!(back[1].name, "b");
    assert_eq!(back[0].shape_hash, fps[0].shape_hash);
    let near = similar_functions(&back, "a", 5);
    assert_eq!(near.len(), 2);
    assert_eq!(near[0].0.name, "b");
    assert_eq!(near[0].1, 2);
    assert!(similar_functions(&back, "zzz", 5).is_empty());
}

#[test]
fn persona_contract_is_versioned_and_strict() {
    let c = persona_contract_snapshot();
    assert!(c.version.starts_with("persona."));
    assert!(c.clauses.len() >= 5);
    assert!(c.clauses.iter().any(|line| line.contains("unified diff only")));
}

#[test]
fn invalid_patch_id_is_rejected() {
    let err = validate_patch_id("../evil").unwrap_err();
    assert!(err.contains("invalid"));
}

#[test]
fn checksum_is_sha256_hex() {
    let checksum = checksum_str("abc");
    assert_eq!(checksum.len(), 64);
    assert!(checksum.chars().all(|c| c.is_ascii_hexdigit()));
}

#[test]
fn checksum_of_abc_is_the_known_digest() {
    assert_eq!(
        checksum_str("abc"),
        "ba7816bf8f01cfea414140de5dae2223b00361a396177a9cb410ff61f20015ad"
    );
    assert_eq!(
        checksum_str(""),
        "e3b0c44298fc1c149afbf4c8996fb92427ae41e4649b934ca495991b7852b855"
    );
}

#[test]
fn reviewer_scores_critical_files_high() {
    let p = PatchProposal {
        id: "p1".to_string(),
        objective: "x".to_string(),
        diff: "diff --git a/src/main.rs b/src/main.rs\n--- a/src/main.rs\n+++ b/src/main.rs\n+unsafe fn x(){}\n"
            .to_string(),
        files: vec!["src/main.rs".to_string()],
    };
    let r = review(&p, &["src/main.rs"]);
    assert!(!r.risk.allowed);
    assert!(r.risk.score >= 45);
    assert!(!r.risk.critical_files.is_empty());
}

#[test]
fn parses_workspace_root() {
    let j = parse(r#"{"workspace_root":"/tmp/w","packages":[]}"#).unwrap();
    let o = obj(&j).unwrap();
    assert_eq!(get(o, "workspace_root").and_then(strv), Some("/tmp/w"));
}

#[test]
fn json_reads_nested_values_and_reports_errors() {
    let j = parse(" {\"b\": [1, -2.5, true, null, \"x\\ny\"], \"a\": {}, \"b\": false} ").unwrap();
    let o = obj(&j).unwrap();
    assert_eq!(o.len(), 2);
    assert_eq!(o[0].0, "a");
    assert!(matches!(get(o, "b"), Some(JsonValue::Bool(false))));
    let j2 = parse("[1, -2.5, \"x\\ny\"]").unwrap();
    match j2 {
        JsonValue::Arr(items) => {
            assert!(matches!(&items[1], JsonValue::Num(n) if n == "-2.5"));
            assert!(matches!(&items[2], JsonValue::Str(s) if s == "x\ny"));
        }
        other => panic!("unexpected {other:?}"),
    }
    assert_eq!(parse("[1] x").unwrap_err(), "trailing json");
    assert_eq!(parse("{\"a\" 1}").unwrap_err(), "unexpected char");
    assert_eq!(parse("[1 2]").unwrap_err(), "bad array");
    assert_eq!(parse("{\"a\":1 \"b\":2}").unwrap_err(), "bad object");
    assert_eq!(parse("\"abc").unwrap_err(), "unterminated string");
    assert_eq!(parse("\"\\q\"").unwrap_err(), "unsupported escape");
    assert_eq!(parse("-").unwrap_err(), "bad num");
    assert_eq!(parse("tru").unwrap_err(), "bad bool");
    assert_eq!(parse("?").unwrap_err(), "unexpected token");
}

#[test]
fn detects_runtime_regression_against_baseline() {
    let base = read_baseline(&baseline_text(100));
    assert_eq!(base, Some(100));
    let alerts = detect_regressions(true, true, true, 130, base);
    assert!(alerts.iter().any(|a| a.contains("runtime-regression")));
    assert_eq!(alerts, vec!["runtime-regression:130ms>125ms(base=100ms,+25%)".to_string()]);
    assert!(detect_regressions(true, true, true, 125, base).is_empty());
    assert_eq!(detect_regressions(false, true, true, 1, None), vec!["build-pipeline-not-green".to_string()]);
}

#[test]
fn validation_run_retries_transient_failures_then_falls_back() {
    let mut run = ValidationRun::new();
    assert_eq!(run.next_command().unwrap(), vec!["check", "--all-targets", "--offline"]);
    run.record_output(Some(101), b"", b"error: Timed out while fetching");
    assert_eq!(run.next_command().unwrap(), vec!["check", "--all-targets", "--offline"]);
    run.record_output(Some(101), b"", b"error: timed out");
    assert_eq!(run.next_command().unwrap(), vec!["check", "--all-targets"]);
    run.record_output(Some(0), b"ok", b"");
    assert_eq!(run.next_command().unwrap(), vec!["clippy", "--offline", "--", "-D", "warnings"]);
    run.record_spawn_error("no cargo");
    assert_eq!(run.next_command().unwrap(), vec!["clippy", "--", "-D", "warnings"]);
    run.record_output(None, b"", b"killed");
    assert_eq!(run.next_command().unwrap(), vec!["test", "--offline", "--quiet"]);
    run.record_output(Some(0), b"", b"");
    assert!(run.next_command().is_none());
    assert!(run.check_ok && !run.clippy_ok && run.test_ok);
    assert_eq!(run.logs[0], "$ cargo check --all-targets --offline => 101");
    assert_eq!(run.logs[2], "retrying transient failure: cargo check --all-targets --offline");
    assert!(run.logs.iter().any(|l| l == "cargo [\"clippy\", \"--offline\", \"--\", \"-D\", \"warnings\"] failed: no cargo"));
    assert!(run.logs.iter().any(|l| l == "$ cargo clippy -- -D warnings => -1"));
    let result = validate(run, 42, None);
    assert!(!result.ok());
    assert_eq!(result.regression_alerts, vec!["build-pipeline-not-green".to_string()]);
    assert_eq!(result.eval_version, "validate.v2");
    assert!(looks_transient(b"Blocking waiting for file lock on package cache"));
    assert!(!looks_transient(b"error[E0308]: mismatched types"));
}

#[test]
fn status_panel_is_rendered() {
    let mut state = UiState::new();
    state.status = vec!["git=clean".to_string(), "ollama=ok".to_string()];
    let out = render_string(&state);
    assert!(out.contains("Status"));
    assert!(out.contains("ollama=ok"));
}

#[test]
fn keys_switch_views_and_unknown_keys_are_reported() {
    let mut state = UiState::new();
    assert_eq!(on_key(&mut state, Some('f')), KeyOutcome::Redraw);
    assert_eq!(state.active_view, "files");
    assert_eq!(on_key(&mut state, Some('x')), KeyOutcome::Redraw);
    assert_eq!(state.terminal.last().unwrap(), "unknown key x");
    assert_eq!(on_key(&mut state, Some('h')), KeyOutcome::LoadHistory);
    show_history(&mut state, Some("a\nlast line\n"));
    assert_eq!(state.active_view, "history");
    assert_eq!(state.chat.last().unwrap(), "last line");
    show_history(&mut state, None);
    assert_eq!(state.chat.last().unwrap(), "no history");
    assert_eq!(on_key(&mut state, Some('q')), KeyOutcome::Quit);
    assert_eq!(on_key(&mut state, None), KeyOutcome::Quit);
}

#[test]
fn mission_text_reads_back() {
    let m = Mission {
        id: "m1".to_string(),
        objective: "Improve scanner".to_string(),
        mode: "safe".to_string(),
        status: "planning".to_string(),
        steps: vec!["a".to_string(), "b".to_string()],
        last_patch: "none".to_string(),
        last_validation: "unknown".to_string(),
    };
    let m2 = parse_mission(&mission_text(&m));
    assert_eq!(m2.id, "m1");
    assert_eq!(m2.steps.len(), 2);
    assert_eq!(m2.objective, "Improve scanner");
    assert_eq!(m2.last_validation, "unknown");
}

fn eval_input(ok: bool, ms: u128, alerts: Vec<String>) -> ValidationResult {
    ValidationResult {
        eval_version: "x".to_string(),
        check_ok: true,
        clippy_ok: ok,
        test_ok: true,
        total_duration_ms: ms,
        regression_alerts: alerts,
        logs: Vec::new(),
    }
}

#[test]
fn eval_suite_blocks_on_regression() {
    let v = eval_input(true, 10, vec!["slowdown".to_string()]);
    let run = run(".", &v);
    assert!(run.blocked);
    assert_eq!(run.score_pct, 75);
}

#[test]
fn eval_suite_passes_when_all_cases_pass() {
    let r = run(".", &eval_input(true, 180000, Vec::new()));
    assert!(!r.blocked);
    assert_eq!(r.score_pct, 100);
    assert_eq!(r.suite_version, EVAL_SUITE_VERSION);
    let names: Vec<&str> = r.cases.iter().map(|c| c.name.as_str()).collect();
    assert_eq!(
        names,
        vec!["pipeline_green", "regression_threshold_gate", "persona_contract_integrity", "runtime_budget"]
    );
    assert_eq!(r.cases[0].detail, "check=true clippy=true test=true");
    assert_eq!(r.cases[1].detail, "no regression");
    assert_eq!(r.cases[3].detail, "duration_ms=180000 budget_ms=180000");
}

#[test]
fn eval_suite_scores_each_failed_case() {
    let r = run(".", &eval_input(false, 180001, vec!["a".to_string(), "b".to_string()]));
    assert!(r.blocked);
    assert_eq!(r.score_pct, 25);
    assert_eq!(r.cases[0].detail, "check=true clippy=false test=true");
    assert_eq!(r.cases[1].detail, "a | b");
    assert!(r.cases[2].passed);
    assert!(!r.cases[3].passed);
}

#[test]
fn day_numbers_round_trip_through_dates() {
    for d in [-800_000i64, -719_469, -1, 0, 59, 60, 11_016, 20_000, 2_932_896] {
        let (y, m, day) = civil_from_days(d);
        assert_eq!(days_from_civil(y, m, day), d);
    }
}

#[test]
fn valid_dates_round_trip_through_day_numbers() {
    for (y, m, d) in [(2000i64, 2u32, 29u32), (1900, 2, 28), (1900, 3, 1), (1969, 12, 31), (2024, 2, 29), (1, 1, 1), (2400, 12, 31)] {
        assert_eq!(civil_from_days(days_from_civil(y, m, d)), (y, m, d));
    }
}

#[test]
fn tui_panels_are_built_from_plain_values() {
    let paths: Vec<String> = (0..10).map(|i| format!("f{i}.rs")).collect();
    assert_eq!(pata::ui::files_panel(&paths, true).len(), 5);
    assert_eq!(pata::ui::files_panel(&paths, false).len(), 8);
    let m = pata::ui::memory_panel(3, ".pata/memory/task_memory.jsonl", false, "ok=true\ncheck=true\n", "state=ok");
    assert_eq!(m[0], "indexed_files=3");
    assert_eq!(m[2], "low_power=false");
    assert_eq!(m[3], "last_validate=ok=true | check=true | ");
    assert_eq!(m[4], "last_ollama_diag=state=ok");
    assert_eq!(pata::ui::bar_lines("a\nb"), "a | b");
    assert_eq!(pata::ui::patch_panel("p1", "risk=3"), "patch=p1\nrisk=3");
}

#[test]
fn signatures_change_when_file_changes() {
    let s1 = pata::fingerprint::file_signature(&b"fn a(){}\n".to_vec());
    let s2 = pata::fingerprint::file_signature(&b"fn a(){println!(\"x\");}\n".to_vec());
    assert_ne!(s1, s2);
    assert_eq!(s1, pata::fingerprint::file_signature(&b"fn a(){}\n".to_vec()));
    assert!(s1.chars().all(|c| c.is_ascii_hexdigit() && !c.is_ascii_uppercase()));
}

#[test]
fn memory_files_are_formatted() {
    let fs = vec![pata::types::FileSummary {
        path: "src/a.rs".to_string(),
        lines: 3,
        symbols: vec!["fn a".to_string(), "struct B".to_string()],
        module_summary: "m".to_string(),
    }];
    assert_eq!(
        pata::scanner::file_summaries_text(&fs),
        "path=src/a.rs\nlines=3\nmodule_summary=m\nsymbols=fn a | struct B\n---\n"
    );
    assert_eq!(pata::scanner::signature_line("src/a.rs", 12, "ff"), "src/a.rs\t12\tff\n");
    let hits = vec![
        pata::types::RetrievalHit { path: "a.rs".to_string(), score: 30, excerpt: String::new() },
        pata::types::RetrievalHit { path: "b.rs".to_string(), score: 10, excerpt: String::new() },
    ];
    assert_eq!(
        pata::retrieval::retrieval_snapshot_text("q", &hits, 7),
        "query=q\nmax_loaded=2\nts=7\nhit=a.rs score=30 recency_score=2\nhit=b.rs score=10 recency_score=1\n"
    );
}
