//! Versioned evaluation suites run through the persona agents: what a
//! suite file must hold, how one case is graded from the run it caused, and
//! the summary of a suite. Confidences are in hundredths.
use crate::personas::{persona_names, PersonaRegistry};
use crate::runtime::{goal_problem, validate_goal};
use crate::text::{
    contains_sub, dec, is_blank, owned, push_dec, push_str, str_contains, str_eq, str_trim,
    string_of, trim, views,
};
use vstd::prelude::*;

verus! {

/// The runtime configuration: the model mode and the persona, if named.
#[derive(Debug)]
pub struct AppConfig {
    pub mode: String,
    pub persona: Option<String>,
}

/// One case of a suite. `minimum_confidence_pct` is the least confidence
/// accepted, in hundredths (a valid case holds it in `0..=100`).
#[derive(Debug)]
pub struct EvalCaseSpec {
    pub case_id: String,
    pub persona: String,
    pub goal: String,
    pub require_accept_verification: bool,
    pub minimum_confidence_pct: i64,
    pub required_sections: Vec<String>,
}

/// A versioned evaluation suite.
#[derive(Debug)]
pub struct EvaluationSuite {
    pub suite_id: String,
    pub suite_version: String,
    pub cases: Vec<EvalCaseSpec>,
}

/// The graded outcome of one case.
#[derive(Debug)]
pub struct EvalCaseResult {
    pub case_id: String,
    pub persona: String,
    pub goal: String,
    pub passed: bool,
    pub verification_status: String,
    pub confidence_pct: u32,
    pub answer_non_empty: bool,
    pub sections_present: Vec<String>,
    pub sections_missing: Vec<String>,
    pub duration_ms: u128,
    pub error: Option<String>,
}

/// Counts over the graded cases; the pass rate is in hundredths.
#[derive(Debug, Clone, Copy)]
pub struct EvalSuiteSummary {
    pub total_cases: usize,
    pub passed_cases: usize,
    pub failed_cases: usize,
    pub pass_rate_pct: u32,
}

/// The report of a suite run.
#[derive(Debug)]
pub struct EvalSuiteResult {
    pub suite_id: String,
    pub suite_version: String,
    pub generated_at_epoch_sec: u64,
    pub summary: EvalSuiteSummary,
    pub cases: Vec<EvalCaseResult>,
}

// ---------------------------------------------------------------------------
// Configuration
// ---------------------------------------------------------------------------

/// Why a configuration is refused, if it is.
pub open spec fn config_problem(mode: Seq<char>, persona: Option<Seq<char>>) -> Option<Seq<char>> {
    if trim(mode).len() == 0 {
        Some("config.model.mode must not be empty"@)
    } else {
        match persona {
            Some(p) => if persona_names().contains(trim(p)) {
                None
            } else {
                Some("invalid config.persona.name '"@ + p + "': unknown persona"@)
            },
            None => None,
        }
    }
}

/// Checks a runtime configuration: a mode must be given, and a named
/// persona must be registered.
pub fn check_config(config: &AppConfig) -> (r: Result<(), String>)
    ensures
        match r {
            Ok(()) => config_problem(config.mode@, opt_view(config.persona)) is None,
            Err(m) => config_problem(config.mode@, opt_view(config.persona)) == Some(m@),
        },
{
    if is_blank(config.mode.as_str()) {
        return Err(owned("config.model.mode must not be empty"));
    }
    match &config.persona {
        None => Ok(()),
        Some(p) => {
            let t = string_of(&str_trim(p.as_str()));
            if PersonaRegistry::is_registered(t.as_str()) {
                Ok(())
            } else {
                let mut m = owned("invalid config.persona.name '");
                push_str(&mut m, p.as_str());
                push_str(&mut m, "': unknown persona");
                Err(m)
            }
        },
    }
}

/// The view of an optional text.
pub open spec fn opt_view(o: Option<String>) -> Option<Seq<char>> {
    match o {
        Some(s) => Some(s@),
        None => None,
    }
}

// ---------------------------------------------------------------------------
// Suite checks
// ---------------------------------------------------------------------------

/// A confidence bound in hundredths that lies in `[0, 1]`.
pub open spec fn confidence_in_range(p: i64) -> bool {
    0 <= p <= 100
}

/// The identifier of case `i` was used by an earlier case.
pub open spec fn id_seen(cases: Seq<EvalCaseSpec>, i: int) -> bool {
    exists|j: int| 0 <= j < i && #[trigger] cases[j].case_id@ == cases[i].case_id@
}

/// Why case `i` of a suite is refused, if it is.
pub open spec fn case_problem(cases: Seq<EvalCaseSpec>, i: int) -> Option<Seq<char>> {
    let c = cases[i];
    if id_seen(cases, i) {
        Some("duplicate case_id found in eval suite: '"@ + c.case_id@ + "'"@)
    } else if goal_problem(c.goal@) is Some {
        Some("invalid goal in case "@ + c.case_id@)
    } else if !persona_names().contains(trim(c.persona@)) {
        Some("invalid persona '"@ + c.persona@ + "' in case '"@ + c.case_id@ + "': unknown persona"@)
    } else if !confidence_in_range(c.minimum_confidence_pct) {
        Some("invalid minimum_confidence in case '"@ + c.case_id@ + "': expected value in [0, 1]"@)
    } else {
        None
    }
}

/// The first refused case from `i` on, in order.
pub open spec fn first_case_problem(cases: Seq<EvalCaseSpec>, i: int) -> Option<Seq<char>>
    decreases cases.len() - i,
{
    if i < 0 || i >= cases.len() {
        None
    } else {
        match case_problem(cases, i) {
            Some(m) => Some(m),
            None => first_case_problem(cases, i + 1),
        }
    }
}

/// Why a suite is refused, if it is.
pub open spec fn suite_problem(s: EvaluationSuite) -> Option<Seq<char>> {
    if trim(s.suite_id@).len() == 0 || trim(s.suite_version@).len() == 0 {
        Some("eval suite must include non-empty suite_id and suite_version"@)
    } else if s.cases@.len() == 0 {
        Some("eval suite must include at least one case"@)
    } else {
        first_case_problem(s.cases@, 0)
    }
}

proof fn lemma_first_case_problem(cases: Seq<EvalCaseSpec>, from: int, to: int)
    requires
        0 <= from <= to <= cases.len(),
        forall|k: int| from <= k < to ==> #[trigger] case_problem(cases, k) is None,
    ensures
        first_case_problem(cases, from) == first_case_problem(cases, to),
    decreases to - from,
{
    if from < to {
        lemma_first_case_problem(cases, from + 1, to);
    }
}

/// Whether an identifier occurs among the first `i` cases.
fn id_used_before(cases: &Vec<EvalCaseSpec>, i: usize) -> (r: bool)
    requires
        i < cases@.len(),
    ensures
        r == id_seen(cases@, i as int),
{
    let mut j: usize = 0;
    while j < i
        invariant
            j <= i < cases@.len(),
            forall|k: int| 0 <= k < j ==> cases@[k].case_id@ != cases@[i as int].case_id@,
        decreases i - j,
    {
        if str_eq(cases[j].case_id.as_str(), cases[i].case_id.as_str()) {
            return true;
        }
        j = j + 1;
    }
    false
}

/// Checks one case of a suite.
fn check_case(cases: &Vec<EvalCaseSpec>, i: usize) -> (r: Result<(), String>)
    requires
        i < cases@.len(),
    ensures
        match r {
            Ok(()) => case_problem(cases@, i as int) is None,
            Err(m) => case_problem(cases@, i as int) == Some(m@),
        },
{
    let c = &cases[i];
    if id_used_before(cases, i) {
        let mut m = owned("duplicate case_id found in eval suite: '");
        push_str(&mut m, c.case_id.as_str());
        push_str(&mut m, "'");
        return Err(m);
    }
    if validate_goal(c.goal.as_str()).is_err() {
        let mut m = owned("invalid goal in case ");
        push_str(&mut m, c.case_id.as_str());
        return Err(m);
    }
    let t = string_of(&str_trim(c.persona.as_str()));
    if !PersonaRegistry::is_registered(t.as_str()) {
        let mut m = owned("invalid persona '");
        push_str(&mut m, c.persona.as_str());
        push_str(&mut m, "' in case '");
        push_str(&mut m, c.case_id.as_str());
        push_str(&mut m, "': unknown persona");
        return Err(m);
    }
    if !(0 <= c.minimum_confidence_pct && c.minimum_confidence_pct <= 100) {
        let mut m = owned("invalid minimum_confidence in case '");
        push_str(&mut m, c.case_id.as_str());
        push_str(&mut m, "': expected value in [0, 1]");
        return Err(m);
    }
    Ok(())
}

/// Checks a suite: it names itself and its version, holds a case, and each
/// case has a fresh identifier, a valid goal, a registered persona and a
/// confidence bound in `[0, 1]`. The first problem found is returned.
pub fn check_suite(suite: &EvaluationSuite) -> (r: Result<(), String>)
    ensures
        match r {
            Ok(()) => suite_problem(*suite) is None,
            Err(m) => suite_problem(*suite) == Some(m@),
        },
{
    if is_blank(suite.suite_id.as_str()) || is_blank(suite.suite_version.as_str()) {
        return Err(owned("eval suite must include non-empty suite_id and suite_version"));
    }
    if suite.cases.len() == 0 {
        return Err(owned("eval suite must include at least one case"));
    }
    let mut i: usize = 0;
    while i < suite.cases.len()
        invariant
            i <= suite.cases@.len(),
            trim(suite.suite_id@).len() > 0 && trim(suite.suite_version@).len() > 0,
            suite.cases@.len() > 0,
            forall|k: int| 0 <= k < i ==> #[trigger] case_problem(suite.cases@, k) is None,
        decreases suite.cases.len() - i,
    {
        match check_case(&suite.cases, i) {
            Err(m) => {
                proof {
                    lemma_first_case_problem(suite.cases@, 0, i as int);
                    assert(first_case_problem(suite.cases@, i as int) == Some(m@));
                }
                return Err(m);
            },
            Ok(()) => {},
        }
        i = i + 1;
    }
    proof {
        lemma_first_case_problem(suite.cases@, 0, i as int);
    }
    Ok(())
}

/// A suite that passes its checks has no two cases with one identifier.
pub proof fn law_accepted_suite_ids_are_unique(s: EvaluationSuite)
    requires
        suite_problem(s) is None,
    ensures
        forall|i: int, j: int|
            0 <= i < j < s.cases@.len() ==> #[trigger] s.cases@[i].case_id@ != #[trigger] s.cases@[j].case_id@,
{
    let cases = s.cases@;
    assert forall|i: int, j: int| 0 <= i < j < cases.len() implies #[trigger] cases[i].case_id@
        != #[trigger] cases[j].case_id@ by {
        lemma_no_problem_from(cases, 0, j);
        if cases[i].case_id@ == cases[j].case_id@ {
            assert(id_seen(cases, j));
        }
    }
}

proof fn lemma_no_problem_from(cases: Seq<EvalCaseSpec>, from: int, k: int)
    requires
        0 <= from <= k < cases.len(),
        first_case_problem(cases, from) is None,
    ensures
        case_problem(cases, k) is None,
    decreases k - from,
{
    if from < k {
        lemma_no_problem_from(cases, from + 1, k);
    }
}

// ---------------------------------------------------------------------------
// Grading
// ---------------------------------------------------------------------------

/// The required sections that occur in the response, in order.
pub open spec fn present_sections(req: Seq<Seq<char>>, raw: Seq<char>) -> Seq<Seq<char>>
    decreases req.len(),
{
    if req.len() == 0 {
        Seq::empty()
    } else {
        let rest = present_sections(req.drop_last(), raw);
        if contains_sub(raw, req.last()) {
            rest.push(req.last())
        } else {
            rest
        }
    }
}

/// The required sections missing from the response, in order.
pub open spec fn missing_sections(req: Seq<Seq<char>>, raw: Seq<char>) -> Seq<Seq<char>>
    decreases req.len(),
{
    if req.len() == 0 {
        Seq::empty()
    } else {
        let rest = missing_sections(req.drop_last(), raw);
        if contains_sub(raw, req.last()) {
            rest
        } else {
            rest.push(req.last())
        }
    }
}

/// The text of an optional field, or a default.
pub open spec fn text_or(o: Option<Seq<char>>, d: Seq<char>) -> Seq<char> {
    match o {
        Some(t) => t,
        None => d,
    }
}

/// Whether a case passes: a non-blank answer, an accepted verification
/// where asked, enough confidence and every required section present.
pub open spec fn case_passes(
    spec: EvalCaseSpec,
    answer: Seq<char>,
    confidence_pct: u32,
    status: Seq<char>,
    raw: Seq<char>,
) -> bool {
    &&& trim(answer).len() > 0
    &&& (!spec.require_accept_verification || status == "Accept"@)
    &&& confidence_pct >= spec.minimum_confidence_pct
    &&& missing_sections(views(spec.required_sections@), raw).len() == 0
}

/// Splits the required sections into those present and those missing.
fn split_sections(req: &Vec<String>, raw: &str) -> (r: (Vec<String>, Vec<String>))
    ensures
        views(r.0@) == present_sections(views(req@), raw@),
        views(r.1@) == missing_sections(views(req@), raw@),
{
    let mut present: Vec<String> = Vec::new();
    let mut missing: Vec<String> = Vec::new();
    let mut i: usize = 0;
    while i < req.len()
        invariant
            i <= req@.len(),
            views(present@) == present_sections(views(req@).take(i as int), raw@),
            views(missing@) == missing_sections(views(req@).take(i as int), raw@),
        decreases req.len() - i,
    {
        assert(views(req@).take(i + 1).drop_last() =~= views(req@).take(i as int));
        assert(views(req@).take(i + 1).last() == req@[i as int]@);
        let s = owned(req[i].as_str());
        if str_contains(raw, req[i].as_str()) {
            present.push(s);
            assert(views(present@) =~= present_sections(views(req@).take(i as int), raw@).push(req@[i as int]@));
        } else {
            missing.push(s);
            assert(views(missing@) =~= missing_sections(views(req@).take(i as int), raw@).push(req@[i as int]@));
        }
        i = i + 1;
    }
    assert(views(req@).take(i as int) =~= views(req@));
    (present, missing)
}

/// Grades one case from the run it caused: the answer, its confidence in
/// hundredths, and the `verification_status` and `raw_response` fields of
/// the structured output where they are there (`"Unknown"` and the empty
/// text otherwise).
pub fn grade_case(
    spec: EvalCaseSpec,
    answer: &str,
    confidence_pct: u32,
    verification_status: Option<&str>,
    raw_response: Option<&str>,
    duration_ms: u128,
) -> (r: EvalCaseResult)
    ensures
        r.case_id@ == spec.case_id@,
        r.persona@ == spec.persona@,
        r.goal@ == spec.goal@,
        r.verification_status@ == text_or(opt_str(verification_status), "Unknown"@),
        r.confidence_pct == confidence_pct,
        r.answer_non_empty == (trim(answer@).len() > 0),
        views(r.sections_present@) == present_sections(
            views(spec.required_sections@),
            text_or(opt_str(raw_response), ""@),
        ),
        views(r.sections_missing@) == missing_sections(
            views(spec.required_sections@),
            text_or(opt_str(raw_response), ""@),
        ),
        r.passed == case_passes(
            spec,
            answer@,
            confidence_pct,
            text_or(opt_str(verification_status), "Unknown"@),
            text_or(opt_str(raw_response), ""@),
        ),
        r.duration_ms == duration_ms,
        r.error is None,
{
    let status = match verification_status {
        Some(s) => owned(s),
        None => owned("Unknown"),
    };
    let raw = match raw_response {
        Some(s) => s,
        None => "",
    };
    let (present, missing) = split_sections(&spec.required_sections, raw);
    let answer_non_empty = !is_blank(answer);
    let verification_ok = !spec.require_accept_verification || str_eq(status.as_str(), "Accept");
    let confidence_ok = (confidence_pct as i64) >= spec.minimum_confidence_pct;
    let passed = answer_non_empty && verification_ok && confidence_ok && missing.len() == 0;
    proof {
        reveal_strlit("Accept");
    }
    EvalCaseResult {
        case_id: spec.case_id,
        persona: spec.persona,
        goal: spec.goal,
        passed,
        verification_status: status,
        confidence_pct,
        answer_non_empty,
        sections_present: present,
        sections_missing: missing,
        duration_ms,
        error: None,
    }
}

/// The view of an optional borrowed text.
pub open spec fn opt_str(o: Option<&str>) -> Option<Seq<char>> {
    match o {
        Some(s) => Some(s@),
        None => None,
    }
}

/// The outcome of a case whose run failed: not passed, every required
/// section missing, and the error kept.
pub fn failed_case(spec: EvalCaseSpec, error: String, duration_ms: u128) -> (r: EvalCaseResult)
    ensures
        r.case_id@ == spec.case_id@,
        r.persona@ == spec.persona@,
        r.goal@ == spec.goal@,
        !r.passed,
        r.verification_status@ == "ExecutionError"@,
        r.confidence_pct == 0,
        !r.answer_non_empty,
        r.sections_present@.len() == 0,
        views(r.sections_missing@) == views(spec.required_sections@),
        r.duration_ms == duration_ms,
        r.error matches Some(e) && e@ == error@,
{
    EvalCaseResult {
        case_id: spec.case_id,
        persona: spec.persona,
        goal: spec.goal,
        passed: false,
        verification_status: owned("ExecutionError"),
        confidence_pct: 0,
        answer_non_empty: false,
        sections_present: Vec::new(),
        sections_missing: spec.required_sections,
        duration_ms,
        error: Some(error),
    }
}

// ---------------------------------------------------------------------------
// Summary
// ---------------------------------------------------------------------------

/// How many graded cases passed.
pub open spec fn passed_of(cases: Seq<EvalCaseResult>) -> nat
    decreases cases.len(),
{
    if cases.len() == 0 {
        0
    } else {
        passed_of(cases.drop_last()) + if cases.last().passed {
            1nat
        } else {
            0nat
        }
    }
}

proof fn lemma_passed_of_bounded(cases: Seq<EvalCaseResult>)
    ensures
        passed_of(cases) <= cases.len(),
    decreases cases.len(),
{
    if cases.len() > 0 {
        lemma_passed_of_bounded(cases.drop_last());
    }
}

/// Counts the graded cases: the failed ones are those that did not pass,
/// and the pass rate is the passed share in hundredths (0 for no case).
pub fn summarize(cases: &Vec<EvalCaseResult>) -> (s: EvalSuiteSummary)
    ensures
        s.total_cases == cases@.len(),
        s.passed_cases == passed_of(cases@),
        s.failed_cases == cases@.len() - passed_of(cases@),
        s.pass_rate_pct == if cases@.len() == 0 {
            0
        } else {
            passed_of(cases@) * 100 / cases@.len()
        },
{
    let mut passed: usize = 0;
    let mut i: usize = 0;
    while i < cases.len()
        invariant
            i <= cases@.len(),
            passed == passed_of(cases@.take(i as int)),
            passed <= i,
        decreases cases.len() - i,
    {
        assert(cases@.take(i + 1).drop_last() =~= cases@.take(i as int));
        if cases[i].passed {
            passed = passed + 1;
        }
        i = i + 1;
    }
    assert(cases@.take(i as int) =~= cases@);
    let total = cases.len();
    let rate: u32 = if total == 0 {
        0
    } else {
        assert((passed as int) * 100 / (total as int) <= 100) by (nonlinear_arith)
            requires
                passed <= total,
                total > 0,
        ;
        (passed as u128 * 100 / total as u128) as u32
    };
    EvalSuiteSummary {
        total_cases: total,
        passed_cases: passed,
        failed_cases: total - passed,
        pass_rate_pct: rate,
    }
}

/// Builds the report of a suite run; only the deterministic model mode may
/// run a suite.
pub fn finish_suite(
    mode: &str,
    suite_id: String,
    suite_version: String,
    generated_at_epoch_sec: u64,
    cases: Vec<EvalCaseResult>,
) -> (r: Result<EvalSuiteResult, String>)
    ensures
        match r {
            Ok(rep) => {
                &&& mode@ == "deterministic"@
                &&& rep.suite_id@ == suite_id@
                &&& rep.suite_version@ == suite_version@
                &&& rep.generated_at_epoch_sec == generated_at_epoch_sec
                &&& rep.cases@ == cases@
                &&& rep.summary.total_cases == cases@.len()
                &&& rep.summary.passed_cases == passed_of(cases@)
                &&& rep.summary.failed_cases == cases@.len() - passed_of(cases@)
                &&& rep.summary.pass_rate_pct == if cases@.len() == 0 {
                    0
                } else {
                    passed_of(cases@) * 100 / cases@.len()
                }
            },
            Err(m) => mode@ != "deterministic"@ && m@ == "eval suite only supports deterministic mode"@,
        },
{
    let summary = summarize(&cases);
    if !str_eq(mode, "deterministic") {
        return Err(owned("eval suite only supports deterministic mode"));
    }
    Ok(EvalSuiteResult { suite_id, suite_version, generated_at_epoch_sec, summary, cases })
}

/// The verdict on a finished suite: it fails when any case failed.
pub fn suite_verdict(summary: &EvalSuiteSummary) -> (r: Result<(), String>)
    ensures
        match r {
            Ok(()) => summary.failed_cases == 0,
            Err(m) => summary.failed_cases > 0 && m@ == "evaluation suite failed: "@ + dec(
                summary.passed_cases as nat,
            ) + " / "@ + dec(summary.total_cases as nat) + " cases passed"@,
        },
{
    if summary.failed_cases > 0 {
        let mut m = owned("evaluation suite failed: ");
        push_dec(&mut m, summary.passed_cases as u64);
        push_str(&mut m, " / ");
        push_dec(&mut m, summary.total_cases as u64);
        push_str(&mut m, " cases passed");
        Err(m)
    } else {
        Ok(())
    }
}

} // verus!
