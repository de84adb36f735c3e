//! The evaluation suite run after a validation: each case passes or not,
//! and the suite blocks unless every case passes.
use crate::coder::{contract_clauses, persona_contract_snapshot, PERSONA_CONTRACT_VERSION};
use crate::text::{bool_text, dec, has_prefix, join, owned, push_bool, push_dec, push_str, str_starts_with, views};
use crate::types::ValidationResult;
use vstd::prelude::*;

verus! {

/// The version of the evaluation suite.
pub const EVAL_SUITE_VERSION: &'static str = "evals.2026-04-13.v1";

/// The longest validation allowed, in milliseconds.
pub const MAX_RUNTIME_MS: u128 = 180000;

/// The outcome of one evaluation case.
#[derive(Debug)]
pub struct EvalCaseResult {
    pub name: String,
    pub passed: bool,
    pub detail: String,
}

/// The outcome of the evaluation suite.
#[derive(Debug)]
pub struct EvalRun {
    pub suite_version: String,
    pub blocked: bool,
    pub score_pct: u8,
    pub cases: Vec<EvalCaseResult>,
}

/// A case by views: name, passed, detail.
pub type CaseView = (Seq<char>, bool, Seq<char>);

pub open spec fn case_view(c: EvalCaseResult) -> CaseView {
    (c.name@, c.passed, c.detail@)
}

/// The cases of the suite for a validation.
pub open spec fn eval_cases(v: ValidationResult) -> Seq<CaseView> {
    seq![
        (
            "pipeline_green"@,
            v.check_ok && v.clippy_ok && v.test_ok,
            "check="@ + bool_text(v.check_ok) + " clippy="@ + bool_text(v.clippy_ok) + " test="@
                + bool_text(v.test_ok),
        ),
        (
            "regression_threshold_gate"@,
            v.regression_alerts@.len() == 0,
            if v.regression_alerts@.len() == 0 {
                "no regression"@
            } else {
                join(views(v.regression_alerts@), " | "@)
            },
        ),
        (
            "persona_contract_integrity"@,
            contract_clauses().len() >= 5 && has_prefix(PERSONA_CONTRACT_VERSION@, "persona."@),
            "version="@ + PERSONA_CONTRACT_VERSION@ + " clauses="@ + dec(contract_clauses().len()),
        ),
        (
            "runtime_budget"@,
            v.total_duration_ms <= MAX_RUNTIME_MS,
            "duration_ms="@ + dec(v.total_duration_ms as nat) + " budget_ms="@ + dec(MAX_RUNTIME_MS as nat),
        ),
    ]
}

/// How many cases passed.
pub open spec fn passed_count(cs: Seq<CaseView>) -> nat
    decreases cs.len(),
{
    if cs.len() == 0 {
        0
    } else {
        passed_count(cs.drop_last()) + if cs.last().1 {
            1nat
        } else {
            0nat
        }
    }
}

/// Runs the evaluation suite on a validation: the score is the share of
/// passed cases in percent, and the suite blocks below 100. The project
/// root is not read by any case.
pub fn run(_root: &str, validation: &ValidationResult) -> (r: EvalRun)
    ensures
        r.suite_version@ == EVAL_SUITE_VERSION@,
        Seq::new(r.cases@.len(), |i: int| case_view(r.cases@[i])) == eval_cases(*validation),
        r.score_pct == passed_count(eval_cases(*validation)) * 100 / 4,
        r.blocked == (r.score_pct < 100),
{
    let persona = persona_contract_snapshot();
    let mut d1 = owned("check=");
    push_bool(&mut d1, validation.check_ok);
    push_str(&mut d1, " clippy=");
    push_bool(&mut d1, validation.clippy_ok);
    push_str(&mut d1, " test=");
    push_bool(&mut d1, validation.test_ok);
    let c1 = EvalCaseResult {
        name: owned("pipeline_green"),
        passed: validation.ok(),
        detail: d1,
    };
    let no_alerts = validation.regression_alerts.len() == 0;
    let c2 = EvalCaseResult {
        name: owned("regression_threshold_gate"),
        passed: no_alerts,
        detail: if no_alerts {
            owned("no regression")
        } else {
            crate::text::join_strings(&validation.regression_alerts, " | ")
        },
    };
    let n = persona.clauses.len();
    assert(crate::text::strs(persona.clauses@).len() == n);
    let mut d3 = owned("version=");
    push_str(&mut d3, persona.version);
    push_str(&mut d3, " clauses=");
    push_dec(&mut d3, n as u64);
    let c3 = EvalCaseResult {
        name: owned("persona_contract_integrity"),
        passed: n >= 5 && str_starts_with(persona.version, "persona."),
        detail: d3,
    };
    let mut d4 = owned("duration_ms=");
    crate::text::push_dec_u128(&mut d4, validation.total_duration_ms);
    push_str(&mut d4, " budget_ms=");
    crate::text::push_dec_u128(&mut d4, MAX_RUNTIME_MS);
    let c4 = EvalCaseResult {
        name: owned("runtime_budget"),
        passed: validation.total_duration_ms <= MAX_RUNTIME_MS,
        detail: d4,
    };
    let mut passed: usize = 0;
    if c1.passed {
        passed = passed + 1;
    }
    if c2.passed {
        passed = passed + 1;
    }
    if c3.passed {
        passed = passed + 1;
    }
    if c4.passed {
        passed = passed + 1;
    }
    let ghost cs = seq![case_view(c1), case_view(c2), case_view(c3), case_view(c4)];
    let cases = vec![c1, c2, c3, c4];
    assert(Seq::new(cases@.len(), |i: int| case_view(cases@[i])) =~= cs);
    assert(cs =~= eval_cases(*validation));
    assert(passed_count(cs) == passed) by {
        reveal_with_fuel(passed_count, 5);
        assert(cs.drop_last() =~= seq![cs[0], cs[1], cs[2]]);
        assert(cs.drop_last().drop_last() =~= seq![cs[0], cs[1]]);
        assert(cs.drop_last().drop_last().drop_last() =~= seq![cs[0]]);
        assert(cs.drop_last().drop_last().drop_last().drop_last() =~= Seq::<CaseView>::empty());
    }
    let score_pct = (passed * 100 / 4) as u8;
    EvalRun {
        suite_version: owned(EVAL_SUITE_VERSION),
        blocked: score_pct < 100,
        score_pct,
        cases,
    }
}

} // verus!
