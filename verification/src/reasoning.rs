//! Structured and checkable reasoning: a single deterministic branch
//! Analyze -> Hypothesis -> Action/Test -> Validation, with a local
//! verify/correct decision per step and a global verification of the whole
//! attempt.
use crate::text::{
    chars_of, contains_chars, dec, push_dec, push_str, tokenize, tokens, trim, trim_chars, vviews,
};
use vstd::prelude::*;

verus! {

/// Minimal phases required by the reasoning protocol.
#[derive(Clone, Copy, Debug, PartialEq, Eq, Structural)]
pub enum ReasoningPhase {
    Analyze,
    Hypothesis,
    ActionOrTest,
    Validation,
}

/// A deterministic reasoning step in a plan.
#[derive(Debug)]
pub struct ReasoningStep {
    pub phase: ReasoningPhase,
    pub goal: String,
    pub expected_artifact: String,
}

impl ReasoningStep {
    pub fn new(phase: ReasoningPhase, goal: &str, expected_artifact: &str) -> (r: Self)
        ensures
            r.phase == phase,
            r.goal@ == goal@,
            r.expected_artifact@ == expected_artifact@,
    {
        ReasoningStep {
            phase,
            goal: goal.to_owned(),
            expected_artifact: expected_artifact.to_owned(),
        }
    }
}

/// Full structured reasoning plan.
#[derive(Debug)]
pub struct ReasoningPlan {
    pub objective: String,
    pub steps: Vec<ReasoningStep>,
}

/// The phases of a sequence of steps.
pub open spec fn phases(steps: Seq<ReasoningStep>) -> Seq<ReasoningPhase> {
    Seq::new(steps.len(), |i: int| steps[i].phase)
}

/// The phases every plan must cover, in this order.
pub open spec fn required_phases() -> Seq<ReasoningPhase> {
    seq![
        ReasoningPhase::Analyze,
        ReasoningPhase::Hypothesis,
        ReasoningPhase::ActionOrTest,
        ReasoningPhase::Validation,
    ]
}

/// How many required phases a greedy left-to-right scan matches in `ph`.
pub open spec fn matched_required(ph: Seq<ReasoningPhase>) -> nat
    decreases ph.len(),
{
    if ph.len() == 0 {
        0
    } else {
        let k = matched_required(ph.drop_last());
        if k < 4 && ph.last() == required_phases()[k as int] {
            k + 1
        } else {
            k
        }
    }
}

/// The required phases occur in `ph` in order (as a subsequence).
pub open spec fn covers_required_in_order(ph: Seq<ReasoningPhase>) -> bool {
    exists|a: int, b: int, c: int, d: int|
        0 <= a < b < c < d < ph.len() && ph[a] == ReasoningPhase::Analyze && ph[b]
            == ReasoningPhase::Hypothesis && ph[c] == ReasoningPhase::ActionOrTest && ph[d]
            == ReasoningPhase::Validation
}

/// Typed validation failures for plan and execution.
#[derive(Debug)]
pub enum ValidationFailure {
    IncompletePlan { expected_min_steps: usize, actual_steps: usize },
    InvalidStepOrder { expected_order: Vec<ReasoningPhase>, found: Vec<ReasoningPhase> },
    StepPhaseMismatch { index: usize, expected: ReasoningPhase, found: ReasoningPhase },
}

/// What `validate_structure` answers for a sequence of steps.
pub open spec fn structure_outcome(steps: Seq<ReasoningStep>, r: Result<(), ValidationFailure>) -> bool {
    if steps.len() < 4 {
        r matches Err(ValidationFailure::IncompletePlan { expected_min_steps, actual_steps })
            && expected_min_steps == 4 && actual_steps == steps.len()
    } else if matched_required(phases(steps)) == 4 {
        r is Ok
    } else {
        r matches Err(ValidationFailure::InvalidStepOrder { expected_order, found })
            && expected_order@ == required_phases() && found@ == phases(steps)
    }
}

/// A plan whose structure validates.
pub open spec fn plan_is_valid(steps: Seq<ReasoningStep>) -> bool {
    steps.len() >= 4 && matched_required(phases(steps)) == 4
}

impl ReasoningPlan {
    pub fn new(objective: &str, steps: Vec<ReasoningStep>) -> (r: Self)
        ensures
            r.objective@ == objective@,
            r.steps@ == steps@,
    {
        ReasoningPlan { objective: objective.to_owned(), steps }
    }

    /// Validate required phase coverage and ordering.
    pub fn validate_structure(&self) -> (r: Result<(), ValidationFailure>)
        ensures
            structure_outcome(self.steps@, r),
    {
        if self.steps.len() < 4 {
            return Err(
                ValidationFailure::IncompletePlan {
                    expected_min_steps: 4,
                    actual_steps: self.steps.len(),
                },
            );
        }
        let required = required_phase_vec();
        let mut idx: usize = 0;
        let mut i: usize = 0;
        while i < self.steps.len()
            invariant
                i <= self.steps@.len(),
                required@ == required_phases(),
                idx == matched_required(phases(self.steps@).take(i as int)),
                idx <= 4,
            decreases self.steps.len() - i,
        {
            proof {
                lemma_matched_step(phases(self.steps@), i as int);
            }
            let phase = self.steps[i].phase;
            if idx < 4 && phase == required[idx] {
                idx = idx + 1;
            }
            i = i + 1;
        }
        assert(phases(self.steps@).take(self.steps@.len() as int) =~= phases(self.steps@));
        if idx != 4 {
            return Err(
                ValidationFailure::InvalidStepOrder {
                    expected_order: required,
                    found: phase_vec(&self.steps),
                },
            );
        }
        Ok(())
    }
}

/// The required phases as a vector.
pub fn required_phase_vec() -> (v: Vec<ReasoningPhase>)
    ensures
        v@ == required_phases(),
{
    let v = vec![
        ReasoningPhase::Analyze,
        ReasoningPhase::Hypothesis,
        ReasoningPhase::ActionOrTest,
        ReasoningPhase::Validation,
    ];
    assert(v@ =~= required_phases());
    v
}

/// The phases of a vector of steps.
pub fn phase_vec(steps: &Vec<ReasoningStep>) -> (v: Vec<ReasoningPhase>)
    ensures
        v@ == phases(steps@),
{
    let mut v: Vec<ReasoningPhase> = Vec::new();
    let mut i: usize = 0;
    while i < steps.len()
        invariant
            i <= steps@.len(),
            v@ == phases(steps@).take(i as int),
        decreases steps.len() - i,
    {
        v.push(steps[i].phase);
        i = i + 1;
        assert(v@ =~= phases(steps@).take(i as int));
    }
    assert(phases(steps@).take(steps@.len() as int) =~= phases(steps@));
    v
}

proof fn lemma_matched_step(ph: Seq<ReasoningPhase>, i: int)
    requires
        0 <= i < ph.len(),
    ensures
        matched_required(ph.take(i + 1)) == ({
            let k = matched_required(ph.take(i));
            if k < 4 && ph[i] == required_phases()[k as int] {
                k + 1
            } else {
                k
            }
        }),
{
    assert(ph.take(i + 1).drop_last() =~= ph.take(i));
}

proof fn lemma_matched_le(ph: Seq<ReasoningPhase>)
    ensures
        matched_required(ph) <= 4,
    decreases ph.len(),
{
    if ph.len() > 0 {
        lemma_matched_le(ph.drop_last());
    }
}

/// Positions of the first `k` matched required phases in a greedy scan.
proof fn lemma_matched_witness(ph: Seq<ReasoningPhase>, k: nat) -> (w: Seq<int>)
    requires
        k <= matched_required(ph),
    ensures
        w.len() == k,
        forall|j: int| 0 <= j < k ==> 0 <= #[trigger] w[j] < ph.len() && ph[w[j]] == required_phases()[j],
        forall|j: int, l: int| 0 <= j < l < k ==> #[trigger] w[j] < #[trigger] w[l],
    decreases ph.len(),
{
    if ph.len() == 0 {
        Seq::empty()
    } else {
        let d = ph.drop_last();
        let m = matched_required(d);
        lemma_matched_le(d);
        if k <= m {
            let w = lemma_matched_witness(d, k);
            assert forall|j: int| 0 <= j < k implies 0 <= #[trigger] w[j] < ph.len() && ph[w[j]]
                == required_phases()[j] by {
                assert(ph[w[j]] == d[w[j]]);
            }
            w
        } else {
            let w0 = lemma_matched_witness(d, m);
            let w = w0.push(ph.len() - 1);
            assert forall|j: int| 0 <= j < k implies 0 <= #[trigger] w[j] < ph.len() && ph[w[j]]
                == required_phases()[j] by {
                if j < m {
                    assert(w[j] == w0[j]);
                    assert(ph[w[j]] == d[w[j]]);
                }
            }
            w
        }
    }
}

/// If required phases occur from position `from` of `req` on in `ph`, the
/// greedy scan matches them.
proof fn lemma_greedy_complete(ph: Seq<ReasoningPhase>, pos: Seq<int>)
    requires
        pos.len() == 4,
        forall|j: int| 0 <= j < 4 ==> 0 <= #[trigger] pos[j] < ph.len() && ph[pos[j]] == required_phases()[j],
        forall|j: int, l: int| 0 <= j < l < 4 ==> #[trigger] pos[j] < #[trigger] pos[l],
    ensures
        matched_required(ph) == 4,
{
    // after scanning a prefix ending past pos[j], at least j+1 phases are matched
    assert forall|j: int| 0 <= j < 4 implies matched_required(ph.take(#[trigger] pos[j] + 1)) >= j
        + 1 by {
        lemma_greedy_prefix(ph, pos, j);
    }
    lemma_matched_monotone(ph, pos[3] + 1, ph.len() as int);
    assert(ph.take(ph.len() as int) =~= ph);
    lemma_matched_le(ph);
}

proof fn lemma_matched_monotone(ph: Seq<ReasoningPhase>, a: int, b: int)
    requires
        0 <= a <= b <= ph.len(),
    ensures
        matched_required(ph.take(a)) <= matched_required(ph.take(b)),
    decreases b - a,
{
    if a < b {
        lemma_matched_monotone(ph, a, b - 1);
        lemma_matched_step(ph, b - 1);
    }
}

proof fn lemma_greedy_prefix(ph: Seq<ReasoningPhase>, pos: Seq<int>, j: int)
    requires
        pos.len() == 4,
        forall|i: int| 0 <= i < 4 ==> 0 <= #[trigger] pos[i] < ph.len() && ph[pos[i]] == required_phases()[i],
        forall|i: int, l: int| 0 <= i < l < 4 ==> #[trigger] pos[i] < #[trigger] pos[l],
        0 <= j < 4,
    ensures
        matched_required(ph.take(pos[j] + 1)) >= j + 1,
    decreases j,
{
    let p = pos[j];
    if j > 0 {
        lemma_greedy_prefix(ph, pos, j - 1);
        assert(pos[j - 1] < pos[j]);
        lemma_matched_monotone(ph, pos[j - 1] + 1, p);
    }
    lemma_matched_step(ph, p);
    lemma_matched_le(ph.take(p));
    let k = matched_required(ph.take(p));
    if k < j {
        assert(false) by {
            if j > 0 {
                assert(k >= j);
            } else {
                assert(k >= 0);
            }
        }
    }
}

/// The structure check accepts exactly the plans of at least four steps in
/// which Analyze, Hypothesis, Action/Test and Validation occur in this order.
pub proof fn law_structure_accepts_ordered_plans(steps: Seq<ReasoningStep>)
    ensures
        plan_is_valid(steps) <==> (steps.len() >= 4 && covers_required_in_order(phases(steps))),
{
    let ph = phases(steps);
    if matched_required(ph) == 4 {
        let w = lemma_matched_witness(ph, 4);
        assert(w[0] < w[1] && w[1] < w[2] && w[2] < w[3]);
        assert(ph[w[0]] == ReasoningPhase::Analyze);
        assert(ph[w[1]] == ReasoningPhase::Hypothesis);
        assert(ph[w[2]] == ReasoningPhase::ActionOrTest);
        assert(ph[w[3]] == ReasoningPhase::Validation);
    }
    if covers_required_in_order(ph) {
        let (a, b, c, d) = choose|a: int, b: int, c: int, d: int|
            0 <= a < b < c < d < ph.len() && ph[a] == ReasoningPhase::Analyze && ph[b]
                == ReasoningPhase::Hypothesis && ph[c] == ReasoningPhase::ActionOrTest && ph[d]
                == ReasoningPhase::Validation;
        let pos = seq![a, b, c, d];
        assert forall|j: int| 0 <= j < 4 implies 0 <= #[trigger] pos[j] < ph.len() && ph[pos[j]]
            == required_phases()[j] by {}
        assert forall|j: int, l: int| 0 <= j < l < 4 implies #[trigger] pos[j] < #[trigger] pos[l] by {}
        lemma_greedy_complete(ph, pos);
    }
}

/// Status of an executed reasoning step.
#[derive(Clone, Copy, Debug, PartialEq, Eq, Structural)]
pub enum StepStatus {
    Succeeded,
    Failed,
}

/// Result of one reasoning step execution.
#[derive(Debug)]
pub struct StepResult {
    pub phase: ReasoningPhase,
    pub output: String,
    pub status: StepStatus,
}

impl StepResult {
    pub fn succeeded(phase: ReasoningPhase, output: String) -> (r: Self)
        ensures
            r.phase == phase,
            r.output == output,
            r.status == StepStatus::Succeeded,
    {
        StepResult { phase, output, status: StepStatus::Succeeded }
    }
}

/// Failure motif reported by internal verification.
#[derive(Clone, Copy, Debug, PartialEq, Eq, Structural)]
pub enum VerificationFailureKind {
    InternalInconsistency,
    InvalidOrInsufficientStep,
    DurableRuleContradiction,
}

/// Detailed verification failure.
#[derive(Debug)]
pub struct VerificationFailure {
    pub kind: VerificationFailureKind,
    pub message: String,
}

/// Deterministic correction decision after verification.
#[derive(Debug)]
pub enum CorrectionDecision {
    Accept,
    ReviseStep { phase: ReasoningPhase, reason: VerificationFailure },
    RecalculateFrom { phase: ReasoningPhase, reason: VerificationFailure },
}

/// Verification report for one step output.
#[derive(Debug)]
pub struct StepVerificationResult {
    pub phase: ReasoningPhase,
    pub passed: bool,
    pub failure: Option<VerificationFailure>,
    pub decision: CorrectionDecision,
}

/// What a correction decision says, its texts by their views.
pub enum DecisionView {
    Accept,
    ReviseStep(ReasoningPhase, VerificationFailureKind, Seq<char>),
    RecalculateFrom(ReasoningPhase, VerificationFailureKind, Seq<char>),
}

/// What a verification report says, its texts by their views.
pub struct VerificationView {
    pub phase: ReasoningPhase,
    pub passed: bool,
    pub failure: Option<(VerificationFailureKind, Seq<char>)>,
    pub decision: DecisionView,
}

impl View for StepVerificationResult {
    type V = VerificationView;

    open spec fn view(&self) -> VerificationView {
        VerificationView {
            phase: self.phase,
            passed: self.passed,
            failure: match self.failure {
                Some(f) => Some((f.kind, f.message@)),
                None => None,
            },
            decision: match self.decision {
                CorrectionDecision::Accept => DecisionView::Accept,
                CorrectionDecision::ReviseStep { phase, reason } => DecisionView::ReviseStep(
                    phase,
                    reason.kind,
                    reason.message@,
                ),
                CorrectionDecision::RecalculateFrom { phase, reason } => DecisionView::RecalculateFrom(
                    phase,
                    reason.kind,
                    reason.message@,
                ),
            },
        }
    }
}

/// The views of a run of verification reports.
pub open spec fn verification_views(s: Seq<StepVerificationResult>) -> Seq<VerificationView> {
    s.map_values(|x: StepVerificationResult| x@)
}

/// `v` accepts a step of phase `phase`.
pub open spec fn is_accepted(v: StepVerificationResult, phase: ReasoningPhase) -> bool {
    &&& v.phase == phase
    &&& v.passed
    &&& v.failure is None
    &&& v.decision is Accept
}

/// `v` rejects a step of phase `phase` for `kind` with `message`, with the
/// given decision shape (`recalculate` selects `RecalculateFrom` over `ReviseStep`).
pub open spec fn is_rejected(
    v: StepVerificationResult,
    phase: ReasoningPhase,
    kind: VerificationFailureKind,
    message: Seq<char>,
    recalculate: bool,
) -> bool {
    &&& v.phase == phase
    &&& !v.passed
    &&& v.failure matches Some(f) && f.kind == kind && f.message@ == message
    &&& if recalculate {
        v.decision matches CorrectionDecision::RecalculateFrom { phase: p, reason }
            && p == phase && reason.kind == kind && reason.message@ == message
    } else {
        v.decision matches CorrectionDecision::ReviseStep { phase: p, reason } && p == phase
            && reason.kind == kind && reason.message@ == message
    }
}

impl StepVerificationResult {
    fn accepted(phase: ReasoningPhase) -> (r: Self)
        ensures
            is_accepted(r, phase),
    {
        StepVerificationResult {
            phase,
            passed: true,
            failure: None,
            decision: CorrectionDecision::Accept,
        }
    }

    fn rejected(
        phase: ReasoningPhase,
        kind: VerificationFailureKind,
        message: String,
        recalculate: bool,
    ) -> (r: Self)
        ensures
            is_rejected(r, phase, kind, message@, recalculate),
    {
        let copy = message.clone();
        let decision = if recalculate {
            CorrectionDecision::RecalculateFrom {
                phase,
                reason: VerificationFailure { kind, message: copy },
            }
        } else {
            CorrectionDecision::ReviseStep {
                phase,
                reason: VerificationFailure { kind, message: copy },
            }
        };
        StepVerificationResult {
            phase,
            passed: false,
            failure: Some(VerificationFailure { kind, message }),
            decision,
        }
    }

    fn revise(phase: ReasoningPhase, failure: VerificationFailure) -> (r: Self)
        ensures
            is_rejected(r, phase, failure.kind, failure.message@, false),
    {
        Self::rejected(phase, failure.kind, failure.message, false)
    }

    fn recalculate_from(phase: ReasoningPhase, failure: VerificationFailure) -> (r: Self)
        ensures
            is_rejected(r, phase, failure.kind, failure.message@, true),
    {
        Self::rejected(phase, failure.kind, failure.message, true)
    }
}

/// Checks a step result against durable rules; implementations report the
/// rule that the output contradicts, if any.
pub trait DurableRuleChecker {
    /// The rule that the output of `step` contradicts, if any.
    spec fn contradiction(&self, step: ReasoningStep, output: Seq<char>) -> Option<Seq<char>>;

    fn detect_contradiction(&self, step: &ReasoningStep, result: &StepResult) -> (r: Option<String>)
        ensures
            match r {
                Some(rule) => self.contradiction(*step, result.output@) == Some(rule@),
                None => self.contradiction(*step, result.output@) is None,
            },
    ;
}

/// Default checker that accepts all steps.
#[derive(Debug, Default, Clone)]
pub struct NoopDurableRuleChecker;

impl DurableRuleChecker for NoopDurableRuleChecker {
    open spec fn contradiction(&self, step: ReasoningStep, output: Seq<char>) -> Option<Seq<char>> {
        None
    }

    fn detect_contradiction(&self, _step: &ReasoningStep, _result: &StepResult) -> (r: Option<
        String,
    >) {
        None
    }
}

/// Tokens of `expected` share nothing with those of `output` although
/// `expected` has tokens (the overlap ratio is zero).
pub open spec fn overlap_is_zero(expected: Seq<char>, output: Seq<char>) -> bool {
    tokens(expected).len() > 0 && forall|i: int|
        0 <= i < tokens(expected).len() ==> !tokens(output).contains(#[trigger] tokens(expected)[i])
}

/// Whether the word overlap of `output` with `expected` is zero.
pub fn overlap_zero(expected: &str, output: &str) -> (r: bool)
    ensures
        r == overlap_is_zero(expected@, output@),
{
    let et = tokenize(expected);
    if et.len() == 0 {
        return false;
    }
    let ot = tokenize(output);
    let mut i: usize = 0;
    while i < et.len()
        invariant
            i <= et@.len(),
            vviews(et@) == tokens(expected@),
            vviews(ot@) == tokens(output@),
            forall|j: int| 0 <= j < i ==> !tokens(output@).contains(#[trigger] tokens(expected@)[j]),
        decreases et.len() - i,
    {
        if contains_chars(&ot, &et[i]) {
            assert(tokens(expected@)[i as int] == et@[i as int]@);
            return false;
        }
        assert(tokens(expected@)[i as int] == et@[i as int]@);
        i = i + 1;
    }
    true
}

/// The verification of one step result, as `verify_step` computes it.
pub open spec fn step_verdict<C: DurableRuleChecker>(
    checker: C,
    step: ReasoningStep,
    result: StepResult,
    v: StepVerificationResult,
) -> bool {
    if result.status == StepStatus::Failed || trim(result.output@).len() == 0 {
        is_rejected(
            v,
            step.phase,
            VerificationFailureKind::InvalidOrInsufficientStep,
            "step output is empty or failed"@,
            false,
        )
    } else if overlap_is_zero(step.expected_artifact@, result.output@) {
        is_rejected(
            v,
            step.phase,
            VerificationFailureKind::InternalInconsistency,
            "step output is inconsistent with expected artifact"@,
            false,
        )
    } else if let Some(rule) = checker.contradiction(step, result.output@) {
        is_rejected(
            v,
            step.phase,
            VerificationFailureKind::DurableRuleContradiction,
            "potential contradiction with durable rule: "@ + rule,
            true,
        )
    } else {
        is_accepted(v, step.phase)
    }
}

/// Execution state for a single deterministic reasoning branch.
#[derive(Debug)]
pub struct ReasoningExecution<C: DurableRuleChecker> {
    pub plan: ReasoningPlan,
    pub results: Vec<StepResult>,
    pub verifications: Vec<StepVerificationResult>,
    pub checker: C,
}

/// The accepted results follow the plan: the i-th result has the phase of the
/// i-th step, and there are no more results than steps.
pub open spec fn results_follow_plan(steps: Seq<ReasoningStep>, results: Seq<StepResult>) -> bool {
    results.len() <= steps.len() && forall|i: int|
        0 <= i < results.len() ==> #[trigger] results[i].phase == steps[i].phase
}

/// What `verify_and_push` does to an execution and what it answers.
pub open spec fn push_outcome<C: DurableRuleChecker>(
    before: ReasoningExecution<C>,
    after: ReasoningExecution<C>,
    result: StepResult,
    r: Result<StepVerificationResult, ValidationFailure>,
) -> bool {
    let idx = before.results@.len();
    let steps = before.plan.steps@;
    &&& after.plan == before.plan
    &&& after.checker == before.checker
    &&& if idx >= steps.len() {
        &&& r matches Err(ValidationFailure::IncompletePlan { expected_min_steps, actual_steps })
            && expected_min_steps == steps.len() && actual_steps == idx
        &&& after.results@ == before.results@
        &&& after.verifications@ == before.verifications@
    } else if steps[idx as int].phase != result.phase {
        &&& r matches Err(ValidationFailure::StepPhaseMismatch { index, expected, found }) && index
            == idx && expected == steps[idx as int].phase && found == result.phase
        &&& after.results@ == before.results@
        &&& after.verifications@ == before.verifications@
    } else {
        &&& r matches Ok(v) && step_verdict(before.checker, steps[idx as int], result, v)
            && after.verifications@.len() == before.verifications@.len() + 1
            && after.verifications@.take(before.verifications@.len() as int)
            == before.verifications@ && step_verdict(
            before.checker,
            steps[idx as int],
            result,
            after.verifications@.last(),
        ) && verification_views(after.verifications@) == verification_views(before.verifications@).push(
            v@,
        ) && (v.passed ==> after.results@ == before.results@.push(result)) && (!v.passed
            ==> after.results@ == before.results@)
    }
}

impl<C: DurableRuleChecker> ReasoningExecution<C> {
    pub fn new(plan: ReasoningPlan, checker: C) -> (r: Result<Self, ValidationFailure>)
        ensures
            match r {
                Ok(e) => plan_is_valid(plan.steps@) && e.plan == plan && e.checker == checker
                    && e.results@.len() == 0 && e.verifications@.len() == 0,
                Err(f) => !plan_is_valid(plan.steps@) && structure_outcome(plan.steps@, Err(f)),
            },
    {
        match plan.validate_structure() {
            Err(f) => Err(f),
            Ok(()) => Ok(
                ReasoningExecution {
                    plan,
                    results: Vec::new(),
                    verifications: Vec::new(),
                    checker,
                },
            ),
        }
    }

    /// Verify and attempt to append one step result.
    ///
    /// If verification fails, returns a correction decision and does not
    /// append the result.
    pub fn verify_and_push(&mut self, result: StepResult) -> (r: Result<
        StepVerificationResult,
        ValidationFailure,
    >)
        ensures
            push_outcome(*old(self), *final(self), result, r),
            results_follow_plan(old(self).plan.steps@, old(self).results@) ==> results_follow_plan(
                final(self).plan.steps@,
                final(self).results@,
            ),
    {
        let idx = self.results.len();
        if idx >= self.plan.steps.len() {
            return Err(
                ValidationFailure::IncompletePlan {
                    expected_min_steps: self.plan.steps.len(),
                    actual_steps: idx,
                },
            );
        }
        let expected = self.plan.steps[idx].phase;
        if expected != result.phase {
            return Err(
                ValidationFailure::StepPhaseMismatch {
                    index: idx,
                    expected,
                    found: result.phase,
                },
            );
        }
        let verification = self.verify_step(&self.plan.steps[idx], &result);
        let recorded = copy_verification(&verification);
        let ghost before = self.verifications@;
        proof {
            lemma_verdict_copy(self.checker, self.plan.steps@[idx as int], result, verification, recorded);
        }
        self.verifications.push(recorded);
        assert(self.verifications@.take(before.len() as int) =~= before);
        assert(verification_views(self.verifications@) =~= verification_views(before).push(verification@));
        if verification.passed {
            self.results.push(result);
        }
        Ok(verification)
    }

    /// Verify one step output against its step.
    pub fn verify_step(&self, step: &ReasoningStep, result: &StepResult) -> (v: StepVerificationResult)
        ensures
            step_verdict(self.checker, *step, *result, v),
    {
        let out = chars_of(result.output.as_str());
        let trimmed = trim_chars(&out);
        if result.status == StepStatus::Failed || trimmed.len() == 0 {
            return StepVerificationResult::revise(
                step.phase,
                VerificationFailure {
                    kind: VerificationFailureKind::InvalidOrInsufficientStep,
                    message: "step output is empty or failed".to_owned(),
                },
            );
        }
        if overlap_zero(step.expected_artifact.as_str(), result.output.as_str()) {
            return StepVerificationResult::revise(
                step.phase,
                VerificationFailure {
                    kind: VerificationFailureKind::InternalInconsistency,
                    message: "step output is inconsistent with expected artifact".to_owned(),
                },
            );
        }
        if let Some(rule) = self.checker.detect_contradiction(step, result) {
            let mut message = "potential contradiction with durable rule: ".to_owned();
            push_str(&mut message, rule.as_str());
            return StepVerificationResult::recalculate_from(
                step.phase,
                VerificationFailure { kind: VerificationFailureKind::DurableRuleContradiction, message },
            );
        }
        StepVerificationResult::accepted(step.phase)
    }

    /// The first accepted result of the given phase.
    pub fn result_for_phase(&self, phase: ReasoningPhase) -> (r: Option<usize>)
        ensures
            match r {
                Some(i) => i < self.results@.len() && self.results@[i as int].phase == phase
                    && forall|j: int| 0 <= j < i ==> self.results@[j].phase != phase,
                None => forall|j: int|
                    0 <= j < self.results@.len() ==> self.results@[j].phase != phase,
            },
    {
        let mut i: usize = 0;
        while i < self.results.len()
            invariant
                i <= self.results@.len(),
                forall|j: int| 0 <= j < i ==> self.results@[j].phase != phase,
            decreases self.results.len() - i,
        {
            if self.results[i].phase == phase {
                return Some(i);
            }
            i = i + 1;
        }
        None
    }
}

/// Whole-attempt verification of a reasoning run.
pub trait GlobalReasoningVerifier {
    /// The failures, kind and message, that the run shows as a whole.
    spec fn global_failures(&self) -> Seq<(GlobalFailureKind, Seq<char>)>;

    /// Verify the whole reasoning attempt.
    fn verify_global(&self) -> (report: GlobalVerificationReport)
        ensures
            report_matches(report, self.global_failures()),
    ;
}

impl<C: DurableRuleChecker> GlobalReasoningVerifier for ReasoningExecution<C> {
    open spec fn global_failures(&self) -> Seq<(GlobalFailureKind, Seq<char>)> {
        global_failures_of(self.plan.steps@.len(), self.results@, self.verifications@)
    }

    fn verify_global(&self) -> (report: GlobalVerificationReport)
        ensures
            report_matches(
                report,
                global_failures_of(self.plan.steps@.len(), self.results@, self.verifications@),
            ),
    {
        let mut failures: Vec<GlobalFailure> = Vec::new();
        assert(failure_views(failures@) =~= Seq::<(GlobalFailureKind, Seq<char>)>::empty());
        if self.results.len() != self.plan.steps.len() {
            let mut m = "reasoning is incomplete: expected ".to_owned();
            push_dec(&mut m, self.plan.steps.len() as u64);
            push_str(&mut m, " results, got ");
            push_dec(&mut m, self.results.len() as u64);
            push_failure(&mut failures, GlobalFailureKind::IncompleteReasoning, m);
        }
        if any_failure(&self.verifications, VerificationFailureKind::InternalInconsistency) {
            push_failure(
                &mut failures,
                GlobalFailureKind::CrossStepInconsistency,
                "one or more steps are internally inconsistent".to_owned(),
            );
        }
        if any_failure(&self.verifications, VerificationFailureKind::DurableRuleContradiction) {
            push_failure(
                &mut failures,
                GlobalFailureKind::DurableRuleContradiction,
                "a potential contradiction with durable rules was detected".to_owned(),
            );
        }
        let h = self.phase_output(ReasoningPhase::Hypothesis);
        let a = self.phase_output(ReasoningPhase::ActionOrTest);
        let v = self.phase_output(ReasoningPhase::Validation);
        match (h, a, v) {
            (Some(h), Some(a), Some(v)) => {
                if overlap_zero(h.as_str(), a.as_str()) || overlap_zero(a.as_str(), v.as_str()) {
                    push_failure(
                        &mut failures,
                        GlobalFailureKind::HypothesisActionValidationMisalignment,
                        "hypothesis/action/validation chain is not semantically aligned".to_owned(),
                    );
                }
            },
            _ => {},
        }
        let n = failures.len();
        let score_pct: u32 = if n >= 4 {
            0
        } else {
            100 - 25 * (n as u32)
        };
        let confidence = if score_pct >= 85 {
            ConfidenceLevel::High
        } else if score_pct >= 60 {
            ConfidenceLevel::Medium
        } else {
            ConfidenceLevel::Low
        };
        let passed = n == 0;
        let decision = if passed {
            GlobalDecision::Accept
        } else {
            GlobalDecision::NeedsRevision
        };
        GlobalVerificationReport { passed, score_pct, confidence, failures, decision }
    }
}

/// Global failure motifs for the whole-reasoning verification.
#[derive(Clone, Copy, Debug, PartialEq, Eq, Structural)]
pub enum GlobalFailureKind {
    IncompleteReasoning,
    CrossStepInconsistency,
    HypothesisActionValidationMisalignment,
    DurableRuleContradiction,
}

/// Detailed global verification failure.
#[derive(Debug)]
pub struct GlobalFailure {
    pub kind: GlobalFailureKind,
    pub message: String,
}

/// Confidence level derived from the global score.
#[derive(Clone, Copy, Debug, PartialEq, Eq, Structural)]
pub enum ConfidenceLevel {
    Low,
    Medium,
    High,
}

/// Final decision after global verification.
#[derive(Clone, Copy, Debug, PartialEq, Eq, Structural)]
pub enum GlobalDecision {
    Accept,
    NeedsRevision,
}

/// Global verification report for a full reasoning attempt.  The score is
/// kept in hundredths (`score_pct` = 100 for a score of 1.0).
#[derive(Debug)]
pub struct GlobalVerificationReport {
    pub passed: bool,
    pub score_pct: u32,
    pub confidence: ConfidenceLevel,
    pub failures: Vec<GlobalFailure>,
    pub decision: GlobalDecision,
}

/// The verification failed with `kind`.
pub open spec fn failed_with(v: StepVerificationResult, kind: VerificationFailureKind) -> bool {
    v.failure matches Some(f) && f.kind == kind
}

/// Some local verification failed with `kind`.
pub open spec fn any_failure_of(vs: Seq<StepVerificationResult>, kind: VerificationFailureKind) -> bool {
    exists|i: int| 0 <= i < vs.len() && failed_with(#[trigger] vs[i], kind)
}

/// `i` is the first result of phase `p`.
pub open spec fn is_first_of(rs: Seq<StepResult>, p: ReasoningPhase, i: int) -> bool {
    0 <= i < rs.len() && rs[i].phase == p && forall|j: int| 0 <= j < i ==> rs[j].phase != p
}

/// Output of the first result of phase `p`, if any.
pub open spec fn output_of_phase(rs: Seq<StepResult>, p: ReasoningPhase) -> Option<Seq<char>> {
    if exists|i: int| is_first_of(rs, p, i) {
        Some(rs[choose|i: int| is_first_of(rs, p, i)].output@)
    } else {
        None
    }
}

/// The hypothesis, action and validation outputs are present and one
/// consecutive pair shares no words.
pub open spec fn misaligned(rs: Seq<StepResult>) -> bool {
    match (
        output_of_phase(rs, ReasoningPhase::Hypothesis),
        output_of_phase(rs, ReasoningPhase::ActionOrTest),
        output_of_phase(rs, ReasoningPhase::Validation),
    ) {
        (Some(h), Some(a), Some(v)) => overlap_is_zero(h, a) || overlap_is_zero(a, v),
        _ => false,
    }
}

/// The failures that global verification reports, in order, with their messages.
pub open spec fn global_failures_of(
    steps: nat,
    rs: Seq<StepResult>,
    vs: Seq<StepVerificationResult>,
) -> Seq<(GlobalFailureKind, Seq<char>)> {
    let f0 = Seq::<(GlobalFailureKind, Seq<char>)>::empty();
    let f1 = if rs.len() != steps {
        f0.push(
            (
                GlobalFailureKind::IncompleteReasoning,
                "reasoning is incomplete: expected "@ + dec(steps) + " results, got "@ + dec(
                    rs.len(),
                ),
            ),
        )
    } else {
        f0
    };
    let f2 = if any_failure_of(vs, VerificationFailureKind::InternalInconsistency) {
        f1.push(
            (
                GlobalFailureKind::CrossStepInconsistency,
                "one or more steps are internally inconsistent"@,
            ),
        )
    } else {
        f1
    };
    let f3 = if any_failure_of(vs, VerificationFailureKind::DurableRuleContradiction) {
        f2.push(
            (
                GlobalFailureKind::DurableRuleContradiction,
                "a potential contradiction with durable rules was detected"@,
            ),
        )
    } else {
        f2
    };
    if misaligned(rs) {
        f3.push(
            (
                GlobalFailureKind::HypothesisActionValidationMisalignment,
                "hypothesis/action/validation chain is not semantically aligned"@,
            ),
        )
    } else {
        f3
    }
}

/// Kinds and messages of a list of global failures.
pub open spec fn failure_views(fs: Seq<GlobalFailure>) -> Seq<(GlobalFailureKind, Seq<char>)> {
    Seq::new(fs.len(), |i: int| (fs[i].kind, fs[i].message@))
}

/// Score in hundredths: each failure costs 25, never below zero.
pub open spec fn score_for(n: nat) -> nat {
    if 25 * n >= 100 {
        0
    } else {
        (100 - 25 * n) as nat
    }
}

/// Confidence level for a score in hundredths.
pub open spec fn confidence_for(score: nat) -> ConfidenceLevel {
    if score >= 85 {
        ConfidenceLevel::High
    } else if score >= 60 {
        ConfidenceLevel::Medium
    } else {
        ConfidenceLevel::Low
    }
}

/// The report that global verification gives for these failures.
pub open spec fn report_matches(
    report: GlobalVerificationReport,
    expected: Seq<(GlobalFailureKind, Seq<char>)>,
) -> bool {
    &&& failure_views(report.failures@) == expected
    &&& report.passed == (expected.len() == 0)
    &&& report.score_pct == score_for(expected.len())
    &&& report.confidence == confidence_for(score_for(expected.len()))
    &&& report.decision == (if expected.len() == 0 {
        GlobalDecision::Accept
    } else {
        GlobalDecision::NeedsRevision
    })
}

fn push_failure(fs: &mut Vec<GlobalFailure>, kind: GlobalFailureKind, message: String)
    ensures
        failure_views(final(fs)@) == failure_views(old(fs)@).push((kind, message@)),
{
    fs.push(GlobalFailure { kind, message });
    assert(failure_views(fs@) =~= failure_views(old(fs)@).push((kind, message@)));
}

/// Whether some recorded local verification failed with `kind`.
fn any_failure(vs: &Vec<StepVerificationResult>, kind: VerificationFailureKind) -> (r: bool)
    ensures
        r == any_failure_of(vs@, kind),
{
    let mut i: usize = 0;
    while i < vs.len()
        invariant
            i <= vs@.len(),
            forall|j: int| 0 <= j < i ==> !failed_with(#[trigger] vs@[j], kind),
        decreases vs.len() - i,
    {
        match &vs[i].failure {
            Some(f) => {
                if f.kind == kind {
                    assert(failed_with(vs@[i as int], kind));
                    return true;
                }
            },
            None => {},
        }
        i = i + 1;
    }
    false
}

impl<C: DurableRuleChecker> ReasoningExecution<C> {
    /// Output of the first result of phase `p`.
    fn phase_output(&self, p: ReasoningPhase) -> (r: Option<&String>)
        ensures
            match r {
                Some(s) => output_of_phase(self.results@, p) == Some(s@),
                None => output_of_phase(self.results@, p) is None,
            },
    {
        match self.result_for_phase(p) {
            Some(i) => {
                proof {
                    assert(is_first_of(self.results@, p, i as int));
                    let k = choose|k: int| is_first_of(self.results@, p, k);
                    if k < i {
                        assert(self.results@[k].phase != p);
                    } else if i < k {
                        assert(self.results@[i as int].phase != p);
                    }
                }
                Some(&self.results[i].output)
            },
            None => {
                proof {
                    if exists|k: int| is_first_of(self.results@, p, k) {
                        let k = choose|k: int| is_first_of(self.results@, p, k);
                        assert(self.results@[k].phase == p);
                    }
                }
                None
            },
        }
    }
}

/// A copy of a failure.
fn copy_failure(f: &VerificationFailure) -> (r: VerificationFailure)
    ensures
        r.kind == f.kind,
        r.message@ == f.message@,
{
    VerificationFailure { kind: f.kind, message: f.message.clone() }
}

/// A copy of a verification report (same verdict, equal texts).
fn copy_verification(v: &StepVerificationResult) -> (r: StepVerificationResult)
    ensures
        same_verification(*v, r),
{
    let failure = match &v.failure {
        Some(f) => Some(copy_failure(f)),
        None => None,
    };
    let decision = match &v.decision {
        CorrectionDecision::Accept => CorrectionDecision::Accept,
        CorrectionDecision::ReviseStep { phase, reason } => CorrectionDecision::ReviseStep {
            phase: *phase,
            reason: copy_failure(reason),
        },
        CorrectionDecision::RecalculateFrom { phase, reason } => CorrectionDecision::RecalculateFrom {
            phase: *phase,
            reason: copy_failure(reason),
        },
    };
    StepVerificationResult { phase: v.phase, passed: v.passed, failure, decision }
}

proof fn lemma_verdict_copy<C: DurableRuleChecker>(
    checker: C,
    step: ReasoningStep,
    result: StepResult,
    a: StepVerificationResult,
    b: StepVerificationResult,
)
    requires
        step_verdict(checker, step, result, a),
        same_verification(a, b),
    ensures
        step_verdict(checker, step, result, b),
{
}

/// Two verification reports agree on every field (texts by their views).
pub open spec fn same_verification(a: StepVerificationResult, b: StepVerificationResult) -> bool {
    a@ == b@
}

/// Two results that are both the first of a phase are the same result.
proof fn lemma_first_of_unique(rs: Seq<StepResult>, p: ReasoningPhase, i: int, j: int)
    requires
        is_first_of(rs, p, i),
        is_first_of(rs, p, j),
    ensures
        i == j,
{
    if i < j {
        assert(rs[i].phase != p);
    } else if j < i {
        assert(rs[j].phase != p);
    }
}

/// The output of the first result of a phase, read off by its index.
proof fn lemma_output_at_first(rs: Seq<StepResult>, p: ReasoningPhase, i: int)
    requires
        is_first_of(rs, p, i),
    ensures
        output_of_phase(rs, p) == Some(rs[i].output@),
{
    let k = choose|k: int| is_first_of(rs, p, k);
    lemma_first_of_unique(rs, p, i, k);
}

/// When the run has a hypothesis, an action and a validation (the first
/// result of each phase), global verification reports a misaligned chain,
/// and so asks for revision, exactly when the hypothesis has words none of
/// which the action uses, or the action has words none of which the
/// validation uses.
pub proof fn law_misaligned_chain_needs_revision<C: DurableRuleChecker>(
    e: ReasoningExecution<C>,
    report: GlobalVerificationReport,
    ih: int,
    ia: int,
    iv: int,
)
    requires
        report_matches(report, e.global_failures()),
        is_first_of(e.results@, ReasoningPhase::Hypothesis, ih),
        is_first_of(e.results@, ReasoningPhase::ActionOrTest, ia),
        is_first_of(e.results@, ReasoningPhase::Validation, iv),
    ensures
        ({
            let h = e.results@[ih].output@;
            let a = e.results@[ia].output@;
            let v = e.results@[iv].output@;
            let gap = (tokens(h).len() > 0 && forall|k: int|
                0 <= k < tokens(h).len() ==> !tokens(a).contains(#[trigger] tokens(h)[k])) || (tokens(a).len()
                > 0 && forall|k: int| 0 <= k < tokens(a).len() ==> !tokens(v).contains(#[trigger] tokens(a)[k]));
            &&& gap ==> !report.passed && report.decision == GlobalDecision::NeedsRevision && exists|k: int|
                0 <= k < report.failures@.len() && (#[trigger] report.failures@[k]).kind
                    == GlobalFailureKind::HypothesisActionValidationMisalignment
            &&& !gap ==> forall|k: int|
                0 <= k < report.failures@.len() ==> (#[trigger] report.failures@[k]).kind
                    != GlobalFailureKind::HypothesisActionValidationMisalignment
        }),
{
    let rs = e.results@;
    lemma_output_at_first(rs, ReasoningPhase::Hypothesis, ih);
    lemma_output_at_first(rs, ReasoningPhase::ActionOrTest, ia);
    lemma_output_at_first(rs, ReasoningPhase::Validation, iv);
    let fs = global_failures_of(e.plan.steps@.len(), rs, e.verifications@);
    assert(failure_views(report.failures@) == fs);
    assert forall|k: int| 0 <= k < report.failures@.len() implies (#[trigger] report.failures@[k]).kind
        == fs[k].0 by {
        assert(failure_views(report.failures@)[k] == fs[k]);
    }
    if misaligned(rs) {
        let k = fs.len() - 1;
        assert(report.failures@[k].kind == GlobalFailureKind::HypothesisActionValidationMisalignment);
    } else {
        assert forall|k: int| 0 <= k < fs.len() implies fs[k].0
            != GlobalFailureKind::HypothesisActionValidationMisalignment by {
        }
    }
}

} // verus!
