//! Orchestrated execution: memory context, a structured reasoning plan run
//! step by step with local verification and bounded correction retries, a
//! global verification, and a trace of every decision.
//!
//! The model calls happen outside: `PipelineRun` is the state of a run, and
//! each model output is handed to `PipelineRun::on_model_output`, which
//! decides what comes next.
use crate::memory::{
    entry_view, lists_contents, HeuristicSummarizer, MemoryEngine, MemoryRetriever, PermanentContents,
    PermanentMemoryEntry, PermanentMemoryKind, RetrievalIntent, RetrievalQuery,
};
use crate::reasoning::{
    phases, plan_is_valid, push_outcome, required_phases, results_follow_plan, step_verdict,
    CorrectionDecision, DurableRuleChecker, GlobalDecision, GlobalReasoningVerifier, GlobalFailureKind,
    GlobalVerificationReport, ReasoningExecution, ReasoningPhase, ReasoningPlan, ReasoningStep,
    StepResult, StepVerificationResult, VerificationFailureKind,
};
use crate::text::{
    bool_text, chars_of, contains, contains_sub, copy_string, dec, join, lowercase, owned, push_bool,
    push_dec, push_str, to_lowercase, views,
};
use vstd::prelude::*;

verus! {

// ---------------------------------------------------------------------------
// Debug texts
// ---------------------------------------------------------------------------

/// What `format!("{:?}", s)` gives for a string: the string quoted, with
/// escapes.  A function of `s` alone.
pub uninterp spec fn debug_quoted(s: Seq<char>) -> Seq<char>;

/// `format!("{:?}", s)` for a string slice (std's `Debug` for `str`).  Its
/// documentation escapes line breaks and carriage returns (`char::escape_debug`),
/// so neither occurs in the result.
#[verifier::external_body]
fn debug_str(s: &str) -> (r: String)
    ensures
        r@ == debug_quoted(s@),
        crate::text::no_nl(r@),
        crate::text::no_cr(r@),
{
    format!("{:?}", s)
}

/// `format!("{:?}", v)` for a list of strings: `[` the quoted items joined
/// by `, ` `]`.
pub open spec fn debug_list(v: Seq<Seq<char>>) -> Seq<char> {
    "["@ + join(Seq::new(v.len(), |i: int| debug_quoted(v[i])), ", "@) + "]"@
}

/// The name of a phase.
pub open spec fn phase_name(p: ReasoningPhase) -> Seq<char> {
    match p {
        ReasoningPhase::Analyze => "Analyze"@,
        ReasoningPhase::Hypothesis => "Hypothesis"@,
        ReasoningPhase::ActionOrTest => "ActionOrTest"@,
        ReasoningPhase::Validation => "Validation"@,
    }
}

/// The name of a local failure kind.
pub open spec fn failure_kind_name(k: VerificationFailureKind) -> Seq<char> {
    match k {
        VerificationFailureKind::InternalInconsistency => "InternalInconsistency"@,
        VerificationFailureKind::InvalidOrInsufficientStep => "InvalidOrInsufficientStep"@,
        VerificationFailureKind::DurableRuleContradiction => "DurableRuleContradiction"@,
    }
}

/// The name of a global failure kind.
pub open spec fn global_kind_name(k: GlobalFailureKind) -> Seq<char> {
    match k {
        GlobalFailureKind::IncompleteReasoning => "IncompleteReasoning"@,
        GlobalFailureKind::CrossStepInconsistency => "CrossStepInconsistency"@,
        GlobalFailureKind::HypothesisActionValidationMisalignment =>
            "HypothesisActionValidationMisalignment"@,
        GlobalFailureKind::DurableRuleContradiction => "DurableRuleContradiction"@,
    }
}

/// The name of a global decision.
pub open spec fn decision_name(d: GlobalDecision) -> Seq<char> {
    match d {
        GlobalDecision::Accept => "Accept"@,
        GlobalDecision::NeedsRevision => "NeedsRevision"@,
    }
}

/// The name of a confidence level.
pub open spec fn confidence_name(c: crate::reasoning::ConfidenceLevel) -> Seq<char> {
    match c {
        crate::reasoning::ConfidenceLevel::Low => "Low"@,
        crate::reasoning::ConfidenceLevel::Medium => "Medium"@,
        crate::reasoning::ConfidenceLevel::High => "High"@,
    }
}

/// The debug text of a correction decision.
pub open spec fn correction_decision_text(d: CorrectionDecision) -> Seq<char> {
    match d {
        CorrectionDecision::Accept => "Accept"@,
        CorrectionDecision::ReviseStep { phase, reason } => "ReviseStep { phase: "@ + phase_name(phase)
            + ", reason: VerificationFailure { kind: "@ + failure_kind_name(reason.kind)
            + ", message: "@ + debug_quoted(reason.message@) + " } }"@,
        CorrectionDecision::RecalculateFrom { phase, reason } => "RecalculateFrom { phase: "@
            + phase_name(phase) + ", reason: VerificationFailure { kind: "@ + failure_kind_name(
            reason.kind,
        ) + ", message: "@ + debug_quoted(reason.message@) + " } }"@,
    }
}

/// A score in hundredths written with two decimals (`{:.2}` of the score).
pub open spec fn score_text(pct: nat) -> Seq<char> {
    dec(pct / 100) + "."@ + seq![crate::text::digit((pct % 100) / 10), crate::text::digit(pct % 10)]
}

pub fn phase_text(p: ReasoningPhase) -> (r: String)
    ensures
        r@ == phase_name(p),
{
    match p {
        ReasoningPhase::Analyze => owned("Analyze"),
        ReasoningPhase::Hypothesis => owned("Hypothesis"),
        ReasoningPhase::ActionOrTest => owned("ActionOrTest"),
        ReasoningPhase::Validation => owned("Validation"),
    }
}

pub fn failure_kind_text(k: VerificationFailureKind) -> (r: String)
    ensures
        r@ == failure_kind_name(k),
{
    match k {
        VerificationFailureKind::InternalInconsistency => owned("InternalInconsistency"),
        VerificationFailureKind::InvalidOrInsufficientStep => owned("InvalidOrInsufficientStep"),
        VerificationFailureKind::DurableRuleContradiction => owned("DurableRuleContradiction"),
    }
}

pub fn global_kind_text(k: GlobalFailureKind) -> (r: String)
    ensures
        r@ == global_kind_name(k),
{
    match k {
        GlobalFailureKind::IncompleteReasoning => owned("IncompleteReasoning"),
        GlobalFailureKind::CrossStepInconsistency => owned("CrossStepInconsistency"),
        GlobalFailureKind::HypothesisActionValidationMisalignment => owned(
            "HypothesisActionValidationMisalignment",
        ),
        GlobalFailureKind::DurableRuleContradiction => owned("DurableRuleContradiction"),
    }
}

pub fn decision_text(d: GlobalDecision) -> (r: String)
    ensures
        r@ == decision_name(d),
{
    match d {
        GlobalDecision::Accept => owned("Accept"),
        GlobalDecision::NeedsRevision => owned("NeedsRevision"),
    }
}

pub fn confidence_text(c: crate::reasoning::ConfidenceLevel) -> (r: String)
    ensures
        r@ == confidence_name(c),
{
    match c {
        crate::reasoning::ConfidenceLevel::Low => owned("Low"),
        crate::reasoning::ConfidenceLevel::Medium => owned("Medium"),
        crate::reasoning::ConfidenceLevel::High => owned("High"),
    }
}

fn push_failure_tail(s: &mut String, kind: VerificationFailureKind, message: &str)
    ensures
        final(s)@ == old(s)@ + failure_kind_name(kind) + ", message: "@ + debug_quoted(message@)
            + " } }"@,
{
    let k = failure_kind_text(kind);
    push_str(s, k.as_str());
    push_str(s, ", message: ");
    let q = debug_str(message);
    push_str(s, q.as_str());
    push_str(s, " } }");
}

pub fn correction_decision_string(d: &CorrectionDecision) -> (r: String)
    ensures
        r@ == correction_decision_text(*d),
{
    match d {
        CorrectionDecision::Accept => owned("Accept"),
        CorrectionDecision::ReviseStep { phase, reason } => {
            let mut s = owned("ReviseStep { phase: ");
            let p = phase_text(*phase);
            push_str(&mut s, p.as_str());
            push_str(&mut s, ", reason: VerificationFailure { kind: ");
            push_failure_tail(&mut s, reason.kind, reason.message.as_str());
            s
        },
        CorrectionDecision::RecalculateFrom { phase, reason } => {
            let mut s = owned("RecalculateFrom { phase: ");
            let p = phase_text(*phase);
            push_str(&mut s, p.as_str());
            push_str(&mut s, ", reason: VerificationFailure { kind: ");
            push_failure_tail(&mut s, reason.kind, reason.message.as_str());
            s
        },
    }
}

/// The debug text of a list of strings.
pub fn debug_strings(v: &Vec<String>) -> (r: String)
    ensures
        r@ == debug_list(views(v@)),
        crate::text::no_nl(r@),
        crate::text::no_cr(r@),
{
    proof {
        reveal_strlit("[");
        reveal_strlit("]");
        reveal_strlit(", ");
    }
    let ghost q = Seq::new(v@.len(), |i: int| debug_quoted(v@[i]@));
    let mut r = owned("[");
    let mut i: usize = 0;
    assert(r@ =~= "["@ + join(q.take(0), ", "@));
    assert(crate::text::no_nl(r@) && crate::text::no_cr(r@));
    while i < v.len()
        invariant
            i <= v@.len(),
            q == Seq::new(v@.len(), |i: int| debug_quoted(v@[i]@)),
            r@ == "["@ + join(q.take(i as int), ", "@),
            crate::text::no_nl(r@),
            crate::text::no_cr(r@),
        decreases v.len() - i,
    {
        if i > 0 {
            proof {
                reveal_strlit(", ");
                crate::text::lemma_clean_concat(r@, ", "@);
            }
            push_str(&mut r, ", ");
        }
        let d = debug_str(v[i].as_str());
        proof {
            crate::text::lemma_clean_concat(r@, d@);
        }
        push_str(&mut r, d.as_str());
        i = i + 1;
        assert(q.take(i as int).drop_last() =~= q.take(i - 1));
        assert(r@ =~= "["@ + join(q.take(i as int), ", "@));
    }
    proof {
        reveal_strlit("]");
        crate::text::lemma_clean_concat(r@, "]"@);
    }
    push_str(&mut r, "]");
    assert(q.take(i as int) =~= q);
    assert(q =~= Seq::new(views(v@).len(), |i: int| debug_quoted(views(v@)[i])));
    r
}

pub fn push_score(s: &mut String, pct: u32)
    requires
        pct <= 100,
    ensures
        final(s)@ == old(s)@ + score_text(pct as nat),
{
    push_dec(s, (pct / 100) as u64);
    push_str(s, ".");
    let d1 = (pct % 100) / 10;
    let d2 = pct % 10;
    crate::text::push_char(s, crate::text::char_from_ascii(d1 + 48));
    crate::text::push_char(s, crate::text::char_from_ascii(d2 + 48));
    assert(s@ =~= old(s)@ + score_text(pct as nat));
}

// ---------------------------------------------------------------------------
// Events and the trace
// ---------------------------------------------------------------------------

/// Event severity.
#[derive(Clone, Copy, Debug, PartialEq, Eq, Structural)]
pub enum EventLevel {
    Info,
    Warning,
}

/// Event kinds emitted by orchestrated execution.
#[derive(Clone, Copy, Debug, PartialEq, Eq, Structural)]
pub enum PipelineEventType {
    ExecutionStarted,
    MemoryRetrieved,
    ReasoningPlanPrepared,
    ReasoningStepExecuted,
    LocalVerificationCompleted,
    CorrectionAttemptStarted,
    CorrectionAttemptSucceeded,
    CorrectionAttemptFailed,
    GlobalVerificationCompleted,
    CorrectionDecisionIssued,
    FinalResultProduced,
}

/// One structured event; `index` is its position in the trace.
#[derive(Debug)]
pub struct PipelineEvent {
    pub index: usize,
    pub level: EventLevel,
    pub event_type: PipelineEventType,
    pub detail: String,
}

/// Full execution trace of one run.
#[derive(Debug)]
pub struct ExecutionTrace {
    pub run_id: String,
    pub events: Vec<PipelineEvent>,
}

/// Aggregated summary of one run; the confidence is in hundredths.
#[derive(Debug)]
pub struct ExecutionSummary {
    pub verification_status: String,
    pub confidence_pct: u32,
    pub reasoning_steps_executed: usize,
    pub local_verifications: usize,
    pub global_failures: Vec<String>,
}

/// One correction attempt made during local retries.
#[derive(Debug)]
pub struct CorrectionAttemptRecord {
    pub phase: String,
    pub attempt_number: usize,
    pub previous_failure_reason: String,
    pub succeeded: bool,
}

/// What an event says: level, type and detail text.
pub type EventView = (EventLevel, PipelineEventType, Seq<char>);

pub open spec fn event_view(e: PipelineEvent) -> EventView {
    (e.level, e.event_type, e.detail@)
}

pub open spec fn event_views(es: Seq<PipelineEvent>) -> Seq<EventView> {
    Seq::new(es.len(), |i: int| event_view(es[i]))
}

/// Every event carries its own position as index.
pub open spec fn events_indexed(es: Seq<PipelineEvent>) -> bool {
    forall|i: int| 0 <= i < es.len() ==> (#[trigger] es[i]).index == i
}

/// Records the events of a run in order.
#[derive(Debug)]
pub struct TraceRecorder {
    events: Vec<PipelineEvent>,
}

impl TraceRecorder {
    /// The events recorded so far.
    pub closed spec fn events(&self) -> Seq<PipelineEvent> {
        self.events@
    }

    pub fn new() -> (r: Self)
        ensures
            r.events().len() == 0,
    {
        TraceRecorder { events: Vec::new() }
    }

    /// Appends an event whose index is the number of events before it.
    pub fn push(&mut self, level: EventLevel, event_type: PipelineEventType, detail: String)
        requires
            events_indexed(old(self).events()),
        ensures
            events_indexed(final(self).events()),
            final(self).events().len() == old(self).events().len() + 1,
            final(self).events().drop_last() == old(self).events(),
            event_views(final(self).events()) == event_views(old(self).events()).push(
                (level, event_type, detail@),
            ),
    {
        let index = self.events.len();
        self.events.push(PipelineEvent { index, level, event_type, detail });
        assert(self.events@.drop_last() =~= old(self).events@);
        assert(event_views(self.events@) =~= event_views(old(self).events@).push(
            (level, event_type, self.events@.last().detail@),
        ));
    }

    /// The recorded events.
    pub fn into_events(self) -> (r: Vec<PipelineEvent>)
        ensures
            r@ == self.events(),
    {
        self.events
    }
}

/// Adding one event to an indexed trace keeps it indexed, and the new
/// event's index is the length of the trace before it.
pub proof fn law_trace_index_is_position(before: Seq<PipelineEvent>, e: PipelineEvent)
    requires
        events_indexed(before),
        e.index == before.len(),
    ensures
        events_indexed(before.push(e)),
        before.push(e)[before.len() as int].index == before.len(),
{
    assert forall|i: int| 0 <= i < before.push(e).len() implies (#[trigger] before.push(e)[i]).index == i by {
        if i < before.len() {
            assert(before.push(e)[i] == before[i]);
        }
    }
}

// ---------------------------------------------------------------------------
// Event texts
// ---------------------------------------------------------------------------

/// Local retries allowed per step after its first attempt.
pub const MAX_LOCAL_RETRIES: usize = 2;

pub open spec fn started_detail(goal: Seq<char>) -> Seq<char> {
    "run started for goal: "@ + goal
}

pub open spec fn retrieved_detail(n: nat, m: nat) -> Seq<char> {
    "retrieved "@ + dec(n) + " context items and "@ + dec(m) + " durable rules"@
}

pub open spec fn plan_detail(n: nat) -> Seq<char> {
    "prepared plan with "@ + dec(n) + " steps"@
}

pub open spec fn executing_detail(p: ReasoningPhase, attempt: nat) -> Seq<char> {
    "executing step "@ + phase_name(p) + " (attempt "@ + dec(attempt) + "/"@ + dec(
        (MAX_LOCAL_RETRIES + 1) as nat,
    ) + ")"@
}

pub open spec fn local_detail(p: ReasoningPhase, attempt: nat, passed: bool) -> Seq<char> {
    "local verification for "@ + phase_name(p) + " attempt "@ + dec(attempt) + ": passed="@
        + bool_text(passed)
}

pub open spec fn decision_detail(d: CorrectionDecision) -> Seq<char> {
    "decision: "@ + correction_decision_text(d)
}

pub open spec fn exhausted_detail(p: ReasoningPhase) -> Seq<char> {
    "retry budget exhausted for phase "@ + phase_name(p)
}

/// Why a local verification failed, as fed back to the next attempt.
pub open spec fn failure_reason(v: StepVerificationResult) -> Seq<char> {
    match v.failure {
        Some(f) => failure_kind_name(f.kind) + " - "@ + f.message@,
        None => "unknown local verification failure"@,
    }
}

pub open spec fn correction_started_detail(attempt: nat, p: ReasoningPhase, reason: Seq<char>) -> Seq<char> {
    "starting correction attempt "@ + dec(attempt) + " for phase "@ + phase_name(p) + ": "@ + reason
}

pub open spec fn correction_succeeded_detail(attempt: nat, p: ReasoningPhase) -> Seq<char> {
    "correction attempt "@ + dec(attempt) + " succeeded for phase "@ + phase_name(p)
}

pub open spec fn global_detail(d: GlobalDecision, pct: nat) -> Seq<char> {
    "global verification decision="@ + decision_name(d) + ", score="@ + score_text(pct)
}

fn executing_text(p: ReasoningPhase, attempt: usize) -> (r: String)
    ensures
        r@ == executing_detail(p, attempt as nat),
{
    let mut s = owned("executing step ");
    let n = phase_text(p);
    push_str(&mut s, n.as_str());
    push_str(&mut s, " (attempt ");
    push_dec(&mut s, attempt as u64);
    push_str(&mut s, "/");
    push_dec(&mut s, (MAX_LOCAL_RETRIES + 1) as u64);
    push_str(&mut s, ")");
    s
}

fn local_text(p: ReasoningPhase, attempt: usize, passed: bool) -> (r: String)
    ensures
        r@ == local_detail(p, attempt as nat, passed),
{
    let mut s = owned("local verification for ");
    let n = phase_text(p);
    push_str(&mut s, n.as_str());
    push_str(&mut s, " attempt ");
    push_dec(&mut s, attempt as u64);
    push_str(&mut s, ": passed=");
    push_bool(&mut s, passed);
    s
}

fn reason_text(v: &StepVerificationResult) -> (r: String)
    ensures
        r@ == failure_reason(*v),
{
    match &v.failure {
        Some(f) => {
            let mut s = failure_kind_text(f.kind);
            push_str(&mut s, " - ");
            push_str(&mut s, f.message.as_str());
            s
        },
        None => owned("unknown local verification failure"),
    }
}

// ---------------------------------------------------------------------------
// Durable rules from permanent memory
// ---------------------------------------------------------------------------

/// The first rule (in order) whose marker `violate:<rule>` occurs in the
/// lowercased output, rule and marker compared in lowercase.
pub open spec fn first_violated(rules: Seq<Seq<char>>, lowered_output: Seq<char>) -> Option<Seq<char>>
    decreases rules.len(),
{
    if rules.len() == 0 {
        None
    } else if contains_sub(lowered_output, "violate:"@ + lowercase(rules[0])) {
        Some(rules[0])
    } else {
        first_violated(rules.drop_first(), lowered_output)
    }
}

/// Checks step outputs against durable rules taken from permanent memory:
/// an output contradicts a rule when it carries `violate:<rule>`.
#[derive(Debug)]
pub struct DurableMemoryChecker {
    pub rules: Vec<String>,
}

impl DurableRuleChecker for DurableMemoryChecker {
    open spec fn contradiction(&self, step: ReasoningStep, output: Seq<char>) -> Option<Seq<char>> {
        first_violated(views(self.rules@), lowercase(output))
    }

    fn detect_contradiction(&self, _step: &ReasoningStep, result: &StepResult) -> (r: Option<String>) {
        let lowered = to_lowercase(result.output.as_str());
        let low = chars_of(lowered.as_str());
        let ghost rs = views(self.rules@);
        let mut i: usize = 0;
        assert(rs.skip(0) =~= rs);
        while i < self.rules.len()
            invariant
                i <= self.rules@.len(),
                rs == views(self.rules@),
                low@ == lowercase(result.output@),
                first_violated(rs, low@) == first_violated(rs.skip(i as int), low@),
            decreases self.rules.len() - i,
        {
            let mut marker = owned("violate:");
            let lr = to_lowercase(self.rules[i].as_str());
            push_str(&mut marker, lr.as_str());
            let m = chars_of(marker.as_str());
            assert(rs.skip(i as int)[0] == self.rules@[i as int]@);
            if contains(&low, &m) {
                return Some(copy_string(&self.rules[i]));
            }
            assert(rs.skip(i as int).drop_first() =~= rs.skip(i + 1));
            i = i + 1;
        }
        assert(rs.skip(i as int).len() == 0);
        None
    }
}

/// The reasoning plan of an orchestrated run.
pub fn build_reasoning_plan(goal: &str) -> (plan: ReasoningPlan)
    ensures
        plan.objective@ == goal@,
        fixed_plan(plan.steps@),
{
    let steps = vec![
        ReasoningStep::new(
            ReasoningPhase::Analyze,
            "Clarify user objective and constraints",
            "problem statement",
        ),
        ReasoningStep::new(ReasoningPhase::Hypothesis, "Propose best approach", "root cause hypothesis"),
        ReasoningStep::new(
            ReasoningPhase::ActionOrTest,
            "Propose concrete action or test",
            "test result",
        ),
        ReasoningStep::new(
            ReasoningPhase::Validation,
            "Validate with checks and durable rules",
            "validation report",
        ),
    ];
    ReasoningPlan::new(goal, steps)
}

/// The four steps of the orchestrated plan.
pub open spec fn fixed_plan(steps: Seq<ReasoningStep>) -> bool {
    &&& steps.len() == 4
    &&& steps[0].phase == ReasoningPhase::Analyze
    &&& steps[0].goal@ == "Clarify user objective and constraints"@
    &&& steps[0].expected_artifact@ == "problem statement"@
    &&& steps[1].phase == ReasoningPhase::Hypothesis
    &&& steps[1].goal@ == "Propose best approach"@
    &&& steps[1].expected_artifact@ == "root cause hypothesis"@
    &&& steps[2].phase == ReasoningPhase::ActionOrTest
    &&& steps[2].goal@ == "Propose concrete action or test"@
    &&& steps[2].expected_artifact@ == "test result"@
    &&& steps[3].phase == ReasoningPhase::Validation
    &&& steps[3].goal@ == "Validate with checks and durable rules"@
    &&& steps[3].expected_artifact@ == "validation report"@
}

/// The plan's steps cover the required phases in order, so the plan is valid.
proof fn lemma_fixed_plan_valid(steps: Seq<ReasoningStep>)
    requires
        fixed_plan(steps),
    ensures
        plan_is_valid(steps),
{
    crate::reasoning::law_structure_accepts_ordered_plans(steps);
    assert(phases(steps) =~= required_phases());
}

// ---------------------------------------------------------------------------
// Retry counts
// ---------------------------------------------------------------------------

/// Number of correction retries made for one phase.
#[derive(Debug)]
pub struct RetryCount {
    pub phase: String,
    pub count: usize,
}

pub open spec fn retry_views(v: Seq<RetryCount>) -> Seq<(Seq<char>, nat)> {
    Seq::new(v.len(), |i: int| (v[i].phase@, v[i].count as nat))
}

/// The counts after one more retry of `name`: its entry is incremented, or a
/// new entry with count 1 is appended.
pub open spec fn bumped(s: Seq<(Seq<char>, nat)>, name: Seq<char>) -> Seq<(Seq<char>, nat)>
    decreases s.len(),
{
    if s.len() == 0 {
        seq![(name, 1nat)]
    } else if s[0].0 == name {
        s.update(0, (name, s[0].1 + 1))
    } else {
        seq![s[0]] + bumped(s.drop_first(), name)
    }
}

proof fn lemma_bumped_at(s: Seq<(Seq<char>, nat)>, name: Seq<char>, i: int)
    requires
        0 <= i <= s.len(),
        forall|j: int| 0 <= j < i ==> (#[trigger] s[j]).0 != name,
        i < s.len() ==> s[i].0 == name,
    ensures
        i < s.len() ==> bumped(s, name) == s.update(i, (name, s[i].1 + 1)),
        i == s.len() ==> bumped(s, name) == s.push((name, 1nat)),
    decreases i,
{
    if i > 0 {
        let t = s.drop_first();
        assert forall|j: int| 0 <= j < i - 1 implies (#[trigger] t[j]).0 != name by {
            assert(t[j] == s[j + 1]);
        }
        lemma_bumped_at(t, name, i - 1);
        if i < s.len() {
            assert(seq![s[0]] + t.update(i - 1, (name, t[i - 1].1 + 1)) =~= s.update(i, (name, s[i].1 + 1)));
        } else {
            assert(seq![s[0]] + t.push((name, 1nat)) =~= s.push((name, 1nat)));
        }
    } else if s.len() == 0 {
        assert(s.push((name, 1nat)) =~= seq![(name, 1nat)]);
    }
}

/// Counts one more retry of `name`.
fn bump_retry(v: &mut Vec<RetryCount>, name: String, bound: usize)
    requires
        bound >= 1,
        forall|i: int| 0 <= i < old(v)@.len() ==> (#[trigger] old(v)@[i]).count < bound,
    ensures
        retry_views(final(v)@) == bumped(retry_views(old(v)@), name@),
        forall|i: int| 0 <= i < final(v)@.len() ==> (#[trigger] final(v)@[i]).count <= bound,
{
    let ghost s = retry_views(v@);
    let mut i: usize = 0;
    while i < v.len() && !crate::text::str_eq(v[i].phase.as_str(), name.as_str())
        invariant
            i <= v@.len(),
            s == retry_views(v@),
            forall|j: int| 0 <= j < i ==> (#[trigger] s[j]).0 != name@,
            forall|j: int| 0 <= j < v@.len() ==> (#[trigger] v@[j]).count < bound,
        decreases v.len() - i,
    {
        i = i + 1;
    }
    proof {
        lemma_bumped_at(s, name@, i as int);
    }
    if i < v.len() {
        let c = v[i].count + 1;
        v.set(i, RetryCount { phase: name, count: c });
        assert(retry_views(v@) =~= s.update(i as int, (name@, s[i as int].1 + 1)));
    } else {
        v.push(RetryCount { phase: name, count: 1 });
        assert(retry_views(v@) =~= s.push((name@, 1nat)));
    }
}

// ---------------------------------------------------------------------------
// Memory context of a run
// ---------------------------------------------------------------------------

/// Keys of the entries that are system rules or architecture decisions, in order.
pub open spec fn durable_keys(es: Seq<&PermanentMemoryEntry>) -> Seq<Seq<char>>
    decreases es.len(),
{
    if es.len() == 0 {
        Seq::empty()
    } else {
        let rest = durable_keys(es.drop_last());
        let e = es.last();
        if e.kind == PermanentMemoryKind::SystemRule || e.kind == PermanentMemoryKind::ArchitectureDecision {
            rest.push(e.key@)
        } else {
            rest
        }
    }
}

/// The durable rules of a permanent store: the keys of its system rules and
/// architecture decisions, in increasing key order.
pub open spec fn durable_rules_of(c: PermanentContents) -> Seq<Seq<char>> {
    durable_keys(choose|es: Seq<&PermanentMemoryEntry>| lists_contents(es, c))
}

/// Two listings of one store give the same durable keys.
proof fn lemma_durable_keys_agree(a: Seq<&PermanentMemoryEntry>, b: Seq<&PermanentMemoryEntry>, c: PermanentContents)
    requires
        lists_contents(a, c),
        lists_contents(b, c),
    ensures
        durable_keys(a) == durable_keys(b),
{
    crate::text::lemma_sorted_unique(crate::memory::ref_keys(a), crate::memory::ref_keys(b));
    assert(a.len() == crate::memory::ref_keys(a).len());
    assert(b.len() == crate::memory::ref_keys(b).len());
    assert forall|i: int| 0 <= i < a.len() implies #[trigger] a[i].key@ == b[i].key@ && entry_view(*a[i])
        == entry_view(*b[i]) by {
        assert(crate::memory::ref_keys(a)[i] == crate::memory::ref_keys(b)[i]);
        assert(entry_view(*a[i]) == c[a[i].key@]);
        assert(entry_view(*b[i]) == c[b[i].key@]);
    }
    lemma_durable_keys_pointwise(a, b, c);
}

proof fn lemma_durable_keys_pointwise(a: Seq<&PermanentMemoryEntry>, b: Seq<&PermanentMemoryEntry>, c: PermanentContents)
    requires
        a.len() == b.len(),
        forall|i: int| 0 <= i < a.len() ==> #[trigger] a[i].key@ == b[i].key@ && entry_view(*a[i])
            == entry_view(*b[i]),
    ensures
        durable_keys(a) == durable_keys(b),
    decreases a.len(),
{
    if a.len() > 0 {
        assert forall|i: int| 0 <= i < a.drop_last().len() implies #[trigger] a.drop_last()[i].key@
            == b.drop_last()[i].key@ && entry_view(*a.drop_last()[i]) == entry_view(*b.drop_last()[i]) by {
            assert(a.drop_last()[i] == a[i]);
            assert(b.drop_last()[i] == b[i]);
        }
        lemma_durable_keys_pointwise(a.drop_last(), b.drop_last(), c);
        assert(a[a.len() - 1].key@ == b[b.len() - 1].key@);
        assert(entry_view(*a[a.len() - 1]) == entry_view(*b[b.len() - 1]));
    }
}

/// The memory context of a run: the values of the best hits of a balanced
/// query on the goal (at most five), and the durable rules.
pub fn memory_context(engine: &MemoryEngine<HeuristicSummarizer>, goal: &str) -> (r: (Vec<String>, Vec<String>))
    requires
        engine.wf(),
    ensures
        views(r.0@) == hit_values(
            crate::memory::ranked(crate::memory::candidates_for(*engine, RetrievalIntent::Balanced, goal@), 5),
        ),
        views(r.1@) == durable_rules_of(engine.permanent.contents()),
{
    let query = RetrievalQuery::new(RetrievalIntent::Balanced, goal, 5);
    let hits = engine.retrieve(&query);
    let mut lines: Vec<String> = Vec::new();
    let mut i: usize = 0;
    while i < hits.len()
        invariant
            i <= hits@.len(),
            views(lines@) == hit_values(crate::memory::hit_views(hits@)).take(i as int),
        decreases hits.len() - i,
    {
        let ghost before = views(lines@);
        let line = copy_string(&hits[i].value);
        assert(hit_values(crate::memory::hit_views(hits@))[i as int] == line@);
        lines.push(line);
        assert(views(lines@) =~= before.push(line@));
        assert(hit_values(crate::memory::hit_views(hits@)).take(i + 1) =~= before.push(line@));
        i = i + 1;
        assert(views(lines@) =~= hit_values(crate::memory::hit_views(hits@)).take(i as int));
    }
    assert(hit_values(crate::memory::hit_views(hits@)).take(i as int) =~= hit_values(
        crate::memory::hit_views(hits@),
    ));
    let es = engine.permanent.all();
    let mut rules: Vec<String> = Vec::new();
    let mut j: usize = 0;
    while j < es.len()
        invariant
            j <= es@.len(),
            views(rules@) == durable_keys(es@.take(j as int)),
        decreases es.len() - j,
    {
        assert(es@.take(j + 1).drop_last() =~= es@.take(j as int));
        let e = es[j];
        if e.kind == PermanentMemoryKind::SystemRule || e.kind == PermanentMemoryKind::ArchitectureDecision {
            let ghost before = views(rules@);
            rules.push(copy_string(&e.key));
            assert(views(rules@) =~= before.push(e.key@));
        }
        j = j + 1;
    }
    assert(es@.take(j as int) =~= es@);
    proof {
        let c = engine.permanent.contents();
        let chosen = choose|x: Seq<&PermanentMemoryEntry>| lists_contents(x, c);
        assert(lists_contents(es@, c));
        lemma_durable_keys_agree(es@, chosen, c);
    }
    (lines, rules)
}

/// The values of hits, in order.
pub open spec fn hit_values(hs: Seq<crate::memory::HitView>) -> Seq<Seq<char>> {
    Seq::new(hs.len(), |i: int| hs[i].value)
}

// ---------------------------------------------------------------------------
// The run
// ---------------------------------------------------------------------------

/// State of one orchestrated run between model calls.
#[derive(Debug)]
pub struct PipelineRun {
    pub goal: String,
    pub context_lines: Vec<String>,
    pub execution: ReasoningExecution<DurableMemoryChecker>,
    pub trace: TraceRecorder,
    /// Index of the step being executed.
    pub step: usize,
    /// Retries made so far for the current step.
    pub attempt: usize,
    pub correction_feedback: Option<String>,
    pub step_retry_count: Vec<RetryCount>,
    pub correction_attempts: usize,
    pub correction_history: Vec<CorrectionAttemptRecord>,
    pub final_failure_phase: Option<String>,
    /// The step loop is over: every step passed, or a step ran out of retries.
    pub steps_done: bool,
}

/// Number of steps of the orchestrated plan.
pub open spec fn plan_len() -> nat {
    4
}

impl PipelineRun {
    /// The state is consistent.
    pub open spec fn wf(&self) -> bool {
        &&& fixed_plan(self.execution.plan.steps@)
        &&& self.execution.results@.len() == self.step
        &&& results_follow_plan(self.execution.plan.steps@, self.execution.results@)
        &&& self.step <= plan_len()
        &&& (self.step == plan_len() ==> self.steps_done)
        &&& (self.steps_done ==> self.step == plan_len() || self.final_failure_phase is Some)
        &&& self.attempt <= MAX_LOCAL_RETRIES
        &&& self.correction_history@.len() == self.correction_attempts
        &&& self.correction_attempts <= (MAX_LOCAL_RETRIES + 1) * self.step + self.attempt
        &&& forall|i: int|
            0 <= i < self.step_retry_count@.len() ==> (#[trigger] self.step_retry_count@[i]).count
                <= self.correction_attempts
        &&& events_indexed(self.trace.events())
    }

    /// The phase of the current step.
    pub open spec fn phase(&self) -> ReasoningPhase {
        self.execution.plan.steps@[self.step as int].phase
    }

    /// Model calls left at most: three attempts per remaining step, less
    /// the retries already made on the current one.
    pub open spec fn calls_left(&self) -> nat {
        if self.steps_done {
            0
        } else {
            ((MAX_LOCAL_RETRIES + 1) * (plan_len() - self.step) - self.attempt) as nat
        }
    }

    /// Starts a run on a goal with its memory context and durable rules.
    pub fn start(goal: &str, context_lines: Vec<String>, durable_rules: Vec<String>) -> (r: Self)
        ensures
            r.wf(),
            r.goal@ == goal@,
            r.context_lines@ == context_lines@,
            r.execution.checker.rules@ == durable_rules@,
            r.execution.plan.objective@ == goal@,
            r.execution.results@.len() == 0,
            r.execution.verifications@.len() == 0,
            r.step == 0,
            r.attempt == 0,
            r.correction_feedback is None,
            r.step_retry_count@.len() == 0,
            r.correction_history@.len() == 0,
            r.final_failure_phase is None,
            !r.steps_done,
            r.calls_left() == (MAX_LOCAL_RETRIES + 1) * plan_len(),
            event_views(r.trace.events()) == seq![
                (EventLevel::Info, PipelineEventType::ExecutionStarted, started_detail(goal@)),
                (
                    EventLevel::Info,
                    PipelineEventType::MemoryRetrieved,
                    retrieved_detail(context_lines@.len(), durable_rules@.len()),
                ),
                (EventLevel::Info, PipelineEventType::ReasoningPlanPrepared, plan_detail(plan_len())),
                (
                    EventLevel::Info,
                    PipelineEventType::ReasoningStepExecuted,
                    executing_detail(ReasoningPhase::Analyze, 1),
                ),
            ],
    {
        let mut trace = TraceRecorder::new();
        let mut d = owned("run started for goal: ");
        push_str(&mut d, goal);
        trace.push(EventLevel::Info, PipelineEventType::ExecutionStarted, d);
        let mut d = owned("retrieved ");
        push_dec(&mut d, context_lines.len() as u64);
        push_str(&mut d, " context items and ");
        push_dec(&mut d, durable_rules.len() as u64);
        push_str(&mut d, " durable rules");
        trace.push(EventLevel::Info, PipelineEventType::MemoryRetrieved, d);
        let plan = build_reasoning_plan(goal);
        let mut d = owned("prepared plan with ");
        push_dec(&mut d, plan.steps.len() as u64);
        push_str(&mut d, " steps");
        trace.push(EventLevel::Info, PipelineEventType::ReasoningPlanPrepared, d);
        proof {
            lemma_fixed_plan_valid(plan.steps@);
        }
        let ghost ps = plan.steps@;
        let ghost rules = durable_rules@;
        let execution = match ReasoningExecution::new(plan, DurableMemoryChecker { rules: durable_rules }) {
            Ok(e) => e,
            Err(_) => {
                proof {
                    assert(false);
                }
                vstd::pervasive::unreached()
            },
        };
        let d = executing_text(ReasoningPhase::Analyze, 1);
        trace.push(EventLevel::Info, PipelineEventType::ReasoningStepExecuted, d);
        let r = PipelineRun {
            goal: owned(goal),
            context_lines,
            execution,
            trace,
            step: 0,
            attempt: 0,
            correction_feedback: None,
            step_retry_count: Vec::new(),
            correction_attempts: 0,
            correction_history: Vec::new(),
            final_failure_phase: None,
            steps_done: false,
        };
        assert(event_views(r.trace.events()) =~= seq![
            (EventLevel::Info, PipelineEventType::ExecutionStarted, started_detail(goal@)),
            (
                EventLevel::Info,
                PipelineEventType::MemoryRetrieved,
                retrieved_detail(context_lines@.len(), durable_rules@.len()),
            ),
            (EventLevel::Info, PipelineEventType::ReasoningPlanPrepared, plan_detail(plan_len())),
            (
                EventLevel::Info,
                PipelineEventType::ReasoningStepExecuted,
                executing_detail(ReasoningPhase::Analyze, 1),
            ),
        ]);
        r
    }
}

/// The prompt for one step attempt.
pub open spec fn prompt_text(
    goal: Seq<char>,
    persona: Seq<char>,
    step: ReasoningStep,
    context: Seq<Seq<char>>,
    feedback: Option<String>,
) -> Seq<char> {
    "Goal: "@ + goal + "\nPersona: "@ + persona + "\nStep: "@ + phase_name(step.phase)
        + "\nStep objective: "@ + step.goal@ + "\nExpected artifact: "@ + step.expected_artifact@
        + "\nMemory context: "@ + debug_list(context) + "\nCorrection feedback: "@ + match feedback {
        Some(f) => f@,
        None => "none"@,
    }
}

/// The correction history after a step passed: when the step needed
/// retries and the last record is of its phase, that record is marked as
/// succeeded; otherwise nothing changes.
pub open spec fn history_after_success(
    before: Seq<CorrectionAttemptRecord>,
    after: Seq<CorrectionAttemptRecord>,
    retried: bool,
    phase: Seq<char>,
) -> bool {
    if retried && before.len() > 0 && before.last().phase@ == phase {
        &&& after.len() == before.len()
        &&& after.drop_last() == before.drop_last()
        &&& after.last().phase == before.last().phase
        &&& after.last().attempt_number == before.last().attempt_number
        &&& after.last().previous_failure_reason == before.last().previous_failure_reason
        &&& after.last().succeeded
    } else {
        after == before
    }
}

/// What handling one model output does to a run, given the verification
/// `v` of that output.
pub open spec fn output_handled(b: PipelineRun, a: PipelineRun, v: StepVerificationResult) -> bool {
    let p = b.phase();
    let n = (b.attempt + 1) as nat;
    let evb = event_views(b.trace.events());
    let eva = event_views(a.trace.events());
    let local = (EventLevel::Info, PipelineEventType::LocalVerificationCompleted, local_detail(p, n, v.passed));
    let decision = (EventLevel::Warning, PipelineEventType::CorrectionDecisionIssued, decision_detail(v.decision));
    &&& a.goal == b.goal
    &&& a.context_lines == b.context_lines
    &&& if v.passed {
        let succeeded: Seq<EventView> = if b.attempt > 0 {
            seq![(EventLevel::Info, PipelineEventType::CorrectionAttemptSucceeded, correction_succeeded_detail(n, p))]
        } else {
            Seq::empty()
        };
        let next: Seq<EventView> = if b.step + 1 < plan_len() {
            seq![
                (
                    EventLevel::Info,
                    PipelineEventType::ReasoningStepExecuted,
                    executing_detail(b.execution.plan.steps@[b.step + 1].phase, 1),
                ),
            ]
        } else {
            Seq::empty()
        };
        &&& eva == evb.push(local) + succeeded + next
        &&& a.step == b.step + 1
        &&& a.attempt == 0
        &&& a.correction_feedback is None
        &&& a.steps_done == (a.step == plan_len())
        &&& a.step_retry_count == b.step_retry_count
        &&& a.correction_attempts == b.correction_attempts
        &&& a.final_failure_phase == b.final_failure_phase
        &&& history_after_success(b.correction_history@, a.correction_history@, b.attempt > 0, phase_name(p))
    } else if b.attempt >= MAX_LOCAL_RETRIES {
        &&& eva == evb + seq![
            local,
            decision,
            (EventLevel::Warning, PipelineEventType::CorrectionAttemptFailed, exhausted_detail(p)),
        ]
        &&& a.final_failure_phase matches Some(f) && f@ == phase_name(p)
        &&& a.steps_done
        &&& a.step == b.step
        &&& a.attempt == b.attempt
        &&& a.correction_feedback == b.correction_feedback
        &&& a.step_retry_count == b.step_retry_count
        &&& a.correction_attempts == b.correction_attempts
        &&& a.correction_history == b.correction_history
    } else {
        let reason = failure_reason(v);
        &&& eva == evb + seq![
            local,
            decision,
            (
                EventLevel::Info,
                PipelineEventType::CorrectionAttemptStarted,
                correction_started_detail(n + 1, p, reason),
            ),
            (EventLevel::Info, PipelineEventType::ReasoningStepExecuted, executing_detail(p, n + 1)),
        ]
        &&& !a.steps_done
        &&& a.step == b.step
        &&& a.attempt == b.attempt + 1
        &&& a.correction_feedback matches Some(f) && f@ == reason
        &&& a.correction_attempts == b.correction_attempts + 1
        &&& retry_views(a.step_retry_count@) == bumped(retry_views(b.step_retry_count@), phase_name(p))
        &&& a.correction_history@.drop_last() == b.correction_history@
        &&& a.correction_history@.len() == b.correction_history@.len() + 1
        &&& a.correction_history@.last().phase@ == phase_name(p)
        &&& a.correction_history@.last().attempt_number == n + 1
        &&& a.correction_history@.last().previous_failure_reason@ == reason
        &&& !a.correction_history@.last().succeeded
        &&& a.final_failure_phase == b.final_failure_phase
    }
}

/// What the run answers after the step loop: the output of the validation
/// step, else the last accepted output, else a notice that revision is needed.
pub open spec fn final_content_of(rs: Seq<StepResult>) -> Seq<char> {
    match crate::reasoning::output_of_phase(rs, ReasoningPhase::Validation) {
        Some(o) => o,
        None => if rs.len() > 0 {
            rs.last().output@
        } else {
            "Révision requise avant réponse finale."@
        },
    }
}

impl PipelineRun {
    /// The prompt for the current step attempt.
    pub fn prompt(&self, persona_name: &str) -> (r: String)
        requires
            self.wf(),
            !self.steps_done,
        ensures
            r@ == prompt_text(
                self.goal@,
                persona_name@,
                self.execution.plan.steps@[self.step as int],
                views(self.context_lines@),
                self.correction_feedback,
            ),
    {
        let step = &self.execution.plan.steps[self.step];
        let mut r = owned("Goal: ");
        push_str(&mut r, self.goal.as_str());
        push_str(&mut r, "\nPersona: ");
        push_str(&mut r, persona_name);
        push_str(&mut r, "\nStep: ");
        let n = phase_text(step.phase);
        push_str(&mut r, n.as_str());
        push_str(&mut r, "\nStep objective: ");
        push_str(&mut r, step.goal.as_str());
        push_str(&mut r, "\nExpected artifact: ");
        push_str(&mut r, step.expected_artifact.as_str());
        push_str(&mut r, "\nMemory context: ");
        let c = debug_strings(&self.context_lines);
        push_str(&mut r, c.as_str());
        push_str(&mut r, "\nCorrection feedback: ");
        match &self.correction_feedback {
            Some(f) => push_str(&mut r, f.as_str()),
            None => push_str(&mut r, "none"),
        }
        r
    }

    /// Takes the model's output for the current step attempt: verifies it,
    /// then moves to the next step, retries with feedback, or gives up on
    /// the step when its retries are spent.
    pub fn on_model_output(&mut self, output: String)
        requires
            old(self).wf(),
            !old(self).steps_done,
        ensures
            final(self).wf(),
            final(self).calls_left() < old(self).calls_left(),
            final(self).execution.plan == old(self).execution.plan,
            final(self).execution.checker == old(self).execution.checker,
            final(self).execution.verifications@.len() == old(self).execution.verifications@.len() + 1,
            final(self).execution.verifications@.drop_last() == old(self).execution.verifications@,
            step_verdict(
                old(self).execution.checker,
                old(self).execution.plan.steps@[old(self).step as int],
                StepResult { phase: old(self).phase(), output, status: crate::reasoning::StepStatus::Succeeded },
                final(self).execution.verifications@.last(),
            ),
            final(self).execution.verifications@.last().passed ==> final(self).execution.results@
                == old(self).execution.results@.push(
                StepResult { phase: old(self).phase(), output, status: crate::reasoning::StepStatus::Succeeded },
            ),
            !final(self).execution.verifications@.last().passed ==> final(self).execution.results@
                == old(self).execution.results@,
            output_handled(*old(self), *final(self), final(self).execution.verifications@.last()),
    {
        let phase = self.execution.plan.steps[self.step].phase;
        let ghost out = output;
        let result = StepResult::succeeded(phase, output);
        let ghost res = result;
        let ghost ex0 = self.execution;
        let verification = match self.execution.verify_and_push(result) {
            Ok(v) => v,
            Err(_) => {
                proof {
                    assert(false);
                }
                return ;
            },
        };
        proof {
            lemma_verdict_agree(ex0.checker, ex0.plan.steps@[self.step as int], res, verification, self.execution.verifications@.last());
        }
        let ghost evb = event_views(self.trace.events());
        let ghost hist0 = self.correction_history@;
        let n = self.attempt + 1;
        let lt = local_text(phase, n, verification.passed);
        let ghost local = (EventLevel::Info, PipelineEventType::LocalVerificationCompleted, lt@);
        self.trace.push(EventLevel::Info, PipelineEventType::LocalVerificationCompleted, lt);
        if verification.passed {
            let ghost succ: Seq<EventView> = if self.attempt > 0 {
                seq![(EventLevel::Info, PipelineEventType::CorrectionAttemptSucceeded, correction_succeeded_detail(n as nat, phase))]
            } else {
                Seq::empty()
            };
            if self.attempt > 0 {
                let mut d = owned("correction attempt ");
                push_dec(&mut d, n as u64);
                push_str(&mut d, " succeeded for phase ");
                let pn = phase_text(phase);
                push_str(&mut d, pn.as_str());
                self.trace.push(EventLevel::Info, PipelineEventType::CorrectionAttemptSucceeded, d);
                let len = self.correction_history.len();
                if len > 0 {
                    let pn = phase_text(phase);
                    if crate::text::str_eq(self.correction_history[len - 1].phase.as_str(), pn.as_str()) {
                        let ghost hb = self.correction_history@;
                        let mut rec = self.correction_history.pop().unwrap();
                        rec.succeeded = true;
                        self.correction_history.push(rec);
                        assert(self.correction_history@.drop_last() =~= hb.drop_last());
                    }
                }
            }
            let ghost ev1 = event_views(self.trace.events());
            assert(ev1 =~= evb.push(local) + succ);
            self.step = self.step + 1;
            self.attempt = 0;
            self.correction_feedback = None;
            if self.step < 4 {
                let d = executing_text(self.execution.plan.steps[self.step].phase, 1);
                self.trace.push(EventLevel::Info, PipelineEventType::ReasoningStepExecuted, d);
                assert(event_views(self.trace.events()) =~= evb.push(local) + succ + seq![(EventLevel::Info, PipelineEventType::ReasoningStepExecuted, d@)]);
            } else {
                self.steps_done = true;
                assert(event_views(self.trace.events()) =~= evb.push(local) + succ + Seq::<EventView>::empty());
            }
        } else {
            let mut d = owned("decision: ");
            let dt = correction_decision_string(&verification.decision);
            push_str(&mut d, dt.as_str());
            self.trace.push(EventLevel::Warning, PipelineEventType::CorrectionDecisionIssued, d);
            if self.attempt >= MAX_LOCAL_RETRIES {
                self.final_failure_phase = Some(phase_text(phase));
                let mut d = owned("retry budget exhausted for phase ");
                let pn = phase_text(phase);
                push_str(&mut d, pn.as_str());
                self.trace.push(EventLevel::Warning, PipelineEventType::CorrectionAttemptFailed, d);
                self.steps_done = true;
                assert(event_views(self.trace.events()) =~= evb + seq![
                    local,
                    (EventLevel::Warning, PipelineEventType::CorrectionDecisionIssued, decision_detail(verification.decision)),
                    (EventLevel::Warning, PipelineEventType::CorrectionAttemptFailed, exhausted_detail(phase)),
                ]);
            } else {
                self.attempt = self.attempt + 1;
                let reason = reason_text(&verification);
                self.correction_feedback = Some(copy_string(&reason));
                self.correction_attempts = self.correction_attempts + 1;
                bump_retry(&mut self.step_retry_count, phase_text(phase), self.correction_attempts);
                let mut d = owned("starting correction attempt ");
                push_dec(&mut d, (self.attempt + 1) as u64);
                push_str(&mut d, " for phase ");
                let pn = phase_text(phase);
                push_str(&mut d, pn.as_str());
                push_str(&mut d, ": ");
                push_str(&mut d, reason.as_str());
                self.trace.push(EventLevel::Info, PipelineEventType::CorrectionAttemptStarted, d);
                self.correction_history.push(
                    CorrectionAttemptRecord {
                        phase: phase_text(phase),
                        attempt_number: self.attempt + 1,
                        previous_failure_reason: reason,
                        succeeded: false,
                    },
                );
                let d = executing_text(phase, self.attempt + 1);
                self.trace.push(EventLevel::Info, PipelineEventType::ReasoningStepExecuted, d);
                assert(event_views(self.trace.events()) =~= evb + seq![
                    local,
                    (EventLevel::Warning, PipelineEventType::CorrectionDecisionIssued, decision_detail(verification.decision)),
                    (
                        EventLevel::Info,
                        PipelineEventType::CorrectionAttemptStarted,
                        correction_started_detail((n + 1) as nat, phase, failure_reason(verification)),
                    ),
                    (EventLevel::Info, PipelineEventType::ReasoningStepExecuted, executing_detail(phase, (n + 1) as nat)),
                ]);
                assert(self.correction_history@.drop_last() =~= hist0);
            }
        }
    }
}

/// Two verifications of the same output agree on everything the run reads.
proof fn lemma_verdict_agree<C: DurableRuleChecker>(
    checker: C,
    step: ReasoningStep,
    result: StepResult,
    v1: StepVerificationResult,
    v2: StepVerificationResult,
)
    requires
        step_verdict(checker, step, result, v1),
        step_verdict(checker, step, result, v2),
    ensures
        v1.passed == v2.passed,
        failure_reason(v1) == failure_reason(v2),
        correction_decision_text(v1.decision) == correction_decision_text(v2.decision),
{
}

/// The events global verification adds to the trace.
pub open spec fn global_events(report: GlobalVerificationReport) -> Seq<EventView> {
    seq![
        (
            EventLevel::Info,
            PipelineEventType::GlobalVerificationCompleted,
            global_detail(report.decision, report.score_pct as nat),
        ),
    ] + if report.decision == GlobalDecision::NeedsRevision {
        seq![
            (
                EventLevel::Warning,
                PipelineEventType::CorrectionDecisionIssued,
                "global decision requires revision"@,
            ),
        ]
    } else {
        Seq::empty()
    }
}

/// The texts of the global failures: `kind: message`.
pub open spec fn global_failure_texts(fs: Seq<crate::reasoning::GlobalFailure>) -> Seq<Seq<char>> {
    Seq::new(fs.len(), |i: int| global_kind_name(fs[i].kind) + ": "@ + fs[i].message@)
}

impl PipelineRun {
    /// Ends the step loop: verifies the whole reasoning, records the
    /// outcome, and gives the report with the final content.
    pub fn finish(&mut self) -> (r: (GlobalVerificationReport, String))
        requires
            old(self).wf(),
            old(self).steps_done,
        ensures
            final(self).wf(),
            crate::reasoning::report_matches(
                r.0,
                crate::reasoning::global_failures_of(
                    plan_len(),
                    old(self).execution.results@,
                    old(self).execution.verifications@,
                ),
            ),
            r.1@ == final_content_of(old(self).execution.results@),
            event_views(final(self).trace.events()) == event_views(old(self).trace.events())
                + global_events(r.0),
            final(self).execution == old(self).execution,
            final(self).goal == old(self).goal,
            final(self).step == old(self).step,
            final(self).steps_done == old(self).steps_done,
            final(self).step_retry_count == old(self).step_retry_count,
            final(self).correction_attempts == old(self).correction_attempts,
            final(self).correction_history == old(self).correction_history,
            final(self).final_failure_phase == old(self).final_failure_phase,
    {
        let ghost evb = event_views(self.trace.events());
        let report = self.execution.verify_global();
        let mut d = owned("global verification decision=");
        let dn = decision_text(report.decision);
        push_str(&mut d, dn.as_str());
        push_str(&mut d, ", score=");
        push_score(&mut d, report.score_pct);
        self.trace.push(EventLevel::Info, PipelineEventType::GlobalVerificationCompleted, d);
        if report.decision == GlobalDecision::NeedsRevision {
            self.trace.push(
                EventLevel::Warning,
                PipelineEventType::CorrectionDecisionIssued,
                owned("global decision requires revision"),
            );
        }
        assert(event_views(self.trace.events()) =~= evb + global_events(report));
        let content = match self.execution.result_for_phase(ReasoningPhase::Validation) {
            Some(i) => {
                proof {
                    let rs = self.execution.results@;
                    assert(crate::reasoning::is_first_of(rs, ReasoningPhase::Validation, i as int));
                    let c = choose|k: int| crate::reasoning::is_first_of(rs, ReasoningPhase::Validation, k);
                    if c < i {
                        assert(rs[c].phase != ReasoningPhase::Validation);
                    } else if i < c {
                        assert(rs[i as int].phase != ReasoningPhase::Validation);
                    }
                }
                copy_string(&self.execution.results[i].output)
            },
            None => {
                proof {
                    let rs = self.execution.results@;
                    if exists|k: int| crate::reasoning::is_first_of(rs, ReasoningPhase::Validation, k) {
                        let c = choose|k: int| crate::reasoning::is_first_of(rs, ReasoningPhase::Validation, k);
                        assert(rs[c].phase == ReasoningPhase::Validation);
                    }
                }
                let len = self.execution.results.len();
                if len > 0 {
                    copy_string(&self.execution.results[len - 1].output)
                } else {
                    owned("Révision requise avant réponse finale.")
                }
            },
        };
        (report, content)
    }

    /// Records that the final result was assembled and stored.
    pub fn record_final(&mut self)
        requires
            old(self).wf(),
        ensures
            final(self).wf(),
            event_views(final(self).trace.events()) == event_views(old(self).trace.events()).push(
                (
                    EventLevel::Info,
                    PipelineEventType::FinalResultProduced,
                    "final result assembled and interaction stored"@,
                ),
            ),
            final(self).execution == old(self).execution,
            final(self).step == old(self).step,
            final(self).steps_done == old(self).steps_done,
            final(self).step_retry_count == old(self).step_retry_count,
            final(self).correction_attempts == old(self).correction_attempts,
            final(self).correction_history == old(self).correction_history,
            final(self).final_failure_phase == old(self).final_failure_phase,
    {
        self.trace.push(
            EventLevel::Info,
            PipelineEventType::FinalResultProduced,
            owned("final result assembled and interaction stored"),
        );
    }

    /// The summary of the run for a global report.
    pub fn summary(&self, report: &GlobalVerificationReport) -> (s: ExecutionSummary)
        ensures
            s.verification_status@ == decision_name(report.decision),
            s.confidence_pct == report.score_pct,
            s.reasoning_steps_executed == self.execution.results@.len(),
            s.local_verifications == self.execution.verifications@.len(),
            views(s.global_failures@) == global_failure_texts(report.failures@),
    {
        let mut fs: Vec<String> = Vec::new();
        let mut i: usize = 0;
        while i < report.failures.len()
            invariant
                i <= report.failures@.len(),
                views(fs@) == global_failure_texts(report.failures@).take(i as int),
            decreases report.failures.len() - i,
        {
            let f = &report.failures[i];
            let mut t = global_kind_text(f.kind);
            push_str(&mut t, ": ");
            push_str(&mut t, f.message.as_str());
            let ghost before = views(fs@);
            fs.push(t);
            assert(views(fs@) =~= before.push(t@));
            i = i + 1;
            assert(global_failure_texts(report.failures@).take(i as int) =~= before.push(t@));
        }
        assert(global_failure_texts(report.failures@).take(i as int) =~= global_failure_texts(report.failures@));
        ExecutionSummary {
            verification_status: decision_text(report.decision),
            confidence_pct: report.score_pct,
            reasoning_steps_executed: self.execution.results.len(),
            local_verifications: self.execution.verifications.len(),
            global_failures: fs,
        }
    }

    /// The phases of the plan, as named in the plan-created event.
    pub fn plan_phase_names(&self) -> (r: Vec<String>)
        ensures
            views(r@) == Seq::new(self.execution.plan.steps@.len(), |i: int| phase_name(self.execution.plan.steps@[i].phase)),
    {
        let mut r: Vec<String> = Vec::new();
        let mut i: usize = 0;
        while i < self.execution.plan.steps.len()
            invariant
                i <= self.execution.plan.steps@.len(),
                views(r@) == Seq::new(i as nat, |k: int| phase_name(self.execution.plan.steps@[k].phase)),
            decreases self.execution.plan.steps.len() - i,
        {
            let t = phase_text(self.execution.plan.steps[i].phase);
            let ghost before = views(r@);
            r.push(t);
            assert(views(r@) =~= before.push(t@));
            i = i + 1;
            assert(views(r@) =~= Seq::new(i as nat, |k: int| phase_name(self.execution.plan.steps@[k].phase)));
        }
        r
    }
}

/// A run asks the model for at most three attempts per step: every output
/// handled lowers the count of calls left, which starts at twelve.
pub proof fn law_run_is_bounded(b: PipelineRun, a: PipelineRun, v: StepVerificationResult)
    requires
        b.wf(),
        !b.steps_done,
        a.wf(),
        output_handled(b, a, v),
    ensures
        a.calls_left() < b.calls_left(),
        b.calls_left() <= (MAX_LOCAL_RETRIES + 1) * plan_len(),
        a.attempt <= MAX_LOCAL_RETRIES,
{
}

/// A step is retried only after a failed verification, and only while its
/// retries are not spent; a passing step moves the run to the next step.
pub proof fn law_retry_only_on_failure(b: PipelineRun, a: PipelineRun, v: StepVerificationResult)
    requires
        b.wf(),
        !b.steps_done,
        output_handled(b, a, v),
    ensures
        v.passed ==> a.step == b.step + 1 && a.attempt == 0,
        !v.passed && b.attempt < MAX_LOCAL_RETRIES ==> a.step == b.step && a.attempt == b.attempt + 1
            && a.correction_attempts == b.correction_attempts + 1,
        !v.passed && b.attempt >= MAX_LOCAL_RETRIES ==> a.steps_done && a.final_failure_phase is Some
            && a.correction_attempts == b.correction_attempts,
{
}

} // verus!
