//! Deterministic evaluation of orchestrated runs: five quality dimensions
//! scored from the answer, the confidence and the structured output, their
//! mean, and a summary over several cases. Scores are in thousandths
//! (`0..=1000` stands for `[0, 1]`), divisions rounding down.
use crate::json::{jv, member, JsonValue, JsonView};
use crate::session::parsed_u64;
use crate::pipeline::ExecutionSummary;
use crate::json::{jv_list, jv_members};
use crate::text::{dec, is_blank, owned, str_eq, trim, views};
use vstd::prelude::*;

verus! {

/// Quality dimensions of an evaluation.
#[derive(Debug, Clone, Copy, PartialEq, Eq, Structural)]
pub enum EvaluationDimension {
    Completeness,
    ReasoningCoherence,
    VerificationStatus,
    ConfidenceLevel,
    FlowRobustness,
}

/// One scored dimension.
#[derive(Debug)]
pub struct DimensionScore {
    pub dimension: EvaluationDimension,
    pub score_milli: u32,
    pub note: String,
}

/// What a case asks of a run.
#[derive(Debug)]
pub struct EvaluationCase {
    pub case_id: String,
    pub minimum_overall_milli: i64,
    pub require_accept_verification: bool,
}

/// The evaluation of one case.
#[derive(Debug)]
pub struct EvaluationResult {
    pub case_id: String,
    pub passed: bool,
    pub overall_milli: u32,
    pub verification_status: String,
    pub confidence_milli: i64,
    pub dimension_scores: Vec<DimensionScore>,
}

/// A summary over evaluated cases.
#[derive(Debug)]
pub struct EvaluationSummary {
    pub total_cases: usize,
    pub passed_cases: usize,
    pub average_milli: u32,
    pub average_by_dimension: Vec<DimensionScore>,
}

/// The evaluator.
pub struct DeterministicPipelineEvaluator;

/// The dimensions, in the order they are scored.
pub open spec fn dimensions() -> Seq<EvaluationDimension> {
    seq![
        EvaluationDimension::Completeness,
        EvaluationDimension::ReasoningCoherence,
        EvaluationDimension::VerificationStatus,
        EvaluationDimension::ConfidenceLevel,
        EvaluationDimension::FlowRobustness,
    ]
}

/// A field of the structured output, when it is an object that has it.
pub open spec fn field(structured: Option<JsonView>, key: Seq<char>) -> Option<JsonView> {
    match structured {
        Some(JsonView::Obj(ms)) => member(ms, key),
        _ => None,
    }
}

/// A field read as text, or a default.
pub open spec fn field_text(structured: Option<JsonView>, key: Seq<char>, default: Seq<char>) -> Seq<char> {
    match field(structured, key) {
        Some(JsonView::Str(s)) => s,
        _ => default,
    }
}

/// A field read as an unsigned 64-bit count (a number written with digits
/// only), or 0.
pub open spec fn field_count(structured: Option<JsonView>, key: Seq<char>) -> nat {
    match field(structured, key) {
        Some(JsonView::Num(s)) => if s.len() > 0 && s[0] != '+' && parsed_u64(s) is Some {
            parsed_u64(s)->0 as nat
        } else {
            0
        },
        _ => 0,
    }
}

/// A field read as an array, its length, or 0.
pub open spec fn field_len(structured: Option<JsonView>, key: Seq<char>) -> nat {
    match field(structured, key) {
        Some(JsonView::Arr(a)) => a.len(),
        _ => 0,
    }
}

/// The five scores of a run from its answer, its confidence and what its
/// structured output reports: verification status, steps executed, local
/// verifications and global failures.
pub open spec fn scores_from(
    answer: Seq<char>,
    confidence_milli: int,
    status: Seq<char>,
    steps: nat,
    locals: nat,
    failures: nat,
) -> Seq<nat> {
    let verification: nat = if status == "Accept"@ { 1000 } else { 300 };
    let ratio: nat = locals * 1000 / if steps >= 1 { steps } else { 1 };
    seq![
        if trim(answer).len() > 0 && steps > 0 { 1000nat } else { 200nat },
        if failures == 0 { 1000nat } else { 400nat },
        verification,
        if confidence_milli < 0 { 0nat } else if confidence_milli > 1000 { 1000nat } else { confidence_milli as nat },
        (if ratio + verification > 1000 { 1000nat } else { (ratio + verification) as nat }) / 2,
    ]
}

/// The five scores of a run, in the order of `dimensions()`.
pub open spec fn scores_of(answer: Seq<char>, confidence_milli: int, structured: Option<JsonView>) -> Seq<nat> {
    scores_from(
        answer,
        confidence_milli,
        field_text(structured, "verification_status"@, "Unknown"@),
        field_count(structured, "reasoning_steps_executed"@),
        field_count(structured, "local_verifications"@),
        field_len(structured, "global_failures"@),
    )
}

/// The overall score: the mean of the five scores.
pub open spec fn overall_of(s: Seq<nat>) -> nat {
    ((s[0] + s[1] + s[2] + s[3] + s[4]) / 5) as nat
}

/// The notes of the dimensions.
pub open spec fn notes() -> Seq<Seq<char>> {
    seq![
        "final content presence and minimal reasoning execution"@,
        "absence/presence of global verification failures"@,
        "Accept vs NeedsRevision"@,
        "confidence score emitted by orchestrated pipeline"@,
        "ratio of local verifications over executed steps + verification status"@,
    ]
}

/// A dimension score by views.
pub open spec fn score_view(d: DimensionScore) -> (EvaluationDimension, nat, Seq<char>) {
    (d.dimension, d.score_milli as nat, d.note@)
}

fn dim(dimension: EvaluationDimension, score_milli: u32, note: &str) -> (r: DimensionScore)
    ensures
        score_view(r) == (dimension, score_milli as nat, note@),
{
    DimensionScore { dimension, score_milli, note: owned(note) }
}

/// The object members of an optional structured output.
fn members_of(structured: Option<&JsonValue>) -> (r: Option<&Vec<(String, JsonValue)>>)
    ensures
        match r {
            Some(m) => opt_jv(structured) == Some(JsonView::Obj(crate::json::jv_members(m@))),
            None => !(opt_jv(structured) matches Some(JsonView::Obj(_))),
        },
{
    match structured {
        Some(v) => crate::json::obj(v),
        None => None,
    }
}

/// The view of an optional structured output.
pub open spec fn opt_jv(v: Option<&JsonValue>) -> Option<JsonView> {
    match v {
        Some(x) => Some(jv(*x)),
        None => None,
    }
}

fn read_text(structured: Option<&JsonValue>, key: &str, default: &str) -> (r: String)
    ensures
        r@ == field_text(opt_jv(structured), key@, default@),
{
    match members_of(structured) {
        Some(m) => match crate::json::get(m, key) {
            Some(v) => match crate::json::strv(v) {
                Some(s) => owned(s),
                None => owned(default),
            },
            None => owned(default),
        },
        None => owned(default),
    }
}

fn read_count(structured: Option<&JsonValue>, key: &str) -> (r: u64)
    ensures
        r == field_count(opt_jv(structured), key@),
{
    match members_of(structured) {
        Some(m) => match crate::json::get(m, key) {
            Some(JsonValue::Num(s)) => {
                let c = crate::text::chars_of(s.as_str());
                if c.len() > 0 && c[0] != '+' {
                    match crate::session::parse_u64(&c) {
                        Some(n) => n,
                        None => 0,
                    }
                } else {
                    0
                }
            },
            _ => 0,
        },
        None => 0,
    }
}

fn read_len(structured: Option<&JsonValue>, key: &str) -> (r: usize)
    ensures
        r == field_len(opt_jv(structured), key@),
{
    match members_of(structured) {
        Some(m) => match crate::json::get(m, key) {
            Some(v) => match crate::json::arr(v) {
                Some(a) => {
                    proof {
                        crate::json::lemma_jv_list(a@);
                    }
                    a.len()
                },
                None => 0,
            },
            None => 0,
        },
        None => 0,
    }
}

impl DeterministicPipelineEvaluator {
    /// Evaluates a run (its answer, its confidence in thousandths and its
    /// structured output) against a case: five dimension scores, their mean,
    /// and whether the case passes (an accepted verification where asked,
    /// and a mean at least the case's minimum).
    pub fn evaluate_case(
        case: &EvaluationCase,
        answer: &str,
        confidence_milli: i64,
        structured: Option<&JsonValue>,
    ) -> (r: EvaluationResult)
        ensures
            ({
                let s = scores_of(answer@, confidence_milli as int, opt_jv(structured));
                let status = field_text(opt_jv(structured), "verification_status"@, "Unknown"@);
                &&& r.case_id@ == case.case_id@
                &&& r.verification_status@ == status
                &&& r.confidence_milli == confidence_milli
                &&& Seq::new(r.dimension_scores@.len(), |i: int| score_view(r.dimension_scores@[i]))
                    == Seq::new(5, |i: int| (dimensions()[i], s[i], notes()[i]))
                &&& r.overall_milli == overall_of(s)
                &&& r.passed == ((!case.require_accept_verification || status == "Accept"@)
                    && r.overall_milli >= case.minimum_overall_milli)
            }),
    {
        proof {
            reveal_strlit("Accept");
        }
        let status = read_text(structured, "verification_status", "Unknown");
        let steps = read_count(structured, "reasoning_steps_executed");
        let locals = read_count(structured, "local_verifications");
        let failures = read_len(structured, "global_failures");
        let completeness: u32 = if !is_blank(answer) && steps > 0 {
            1000
        } else {
            200
        };
        let coherence: u32 = if failures == 0 {
            1000
        } else {
            400
        };
        let accepted = str_eq(status.as_str(), "Accept");
        let verification: u32 = if accepted {
            1000
        } else {
            300
        };
        let confidence: u32 = if confidence_milli < 0 {
            0
        } else if confidence_milli > 1000 {
            1000
        } else {
            confidence_milli as u32
        };
        let denom: u128 = if steps >= 1 {
            steps as u128
        } else {
            1
        };
        assert((locals as u128) * 1000 <= u128::MAX) by (nonlinear_arith)
            requires
                locals <= u64::MAX,
        ;
        let ratio: u128 = (locals as u128) * 1000 / denom;
        let sum: u128 = ratio + verification as u128;
        let robustness: u32 = ((if sum > 1000 {
            1000
        } else {
            sum
        }) / 2) as u32;
        let overall: u32 = (completeness + coherence + verification + confidence + robustness) / 5;
        let ghost s = scores_of(answer@, confidence_milli as int, opt_jv(structured));
        let scores = vec![
            dim(EvaluationDimension::Completeness, completeness, "final content presence and minimal reasoning execution"),
            dim(EvaluationDimension::ReasoningCoherence, coherence, "absence/presence of global verification failures"),
            dim(EvaluationDimension::VerificationStatus, verification, "Accept vs NeedsRevision"),
            dim(EvaluationDimension::ConfidenceLevel, confidence, "confidence score emitted by orchestrated pipeline"),
            dim(
                EvaluationDimension::FlowRobustness,
                robustness,
                "ratio of local verifications over executed steps + verification status",
            ),
        ];
        assert(Seq::new(scores@.len(), |i: int| score_view(scores@[i])) =~= Seq::new(
            5,
            |i: int| (dimensions()[i], s[i], notes()[i]),
        ));
        let verification_ok = !case.require_accept_verification || accepted;
        let passed = verification_ok && (overall as i64) >= case.minimum_overall_milli;
        EvaluationResult {
            case_id: owned(case.case_id.as_str()),
            passed,
            overall_milli: overall,
            verification_status: status,
            confidence_milli,
            dimension_scores: scores,
        }
    }
}

/// The scores a list of dimension scores gives to one dimension, in order.
pub open spec fn scores_for(ds: Seq<DimensionScore>, d: EvaluationDimension) -> Seq<nat>
    decreases ds.len(),
{
    if ds.len() == 0 {
        Seq::empty()
    } else if ds.last().dimension == d {
        scores_for(ds.drop_last(), d).push(ds.last().score_milli as nat)
    } else {
        scores_for(ds.drop_last(), d)
    }
}

/// The scores of one dimension over all results, in order.
pub open spec fn dim_scores(results: Seq<EvaluationResult>, d: EvaluationDimension) -> Seq<nat>
    decreases results.len(),
{
    if results.len() == 0 {
        Seq::empty()
    } else {
        dim_scores(results.drop_last(), d) + scores_for(results.last().dimension_scores@, d)
    }
}

/// The sum of a sequence of numbers.
pub open spec fn total_of(s: Seq<nat>) -> nat
    decreases s.len(),
{
    if s.len() == 0 {
        0
    } else {
        total_of(s.drop_last()) + s.last()
    }
}

/// How many results passed.
pub open spec fn passed_count(results: Seq<EvaluationResult>) -> nat
    decreases results.len(),
{
    if results.len() == 0 {
        0
    } else {
        passed_count(results.drop_last()) + if results.last().passed { 1nat } else { 0nat }
    }
}

/// The overall scores of the results.
pub open spec fn overalls(results: Seq<EvaluationResult>) -> Seq<nat> {
    Seq::new(results.len(), |i: int| results[i].overall_milli as nat)
}

/// The averages by dimension, over the dimensions from `k` on that some
/// result scores, in the order of `dimensions()`.
pub open spec fn averages_from(results: Seq<EvaluationResult>, k: int) -> Seq<(EvaluationDimension, nat)>
    decreases 5 - k,
{
    if k < 0 || k >= 5 {
        Seq::empty()
    } else {
        let sc = dim_scores(results, dimensions()[k]);
        let rest = averages_from(results, k + 1);
        if sc.len() > 0 {
            seq![(dimensions()[k], total_of(sc) / sc.len())] + rest
        } else {
            rest
        }
    }
}

/// The counts of scores of each dimension fit in a `usize`.
pub open spec fn summary_fits(results: Seq<EvaluationResult>) -> bool {
    forall|k: int| 0 <= k < 5 ==> #[trigger] dim_scores(results, dimensions()[k]).len() <= usize::MAX
}

proof fn lemma_dim_scores_prefix(results: Seq<EvaluationResult>, d: EvaluationDimension, i: int)
    requires
        0 <= i <= results.len(),
    ensures
        dim_scores(results.take(i), d).len() <= dim_scores(results, d).len(),
    decreases results.len() - i,
{
    if i < results.len() {
        lemma_dim_scores_prefix(results, d, i + 1);
        assert(results.take(i + 1).drop_last() =~= results.take(i));
    } else {
        assert(results.take(i) =~= results);
    }
}

proof fn lemma_scores_for_prefix(ds: Seq<DimensionScore>, d: EvaluationDimension, j: int)
    requires
        0 <= j <= ds.len(),
    ensures
        scores_for(ds.take(j), d).len() <= scores_for(ds, d).len(),
    decreases ds.len() - j,
{
    if j < ds.len() {
        lemma_scores_for_prefix(ds, d, j + 1);
        assert(ds.take(j + 1).drop_last() =~= ds.take(j));
    } else {
        assert(ds.take(j) =~= ds);
    }
}

proof fn lemma_total_bound(s: Seq<nat>)
    requires
        forall|i: int| 0 <= i < s.len() ==> s[i] <= u32::MAX,
    ensures
        total_of(s) <= s.len() * 4294967295,
    decreases s.len(),
{
    if s.len() > 0 {
        lemma_total_bound(s.drop_last());
    }
}

/// The sum and the count of the scores of one dimension.
fn dim_total(results: &Vec<EvaluationResult>, d: EvaluationDimension) -> (r: (u128, usize))
    requires
        dim_scores(results@, d).len() <= usize::MAX,
    ensures
        r.0 == total_of(dim_scores(results@, d)),
        r.1 == dim_scores(results@, d).len(),
{
    let ghost full = dim_scores(results@, d);
    let ghost mut acc: Seq<nat> = Seq::empty();
    let mut sum: u128 = 0;
    let mut count: usize = 0;
    let mut i: usize = 0;
    while i < results.len()
        invariant
            i <= results@.len(),
            full == dim_scores(results@, d),
            full.len() <= usize::MAX,
            acc == dim_scores(results@.take(i as int), d),
            sum == total_of(acc),
            count == acc.len(),
            forall|t: int| 0 <= t < acc.len() ==> acc[t] <= u32::MAX,
        decreases results.len() - i,
    {
        let ds = &results[i].dimension_scores;
        let ghost base = acc;
        let mut j: usize = 0;
        proof {
            assert(ds@.take(0) =~= Seq::<DimensionScore>::empty());
            assert(base + scores_for(ds@.take(0), d) =~= base);
        }
        while j < ds.len()
            invariant
                i < results@.len(),
                ds@ == results@[i as int].dimension_scores@,
                j <= ds@.len(),
                full == dim_scores(results@, d),
                full.len() <= usize::MAX,
                base == dim_scores(results@.take(i as int), d),
                acc == base + scores_for(ds@.take(j as int), d),
                sum == total_of(acc),
                count == acc.len(),
                forall|t: int| 0 <= t < acc.len() ==> acc[t] <= u32::MAX,
            decreases ds.len() - j,
        {
            assert(ds@.take(j + 1).drop_last() =~= ds@.take(j as int));
            if ds[j].dimension == d {
                proof {
                    lemma_total_bound(acc);
                    lemma_scores_for_prefix(ds@, d, j + 1);
                    lemma_dim_scores_prefix(results@, d, i + 1);
                    assert(results@.take(i + 1).drop_last() =~= results@.take(i as int));
                    assert(results@.take(i + 1).last() == results@[i as int]);
                    assert(dim_scores(results@.take(i + 1), d) == base + scores_for(ds@, d));
                    assert(acc.len() * 4294967295 + 4294967295 <= 18446744073709551615 * 4294967295
                        + 4294967295);
                }
                let ghost old_acc = acc;
                sum = sum + ds[j].score_milli as u128;
                count = count + 1;
                proof {
                    acc = acc.push(ds[j as int].score_milli as nat);
                    assert(acc.drop_last() =~= old_acc);
                    assert(base + scores_for(ds@.take(j + 1), d) =~= (base + scores_for(ds@.take(j as int), d)).push(
                        ds[j as int].score_milli as nat,
                    ));
                }
            } else {
                assert(base + scores_for(ds@.take(j + 1), d) =~= base + scores_for(ds@.take(j as int), d));
            }
            j = j + 1;
        }
        proof {
            assert(ds@.take(j as int) =~= ds@);
            assert(results@.take(i + 1).drop_last() =~= results@.take(i as int));
            assert(results@.take(i + 1).last() == results@[i as int]);
        }
        i = i + 1;
    }
    proof {
        assert(results@.take(i as int) =~= results@);
    }
    (sum, count)
}

impl DeterministicPipelineEvaluator {
    /// Summarizes evaluated cases: how many there are and passed, the mean
    /// overall score (0 for none), and for each dimension some result
    /// scores, in the order of the dimensions, the mean of its scores.
    pub fn summarize(results: &Vec<EvaluationResult>) -> (r: EvaluationSummary)
        requires
            summary_fits(results@),
        ensures
            r.total_cases == results@.len(),
            r.passed_cases == passed_count(results@),
            r.average_milli == if results@.len() == 0 {
                0
            } else {
                total_of(overalls(results@)) / results@.len()
            },
            Seq::new(r.average_by_dimension@.len(), |i: int| (r.average_by_dimension@[i].dimension, r.average_by_dimension@[i].score_milli as nat))
                == averages_from(results@, 0),
            forall|i: int| 0 <= i < r.average_by_dimension@.len() ==> #[trigger] r.average_by_dimension@[i].note@
                == "average score across evaluated cases"@,
    {
        let mut passed: usize = 0;
        let mut total: u128 = 0;
        let mut i: usize = 0;
        while i < results.len()
            invariant
                i <= results@.len(),
                passed == passed_count(results@.take(i as int)),
                passed <= i,
                total == total_of(overalls(results@).take(i as int)),
                total <= i * 4294967295,
            decreases results.len() - i,
        {
            assert(results@.take(i + 1).drop_last() =~= results@.take(i as int));
            assert(overalls(results@).take(i + 1).drop_last() =~= overalls(results@).take(i as int));
            if results[i].passed {
                passed = passed + 1;
            }
            total = total + results[i].overall_milli as u128;
            i = i + 1;
        }
        assert(results@.take(i as int) =~= results@);
        assert(overalls(results@).take(i as int) =~= overalls(results@));
        let n = results.len();
        let average: u32 = if n == 0 {
            0
        } else {
            assert(total / (n as u128) <= 4294967295) by (nonlinear_arith)
                requires
                    total <= n * 4294967295,
                    n > 0,
            ;
            (total / (n as u128)) as u32
        };
        let dims = vec![
            EvaluationDimension::Completeness,
            EvaluationDimension::ReasoningCoherence,
            EvaluationDimension::VerificationStatus,
            EvaluationDimension::ConfidenceLevel,
            EvaluationDimension::FlowRobustness,
        ];
        assert(dims@ =~= dimensions());
        let mut by_dim: Vec<DimensionScore> = Vec::new();
        let mut k: usize = 5;
        while k > 0
            invariant
                k <= 5,
                dims@ == dimensions(),
                summary_fits(results@),
                Seq::new(by_dim@.len(), |t: int| (by_dim@[t].dimension, by_dim@[t].score_milli as nat))
                    == averages_from(results@, k as int),
                forall|t: int| 0 <= t < by_dim@.len() ==> #[trigger] by_dim@[t].note@
                    == "average score across evaluated cases"@,
            decreases k,
        {
            k = k - 1;
            let d = dims[k];
            assert(dim_scores(results@, dimensions()[k as int]).len() <= usize::MAX);
            let (sum, count) = dim_total(results, d);
            if count > 0 {
                proof {
                    let sc = dim_scores(results@, d);
                    assert forall|t: int| 0 <= t < sc.len() implies sc[t] <= u32::MAX by {
                        lemma_dim_scores_bounded(results@, d, t);
                    }
                    lemma_total_bound(sc);
                }
                assert(sum / (count as u128) <= 4294967295) by (nonlinear_arith)
                    requires
                        sum <= count * 4294967295,
                        count > 0,
                ;
                let avg = (sum / (count as u128)) as u32;
                let ghost before = Seq::new(by_dim@.len(), |t: int| (by_dim@[t].dimension, by_dim@[t].score_milli as nat));
                by_dim.insert(0, DimensionScore { dimension: d, score_milli: avg, note: owned("average score across evaluated cases") });
                assert(Seq::new(by_dim@.len(), |t: int| (by_dim@[t].dimension, by_dim@[t].score_milli as nat))
                    =~= seq![(d, avg as nat)] + before);
            }
        }
        EvaluationSummary { total_cases: n, passed_cases: passed, average_milli: average, average_by_dimension: by_dim }
    }
}

proof fn lemma_scores_for_bounded(ds: Seq<DimensionScore>, d: EvaluationDimension, t: int)
    requires
        0 <= t < scores_for(ds, d).len(),
    ensures
        scores_for(ds, d)[t] <= u32::MAX,
    decreases ds.len(),
{
    if ds.len() > 0 {
        let rest = scores_for(ds.drop_last(), d);
        if t < rest.len() {
            lemma_scores_for_bounded(ds.drop_last(), d, t);
        }
    }
}

proof fn lemma_dim_scores_bounded(results: Seq<EvaluationResult>, d: EvaluationDimension, t: int)
    requires
        0 <= t < dim_scores(results, d).len(),
    ensures
        dim_scores(results, d)[t] <= u32::MAX,
    decreases results.len(),
{
    if results.len() > 0 {
        let a = dim_scores(results.drop_last(), d);
        if t < a.len() {
            lemma_dim_scores_bounded(results.drop_last(), d, t);
        } else {
            lemma_scores_for_bounded(results.last().dimension_scores@, d, t - a.len());
        }
    }
}

/// Every dimension score, and so the overall score, lies in `[0, 1]`.
pub proof fn law_scores_in_unit_range(answer: Seq<char>, confidence_milli: int, structured: Option<JsonView>)
    ensures
        forall|i: int| 0 <= i < 5 ==> #[trigger] scores_of(answer, confidence_milli, structured)[i] <= 1000,
        overall_of(scores_of(answer, confidence_milli, structured)) <= 1000,
{
}

/// The structured output that a run's self-evaluation reads: its
/// verification status, steps, local verifications and global failures.
pub open spec fn summary_json(
    status: Seq<char>,
    steps: nat,
    locals: nat,
    failures: Seq<Seq<char>>,
) -> JsonView {
    JsonView::Obj(summary_members(status, steps, locals, failures))
}

/// The members of that structured output.
pub open spec fn summary_members(
    status: Seq<char>,
    steps: nat,
    locals: nat,
    failures: Seq<Seq<char>>,
) -> Seq<(Seq<char>, JsonView)> {
    seq![
        ("verification_status"@, JsonView::Str(status)),
        ("reasoning_steps_executed"@, JsonView::Num(dec(steps))),
        ("local_verifications"@, JsonView::Num(dec(locals))),
        ("global_failures"@, JsonView::Arr(Seq::new(failures.len(), |i: int| JsonView::Str(failures[i])))),
    ]
}

proof fn lemma_summary_fields(status: Seq<char>, steps: nat, locals: nat, failures: Seq<Seq<char>>)
    requires
        steps <= u64::MAX,
        locals <= u64::MAX,
    ensures
        ({
            let v = Some(summary_json(status, steps, locals, failures));
            &&& field_text(v, "verification_status"@, "Unknown"@) == status
            &&& field_count(v, "reasoning_steps_executed"@) == steps
            &&& field_count(v, "local_verifications"@) == locals
            &&& field_len(v, "global_failures"@) == failures.len()
        }),
{
    reveal_strlit("verification_status");
    reveal_strlit("reasoning_steps_executed");
    reveal_strlit("local_verifications");
    reveal_strlit("global_failures");
    crate::fingerprint::lemma_dec_parses(steps);
    crate::fingerprint::lemma_dec_parses(locals);
    let ms = summary_members(status, steps, locals, failures);
    assert(ms.drop_first() =~= seq![ms[1], ms[2], ms[3]]);
    assert(ms.drop_first().drop_first() =~= seq![ms[2], ms[3]]);
    assert(ms.drop_first().drop_first().drop_first() =~= seq![ms[3]]);
    assert(ms[0].0 != "reasoning_steps_executed"@) by { assert(ms[0].0[0] != "reasoning_steps_executed"@[0]); }
    assert(ms[0].0 != "local_verifications"@) by { assert(ms[0].0[0] != "local_verifications"@[0]); }
    assert(ms[1].0 != "local_verifications"@) by { assert(ms[1].0[0] != "local_verifications"@[0]); }
    assert(ms[0].0 != "global_failures"@) by { assert(ms[0].0[0] != "global_failures"@[0]); }
    assert(ms[1].0 != "global_failures"@) by { assert(ms[1].0[0] != "global_failures"@[0]); }
    assert(ms[2].0 != "global_failures"@) by { assert(ms[2].0[1] != "global_failures"@[1]); }
    assert(member(ms, "verification_status"@) == Some(ms[0].1));
    let m1 = ms.drop_first();
    let m2 = m1.drop_first();
    let m3 = m2.drop_first();
    assert(m1[0] == ms[1] && m2[0] == ms[2] && m3[0] == ms[3]);
    assert(member(m1, "reasoning_steps_executed"@) == Some(ms[1].1));
    assert(member(ms, "reasoning_steps_executed"@) == Some(ms[1].1));
    assert(member(m2, "local_verifications"@) == Some(ms[2].1));
    assert(member(m1, "local_verifications"@) == Some(ms[2].1));
    assert(member(ms, "local_verifications"@) == Some(ms[2].1));
    assert(member(m3, "global_failures"@) == Some(ms[3].1));
    assert(member(m2, "global_failures"@) == Some(ms[3].1));
    assert(member(m1, "global_failures"@) == Some(ms[3].1));
    assert(member(ms, "global_failures"@) == Some(ms[3].1));
}

impl DeterministicPipelineEvaluator {
    /// The self-evaluation of an orchestrated run: its answer and summary
    /// evaluated against the default case (`default-orchestrated-run`, a mean
    /// of at least 0.6, no accepted verification required), the confidence
    /// read in thousandths.
    pub fn self_evaluation(summary: &ExecutionSummary, answer: &str) -> (r: EvaluationResult)
        ensures
            ({
                let sc = scores_from(
                    answer@,
                    summary.confidence_pct * 10,
                    summary.verification_status@,
                    summary.reasoning_steps_executed as nat,
                    summary.local_verifications as nat,
                    summary.global_failures@.len(),
                );
                &&& r.case_id@ == "default-orchestrated-run"@
                &&& r.verification_status@ == summary.verification_status@
                &&& r.confidence_milli == summary.confidence_pct * 10
                &&& Seq::new(r.dimension_scores@.len(), |i: int| score_view(r.dimension_scores@[i]))
                    == Seq::new(5, |i: int| (dimensions()[i], sc[i], notes()[i]))
                &&& r.overall_milli == overall_of(sc)
                &&& r.passed == (r.overall_milli >= 600)
            }),
    {
        let mut failures: Vec<JsonValue> = Vec::new();
        let mut i: usize = 0;
        while i < summary.global_failures.len()
            invariant
                i <= summary.global_failures@.len(),
                failures@.len() == i,
                forall|k: int| 0 <= k < i ==> jv(#[trigger] failures@[k]) == JsonView::Str(summary.global_failures@[k]@),
            decreases summary.global_failures.len() - i,
        {
            failures.push(JsonValue::Str(owned(summary.global_failures[i].as_str())));
            i = i + 1;
        }
        let members: Vec<(String, JsonValue)> = vec![
            (owned("verification_status"), JsonValue::Str(owned(summary.verification_status.as_str()))),
            (owned("reasoning_steps_executed"), JsonValue::Num(crate::text::dec_string(summary.reasoning_steps_executed as u64))),
            (owned("local_verifications"), JsonValue::Num(crate::text::dec_string(summary.local_verifications as u64))),
            (owned("global_failures"), JsonValue::Arr(failures)),
        ];
        let structured = JsonValue::Obj(members);
        proof {
            crate::json::lemma_jv_members(members@);
            crate::json::lemma_jv_list(failures@);
            let fv = views(summary.global_failures@);
            assert(jv_list(failures@) =~= Seq::new(fv.len(), |k: int| JsonView::Str(fv[k])));
            assert(jv(structured) == summary_json(
                summary.verification_status@,
                summary.reasoning_steps_executed as nat,
                summary.local_verifications as nat,
                fv,
            )) by {
                assert(jv_members(members@) =~= seq![
                    ("verification_status"@, JsonView::Str(summary.verification_status@)),
                    ("reasoning_steps_executed"@, JsonView::Num(dec(summary.reasoning_steps_executed as nat))),
                    ("local_verifications"@, JsonView::Num(dec(summary.local_verifications as nat))),
                    ("global_failures"@, JsonView::Arr(Seq::new(fv.len(), |k: int| JsonView::Str(fv[k])))),
                ]);
            }
            lemma_summary_fields(
                summary.verification_status@,
                summary.reasoning_steps_executed as nat,
                summary.local_verifications as nat,
                fv,
            );
        }
        let case = EvaluationCase {
            case_id: owned("default-orchestrated-run"),
            minimum_overall_milli: 600,
            require_accept_verification: false,
        };
        assert((summary.confidence_pct as i64) * 10 <= i64::MAX);
        Self::evaluate_case(&case, answer, (summary.confidence_pct as i64) * 10, Some(&structured))
    }
}

} // verus!
