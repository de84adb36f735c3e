//! Parallel patch strategies: the branches to try, the score of each
//! outcome and the ranking of the outcomes.
use crate::ranking::{int_indices, int_keys, order_desc, picked, stable_order_desc};
use crate::session::trunc_div;
use crate::text::{copy_string, lines, owned, push_str, str_lines};
use vstd::prelude::*;

verus! {

/// What one branch of the multiverse produced.
#[derive(Debug)]
pub struct BranchOutcome {
    pub strategy: String,
    pub patch_id: String,
    pub risk: u8,
    pub apply_check_ok: bool,
    pub check_ok: bool,
    pub test_ok: bool,
    pub diff_lines: usize,
    pub score: i32,
    pub note: String,
}

/// A branch outcome by views.
pub type OutcomeView = (Seq<char>, Seq<char>, u8, bool, bool, bool, usize, i32, Seq<char>);

pub open spec fn outcome_view(o: BranchOutcome) -> OutcomeView {
    (
        o.strategy@,
        o.patch_id@,
        o.risk,
        o.apply_check_ok,
        o.check_ok,
        o.test_ok,
        o.diff_lines,
        o.score,
        o.note@,
    )
}

pub open spec fn outcome_views(v: Seq<BranchOutcome>) -> Seq<OutcomeView> {
    Seq::new(v.len(), |i: int| outcome_view(v[i]))
}

/// The strategies, each with its style hint, in the order they are tried.
pub open spec fn strategy_list() -> Seq<(Seq<char>, Seq<char>)> {
    seq![
        ("minimal"@, "minimal patch surface"@),
        ("readability"@, "clear naming and readability first"@),
        ("robustness"@, "defensive checks and edge cases"@),
        ("review-prudent"@, "risk-aware conservative edits"@),
    ]
}

/// The strategies, each with its style hint.
pub fn strategies() -> (r: Vec<(&'static str, &'static str)>)
    ensures
        r@.len() == 4,
        forall|i: int|
            0 <= i < 4 ==> (#[trigger] r@[i]).0@ == strategy_list()[i].0 && r@[i].1@
                == strategy_list()[i].1,
{
    vec![
        ("minimal", "minimal patch surface"),
        ("readability", "clear naming and readability first"),
        ("robustness", "defensive checks and edge cases"),
        ("review-prudent", "risk-aware conservative edits"),
    ]
}

/// Whether a diff line adds or removes text.
pub open spec fn is_change_line(l: Seq<char>) -> bool {
    l.len() > 0 && (l[0] == '+' || l[0] == '-')
}

/// The number of lines of `ls` that add or remove text.
pub open spec fn change_count(ls: Seq<Seq<char>>) -> nat
    decreases ls.len(),
{
    if ls.len() == 0 {
        0
    } else {
        change_count(ls.drop_last()) + if is_change_line(ls.last()) {
            1nat
        } else {
            0nat
        }
    }
}

proof fn lemma_change_count_bounded(ls: Seq<Seq<char>>)
    ensures
        change_count(ls) <= ls.len(),
    decreases ls.len(),
{
    if ls.len() > 0 {
        lemma_change_count_bounded(ls.drop_last());
    }
}

/// The number of lines of a diff that start with `+` or `-`.
pub fn diff_lines(diff: &str) -> (r: usize)
    ensures
        r == change_count(lines(diff@)),
{
    let ls = str_lines(diff);
    let ghost lv = lines(diff@);
    let mut n: usize = 0;
    let mut i: usize = 0;
    while i < ls.len()
        invariant
            i <= ls@.len(),
            crate::text::vviews(ls@) == lv,
            n == change_count(lv.take(i as int)),
        decreases ls.len() - i,
    {
        proof {
            lemma_change_count_bounded(lv.take(i as int));
            assert(lv.take(i + 1).drop_last() =~= lv.take(i as int));
            assert(lv.take(i + 1).last() == ls@[i as int]@);
        }
        let l = &ls[i];
        if l.len() > 0 && (l[0] == '+' || l[0] == '-') {
            n = n + 1;
        }
        i = i + 1;
    }
    assert(lv.take(i as int) =~= lv);
    n
}

/// The size penalty of a diff: a twelfth of its changed lines, taken as an
/// `i32` (wrapping, as the cast does), at most 18.
pub open spec fn size_penalty(diff_lines: nat) -> int {
    let q = trunc_div((diff_lines as i32) as int, 12);
    if q <= 18 {
        q
    } else {
        18
    }
}

/// The score of a branch: 100, less its risk and size penalty, less 40 when
/// the patch does not apply, plus 20 when it checks (less 25 otherwise),
/// plus 15 when the tests ran and passed.
pub open spec fn branch_score_of(
    risk: u8,
    diff_lines: nat,
    apply_check_ok: bool,
    check_ok: bool,
    run_tests: bool,
    test_ok: bool,
) -> int {
    100 - risk - size_penalty(diff_lines) - (if apply_check_ok {
        0int
    } else {
        40int
    }) + (if check_ok {
        20int
    } else {
        -25int
    }) + (if run_tests && test_ok {
        15int
    } else {
        0int
    })
}

/// The score of a branch.
pub fn branch_score(
    risk: u8,
    diff_lines: usize,
    apply_check_ok: bool,
    check_ok: bool,
    run_tests: bool,
    test_ok: bool,
) -> (r: i32)
    ensures
        r == branch_score_of(risk, diff_lines as nat, apply_check_ok, check_ok, run_tests, test_ok),
{
    let wrapped: i32 = diff_lines as i32;
    let q = crate::session::tdiv(wrapped as i64, 12);
    assert(-178956971 <= q <= 178956970);
    let penalty: i32 = if q <= 18 {
        q as i32
    } else {
        18
    };
    let mut score: i32 = 100;
    score = score - risk as i32;
    score = score - penalty;
    if !apply_check_ok {
        score = score - 40;
    }
    if check_ok {
        score = score + 20;
    } else {
        score = score - 25;
    }
    if run_tests && test_ok {
        score = score + 15;
    }
    score
}

/// One branch to try: its strategy, the objective it works on, how many
/// retrieval hits it takes and whether it runs the tests.
#[derive(Debug)]
pub struct BranchPlan {
    pub strategy: String,
    pub objective: String,
    pub retrieval: usize,
    pub run_tests: bool,
}

/// How many branches run: the request clamped to 2..=4.
pub open spec fn branch_count(branches: nat) -> nat {
    if branches < 2 {
        2
    } else if branches > 4 {
        4
    } else {
        branches
    }
}

/// The branches to try for an objective.
pub open spec fn branch_plans_ok(
    objective: Seq<char>,
    low_power: bool,
    branches: nat,
    r: Seq<BranchPlan>,
) -> bool {
    &&& r.len() == branch_count(branches)
    &&& forall|i: int|
        0 <= i < r.len() ==> {
            let (name, style) = strategy_list()[i];
            &&& (#[trigger] r[i]).strategy@ == name
            &&& r[i].objective@ == objective + " ["@ + name + ": "@ + style + "]"@
            &&& r[i].retrieval == if low_power {
                3usize
            } else {
                5usize
            }
            &&& r[i].run_tests == (!low_power && i == 0)
        }
}

/// Plans the branches of a multiverse run.
pub fn plan_branches(objective: &str, low_power: bool, branches: usize) -> (r: Vec<BranchPlan>)
    ensures
        branch_plans_ok(objective@, low_power, branches as nat, r@),
{
    let n: usize = if branches < 2 {
        2
    } else if branches > 4 {
        4
    } else {
        branches
    };
    let all = strategies();
    let mut out: Vec<BranchPlan> = Vec::new();
    let mut i: usize = 0;
    while i < n
        invariant
            n == branch_count(branches as nat),
            n <= 4,
            i <= n,
            all@.len() == 4,
            forall|k: int|
                0 <= k < 4 ==> (#[trigger] all@[k]).0@ == strategy_list()[k].0 && all@[k].1@
                    == strategy_list()[k].1,
            out@.len() == i,
            forall|k: int|
                0 <= k < i ==> {
                    let (name, style) = strategy_list()[k];
                    &&& (#[trigger] out@[k]).strategy@ == name
                    &&& out@[k].objective@ == objective@ + " ["@ + name + ": "@ + style + "]"@
                    &&& out@[k].retrieval == if low_power {
                        3usize
                    } else {
                        5usize
                    }
                    &&& out@[k].run_tests == (!low_power && k == 0)
                },
        decreases n - i,
    {
        let (name, style) = all[i];
        let mut obj = owned(objective);
        push_str(&mut obj, " [");
        push_str(&mut obj, name);
        push_str(&mut obj, ": ");
        push_str(&mut obj, style);
        push_str(&mut obj, "]");
        let plan = BranchPlan {
            strategy: owned(name),
            objective: obj,
            retrieval: if low_power {
                3
            } else {
                5
            },
            run_tests: !low_power && i == 0,
        };
        out.push(plan);
        i = i + 1;
    }
    out
}

/// The outcome of a branch, from its plan, its patch and what the checks
/// reported (check, tests and note of the scratch worktree run, which only
/// happens when the patch applies).
pub fn branch_outcome(
    plan: &BranchPlan,
    patch_id: &str,
    risk: u8,
    diff: &str,
    apply_check_ok: bool,
    worktree: (bool, bool, String),
) -> (r: BranchOutcome)
    ensures
        r.strategy@ == plan.strategy@,
        r.patch_id@ == patch_id@,
        r.risk == risk,
        r.apply_check_ok == apply_check_ok,
        r.check_ok == (apply_check_ok && worktree.0),
        r.test_ok == (apply_check_ok && worktree.1),
        r.note@ == if apply_check_ok {
            worktree.2@
        } else {
            "git apply --check failed"@
        },
        r.diff_lines == change_count(lines(diff@)),
        r.score == branch_score_of(
            risk,
            change_count(lines(diff@)),
            apply_check_ok,
            apply_check_ok && worktree.0,
            plan.run_tests,
            apply_check_ok && worktree.1,
        ),
{
    let (check_ok, test_ok, note) = if apply_check_ok {
        worktree
    } else {
        (false, false, owned("git apply --check failed"))
    };
    let d = diff_lines(diff);
    let score = branch_score(risk, d, apply_check_ok, check_ok, plan.run_tests, test_ok);
    BranchOutcome {
        strategy: copy_string(&plan.strategy),
        patch_id: owned(patch_id),
        risk,
        apply_check_ok,
        check_ok,
        test_ok,
        diff_lines: d,
        score,
        note,
    }
}

fn copy_outcome(o: &BranchOutcome) -> (r: BranchOutcome)
    ensures
        outcome_view(r) == outcome_view(*o),
{
    BranchOutcome {
        strategy: copy_string(&o.strategy),
        patch_id: copy_string(&o.patch_id),
        risk: o.risk,
        apply_check_ok: o.apply_check_ok,
        check_ok: o.check_ok,
        test_ok: o.test_ok,
        diff_lines: o.diff_lines,
        score: o.score,
        note: copy_string(&o.note),
    }
}

/// The scores of the outcomes.
pub open spec fn outcome_scores(v: Seq<BranchOutcome>) -> Seq<int> {
    Seq::new(v.len(), |i: int| v[i].score as int)
}

/// The outcomes from best to worst score, ties in the order they ran.
pub fn rank_outcomes(v: &Vec<BranchOutcome>) -> (r: Vec<BranchOutcome>)
    ensures
        outcome_views(r@) == picked(outcome_views(v@), order_desc(outcome_scores(v@))),
{
    let mut keys: Vec<i128> = Vec::new();
    let mut i: usize = 0;
    while i < v.len()
        invariant
            i <= v@.len(),
            int_keys(keys@) == outcome_scores(v@).take(i as int),
        decreases v.len() - i,
    {
        let ghost b = keys@;
        keys.push(v[i].score as i128);
        assert(keys@ == b.push(v@[i as int].score as i128));
        assert(int_keys(keys@) =~= int_keys(b).push(v@[i as int].score as int));
        assert(outcome_scores(v@).take(i + 1) =~= outcome_scores(v@).take(i as int).push(
            v@[i as int].score as int,
        ));
        i = i + 1;
    }
    assert(outcome_scores(v@).take(i as int) =~= outcome_scores(v@));
    let order = stable_order_desc(&keys);
    proof {
        crate::ranking::lemma_order_first(int_keys(keys@), keys@.len());
    }
    let ghost o = int_indices(order@);
    let mut out: Vec<BranchOutcome> = Vec::new();
    let mut k: usize = 0;
    while k < order.len()
        invariant
            k <= order@.len(),
            o == int_indices(order@),
            o == order_desc(outcome_scores(v@)),
            crate::ranking::is_index_permutation(o, v@.len()),
            outcome_views(out@) == picked(outcome_views(v@), o).take(k as int),
        decreases order.len() - k,
    {
        assert(0 <= o[k as int] < v@.len());
        let c = copy_outcome(&v[order[k]]);
        let ghost b = outcome_views(out@);
        out.push(c);
        assert(outcome_views(out@) =~= b.push(outcome_view(c)));
        assert(picked(outcome_views(v@), o)[k as int] == outcome_view(v@[o[k as int]]));
        assert(picked(outcome_views(v@), o).take(k + 1) =~= picked(outcome_views(v@), o).take(
            k as int,
        ).push(picked(outcome_views(v@), o)[k as int]));
        k = k + 1;
    }
    assert(picked(outcome_views(v@), o).take(k as int) =~= picked(outcome_views(v@), o));
    out
}

} // verus!
