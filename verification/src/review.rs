//! Patch review: diff statistics, touched files, a risk score with its
//! reasons, and the plan and explanation texts around a patch.
use crate::text::{
    contains_sub, copy_string, dec, first_stripped, has_prefix, join, join_strings, lines, owned,
    push_dec, push_str, sorted_insert, str_contains, str_lines, strictly_sorted, strip_prefix,
    strip_prefix_chars, strs, trim, trim_chars, views, vviews,
};
use crate::types::{PatchProposal, PatchReview, RetrievalHit, RiskReport};
use vstd::prelude::*;

verus! {

// ---------------------------------------------------------------------------
// Sorted sets of strings
// ---------------------------------------------------------------------------

/// `r` is the sorted list of the distinct items of `s` (a sort then dedup).
pub open spec fn sorted_unique_of(r: Seq<Seq<char>>, s: Seq<Seq<char>>) -> bool {
    strictly_sorted(r) && r.to_set() == s.to_set()
}

/// The sorted list of the distinct items of `s`.
pub open spec fn sorted_set(s: Seq<Seq<char>>) -> Seq<Seq<char>> {
    choose|t: Seq<Seq<char>>| sorted_unique_of(t, s)
}

/// A sorted list of the distinct items of `s` is the one `sorted_set` names.
pub proof fn lemma_sorted_set(t: Seq<Seq<char>>, s: Seq<Seq<char>>)
    requires
        sorted_unique_of(t, s),
    ensures
        sorted_set(s) == t,
{
    let c = sorted_set(s);
    assert(sorted_unique_of(c, s));
    crate::text::lemma_sorted_unique(c, t);
}

/// Sorts strings and removes duplicates.
pub fn sort_dedup(v: Vec<String>) -> (r: Vec<String>)
    ensures
        sorted_unique_of(views(r@), views(v@)),
{
    let mut r: Vec<String> = Vec::new();
    let ghost src = views(v@);
    let mut i: usize = 0;
    assert(views(r@).to_set() =~= src.take(0).to_set());
    while i < v.len()
        invariant
            i <= v@.len(),
            src == views(v@),
            strictly_sorted(views(r@)),
            views(r@).to_set() == src.take(i as int).to_set(),
        decreases v.len() - i,
    {
        let x = copy_string(&v[i]);
        sorted_insert(&mut r, x);
        assert(src.take(i + 1) =~= src.take(i as int).push(src[i as int]));
        proof {
            src.take(i as int).lemma_push_to_set_commute(src[i as int]);
        }
        i = i + 1;
    }
    assert(src.take(i as int) =~= src);
    r
}

// ---------------------------------------------------------------------------
// Diff statistics
// ---------------------------------------------------------------------------

/// Paths named by `+++ b/` lines, trimmed, in order.
pub open spec fn diff_file_names(ls: Seq<Seq<char>>) -> Seq<Seq<char>>
    decreases ls.len(),
{
    if ls.len() == 0 {
        Seq::empty()
    } else {
        let rest = diff_file_names(ls.drop_last());
        match strip_prefix(ls.last(), "+++ b/"@) {
            Some(p) => rest.push(trim(p)),
            None => rest,
        }
    }
}

/// The distinct files a diff touches, sorted.
pub fn extract_diff_files(diff: &str) -> (r: Vec<String>)
    ensures
        sorted_unique_of(views(r@), diff_file_names(lines(diff@))),
{
    let ls = str_lines(diff);
    let marker = crate::text::chars_of("+++ b/");
    let mut files: Vec<String> = Vec::new();
    let mut i: usize = 0;
    while i < ls.len()
        invariant
            i <= ls@.len(),
            vviews(ls@) == lines(diff@),
            marker@ == "+++ b/"@,
            views(files@) == diff_file_names(vviews(ls@).take(i as int)),
        decreases ls.len() - i,
    {
        assert(vviews(ls@).take(i + 1).drop_last() =~= vviews(ls@).take(i as int));
        assert(vviews(ls@).take(i + 1).last() == ls@[i as int]@);
        match strip_prefix_chars(&ls[i], &marker) {
            Some(rest) => {
                let t = trim_chars(&rest);
                let ghost before = views(files@);
                files.push(crate::text::string_of(&t));
                assert(views(files@) =~= before.push(t@));
            },
            None => {},
        }
        i = i + 1;
    }
    assert(vviews(ls@).take(i as int) =~= vviews(ls@));
    sort_dedup(files)
}

/// Added lines, removed lines and hunks of diff lines: `@@` starts a hunk,
/// `+++`/`---` headers are skipped, then `+` adds and `-` removes.
pub open spec fn diff_counts(ls: Seq<Seq<char>>) -> (nat, nat, nat)
    decreases ls.len(),
{
    if ls.len() == 0 {
        (0, 0, 0)
    } else {
        let (a, r, h) = diff_counts(ls.drop_last());
        let l = ls.last();
        if has_prefix(l, "@@"@) {
            (a, r, h + 1)
        } else if has_prefix(l, "+++"@) || has_prefix(l, "---"@) {
            (a, r, h)
        } else if has_prefix(l, "+"@) {
            (a + 1, r, h)
        } else if has_prefix(l, "-"@) {
            (a, r + 1, h)
        } else {
            (a, r, h)
        }
    }
}

proof fn lemma_diff_counts_bounded(ls: Seq<Seq<char>>)
    ensures
        diff_counts(ls).0 + diff_counts(ls).1 + diff_counts(ls).2 <= ls.len(),
    decreases ls.len(),
{
    if ls.len() > 0 {
        lemma_diff_counts_bounded(ls.drop_last());
    }
}

/// Counts added lines, removed lines and hunks of a unified diff.
pub fn diff_stats(diff: &str) -> (r: (usize, usize, usize))
    ensures
        (r.0 as nat, r.1 as nat, r.2 as nat) == diff_counts(lines(diff@)),
{
    let ls = str_lines(diff);
    let hh = crate::text::chars_of("@@");
    let pp = crate::text::chars_of("+++");
    let mm = crate::text::chars_of("---");
    let p1 = crate::text::chars_of("+");
    let m1 = crate::text::chars_of("-");
    let mut added: usize = 0;
    let mut removed: usize = 0;
    let mut hunks: usize = 0;
    let mut i: usize = 0;
    while i < ls.len()
        invariant
            i <= ls@.len(),
            vviews(ls@) == lines(diff@),
            hh@ == "@@"@,
            pp@ == "+++"@,
            mm@ == "---"@,
            p1@ == "+"@,
            m1@ == "-"@,
            (added as nat, removed as nat, hunks as nat) == diff_counts(vviews(ls@).take(i as int)),
        decreases ls.len() - i,
    {
        let ghost t = vviews(ls@).take(i as int);
        proof {
            lemma_diff_counts_bounded(t);
            assert(vviews(ls@).take(i + 1).drop_last() =~= t);
        }
        let l = &ls[i];
        assert(vviews(ls@).take(i + 1).last() == l@);
        if crate::text::starts_with(l, &hh) {
            hunks = hunks + 1;
        } else if crate::text::starts_with(l, &pp) || crate::text::starts_with(l, &mm) {
        } else if crate::text::starts_with(l, &p1) {
            added = added + 1;
        } else if crate::text::starts_with(l, &m1) {
            removed = removed + 1;
        }
        i = i + 1;
    }
    assert(vviews(ls@).take(i as int) =~= vviews(ls@));
    (added, removed, hunks)
}

// ---------------------------------------------------------------------------
// Risk
// ---------------------------------------------------------------------------

/// A file under a protected path.
pub open spec fn is_protected(f: Seq<char>, protected: Seq<Seq<char>>) -> bool {
    exists|j: int| 0 <= j < protected.len() && has_prefix(f, #[trigger] protected[j])
}

/// The files under a protected path, in order.
pub open spec fn protected_files(files: Seq<Seq<char>>, protected: Seq<Seq<char>>) -> Seq<Seq<char>>
    decreases files.len(),
{
    if files.len() == 0 {
        Seq::empty()
    } else {
        let rest = protected_files(files.drop_last(), protected);
        if is_protected(files.last(), protected) {
            rest.push(files.last())
        } else {
            rest
        }
    }
}

/// A file of the core flow: its path mentions rollback, model or main.
pub open spec fn is_core_flow(f: Seq<char>) -> bool {
    contains_sub(f, "rollback"@) || contains_sub(f, "model"@) || contains_sub(f, "main"@)
}

/// The core-flow notes for the files, in order.
pub open spec fn core_flow_notes(files: Seq<Seq<char>>) -> Seq<Seq<char>>
    decreases files.len(),
{
    if files.len() == 0 {
        Seq::empty()
    } else {
        let rest = core_flow_notes(files.drop_last());
        if is_core_flow(files.last()) {
            rest.push("core-flow file: "@ + files.last())
        } else {
            rest
        }
    }
}

pub open spec fn touches_unsafe(diff: Seq<char>) -> bool {
    contains_sub(diff, "unsafe"@)
}

pub open spec fn touches_process(diff: Seq<char>) -> bool {
    contains_sub(diff, "std::process::Command"@) || contains_sub(diff, "Command::new"@)
}

pub open spec fn is_large(added: nat, removed: nat, hunks: nat) -> bool {
    added + removed > 250 || hunks > 12
}

/// The risk score: 25 for more than six files, 30 for a large patch, 20 for
/// `unsafe`, 15 for process execution, 25 per protected file, capped at 255.
pub open spec fn risk_score(nfiles: nat, added: nat, removed: nat, hunks: nat, diff: Seq<char>, nprot: nat) -> nat {
    let s = (if nfiles > 6 { 25nat } else { 0nat }) + (if is_large(added, removed, hunks) {
        30nat
    } else {
        0nat
    }) + (if touches_unsafe(diff) { 20nat } else { 0nat }) + (if touches_process(diff) {
        15nat
    } else {
        0nat
    }) + 25 * nprot;
    if s > 255 {
        255
    } else {
        s
    }
}

/// The reasons given for the score.
pub open spec fn risk_reasons(nfiles: nat, added: nat, removed: nat, hunks: nat) -> Seq<Seq<char>> {
    let r = (if nfiles > 6 {
        seq!["Many files modified"@]
    } else {
        Seq::empty()
    }) + (if is_large(added, removed, hunks) {
        seq!["Large patch size"@]
    } else {
        Seq::empty()
    });
    if r.len() == 0 {
        seq!["Patch scope is limited"@]
    } else {
        r
    }
}

/// The sensitive zones before sorting.
pub open spec fn sensitive_notes(diff: Seq<char>, files: Seq<Seq<char>>) -> Seq<Seq<char>> {
    (if touches_unsafe(diff) {
        seq!["unsafe usage"@]
    } else {
        Seq::empty()
    }) + (if touches_process(diff) {
        seq!["process execution changes"@]
    } else {
        Seq::empty()
    }) + core_flow_notes(files)
}

pub open spec fn review_summary(id: Seq<char>, nfiles: nat, hunks: nat, added: nat, removed: nat) -> Seq<char> {
    "Patch "@ + id + ": files="@ + dec(nfiles) + " hunks="@ + dec(hunks) + " lines(+"@ + dec(added)
        + " -"@ + dec(removed) + ")"@
}

/// What a review says of a patch.
pub open spec fn review_matches(p: PatchProposal, protected: Seq<Seq<char>>, r: PatchReview) -> bool {
    let (a, rm, h) = diff_counts(lines(p.diff@));
    let files = views(r.files@);
    let nprot = protected_files(files, protected).len();
    let score = risk_score(files.len(), a, rm, h, p.diff@, nprot);
    &&& sorted_unique_of(files, diff_file_names(lines(p.diff@)))
    &&& r.added_lines == a
    &&& r.removed_lines == rm
    &&& r.hunk_count == h
    &&& r.summary@ == review_summary(p.id@, files.len(), h, a, rm)
    &&& r.risk.score == score
    &&& views(r.risk.reasons@) == risk_reasons(files.len(), a, rm, h)
    &&& sorted_unique_of(views(r.risk.sensitive_zones@), sensitive_notes(p.diff@, files))
    &&& sorted_unique_of(views(r.risk.critical_files@), protected_files(files, protected))
    &&& r.risk.allowed == (score < 70 && protected_files(files, protected).len() == 0)
    &&& r.risk.recommendation@ == if r.risk.allowed {
        "approve_with_validation"@
    } else {
        "refuse_or_manual_review"@
    }
}

fn sat_add(s: u8, x: u8) -> (r: u8)
    ensures
        r == if s + x > 255 {
            255
        } else {
            s + x
        },
{
    if s > 255 - x {
        255
    } else {
        s + x
    }
}

/// Whether `f` starts with one of the protected paths.
fn under_protected(f: &str, protected: &[&str]) -> (r: bool)
    ensures
        r == is_protected(f@, strs(protected@)),
{
    let mut j: usize = 0;
    while j < protected.len()
        invariant
            j <= protected@.len(),
            forall|k: int| 0 <= k < j ==> !has_prefix(f@, #[trigger] strs(protected@)[k]),
        decreases protected.len() - j,
    {
        if crate::text::str_starts_with(f, protected[j]) {
            assert(has_prefix(f@, strs(protected@)[j as int]));
            return true;
        }
        j = j + 1;
    }
    false
}

proof fn lemma_protected_bounded(files: Seq<Seq<char>>, protected: Seq<Seq<char>>)
    ensures
        protected_files(files, protected).len() <= files.len(),
    decreases files.len(),
{
    if files.len() > 0 {
        lemma_protected_bounded(files.drop_last(), protected);
    }
}

/// Reviews a patch against the protected paths.
pub fn review(proposal: &PatchProposal, protected_paths: &[&str]) -> (r: PatchReview)
    ensures
        review_matches(*proposal, strs(protected_paths@), r),
{
    let (added_lines, removed_lines, hunk_count) = diff_stats(proposal.diff.as_str());
    let files = extract_diff_files(proposal.diff.as_str());
    let ghost fv = views(files@);
    let ghost prot = strs(protected_paths@);
    let mut score: u8 = 0;
    let mut reasons: Vec<String> = Vec::new();
    let mut sensitive: Vec<String> = Vec::new();
    let mut critical: Vec<String> = Vec::new();
    let ghost base: nat = (if files@.len() > 6 { 25nat } else { 0nat }) + (if is_large(
        added_lines as nat,
        removed_lines as nat,
        hunk_count as nat,
    ) {
        30nat
    } else {
        0nat
    });
    if files.len() > 6 {
        score = sat_add(score, 25);
        reasons.push(owned("Many files modified"));
    }
    if added_lines > 250 || removed_lines > 250 || added_lines + removed_lines > 250 || hunk_count > 12 {
        score = sat_add(score, 30);
        reasons.push(owned("Large patch size"));
    }
    assert(views(reasons@) =~= (if files@.len() > 6 {
        seq!["Many files modified"@]
    } else {
        Seq::empty()
    }) + (if is_large(added_lines as nat, removed_lines as nat, hunk_count as nat) {
        seq!["Large patch size"@]
    } else {
        Seq::empty()
    }));
    let unsafe_touch = str_contains(proposal.diff.as_str(), "unsafe");
    if unsafe_touch {
        score = sat_add(score, 20);
        sensitive.push(owned("unsafe usage"));
    }
    let process_touch = str_contains(proposal.diff.as_str(), "std::process::Command") || str_contains(
        proposal.diff.as_str(),
        "Command::new",
    );
    if process_touch {
        score = sat_add(score, 15);
        sensitive.push(owned("process execution changes"));
    }
    let ghost head = views(sensitive@);
    assert(head =~= (if touches_unsafe(proposal.diff@) {
        seq!["unsafe usage"@]
    } else {
        Seq::empty()
    }) + (if touches_process(proposal.diff@) {
        seq!["process execution changes"@]
    } else {
        Seq::empty()
    }));
    let ghost pre: nat = base + (if touches_unsafe(proposal.diff@) { 20nat } else { 0nat }) + (if touches_process(proposal.diff@) {
        15nat
    } else {
        0nat
    });
    assert(score == if pre > 255 { 255 } else { pre });
    let mut i: usize = 0;
    assert(views(critical@) =~= protected_files(fv.take(0), prot));
    assert(views(sensitive@) =~= head + core_flow_notes(fv.take(0)));
    while i < files.len()
        invariant
            i <= files@.len(),
            fv == views(files@),
            prot == strs(protected_paths@),
            views(critical@) == protected_files(fv.take(i as int), prot),
            views(sensitive@) == head + core_flow_notes(fv.take(i as int)),
            ({
                let s = pre + 25 * protected_files(fv.take(i as int), prot).len();
                score == if s > 255 { 255 } else { s }
            }),
        decreases files.len() - i,
    {
        let f = &files[i];
        assert(fv.take(i + 1).drop_last() =~= fv.take(i as int));
        assert(fv.take(i + 1).last() == f@);
        if under_protected(f.as_str(), protected_paths) {
            score = sat_add(score, 25);
            let ghost before = views(critical@);
            critical.push(copy_string(f));
            assert(views(critical@) =~= before.push(f@));
        }
        let core = str_contains(f.as_str(), "rollback") || str_contains(f.as_str(), "model")
            || str_contains(f.as_str(), "main");
        if core {
            let mut note = owned("core-flow file: ");
            push_str(&mut note, f.as_str());
            let ghost before = views(sensitive@);
            sensitive.push(note);
            assert(views(sensitive@) =~= before.push("core-flow file: "@ + f@));
        }
        i = i + 1;
    }
    assert(fv.take(i as int) =~= fv);
    assert(views(sensitive@) =~= sensitive_notes(proposal.diff@, fv));
    if reasons.len() == 0 {
        reasons.push(owned("Patch scope is limited"));
        assert(views(reasons@) =~= seq!["Patch scope is limited"@]);
    }
    let sensitive = sort_dedup(sensitive);
    let critical = sort_dedup(critical);
    let allowed = score < 70 && critical.len() == 0;
    proof {
        if critical@.len() == 0 {
            let pf = protected_files(fv, prot);
            if pf.len() > 0 {
                assert(pf.to_set().contains(pf[0]));
                assert(views(critical@).to_set().contains(pf[0]));
            }
        } else {
            assert(views(critical@).to_set().contains(views(critical@)[0]));
        }
    }
    let recommendation = if allowed {
        owned("approve_with_validation")
    } else {
        owned("refuse_or_manual_review")
    };
    let mut summary = owned("Patch ");
    push_str(&mut summary, proposal.id.as_str());
    push_str(&mut summary, ": files=");
    push_dec(&mut summary, files.len() as u64);
    push_str(&mut summary, " hunks=");
    push_dec(&mut summary, hunk_count as u64);
    push_str(&mut summary, " lines(+");
    push_dec(&mut summary, added_lines as u64);
    push_str(&mut summary, " -");
    push_dec(&mut summary, removed_lines as u64);
    push_str(&mut summary, ")");
    PatchReview {
        summary,
        files,
        added_lines,
        removed_lines,
        hunk_count,
        risk: RiskReport {
            score,
            reasons,
            sensitive_zones: sensitive,
            critical_files: critical,
            allowed,
            recommendation,
        },
    }
}

// ---------------------------------------------------------------------------
// Plans and explanations
// ---------------------------------------------------------------------------

/// The steps of a patch plan.
pub open spec fn plan_steps(objective: Seq<char>, nhits: nat) -> Seq<Seq<char>> {
    seq![
        "Objective: "@ + objective,
        "Load only "@ + dec(nhits) + " top files"@,
        "Generate minimal unified diff"@,
        "Run cargo check/clippy/test"@,
        "Review patch impact and store memory"@,
    ]
}

/// The plan for an objective given the files retrieved for it.
pub fn build_plan(objective: &str, hits: &[RetrievalHit]) -> (r: Vec<String>)
    ensures
        views(r@) == plan_steps(objective@, hits@.len()),
{
    let mut first = owned("Objective: ");
    push_str(&mut first, objective);
    let mut second = owned("Load only ");
    push_dec(&mut second, hits.len() as u64);
    push_str(&mut second, " top files");
    let r = vec![
        first,
        second,
        owned("Generate minimal unified diff"),
        owned("Run cargo check/clippy/test"),
        owned("Review patch impact and store memory"),
    ];
    assert(views(r@) =~= plan_steps(objective@, hits@.len()));
    r
}

/// The explanation text of a reviewed patch.
pub open spec fn explanation_text(objective: Seq<char>, r: PatchReview) -> Seq<char> {
    "objective="@ + objective + "\nsummary="@ + r.summary@ + "\nfiles="@ + join(views(r.files@), ", "@)
        + "\nzones="@ + join(views(r.risk.sensitive_zones@), " | "@) + "\nrisk="@ + dec(
        r.risk.score as nat,
    ) + "\nreasons="@ + join(views(r.risk.reasons@), " | "@) + "\nimpact="@ + (if r.risk.allowed {
        "low-to-medium"@
    } else {
        "high / manual review"@
    }) + "\nvalidations="@ + "cargo check; cargo clippy -D warnings; cargo test"@ + "\n"@
}

/// Explains a reviewed patch: objective, summary, files, zones, risk,
/// reasons, impact and the validations to run.
pub fn build_patch_explanation(objective: &str, review: &PatchReview) -> (r: String)
    ensures
        r@ == explanation_text(objective@, *review),
{
    let mut s = owned("objective=");
    push_str(&mut s, objective);
    push_str(&mut s, "\nsummary=");
    push_str(&mut s, review.summary.as_str());
    push_str(&mut s, "\nfiles=");
    let j = join_strings(&review.files, ", ");
    push_str(&mut s, j.as_str());
    push_str(&mut s, "\nzones=");
    let j = join_strings(&review.risk.sensitive_zones, " | ");
    push_str(&mut s, j.as_str());
    push_str(&mut s, "\nrisk=");
    push_dec(&mut s, review.risk.score as u64);
    push_str(&mut s, "\nreasons=");
    let j = join_strings(&review.risk.reasons, " | ");
    push_str(&mut s, j.as_str());
    push_str(&mut s, "\nimpact=");
    if review.risk.allowed {
        push_str(&mut s, "low-to-medium");
    } else {
        push_str(&mut s, "high / manual review");
    }
    push_str(&mut s, "\nvalidations=");
    push_str(&mut s, "cargo check; cargo clippy -D warnings; cargo test");
    push_str(&mut s, "\n");
    s
}

/// Every core-flow note begins with its label.
proof fn lemma_core_flow_notes_labelled(files: Seq<Seq<char>>, i: int)
    requires
        0 <= i < core_flow_notes(files).len(),
    ensures
        exists|f: Seq<char>| core_flow_notes(files)[i] == "core-flow file: "@ + f,
    decreases files.len(),
{
    if files.len() > 0 {
        let rest = core_flow_notes(files.drop_last());
        if i < rest.len() {
            lemma_core_flow_notes_labelled(files.drop_last(), i);
            let f = choose|f: Seq<char>| rest[i] == "core-flow file: "@ + f;
            assert(core_flow_notes(files)[i] == "core-flow file: "@ + f);
        } else {
            assert(core_flow_notes(files)[i] == "core-flow file: "@ + files.last());
        }
    }
}

/// A patch whose diff spawns a process (`Command::new` or
/// `std::process::Command` anywhere in its text) is flagged: its sensitive
/// zones list "process execution changes" exactly then, and it costs 15
/// points of risk; a small patch of few files, without `unsafe` and outside
/// the protected paths, scores exactly 15 with it and 0 without it.
pub proof fn law_review_flags_process_execution(p: PatchProposal, protected: Seq<Seq<char>>, r: PatchReview)
    requires
        review_matches(p, protected, r),
    ensures
        ({
            let spawns = contains_sub(p.diff@, "Command::new"@) || contains_sub(p.diff@, "std::process::Command"@);
            &&& views(r.risk.sensitive_zones@).contains("process execution changes"@) <==> spawns
            &&& spawns ==> r.risk.score >= 15
            &&& r.files@.len() <= 6 && r.added_lines + r.removed_lines <= 250 && r.hunk_count <= 12
                && r.risk.critical_files@.len() == 0 && !contains_sub(p.diff@, "unsafe"@) ==> r.risk.score == (
            if spawns {
                15int
            } else {
                0int
            })
        }),
{
    let files = views(r.files@);
    let pe = "process execution changes"@;
    let notes = sensitive_notes(p.diff@, files);
    let zones = views(r.risk.sensitive_zones@);
    reveal_strlit("process execution changes");
    reveal_strlit("unsafe usage");
    reveal_strlit("core-flow file: ");
    assert(zones.to_set() == notes.to_set());
    let u: Seq<Seq<char>> = if touches_unsafe(p.diff@) { seq!["unsafe usage"@] } else { Seq::empty() };
    let c: Seq<Seq<char>> = if touches_process(p.diff@) { seq![pe] } else { Seq::empty() };
    let cf = core_flow_notes(files);
    assert(notes == u + c + cf);
    assert forall|i: int| 0 <= i < cf.len() implies cf[i] != pe by {
        lemma_core_flow_notes_labelled(files, i);
        let f = choose|f: Seq<char>| cf[i] == "core-flow file: "@ + f;
        assert(cf[i][0] == 'c');
    }
    if touches_process(p.diff@) {
        assert(notes[u.len() as int] == pe);
        assert(notes.to_set().contains(pe));
        assert(zones.to_set().contains(pe));
    } else {
        assert forall|i: int| 0 <= i < notes.len() implies notes[i] != pe by {
            if i < u.len() {
                assert(notes[i] == u[i]);
                assert(u[i][0] == 'u');
            } else {
                assert(notes[i] == cf[i - u.len()]);
            }
        }
        assert(!notes.to_set().contains(pe));
        assert(!zones.contains(pe)) by {
            if zones.contains(pe) {
                let j = choose|j: int| 0 <= j < zones.len() && zones[j] == pe;
                assert(zones.to_set().contains(zones[j]));
            }
        }
    }
    if r.risk.critical_files@.len() == 0 {
        let pf = protected_files(files, protected);
        assert(views(r.risk.critical_files@).to_set() == pf.to_set());
        if pf.len() > 0 {
            assert(pf.to_set().contains(pf[0]));
            assert(views(r.risk.critical_files@).to_set().contains(pf[0]));
        }
    }
}

} // verus!
