//! Project analysis: for each Rust file, its line count, its TODO/FIXME
//! markers, whether it uses `unsafe`, and a complexity score; warnings for
//! the files that need attention; files listed from the most complex down.
use crate::fingerprint::{count_matches, occurrence_count};
use crate::ranking::{int_indices, int_keys, order_desc, picked, stable_order_desc};
use crate::text::{chars_of, contains_sub, copy_string, lines, owned, push_str, str_contains, str_lines, views};
use vstd::prelude::*;

verus! {

/// What the analysis found in one file.
#[derive(Debug)]
pub struct FileInsight {
    pub path: String,
    pub lines: usize,
    pub has_unsafe: bool,
    pub todo_count: usize,
    pub complexity_score: usize,
}

/// What the analysis found in a project.
#[derive(Debug)]
pub struct ProjectAnalysis {
    pub root: String,
    pub rust_files: usize,
    pub total_lines: usize,
    pub insights: Vec<FileInsight>,
    pub warnings: Vec<String>,
}

/// An insight by views: path, lines, unsafe, TODO count, complexity.
pub type InsightView = (Seq<char>, nat, bool, nat, nat);

pub open spec fn insight_view(f: FileInsight) -> InsightView {
    (f.path@, f.lines as nat, f.has_unsafe, f.todo_count as nat, f.complexity_score as nat)
}

pub open spec fn insight_views(v: Seq<FileInsight>) -> Seq<InsightView> {
    Seq::new(v.len(), |i: int| insight_view(v[i]))
}

/// How many matches of the regular expression `\bfn\b` (the word `fn`)
/// the text holds.
pub uninterp spec fn fn_word_matches(text: Seq<char>) -> nat;

/// Counts the matches of `\bfn\b` in a text with the `regex` crate
/// (`Regex::find_iter`): the count is the named result of the text.
#[verifier::external_body]
fn fn_word_count(text: &str) -> (r: usize)
    ensures
        r == fn_word_matches(text@),
{
    regex::Regex::new(r"\bfn\b").map(|re| re.find_iter(text).count()).unwrap_or(0)
}

/// Whether a file is analyzed: a `.rs` file outside any `target` directory.
pub open spec fn analyzed_path(components: Seq<Seq<char>>, extension: Option<Seq<char>>) -> bool {
    &&& forall|i: int| 0 <= i < components.len() ==> components[i] != "target"@
    &&& extension == Some("rs"@)
}

/// Whether a file, given its path components and extension, is analyzed.
pub fn is_analyzed(components: &Vec<String>, extension: Option<&str>) -> (r: bool)
    ensures
        r == analyzed_path(
            views(components@),
            match extension {
                Some(e) => Some(e@),
                None => None,
            },
        ),
{
    let mut i: usize = 0;
    while i < components.len()
        invariant
            i <= components@.len(),
            forall|k: int| 0 <= k < i ==> views(components@)[k] != "target"@,
        decreases components.len() - i,
    {
        if crate::text::str_eq(components[i].as_str(), "target") {
            assert(views(components@)[i as int] == "target"@);
            return false;
        }
        i = i + 1;
    }
    match extension {
        Some(e) => crate::text::str_eq(e, "rs"),
        None => false,
    }
}

/// The insight of a file from its text and its count of `fn` words.
pub open spec fn insight_of(path: Seq<char>, text: Seq<char>, fn_words: nat) -> InsightView {
    (
        path,
        lines(text).len(),
        contains_sub(text, "unsafe {"@) || contains_sub(text, "unsafe fn"@),
        occurrence_count(text, "TODO"@) + occurrence_count(text, "FIXME"@),
        fn_words + occurrence_count(text, "match "@),
    )
}

/// The warnings a file raises: many TODO/FIXME markers, `unsafe` code.
pub open spec fn warnings_of(f: InsightView) -> Seq<Seq<char>> {
    (if f.3 > 5 {
        seq![f.0 + " has a high TODO/FIXME count"@]
    } else {
        Seq::empty()
    }) + (if f.2 {
        seq![f.0 + " uses unsafe blocks"@]
    } else {
        Seq::empty()
    })
}

/// The insight of a file, given how many `fn` words its text holds.
pub fn file_insight(path: &str, text: &str, fn_words: usize) -> (r: FileInsight)
    requires
        fn_words + occurrence_count(text@, "match "@) <= usize::MAX,
        occurrence_count(text@, "TODO"@) + occurrence_count(text@, "FIXME"@) <= usize::MAX,
    ensures
        insight_view(r) == insight_of(path@, text@, fn_words as nat),
{
    proof {
        reveal_strlit("TODO");
        reveal_strlit("FIXME");
        reveal_strlit("match ");
    }
    let v = chars_of(text);
    let n = str_lines(text).len();
    let todo = count_matches(&v, "TODO") + count_matches(&v, "FIXME");
    let has_unsafe = str_contains(text, "unsafe {") || str_contains(text, "unsafe fn");
    let complexity = fn_words + count_matches(&v, "match ");
    FileInsight { path: owned(path), lines: n, has_unsafe, todo_count: todo, complexity_score: complexity }
}

/// The counts of a file fit in a `usize`.
pub open spec fn file_fits(text: Seq<char>) -> bool {
    fn_word_matches(text) + occurrence_count(text, "match "@) <= usize::MAX && occurrence_count(text, "TODO"@)
        + occurrence_count(text, "FIXME"@) <= usize::MAX
}

/// The insight of a file, its `fn` words counted with the `regex` crate;
/// `None` when a count would not fit in a `usize`.
pub fn analyze_file(path: &str, text: &str) -> (r: Option<FileInsight>)
    ensures
        r is Some <==> file_fits(text@),
        r matches Some(f) ==> insight_view(f) == insight_of(path@, text@, fn_word_matches(text@)),
{
    proof {
        reveal_strlit("TODO");
        reveal_strlit("FIXME");
        reveal_strlit("match ");
    }
    let words = fn_word_count(text);
    let v = chars_of(text);
    let m = count_matches(&v, "match ");
    let t = count_matches(&v, "TODO");
    let x = count_matches(&v, "FIXME");
    if words.checked_add(m).is_none() || t.checked_add(x).is_none() {
        return None;
    }
    Some(file_insight(path, text, words))
}

/// Appends the warnings of a file.
fn push_warnings(out: &mut Vec<String>, f: &FileInsight)
    ensures
        views(final(out)@) == views(old(out)@) + warnings_of(insight_view(*f)),
{
    let ghost w0 = views(out@);
    if f.todo_count > 5 {
        let mut m = copy_string(&f.path);
        push_str(&mut m, " has a high TODO/FIXME count");
        out.push(m);
    }
    let ghost w1 = views(out@);
    assert(w1 =~= w0 + (if f.todo_count > 5 {
        seq![f.path@ + " has a high TODO/FIXME count"@]
    } else {
        Seq::empty()
    }));
    if f.has_unsafe {
        let mut m = copy_string(&f.path);
        push_str(&mut m, " uses unsafe blocks");
        out.push(m);
    }
    assert(views(out@) =~= views(old(out)@) + warnings_of(insight_view(*f)));
}

/// The insights of the files, in the order given.
pub open spec fn insights_of(files: Seq<(Seq<char>, Seq<char>)>, words: Seq<nat>) -> Seq<InsightView> {
    Seq::new(files.len(), |i: int| insight_of(files[i].0, files[i].1, words[i]))
}

/// The warnings of the files, in the order given.
pub open spec fn all_warnings(fs: Seq<InsightView>) -> Seq<Seq<char>>
    decreases fs.len(),
{
    if fs.len() == 0 {
        Seq::empty()
    } else {
        all_warnings(fs.drop_last()) + warnings_of(fs.last())
    }
}

/// The total of the line counts.
pub open spec fn line_total(fs: Seq<InsightView>) -> nat
    decreases fs.len(),
{
    if fs.len() == 0 {
        0
    } else {
        line_total(fs.drop_last()) + fs.last().1
    }
}

/// The complexity scores.
pub open spec fn complexities(fs: Seq<InsightView>) -> Seq<int> {
    Seq::new(fs.len(), |i: int| fs[i].4 as int)
}

/// The views of (path, text) pairs.
pub open spec fn file_views(files: Seq<(String, String)>) -> Seq<(Seq<char>, Seq<char>)> {
    Seq::new(files.len(), |i: int| (files[i].0@, files[i].1@))
}

/// The counts of `fn` words of the files.
pub open spec fn word_counts(files: Seq<(String, String)>) -> Seq<nat> {
    Seq::new(files.len(), |i: int| fn_word_matches(files[i].1@))
}

/// The counts of a project fit in a `usize`.
pub open spec fn analysis_fits(files: Seq<(String, String)>) -> bool {
    let fs = insights_of(file_views(files), word_counts(files));
    &&& forall|i: int| 0 <= i < files.len() ==> file_fits(#[trigger] files[i].1@)
    &&& line_total(fs) <= usize::MAX
}

proof fn lemma_line_total_prefix(fs: Seq<InsightView>, i: int)
    requires
        0 <= i <= fs.len(),
    ensures
        line_total(fs.take(i)) <= line_total(fs),
    decreases fs.len() - i,
{
    if i < fs.len() {
        lemma_line_total_prefix(fs, i + 1);
        assert(fs.take(i + 1).drop_last() =~= fs.take(i));
    } else {
        assert(fs.take(i) =~= fs);
    }
}

/// Analyzes a project from its Rust files (path relative to the root, and
/// text): the insights from the most complex file down (ties in the order
/// given), the total of the lines, and the warnings in the order of the
/// files; `None` when a count would not fit in a `usize`.
pub fn analyze_project(root: &str, files: Vec<(String, String)>) -> (r: Option<ProjectAnalysis>)
    ensures
        r is Some <==> analysis_fits(files@),
        r matches Some(a) ==> ({
            let fs = insights_of(file_views(files@), word_counts(files@));
            &&& a.root@ == root@
            &&& a.rust_files == files@.len()
            &&& a.total_lines == line_total(fs)
            &&& insight_views(a.insights@) == picked(fs, order_desc(complexities(fs)))
            &&& views(a.warnings@) == all_warnings(fs)
        }),
{
    let ghost fs = insights_of(file_views(files@), word_counts(files@));
    let mut insights: Vec<FileInsight> = Vec::new();
    let mut warnings: Vec<String> = Vec::new();
    let mut total: usize = 0;
    let mut i: usize = 0;
    while i < files.len()
        invariant
            i <= files@.len(),
            fs == insights_of(file_views(files@), word_counts(files@)),
            forall|k: int| 0 <= k < i ==> file_fits(#[trigger] files@[k].1@),
            insight_views(insights@) == fs.take(i as int),
            views(warnings@) == all_warnings(fs.take(i as int)),
            total == line_total(fs.take(i as int)),
        decreases files.len() - i,
    {
        let f = match analyze_file(files[i].0.as_str(), files[i].1.as_str()) {
            Some(f) => f,
            None => {
                return None;
            },
        };
        assert(fs[i as int] == insight_view(f));
        assert(fs.take(i + 1).drop_last() =~= fs.take(i as int));
        proof {
            lemma_line_total_prefix(fs, i + 1);
        }
        total = match total.checked_add(f.lines) {
            Some(t) => t,
            None => {
                return None;
            },
        };
        push_warnings(&mut warnings, &f);
        let ghost b = insight_views(insights@);
        insights.push(f);
        assert(insight_views(insights@) =~= b.push(fs[i as int]));
        i = i + 1;
    }
    assert(fs.take(i as int) =~= fs);
    assert(analysis_fits(files@));
    let mut keys: Vec<i128> = Vec::new();
    let mut k: usize = 0;
    while k < insights.len()
        invariant
            k <= insights@.len(),
            insight_views(insights@) == fs,
            int_keys(keys@) == complexities(fs).take(k as int),
        decreases insights.len() - k,
    {
        let ghost b = keys@;
        keys.push(insights[k].complexity_score as i128);
        assert(int_keys(keys@) =~= int_keys(b).push(fs[k as int].4 as int));
        assert(complexities(fs).take(k + 1) =~= complexities(fs).take(k as int).push(fs[k as int].4 as int));
        k = k + 1;
    }
    assert(complexities(fs).take(k as int) =~= complexities(fs));
    let order = stable_order_desc(&keys);
    proof {
        crate::ranking::lemma_order_first(int_keys(keys@), keys@.len());
    }
    let ghost o = int_indices(order@);
    let rust_files = insights.len();
    let mut sorted: Vec<FileInsight> = Vec::new();
    let mut m: usize = 0;
    while m < order.len()
        invariant
            m <= order@.len(),
            o == int_indices(order@),
            o == order_desc(complexities(fs)),
            crate::ranking::is_index_permutation(o, fs.len()),
            insight_views(insights@) == fs,
            insight_views(sorted@) == picked(fs, o).take(m as int),
        decreases order.len() - m,
    {
        assert(0 <= o[m as int] < fs.len());
        let c = copy_insight(&insights[order[m]]);
        let ghost b = insight_views(sorted@);
        sorted.push(c);
        assert(insight_views(sorted@) =~= b.push(insight_view(c)));
        assert(picked(fs, o)[m as int] == fs[o[m as int]]);
        assert(picked(fs, o).take(m + 1) =~= picked(fs, o).take(m as int).push(picked(fs, o)[m as int]));
        m = m + 1;
    }
    assert(picked(fs, o).take(m as int) =~= picked(fs, o));
    Some(ProjectAnalysis { root: owned(root), rust_files, total_lines: total, insights: sorted, warnings })
}

fn copy_insight(f: &FileInsight) -> (r: FileInsight)
    ensures
        insight_view(r) == insight_view(*f),
{
    FileInsight {
        path: copy_string(&f.path),
        lines: f.lines,
        has_unsafe: f.has_unsafe,
        todo_count: f.todo_count,
        complexity_score: f.complexity_score,
    }
}

} // verus!
