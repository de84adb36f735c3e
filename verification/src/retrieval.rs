//! Retrieval of the files of a project index that match a query.
use crate::ranking::{at_most, int_indices, int_keys, order_desc, picked, stable_order_desc};
use crate::session::first_k;
use crate::text::{
    chars_of, contains_sub, copy_string, join, join_strings, lines, lowercase, split_ws, str_contains,
    str_lines, string_of, to_lowercase, views, vviews, words,
};
use crate::types::{FileSummary, ProjectIndex, RetrievalHit};
use vstd::prelude::*;

verus! {

/// The lowercase words of a query.
pub open spec fn query_terms(q: Seq<char>) -> Seq<Seq<char>> {
    Seq::new(words(q).len(), |i: int| lowercase(words(q)[i]))
}

/// Some symbol of the file, lowercased, contains `t`.
pub open spec fn symbol_matches(f: FileSummary, t: Seq<char>) -> bool {
    exists|j: int| 0 <= j < f.symbols@.len() && contains_sub(lowercase(#[trigger] f.symbols@[j]@), t)
}

/// What one term adds to a file's score: 5 for its path, 2 for its module
/// summary, 3 for its symbols.
pub open spec fn term_score(f: FileSummary, t: Seq<char>) -> nat {
    (if contains_sub(lowercase(f.path@), t) {
        5nat
    } else {
        0nat
    }) + (if contains_sub(lowercase(f.module_summary@), t) {
        2nat
    } else {
        0nat
    }) + (if symbol_matches(f, t) {
        3nat
    } else {
        0nat
    })
}

/// The score of a file for the terms.
pub open spec fn file_score(f: FileSummary, terms: Seq<Seq<char>>) -> nat
    decreases terms.len(),
{
    if terms.len() == 0 {
        0
    } else {
        file_score(f, terms.drop_last()) + term_score(f, terms.last())
    }
}

proof fn lemma_file_score_bounded(f: FileSummary, terms: Seq<Seq<char>>)
    ensures
        file_score(f, terms) <= 10 * terms.len(),
    decreases terms.len(),
{
    if terms.len() > 0 {
        lemma_file_score_bounded(f, terms.drop_last());
    }
}

/// The first ten lines of a text, joined by newlines.
pub open spec fn excerpt_of(text: Seq<char>) -> Seq<char> {
    join(first_k(lines(text), 10), "\n"@)
}

/// A retrieval hit by views: path, score, excerpt.
pub type HitView = (Seq<char>, nat, Seq<char>);

pub open spec fn hit_view(h: RetrievalHit) -> HitView {
    (h.path@, h.score as nat, h.excerpt@)
}

pub open spec fn hit_views(v: Seq<RetrievalHit>) -> Seq<HitView> {
    Seq::new(v.len(), |i: int| hit_view(v[i]))
}

/// The files with a positive score, in index order, with their excerpts.
pub open spec fn scored_hits(
    fs: Seq<FileSummary>,
    texts: Seq<Seq<char>>,
    terms: Seq<Seq<char>>,
) -> Seq<HitView>
    decreases fs.len(),
{
    if fs.len() == 0 {
        Seq::empty()
    } else {
        let rest = scored_hits(fs.drop_last(), texts.drop_last(), terms);
        let s = file_score(fs.last(), terms);
        if s > 0 {
            rest.push((fs.last().path@, s, excerpt_of(texts.last())))
        } else {
            rest
        }
    }
}

pub open spec fn hit_scores(hs: Seq<HitView>) -> Seq<int> {
    Seq::new(hs.len(), |i: int| hs[i].1 as int)
}

/// The best `n` hits of the query, by non-increasing score, ties in index
/// order.
pub open spec fn top_hits(index: ProjectIndex, query: Seq<char>, n: nat, texts: Seq<Seq<char>>) -> Seq<HitView> {
    let hs = scored_hits(index.file_summaries@, texts, query_terms(query));
    at_most(picked(hs, order_desc(hit_scores(hs))), n)
}

fn lower(s: &Vec<char>) -> (r: String)
    ensures
        r@ == lowercase(s@),
{
    let t = string_of(s);
    to_lowercase(t.as_str())
}

/// Whether some symbol of `f`, lowercased, contains `t`.
fn any_symbol_matches(f: &FileSummary, t: &String) -> (r: bool)
    ensures
        r == symbol_matches(*f, t@),
{
    let mut i: usize = 0;
    while i < f.symbols.len()
        invariant
            i <= f.symbols@.len(),
            forall|j: int| 0 <= j < i ==> !contains_sub(lowercase(#[trigger] f.symbols@[j]@), t@),
        decreases f.symbols.len() - i,
    {
        let l = to_lowercase(f.symbols[i].as_str());
        if str_contains(l.as_str(), t.as_str()) {
            return true;
        }
        i = i + 1;
    }
    false
}

/// The score of one file for the query terms.
pub fn score_file(f: &FileSummary, terms: &Vec<String>) -> (r: usize)
    requires
        10 * terms@.len() <= usize::MAX,
    ensures
        r == file_score(*f, views(terms@)),
{
    let name = to_lowercase(f.path.as_str());
    let summary = to_lowercase(f.module_summary.as_str());
    let mut score: usize = 0;
    let mut i: usize = 0;
    while i < terms.len()
        invariant
            i <= terms@.len(),
            10 * terms@.len() <= usize::MAX,
            name@ == lowercase(f.path@),
            summary@ == lowercase(f.module_summary@),
            score == file_score(*f, views(terms@).take(i as int)),
        decreases terms.len() - i,
    {
        proof {
            lemma_file_score_bounded(*f, views(terms@).take(i as int));
            assert(views(terms@).take(i + 1).drop_last() =~= views(terms@).take(i as int));
        }
        let t = &terms[i];
        if str_contains(name.as_str(), t.as_str()) {
            score = score + 5;
        }
        if str_contains(summary.as_str(), t.as_str()) {
            score = score + 2;
        }
        if any_symbol_matches(f, t) {
            score = score + 3;
        }
        i = i + 1;
    }
    assert(views(terms@).take(i as int) =~= views(terms@));
    score
}

/// The lowercase words of a query.
pub fn terms_of(query: &str) -> (r: Vec<String>)
    ensures
        views(r@) == query_terms(query@),
{
    let ws = split_ws(&chars_of(query));
    let mut out: Vec<String> = Vec::new();
    let mut i: usize = 0;
    while i < ws.len()
        invariant
            i <= ws@.len(),
            vviews(ws@) == words(query@),
            views(out@) == query_terms(query@).take(i as int),
        decreases ws.len() - i,
    {
        let l = lower(&ws[i]);
        let ghost b = views(out@);
        out.push(l);
        assert(views(out@) =~= b.push(lowercase(ws@[i as int]@)));
        assert(query_terms(query@)[i as int] == lowercase(words(query@)[i as int]));
        assert(query_terms(query@).take(i + 1) =~= query_terms(query@).take(i as int).push(
            query_terms(query@)[i as int],
        ));
        i = i + 1;
    }
    assert(query_terms(query@).take(i as int) =~= query_terms(query@));
    out
}

/// The first ten lines of a text, joined by newlines.
pub fn excerpt(text: &str) -> (r: String)
    ensures
        r@ == excerpt_of(text@),
{
    let ls = str_lines(text);
    let mut firsts: Vec<String> = Vec::new();
    let mut i: usize = 0;
    while i < ls.len() && i < 10
        invariant
            i <= ls@.len(),
            i <= 10,
            vviews(ls@) == lines(text@),
            views(firsts@) == vviews(ls@).take(i as int),
        decreases ls.len() - i,
    {
        let ghost b = views(firsts@);
        firsts.push(string_of(&ls[i]));
        assert(views(firsts@) =~= b.push(vviews(ls@)[i as int]));
        i = i + 1;
        assert(views(firsts@) =~= vviews(ls@).take(i as int));
    }
    proof {
        if vviews(ls@).len() <= 10 {
            assert(vviews(ls@).take(i as int) =~= vviews(ls@));
        }
    }
    join_strings(&firsts, "\n")
}

/// The best `n` files of the index for a query, by non-increasing score
/// (5 for each term in the path, 2 in the module summary, 3 in a symbol),
/// ties in index order; `texts` holds the text of each indexed file, from
/// which the hit takes its first ten lines.
pub fn top_n(index: &ProjectIndex, query: &str, n: usize, texts: &Vec<String>) -> (r: Vec<RetrievalHit>)
    requires
        texts@.len() == index.file_summaries@.len(),
        10 * words(query@).len() <= usize::MAX,
    ensures
        hit_views(r@) == top_hits(*index, query@, n as nat, views(texts@)),
{
    let terms = terms_of(query);
    let ghost tv = views(terms@);
    let ghost fs = index.file_summaries@;
    assert(views(terms@).len() == terms@.len());
    assert(query_terms(query@).len() == words(query@).len());
    assert(terms@.len() == words(query@).len());
    let mut hits: Vec<RetrievalHit> = Vec::new();
    let mut keys: Vec<i128> = Vec::new();
    let mut i: usize = 0;
    while i < index.file_summaries.len()
        invariant
            i <= fs.len(),
            fs == index.file_summaries@,
            texts@.len() == fs.len(),
            tv == views(terms@),
            tv == query_terms(query@),
            10 * terms@.len() <= usize::MAX,
            hit_views(hits@) == scored_hits(fs.take(i as int), views(texts@).take(i as int), tv),
            int_keys(keys@) == hit_scores(hit_views(hits@)),
        decreases fs.len() - i,
    {
        proof {
            assert(fs.take(i + 1).drop_last() =~= fs.take(i as int));
            assert(views(texts@).take(i + 1).drop_last() =~= views(texts@).take(i as int));
        }
        let f = &index.file_summaries[i];
        let s = score_file(f, &terms);
        if s > 0 {
            let h = RetrievalHit { path: copy_string(&f.path), score: s, excerpt: excerpt(texts[i].as_str()) };
            let ghost b = hit_views(hits@);
            let ghost kb = keys@;
            hits.push(h);
            keys.push(s as i128);
            assert(hit_views(hits@) =~= b.push(hit_view(h)));
            assert(int_keys(keys@) =~= int_keys(kb).push(s as int));
            assert(hit_scores(hit_views(hits@)) =~= hit_scores(b).push(s as int));
        }
        i = i + 1;
    }
    assert(fs.take(i as int) =~= fs);
    assert(views(texts@).take(i as int) =~= views(texts@));
    let ghost hs = hit_views(hits@);
    let order = stable_order_desc(&keys);
    proof {
        crate::ranking::lemma_order_first(int_keys(keys@), keys@.len());
    }
    let ghost o = int_indices(order@);
    let mut out: Vec<RetrievalHit> = Vec::new();
    let mut k: usize = 0;
    while k < order.len() && k < n
        invariant
            k <= order@.len(),
            k <= n,
            o == int_indices(order@),
            o == order_desc(hit_scores(hs)),
            hs == hit_views(hits@),
            crate::ranking::is_index_permutation(o, hits@.len()),
            hit_views(out@) == picked(hs, o).take(k as int),
        decreases order.len() - k,
    {
        assert(o[k as int] < hits@.len());
        let h = &hits[order[k]];
        let c = RetrievalHit { path: copy_string(&h.path), score: h.score, excerpt: copy_string(&h.excerpt) };
        let ghost b = hit_views(out@);
        out.push(c);
        assert(hit_views(out@) =~= b.push(hit_view(c)));
        assert(picked(hs, o).take(k + 1) =~= picked(hs, o).take(k as int).push(picked(hs, o)[k as int]));
        k = k + 1;
    }
    proof {
        if picked(hs, o).len() <= n {
            assert(picked(hs, o).take(k as int) =~= picked(hs, o));
        }
    }
    out
}

/// The lines of a retrieval snapshot for the hits from `i` on: path,
/// score, and a recency score that counts down from the number of hits.
pub open spec fn snapshot_hits_from(hits: Seq<RetrievalHit>, n: nat) -> Seq<char>
    decreases hits.len(),
{
    if hits.len() == 0 {
        Seq::empty()
    } else {
        snapshot_hits_from(hits.drop_last(), n) + "hit="@ + hits.last().path@ + " score="@ + crate::text::dec(
            hits.last().score as nat,
        ) + " recency_score="@ + crate::text::dec((n - (hits.len() - 1)) as nat) + "\n"@
    }
}

/// The retrieval snapshot of a query: the query, how many hits were
/// loaded, the time, then one line per hit.
pub open spec fn snapshot_text(query: Seq<char>, hits: Seq<RetrievalHit>, ts: nat) -> Seq<char> {
    "query="@ + query + "\nmax_loaded="@ + crate::text::dec(hits.len()) + "\nts="@ + crate::text::dec(ts) + "\n"@
        + snapshot_hits_from(hits, hits.len())
}

/// Writes the retrieval snapshot of a query.
pub fn retrieval_snapshot_text(query: &str, hits: &Vec<RetrievalHit>, ts: u64) -> (r: String)
    ensures
        r@ == snapshot_text(query@, hits@, ts as nat),
{
    let mut t = crate::text::owned("query=");
    crate::text::push_str(&mut t, query);
    crate::text::push_str(&mut t, "\nmax_loaded=");
    crate::text::push_dec(&mut t, hits.len() as u64);
    crate::text::push_str(&mut t, "\nts=");
    crate::text::push_dec(&mut t, ts);
    crate::text::push_str(&mut t, "\n");
    let ghost head = t@;
    let n = hits.len();
    let mut i: usize = 0;
    while i < n
        invariant
            i <= n,
            n == hits@.len(),
            t@ == head + snapshot_hits_from(hits@.take(i as int), n as nat),
        decreases n - i,
    {
        assert(hits@.take(i + 1).drop_last() =~= hits@.take(i as int));
        let ghost t0 = t@;
        crate::text::push_str(&mut t, "hit=");
        crate::text::push_str(&mut t, hits[i].path.as_str());
        crate::text::push_str(&mut t, " score=");
        crate::text::push_dec(&mut t, hits[i].score as u64);
        crate::text::push_str(&mut t, " recency_score=");
        crate::text::push_dec(&mut t, (n - i) as u64);
        crate::text::push_str(&mut t, "\n");
        assert(t@ =~= head + snapshot_hits_from(hits@.take(i + 1), n as nat));
        i = i + 1;
    }
    assert(hits@.take(i as int) =~= hits@);
    t
}

} // verus!
