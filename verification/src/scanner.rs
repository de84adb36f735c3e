//! What a scan of a workspace records of each Rust file: its symbols, a
//! short summary and its size, and the ordering of the files.
use crate::ranking::{at_most, int_indices, int_keys, order_desc, picked, stable_order_desc};
use crate::session::first_k;
use crate::text::{
    contains_sub, copy_string, dec, has_prefix, lines, owned, push_dec, push_str, split_on, str_lines,
    string_of, trim, trim_start, views, vviews,
};
use crate::json::{arr, get, jv, jv_list, jv_members, member, obj, parse, parse_text, strv, JsonValue, JsonView};
use crate::types::{CargoTargetStats, FileSummary, ProjectIndex};
use std::path::PathBuf;
use vstd::prelude::*;

verus! {

/// A line (after leading whitespace) that declares a symbol.
pub open spec fn declares_symbol(t: Seq<char>) -> bool {
    has_prefix(t, "pub fn "@) || has_prefix(t, "fn "@) || has_prefix(t, "struct "@)
}

/// The symbol a declaring line names: what stands before its first `{`,
/// trimmed.
pub open spec fn symbol_of(t: Seq<char>) -> Seq<char> {
    trim(split_on(t, '{')[0])
}

/// The symbols of all lines, in order.
pub open spec fn all_symbols(ls: Seq<Seq<char>>) -> Seq<Seq<char>>
    decreases ls.len(),
{
    if ls.len() == 0 {
        Seq::empty()
    } else {
        let rest = all_symbols(ls.drop_last());
        let t = trim_start(ls.last());
        if declares_symbol(t) {
            rest.push(symbol_of(t))
        } else {
            rest
        }
    }
}

/// The symbols of a file: the first sixteen declared.
pub open spec fn symbols_of(text: Seq<char>) -> Seq<Seq<char>> {
    first_k(all_symbols(lines(text)), 16)
}

proof fn lemma_all_symbols_grow(ls: Seq<Seq<char>>, i: int)
    requires
        0 <= i <= ls.len(),
    ensures
        all_symbols(ls.take(i)).len() <= all_symbols(ls).len(),
        all_symbols(ls) .take(all_symbols(ls.take(i)).len() as int) == all_symbols(ls.take(i)),
    decreases ls.len() - i,
{
    if i < ls.len() {
        lemma_all_symbols_grow(ls, i + 1);
        assert(ls.take(i + 1).drop_last() =~= ls.take(i));
        let a = all_symbols(ls.take(i));
        let b = all_symbols(ls.take(i + 1));
        let c = all_symbols(ls);
        assert(b.take(a.len() as int) =~= a);
        assert(c.take(a.len() as int) =~= c.take(b.len() as int).take(a.len() as int));
    } else {
        assert(ls.take(i) =~= ls);
        assert(all_symbols(ls).take(all_symbols(ls).len() as int) =~= all_symbols(ls));
    }
}

/// The symbols a file declares: the first sixteen lines that declare a
/// function or a struct, each up to its first `{`.
pub fn extract_symbols(text: &str) -> (r: Vec<String>)
    ensures
        views(r@) == symbols_of(text@),
{
    let ls = str_lines(text);
    let ghost lv = lines(text@);
    let mut symbols: Vec<String> = Vec::new();
    let mut i: usize = 0;
    while i < ls.len()
        invariant
            i <= ls@.len(),
            vviews(ls@) == lv,
            lv == lines(text@),
            views(symbols@) == all_symbols(lv.take(i as int)),
            symbols@.len() < 16,
        decreases ls.len() - i,
    {
        assert(lv.take(i + 1).drop_last() =~= lv.take(i as int));
        assert(lv.take(i + 1).last() == ls@[i as int]@);
        let t = crate::text::trim_start_chars(&ls[i]);
        if crate::text::starts_with(&t, &crate::text::chars_of("pub fn ")) || crate::text::starts_with(
            &t,
            &crate::text::chars_of("fn "),
        ) || crate::text::starts_with(&t, &crate::text::chars_of("struct ")) {
            let ps = crate::text::split_char(&t, '{');
            proof {
                crate::text::lemma_pieces_len(t@, crate::text::is_char('{'));
            }
            let sym = crate::text::trim_chars(&ps[0]);
            let ghost b = views(symbols@);
            symbols.push(string_of(&sym));
            assert(views(symbols@) =~= b.push(symbol_of(t@)));
        }
        i = i + 1;
        if symbols.len() >= 16 {
            proof {
                lemma_all_symbols_grow(lv, i as int);
            }
            assert(views(symbols@).len() == 16);
            assert(all_symbols(lv).take(16) == views(symbols@));
            assert(views(symbols@) =~= first_k(all_symbols(lv), 16));
            return symbols;
        }
    }
    assert(lv.take(i as int) =~= lv);
    symbols
}

/// Lines that declare a function.
pub open spec fn fn_lines(ls: Seq<Seq<char>>) -> nat {
    ls.filter(|l: Seq<char>| has_prefix(trim_start(l), "fn "@) || has_prefix(trim_start(l), "pub fn "@)).len()
}

/// Lines that declare a data type.
pub open spec fn type_lines(ls: Seq<Seq<char>>) -> nat {
    ls.filter(|l: Seq<char>| has_prefix(trim_start(l), "struct "@) || has_prefix(trim_start(l), "enum "@)).len()
}

/// Lines that mention `unsafe`.
pub open spec fn unsafe_lines(ls: Seq<Seq<char>>) -> nat {
    ls.filter(|l: Seq<char>| contains_sub(trim_start(l), "unsafe"@)).len()
}

/// The summary of a module: its functions, data types and mentions of
/// `unsafe`, counted by lines.
pub open spec fn module_summary_of(text: Seq<char>) -> Seq<char> {
    let ls = lines(text);
    "functions="@ + dec(fn_lines(ls)) + ", data_types="@ + dec(type_lines(ls)) + ", unsafe_mentions="@
        + dec(unsafe_lines(ls))
}

/// Summarizes a module by counting its function, data type and `unsafe`
/// lines; each count is kept in an `i32`.
pub fn summarize_module(text: &str) -> (r: String)
    requires
        fn_lines(lines(text@)) <= i32::MAX,
        type_lines(lines(text@)) <= i32::MAX,
        unsafe_lines(lines(text@)) <= i32::MAX,
    ensures
        r@ == module_summary_of(text@),
{
    let ls = str_lines(text);
    let ghost lv = lines(text@);
    let ghost pf = |l: Seq<char>| has_prefix(trim_start(l), "fn "@) || has_prefix(trim_start(l), "pub fn "@);
    let ghost pt = |l: Seq<char>| has_prefix(trim_start(l), "struct "@) || has_prefix(
        trim_start(l),
        "enum "@,
    );
    let ghost pu = |l: Seq<char>| contains_sub(trim_start(l), "unsafe"@);
    let mut f: usize = 0;
    let mut d: usize = 0;
    let mut u: usize = 0;
    let mut i: usize = 0;
    assert(lv.take(0).filter(pf) =~= Seq::<Seq<char>>::empty() && lv.take(0).filter(pt)
        =~= Seq::<Seq<char>>::empty() && lv.take(0).filter(pu) =~= Seq::<Seq<char>>::empty()) by {
        reveal_with_fuel(Seq::filter, 1);
    }
    while i < ls.len()
        invariant
            i <= ls@.len(),
            vviews(ls@) == lv,
            pf == (|l: Seq<char>| has_prefix(trim_start(l), "fn "@) || has_prefix(
                trim_start(l),
                "pub fn "@,
            )),
            pt == (|l: Seq<char>| has_prefix(trim_start(l), "struct "@) || has_prefix(
                trim_start(l),
                "enum "@,
            )),
            pu == (|l: Seq<char>| contains_sub(trim_start(l), "unsafe"@)),
            lv.filter(pf).len() <= i32::MAX,
            lv.filter(pt).len() <= i32::MAX,
            lv.filter(pu).len() <= i32::MAX,
            f == lv.take(i as int).filter(pf).len(),
            d == lv.take(i as int).filter(pt).len(),
            u == lv.take(i as int).filter(pu).len(),
        decreases ls.len() - i,
    {
        proof {
            assert(lv.take(i + 1) =~= lv.take(i as int).push(lv[i as int]));
            lv.take(i as int).lemma_filter_push(lv[i as int], pf);
            lv.take(i as int).lemma_filter_push(lv[i as int], pt);
            lv.take(i as int).lemma_filter_push(lv[i as int], pu);
            assert(lv =~= lv.take(i + 1) + lv.skip(i + 1));
            Seq::filter_distributes_over_add(lv.take(i + 1), lv.skip(i + 1), pf);
            Seq::filter_distributes_over_add(lv.take(i + 1), lv.skip(i + 1), pt);
            Seq::filter_distributes_over_add(lv.take(i + 1), lv.skip(i + 1), pu);
        }
        let t = crate::text::trim_start_chars(&ls[i]);
        assert(t@ == trim_start(lv[i as int]));
        if crate::text::starts_with(&t, &crate::text::chars_of("fn ")) || crate::text::starts_with(
            &t,
            &crate::text::chars_of("pub fn "),
        ) {
            f = f + 1;
        }
        if crate::text::starts_with(&t, &crate::text::chars_of("struct ")) || crate::text::starts_with(
            &t,
            &crate::text::chars_of("enum "),
        ) {
            d = d + 1;
        }
        if crate::text::contains(&t, &crate::text::chars_of("unsafe")) {
            u = u + 1;
        }
        i = i + 1;
    }
    assert(lv.take(i as int) =~= lv);
    let mut s = owned("functions=");
    push_dec(&mut s, f as u64);
    push_str(&mut s, ", data_types=");
    push_dec(&mut s, d as u64);
    push_str(&mut s, ", unsafe_mentions=");
    push_dec(&mut s, u as u64);
    s
}


/// Counts of target kinds: binaries, libraries, examples, tests.
pub type Tally = (nat, nat, nat, nat);

pub open spec fn tally_add(a: Tally, b: Tally) -> Tally {
    (a.0 + b.0, a.1 + b.1, a.2 + b.2, a.3 + b.3)
}

/// The kinds of a target, counted: `bin`, `lib` or `proc-macro`,
/// `example`, `test`.
pub open spec fn kind_tally(ks: Seq<JsonView>) -> Tally
    decreases ks.len(),
{
    if ks.len() == 0 {
        (0, 0, 0, 0)
    } else {
        let t = kind_tally(ks.drop_last());
        match ks.last() {
            JsonView::Str(k) => if k == "bin"@ {
                (t.0 + 1, t.1, t.2, t.3)
            } else if k == "lib"@ || k == "proc-macro"@ {
                (t.0, t.1 + 1, t.2, t.3)
            } else if k == "example"@ {
                (t.0, t.1, t.2 + 1, t.3)
            } else if k == "test"@ {
                (t.0, t.1, t.2, t.3 + 1)
            } else {
                t
            },
            _ => t,
        }
    }
}

/// The kinds of the targets of a package, counted.
pub open spec fn target_tally(ts: Seq<JsonView>) -> Tally
    decreases ts.len(),
{
    if ts.len() == 0 {
        (0, 0, 0, 0)
    } else {
        tally_add(
            target_tally(ts.drop_last()),
            match ts.last() {
                JsonView::Obj(m) => match member(m, "kind"@) {
                    Some(JsonView::Arr(ks)) => kind_tally(ks),
                    _ => (0, 0, 0, 0),
                },
                _ => (0, 0, 0, 0),
            },
        )
    }
}

/// The kinds of the targets of all packages, counted.
pub open spec fn package_tally(ps: Seq<JsonView>) -> Tally
    decreases ps.len(),
{
    if ps.len() == 0 {
        (0, 0, 0, 0)
    } else {
        tally_add(
            package_tally(ps.drop_last()),
            match ps.last() {
                JsonView::Obj(m) => match member(m, "targets"@) {
                    Some(JsonView::Arr(ts)) => target_tally(ts),
                    _ => (0, 0, 0, 0),
                },
                _ => (0, 0, 0, 0),
            },
        )
    }
}

/// The string members `key` of the packages, in order.
pub open spec fn package_field(ps: Seq<JsonView>, key: Seq<char>) -> Seq<Seq<char>>
    decreases ps.len(),
{
    if ps.len() == 0 {
        Seq::empty()
    } else {
        let rest = package_field(ps.drop_last(), key);
        match ps.last() {
            JsonView::Obj(m) => match member(m, key) {
                Some(JsonView::Str(n)) => rest.push(n),
                _ => rest,
            },
            _ => rest,
        }
    }
}

/// How `PathBuf` sorts a list of paths: a function of the paths alone.
pub uninterp spec fn path_sorted(v: Seq<Seq<char>>) -> Seq<Seq<char>>;

/// How `Vec::<PathBuf>::dedup` thins a list of paths: a function of the
/// paths alone.
pub uninterp spec fn path_deduped(v: Seq<Seq<char>>) -> Seq<Seq<char>>;

/// `slice::sort` on the paths (paths compare by components).
#[verifier::external_body]
fn sort_paths(v: Vec<String>) -> (r: Vec<String>)
    ensures
        views(r@) == path_sorted(views(v@)),
{
    let mut p: Vec<PathBuf> = v.into_iter().map(PathBuf::from).collect();
    p.sort();
    p.into_iter().map(|x| x.to_string_lossy().to_string()).collect()
}

/// `Vec::dedup` on the paths (paths compare by components).
#[verifier::external_body]
fn dedup_paths(v: Vec<String>) -> (r: Vec<String>)
    ensures
        views(r@) == path_deduped(views(v@)),
{
    let mut p: Vec<PathBuf> = v.into_iter().map(PathBuf::from).collect();
    p.dedup();
    p.into_iter().map(|x| x.to_string_lossy().to_string()).collect()
}

/// What cargo metadata says of a workspace: its root, its packages, the
/// manifests and the counts of targets by kind.
#[derive(Debug)]
pub struct WorkspaceMetadata {
    pub workspace_root: String,
    pub packages: Vec<String>,
    pub manifests: Vec<String>,
    pub target_stats: CargoTargetStats,
}

/// What the metadata of a workspace says, or why it cannot be read.
pub open spec fn metadata_ok(meta: Seq<char>, root: Seq<char>, r: WorkspaceMetadata) -> bool {
    match parse_text(vstd::utf8::encode_utf8(meta)) {
        Ok(JsonView::Obj(top)) => match member(top, "packages"@) {
            Some(JsonView::Arr(ps)) => {
                let t = package_tally(ps);
                &&& r.workspace_root@ == match member(top, "workspace_root"@) {
                    Some(JsonView::Str(w)) => w,
                    _ => root,
                }
                &&& crate::review::sorted_unique_of(views(r.packages@), package_field(ps, "name"@))
                &&& views(r.manifests@) == path_deduped(path_sorted(package_field(ps, "manifest_path"@)))
                &&& r.target_stats.bins == t.0
                &&& r.target_stats.libs == t.1
                &&& r.target_stats.examples == t.2
                &&& r.target_stats.tests == t.3
            },
            _ => false,
        },
        _ => false,
    }
}

/// Why the metadata of a workspace cannot be read, if it cannot.
pub open spec fn metadata_error(meta: Seq<char>) -> Option<Seq<char>> {
    match parse_text(vstd::utf8::encode_utf8(meta)) {
        Err(e) => Some(e),
        Ok(JsonView::Obj(top)) => match member(top, "packages"@) {
            Some(JsonView::Arr(_)) => None,
            _ => Some("cargo metadata missing packages"@),
        },
        Ok(_) => Some("cargo metadata json root invalid"@),
    }
}

/// The counts of target kinds fit in a `usize`.
pub open spec fn tally_fits(meta: Seq<char>) -> bool {
    match parse_text(vstd::utf8::encode_utf8(meta)) {
        Ok(JsonView::Obj(top)) => match member(top, "packages"@) {
            Some(JsonView::Arr(ps)) => {
                let t = package_tally(ps);
                t.0 <= usize::MAX && t.1 <= usize::MAX && t.2 <= usize::MAX && t.3 <= usize::MAX
            },
            _ => true,
        },
        _ => true,
    }
}

proof fn lemma_kind_tally_step(ks: Seq<JsonView>, n: int)
    requires
        0 <= n <= ks.len(),
    ensures
        kind_tally(ks.take(n)).0 <= kind_tally(ks).0,
        kind_tally(ks.take(n)).1 <= kind_tally(ks).1,
        kind_tally(ks.take(n)).2 <= kind_tally(ks).2,
        kind_tally(ks.take(n)).3 <= kind_tally(ks).3,
    decreases ks.len() - n,
{
    if n < ks.len() {
        lemma_kind_tally_step(ks, n + 1);
        assert(ks.take(n + 1).drop_last() =~= ks.take(n));
    } else {
        assert(ks.take(n) =~= ks);
    }
}

proof fn lemma_target_tally_step(ts: Seq<JsonView>, n: int)
    requires
        0 <= n <= ts.len(),
    ensures
        target_tally(ts.take(n)).0 <= target_tally(ts).0,
        target_tally(ts.take(n)).1 <= target_tally(ts).1,
        target_tally(ts.take(n)).2 <= target_tally(ts).2,
        target_tally(ts.take(n)).3 <= target_tally(ts).3,
    decreases ts.len() - n,
{
    if n < ts.len() {
        lemma_target_tally_step(ts, n + 1);
        assert(ts.take(n + 1).drop_last() =~= ts.take(n));
    } else {
        assert(ts.take(n) =~= ts);
    }
}

proof fn lemma_package_tally_step(ps: Seq<JsonView>, n: int)
    requires
        0 <= n <= ps.len(),
    ensures
        package_tally(ps.take(n)).0 <= package_tally(ps).0,
        package_tally(ps.take(n)).1 <= package_tally(ps).1,
        package_tally(ps.take(n)).2 <= package_tally(ps).2,
        package_tally(ps.take(n)).3 <= package_tally(ps).3,
    decreases ps.len() - n,
{
    if n < ps.len() {
        lemma_package_tally_step(ps, n + 1);
        assert(ps.take(n + 1).drop_last() =~= ps.take(n));
    } else {
        assert(ps.take(n) =~= ps);
    }
}

/// Counts the kinds of one target into `stats`.
fn count_kinds(stats: &mut CargoTargetStats, ks: &Vec<JsonValue>)
    requires
        old(stats).bins + kind_tally(jv_list(ks@)).0 <= usize::MAX,
        old(stats).libs + kind_tally(jv_list(ks@)).1 <= usize::MAX,
        old(stats).examples + kind_tally(jv_list(ks@)).2 <= usize::MAX,
        old(stats).tests + kind_tally(jv_list(ks@)).3 <= usize::MAX,
    ensures
        final(stats).bins == old(stats).bins + kind_tally(jv_list(ks@)).0,
        final(stats).libs == old(stats).libs + kind_tally(jv_list(ks@)).1,
        final(stats).examples == old(stats).examples + kind_tally(jv_list(ks@)).2,
        final(stats).tests == old(stats).tests + kind_tally(jv_list(ks@)).3,
{
    proof {
        crate::json::lemma_jv_list(ks@);
    }
    let ghost kv = jv_list(ks@);
    let ghost s0 = *stats;
    let mut i: usize = 0;
    while i < ks.len()
        invariant
            i <= ks@.len(),
            kv == jv_list(ks@),
            kv.len() == ks@.len(),
            forall|t: int| 0 <= t < ks@.len() ==> #[trigger] kv[t] == jv(ks@[t]),
            s0.bins + kind_tally(kv).0 <= usize::MAX,
            s0.libs + kind_tally(kv).1 <= usize::MAX,
            s0.examples + kind_tally(kv).2 <= usize::MAX,
            s0.tests + kind_tally(kv).3 <= usize::MAX,
            stats.bins == s0.bins + kind_tally(kv.take(i as int)).0,
            stats.libs == s0.libs + kind_tally(kv.take(i as int)).1,
            stats.examples == s0.examples + kind_tally(kv.take(i as int)).2,
            stats.tests == s0.tests + kind_tally(kv.take(i as int)).3,
        decreases ks.len() - i,
    {
        proof {
            assert(kv.take(i + 1).drop_last() =~= kv.take(i as int));
            assert(kv.take(i + 1).last() == jv(ks@[i as int]));
            lemma_kind_tally_step(kv, i + 1);
        }
        match strv(&ks[i]) {
            Some(kind) => {
                if crate::text::str_eq(kind, "bin") {
                    stats.bins = stats.bins + 1;
                } else if crate::text::str_eq(kind, "lib") || crate::text::str_eq(kind, "proc-macro") {
                    stats.libs = stats.libs + 1;
                } else if crate::text::str_eq(kind, "example") {
                    stats.examples = stats.examples + 1;
                } else if crate::text::str_eq(kind, "test") {
                    stats.tests = stats.tests + 1;
                }
            },
            None => {},
        }
        i = i + 1;
    }
    assert(kv.take(i as int) =~= kv);
}

/// Reads what cargo metadata says of a workspace (`root` stands for the
/// workspace root when the metadata names none).
pub fn scan_metadata(meta: &str, root: &str) -> (r: Result<WorkspaceMetadata, String>)
    requires
        tally_fits(meta@),
    ensures
        match r {
            Ok(w) => metadata_error(meta@) is None && metadata_ok(meta@, root@, w),
            Err(e) => metadata_error(meta@) == Some(e@),
        },
{
    let json = match parse(meta) {
        Ok(v) => v,
        Err(e) => {
            return Err(e);
        },
    };
    let top = match obj(&json) {
        Some(m) => m,
        None => {
            return Err(owned("cargo metadata json root invalid"));
        },
    };
    let workspace_root = match get(top, "workspace_root") {
        Some(v) => match strv(v) {
            Some(w) => owned(w),
            None => owned(root),
        },
        None => owned(root),
    };
    let packages_raw = match get(top, "packages") {
        Some(v) => match arr(v) {
            Some(a) => a,
            None => {
                return Err(owned("cargo metadata missing packages"));
            },
        },
        None => {
            return Err(owned("cargo metadata missing packages"));
        },
    };
    proof {
        crate::json::lemma_jv_list(packages_raw@);
    }
    let ghost pv = jv_list(packages_raw@);
    let mut packages: Vec<String> = Vec::new();
    let mut manifests: Vec<String> = Vec::new();
    let mut stats = CargoTargetStats { bins: 0, libs: 0, examples: 0, tests: 0 };
    let mut i: usize = 0;
    while i < packages_raw.len()
        invariant
            i <= packages_raw@.len(),
            pv == jv_list(packages_raw@),
            pv.len() == packages_raw@.len(),
            forall|t: int| 0 <= t < packages_raw@.len() ==> #[trigger] pv[t] == jv(packages_raw@[t]),
            package_tally(pv).0 <= usize::MAX,
            package_tally(pv).1 <= usize::MAX,
            package_tally(pv).2 <= usize::MAX,
            package_tally(pv).3 <= usize::MAX,
            views(packages@) == package_field(pv.take(i as int), "name"@),
            views(manifests@) == package_field(pv.take(i as int), "manifest_path"@),
            stats.bins == package_tally(pv.take(i as int)).0,
            stats.libs == package_tally(pv.take(i as int)).1,
            stats.examples == package_tally(pv.take(i as int)).2,
            stats.tests == package_tally(pv.take(i as int)).3,
        decreases packages_raw.len() - i,
    {
        proof {
            assert(pv.take(i + 1).drop_last() =~= pv.take(i as int));
            assert(pv.take(i + 1).last() == jv(packages_raw@[i as int]));
            lemma_package_tally_step(pv, i + 1);
        }
        match obj(&packages_raw[i]) {
            Some(po) => {
                match get(po, "name") {
                    Some(v) => match strv(v) {
                        Some(n) => {
                            let ghost b = views(packages@);
                            packages.push(owned(n));
                            assert(views(packages@) =~= b.push(n@));
                        },
                        None => {},
                    },
                    None => {},
                }
                match get(po, "manifest_path") {
                    Some(v) => match strv(v) {
                        Some(n) => {
                            let ghost b = views(manifests@);
                            manifests.push(owned(n));
                            assert(views(manifests@) =~= b.push(n@));
                        },
                        None => {},
                    },
                    None => {},
                }
                match get(po, "targets") {
                    Some(v) => match arr(v) {
                        Some(ts) => {
                            count_targets(&mut stats, ts);
                        },
                        None => {},
                    },
                    None => {},
                }
            },
            None => {},
        }
        i = i + 1;
    }
    assert(pv.take(i as int) =~= pv);
    let packages = crate::review::sort_dedup(packages);
    let manifests = dedup_paths(sort_paths(manifests));
    Ok(WorkspaceMetadata { workspace_root, packages, manifests, target_stats: stats })
}

/// Counts the kinds of the targets of one package into `stats`.
fn count_targets(stats: &mut CargoTargetStats, ts: &Vec<JsonValue>)
    requires
        old(stats).bins + target_tally(jv_list(ts@)).0 <= usize::MAX,
        old(stats).libs + target_tally(jv_list(ts@)).1 <= usize::MAX,
        old(stats).examples + target_tally(jv_list(ts@)).2 <= usize::MAX,
        old(stats).tests + target_tally(jv_list(ts@)).3 <= usize::MAX,
    ensures
        final(stats).bins == old(stats).bins + target_tally(jv_list(ts@)).0,
        final(stats).libs == old(stats).libs + target_tally(jv_list(ts@)).1,
        final(stats).examples == old(stats).examples + target_tally(jv_list(ts@)).2,
        final(stats).tests == old(stats).tests + target_tally(jv_list(ts@)).3,
{
    proof {
        crate::json::lemma_jv_list(ts@);
    }
    let ghost tv = jv_list(ts@);
    let ghost s0 = *stats;
    let mut i: usize = 0;
    while i < ts.len()
        invariant
            i <= ts@.len(),
            tv == jv_list(ts@),
            tv.len() == ts@.len(),
            forall|t: int| 0 <= t < ts@.len() ==> #[trigger] tv[t] == jv(ts@[t]),
            s0.bins + target_tally(tv).0 <= usize::MAX,
            s0.libs + target_tally(tv).1 <= usize::MAX,
            s0.examples + target_tally(tv).2 <= usize::MAX,
            s0.tests + target_tally(tv).3 <= usize::MAX,
            stats.bins == s0.bins + target_tally(tv.take(i as int)).0,
            stats.libs == s0.libs + target_tally(tv.take(i as int)).1,
            stats.examples == s0.examples + target_tally(tv.take(i as int)).2,
            stats.tests == s0.tests + target_tally(tv.take(i as int)).3,
        decreases ts.len() - i,
    {
        proof {
            assert(tv.take(i + 1).drop_last() =~= tv.take(i as int));
            assert(tv.take(i + 1).last() == jv(ts@[i as int]));
            lemma_target_tally_step(tv, i + 1);
        }
        match obj(&ts[i]) {
            Some(to) => match get(to, "kind") {
                Some(v) => match arr(v) {
                    Some(ks) => {
                        count_kinds(stats, ks);
                    },
                    None => {},
                },
                None => {},
            },
            None => {},
        }
        i = i + 1;
    }
    assert(tv.take(i as int) =~= tv);
}

/// What a scan records of a file, by views: path, lines, symbols, summary.
pub type SummaryView = (Seq<char>, nat, Seq<Seq<char>>, Seq<char>);

pub open spec fn summary_view(f: FileSummary) -> SummaryView {
    (f.path@, f.lines as nat, views(f.symbols@), f.module_summary@)
}

pub open spec fn summary_views(v: Seq<FileSummary>) -> Seq<SummaryView> {
    Seq::new(v.len(), |i: int| summary_view(v[i]))
}

/// What a scan records of a file from its path and text.
pub open spec fn summary_of(path: Seq<char>, text: Seq<char>) -> SummaryView {
    (path, lines(text).len(), symbols_of(text), module_summary_of(text))
}

/// A file whose counts fit the module summary.
pub open spec fn summarizable(text: Seq<char>) -> bool {
    fn_lines(lines(text)) <= i32::MAX && type_lines(lines(text)) <= i32::MAX && unsafe_lines(
        lines(text),
    ) <= i32::MAX
}

/// What a scan records of one file.
pub fn summarize_file(path: &str, text: &str) -> (r: FileSummary)
    requires
        summarizable(text@),
    ensures
        summary_view(r) == summary_of(path@, text@),
{
    let n = str_lines(text).len();
    FileSummary {
        path: owned(path),
        lines: n,
        symbols: extract_symbols(text),
        module_summary: summarize_module(text),
    }
}

/// The line counts of the files.
pub open spec fn line_keys(v: Seq<SummaryView>) -> Seq<int> {
    Seq::new(v.len(), |i: int| v[i].1 as int)
}

/// The index of a workspace: its metadata and the summaries of its Rust
/// files (each given by its path relative to the workspace root and its
/// text), the longest files first, files of equal length in the order given.
pub fn scan_repo(meta: WorkspaceMetadata, files: &Vec<(String, String)>) -> (r: ProjectIndex)
    requires
        forall|i: int| 0 <= i < files@.len() ==> summarizable(#[trigger] files@[i].1@),
    ensures
        r.workspace_root@ == meta.workspace_root@,
        views(r.packages@) == views(meta.packages@),
        views(r.manifests@) == views(meta.manifests@),
        r.target_stats == meta.target_stats,
        summary_views(r.file_summaries@) == picked(
            Seq::new(files@.len(), |i: int| summary_of(files@[i].0@, files@[i].1@)),
            order_desc(
                line_keys(Seq::new(files@.len(), |i: int| summary_of(files@[i].0@, files@[i].1@))),
            ),
        ),
{
    let ghost all = Seq::new(files@.len(), |i: int| summary_of(files@[i].0@, files@[i].1@));
    let mut sums: Vec<FileSummary> = Vec::new();
    let mut keys: Vec<i128> = Vec::new();
    let mut i: usize = 0;
    while i < files.len()
        invariant
            i <= files@.len(),
            all == Seq::new(files@.len(), |i: int| summary_of(files@[i].0@, files@[i].1@)),
            forall|i: int| 0 <= i < files@.len() ==> summarizable(#[trigger] files@[i].1@),
            summary_views(sums@) == all.take(i as int),
            int_keys(keys@) == line_keys(all.take(i as int)),
        decreases files.len() - i,
    {
        let f = summarize_file(files[i].0.as_str(), files[i].1.as_str());
        let ghost b = summary_views(sums@);
        let ghost kb = keys@;
        let ln = f.lines;
        keys.push(ln as i128);
        assert(keys@ == kb.push(ln as i128));
        assert(int_keys(keys@) =~= int_keys(kb).push(ln as int));
        assert(all[i as int].1 == ln);
        assert(line_keys(all.take(i + 1)) =~= line_keys(all.take(i as int)).push(ln as int));
        sums.push(f);
        i = i + 1;
        assert(summary_views(sums@) =~= all.take(i as int));
    }
    assert(all.take(i as int) =~= all);
    let order = stable_order_desc(&keys);
    proof {
        crate::ranking::lemma_order_first(int_keys(keys@), keys@.len());
    }
    let ghost o = int_indices(order@);
    let mut out: Vec<FileSummary> = Vec::new();
    let mut k: usize = 0;
    while k < order.len()
        invariant
            k <= order@.len(),
            o == int_indices(order@),
            o == order_desc(line_keys(all)),
            all == summary_views(sums@),
            crate::ranking::is_index_permutation(o, sums@.len()),
            summary_views(out@) == picked(all, o).take(k as int),
        decreases order.len() - k,
    {
        assert(o[k as int] < sums@.len());
        let src = &sums[order[k]];
        let c = FileSummary {
            path: copy_string(&src.path),
            lines: src.lines,
            symbols: crate::text::copy_strings(&src.symbols),
            module_summary: copy_string(&src.module_summary),
        };
        let ghost b = summary_views(out@);
        out.push(c);
        assert(summary_views(out@) =~= b.push(summary_view(c)));
        assert(picked(all, o).take(k + 1) =~= picked(all, o).take(k as int).push(picked(all, o)[k as int]));
        k = k + 1;
    }
    assert(picked(all, o).take(k as int) =~= picked(all, o));
    ProjectIndex {
        workspace_root: meta.workspace_root,
        packages: meta.packages,
        manifests: meta.manifests,
        target_stats: meta.target_stats,
        file_summaries: out,
    }
}

/// One stored file summary: its path, line count, module summary and
/// symbols, then a separator line.
pub open spec fn file_summary_text(path: Seq<char>, lines_n: nat, module_summary: Seq<char>, symbols: Seq<Seq<char>>) -> Seq<char> {
    "path="@ + path + "\nlines="@ + dec(lines_n) + "\nmodule_summary="@ + module_summary + "\nsymbols="@
        + crate::text::join(symbols, " | "@) + "\n---\n"@
}

/// The stored file summaries, one after the other.
pub open spec fn file_summaries_text_of(fs: Seq<FileSummary>) -> Seq<char>
    decreases fs.len(),
{
    if fs.len() == 0 {
        Seq::empty()
    } else {
        file_summaries_text_of(fs.drop_last()) + file_summary_text(
            fs.last().path@,
            fs.last().lines as nat,
            fs.last().module_summary@,
            views(fs.last().symbols@),
        )
    }
}

/// Writes the stored file summaries.
pub fn file_summaries_text(fs: &Vec<FileSummary>) -> (r: String)
    ensures
        r@ == file_summaries_text_of(fs@),
{
    let mut t = String::new();
    let mut i: usize = 0;
    while i < fs.len()
        invariant
            i <= fs@.len(),
            t@ == file_summaries_text_of(fs@.take(i as int)),
        decreases fs.len() - i,
    {
        assert(fs@.take(i + 1).drop_last() =~= fs@.take(i as int));
        let f = &fs[i];
        let ghost t0 = t@;
        push_str(&mut t, "path=");
        push_str(&mut t, f.path.as_str());
        push_str(&mut t, "\nlines=");
        push_dec(&mut t, f.lines as u64);
        push_str(&mut t, "\nmodule_summary=");
        push_str(&mut t, f.module_summary.as_str());
        push_str(&mut t, "\nsymbols=");
        let j = crate::text::join_strings(&f.symbols, " | ");
        push_str(&mut t, j.as_str());
        push_str(&mut t, "\n---\n");
        assert(t@ =~= t0 + file_summary_text(f.path@, f.lines as nat, f.module_summary@, views(f.symbols@)));
        i = i + 1;
    }
    assert(fs@.take(i as int) =~= fs@);
    t
}

/// One line of the file signature table: path, modification time and
/// signature, separated by tabs.
pub fn signature_line(path: &str, mtime: u64, signature: &str) -> (r: String)
    ensures
        r@ == path@ + "\t"@ + dec(mtime as nat) + "\t"@ + signature@ + "\n"@,
{
    let mut t = owned(path);
    push_str(&mut t, "\t");
    push_dec(&mut t, mtime);
    push_str(&mut t, "\t");
    push_str(&mut t, signature);
    push_str(&mut t, "\n");
    t
}

proof fn lemma_all_symbols_len(ls: Seq<Seq<char>>)
    ensures
        all_symbols(ls).len() <= ls.len(),
    decreases ls.len(),
{
    if ls.len() > 0 {
        lemma_all_symbols_len(ls.drop_last());
    }
}

/// A declaring line's symbol stands in the list of all symbols, right after
/// the symbols of the lines before it.
proof fn lemma_all_symbols_at(ls: Seq<Seq<char>>, i: int)
    requires
        0 <= i < ls.len(),
        declares_symbol(trim_start(ls[i])),
    ensures
        all_symbols(ls.take(i)).len() < all_symbols(ls).len(),
        all_symbols(ls)[all_symbols(ls.take(i)).len() as int] == symbol_of(trim_start(ls[i])),
{
    lemma_all_symbols_grow(ls, i + 1);
    assert(ls.take(i + 1).drop_last() =~= ls.take(i));
    assert(ls.take(i + 1).last() == ls[i]);
    let a = all_symbols(ls.take(i));
    let b = all_symbols(ls.take(i + 1));
    assert(b == a.push(symbol_of(trim_start(ls[i]))));
    assert(all_symbols(ls)[a.len() as int] == all_symbols(ls).take(b.len() as int)[a.len() as int]);
}

/// Every symbol comes from a line that declares a function or a struct.
proof fn lemma_all_symbols_from_lines(ls: Seq<Seq<char>>, j: int)
    requires
        0 <= j < all_symbols(ls).len(),
    ensures
        exists|i: int|
            0 <= i < ls.len() && (has_prefix(trim_start(ls[i]), "pub fn "@) || has_prefix(
                trim_start(ls[i]),
                "fn "@,
            ) || has_prefix(trim_start(ls[i]), "struct "@)) && all_symbols(ls)[j] == symbol_of(
                trim_start(#[trigger] ls[i]),
            ),
    decreases ls.len(),
{
    let d = ls.drop_last();
    let rest = all_symbols(d);
    if j < rest.len() {
        lemma_all_symbols_from_lines(d, j);
        let i = choose|i: int|
            0 <= i < d.len() && (has_prefix(trim_start(d[i]), "pub fn "@) || has_prefix(
                trim_start(d[i]),
                "fn "@,
            ) || has_prefix(trim_start(d[i]), "struct "@)) && rest[j] == symbol_of(trim_start(#[trigger] d[i]));
        assert(d[i] == ls[i]);
    } else {
        assert(ls[ls.len() - 1] == ls.last());
    }
}

/// `s` is the symbol of a line of `ls` that, after leading whitespace,
/// starts with `pub fn `, `fn ` or `struct `.
pub open spec fn comes_from_declaring_line(ls: Seq<Seq<char>>, s: Seq<char>) -> bool {
    exists|i: int|
        0 <= i < ls.len() && (has_prefix(trim_start(ls[i]), "pub fn "@) || has_prefix(trim_start(ls[i]), "fn "@)
            || has_prefix(trim_start(ls[i]), "struct "@)) && s == symbol_of(trim_start(#[trigger] ls[i]))
}

/// The symbols of a file are those of its declaring lines, in order, at
/// most sixteen: a line whose text, after leading whitespace, starts with
/// `pub fn `, `fn ` or `struct ` gives a symbol (what stands before its
/// first `{`, trimmed) whenever it is among the first sixteen lines or the
/// file has fewer than sixteen symbols, and every symbol comes from such a
/// line.
pub proof fn law_declaring_lines_give_symbols(text: Seq<char>)
    ensures
        symbols_of(text).len() <= 16,
        forall|i: int|
            0 <= i < lines(text).len() && (has_prefix(trim_start(lines(text)[i]), "pub fn "@) || has_prefix(
                trim_start(lines(text)[i]),
                "fn "@,
            ) || has_prefix(trim_start(lines(text)[i]), "struct "@)) && (i < 16 || symbols_of(text).len()
                < 16) ==> symbols_of(text).contains(symbol_of(trim_start(#[trigger] lines(text)[i]))),
        forall|j: int|
            0 <= j < symbols_of(text).len() ==> comes_from_declaring_line(lines(text), #[trigger] symbols_of(text)[j]),
{
    let ls = lines(text);
    let all = all_symbols(ls);
    assert forall|i: int|
        0 <= i < ls.len() && (has_prefix(trim_start(ls[i]), "pub fn "@) || has_prefix(trim_start(ls[i]), "fn "@)
            || has_prefix(trim_start(ls[i]), "struct "@)) && (i < 16 || symbols_of(text).len() < 16) implies symbols_of(
        text,
    ).contains(symbol_of(trim_start(#[trigger] ls[i]))) by {
        lemma_all_symbols_at(ls, i);
        let n = all_symbols(ls.take(i)).len() as int;
        lemma_all_symbols_len(ls.take(i));
        if all.len() <= 16 {
            assert(symbols_of(text)[n] == all[n]);
        } else {
            assert(n < 16);
            assert(symbols_of(text)[n] == all.take(16)[n]);
        }
    }
    assert forall|j: int| 0 <= j < symbols_of(text).len() implies comes_from_declaring_line(
        ls,
        #[trigger] symbols_of(text)[j],
    ) by {
        assert(symbols_of(text)[j] == all[j]);
        lemma_all_symbols_from_lines(ls, j);
    }
}

} // verus!

