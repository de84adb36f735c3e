//! Function fingerprints: the shape of each function of a Rust file, their
//! stored table, and the functions whose shape is closest to a given one.
use crate::ranking::{at_most, int_indices, int_keys, order_desc, picked, stable_order_desc};
use crate::session::parsed_u64;
use crate::text::{
    bool_text, chars_of, contains_sub, copy_string, dec, hex, join, lines, owned, push_bool, push_dec,
    push_hex, push_str, split_on, split_str, str_contains, str_eq, str_lines, string_of, trim,
    trim_start, views, vviews,
};
use std::collections::hash_map::DefaultHasher;
use std::hash::{Hash, Hasher};
use vstd::prelude::*;

verus! {

/// The shape of one function.
#[derive(Debug)]
pub struct FunctionFingerprint {
    pub path: String,
    pub name: String,
    pub args: usize,
    pub has_return: bool,
    pub has_result: bool,
    pub has_async: bool,
    pub has_unsafe: bool,
    pub control_score: usize,
    pub shape_hash: String,
}

/// A fingerprint by views.
pub type FpView = (Seq<char>, Seq<char>, nat, bool, bool, bool, bool, nat, Seq<char>);

pub open spec fn fp_view(f: FunctionFingerprint) -> FpView {
    (
        f.path@,
        f.name@,
        f.args as nat,
        f.has_return,
        f.has_result,
        f.has_async,
        f.has_unsafe,
        f.control_score as nat,
        f.shape_hash@,
    )
}

pub open spec fn fp_views(v: Seq<FunctionFingerprint>) -> Seq<FpView> {
    Seq::new(v.len(), |i: int| fp_view(v[i]))
}

proof fn lemma_split_str_nonempty(s: Seq<char>, p: Seq<char>)
    ensures
        split_str(s, p).len() >= 1,
{
    reveal(split_str);
    if p.len() > 0 {
        match crate::text::first_occurrence(s, p) {
            Some(i) => {
                if 0 <= i && i + p.len() <= s.len() {
                    assert((seq![s.take(i)] + split_str(s.skip(i + p.len()), p)).len() >= 1);
                }
            },
            None => {},
        }
    }
}

/// The number of parameters of a signature: the non-blank pieces at commas
/// of what stands between its first `(` and the following `)`.
pub open spec fn arg_count(sig: Seq<char>) -> nat {
    let ps = split_on(sig, '(');
    if ps.len() >= 2 {
        let inner = split_on(ps[1], ')')[0];
        split_on(inner, ',').filter(|p: Seq<char>| trim(p).len() > 0).len()
    } else {
        0
    }
}

/// How many times `k` occurs in `body`, counted from the left without overlap.
pub open spec fn occurrence_count(body: Seq<char>, k: Seq<char>) -> nat {
    (split_str(body, k).len() - 1) as nat
}

/// The control score of a body: the occurrences of the control keywords.
pub open spec fn control_of(body: Seq<char>) -> nat {
    occurrence_count(body, "if "@) + occurrence_count(body, "match "@) + occurrence_count(
        body,
        "for "@,
    ) + occurrence_count(body, "while "@) + occurrence_count(body, "loop "@)
}

/// The shape of a function from its signature and the first lines of its
/// body: parameters, return, `Result`, `async`, `unsafe`, control score.
pub open spec fn shape_of(sig: Seq<char>, body: Seq<char>) -> (nat, bool, bool, bool, bool, nat) {
    (
        arg_count(sig),
        contains_sub(sig, "->"@),
        contains_sub(sig, "Result<"@) || contains_sub(body, "Result<"@),
        contains_sub(sig, "async fn"@),
        contains_sub(sig, "unsafe fn"@) || contains_sub(body, "unsafe {"@),
        control_of(body),
    )
}

/// What `DefaultHasher::new()` gives for a `String`, a function of the
/// text alone for a given build of the standard library.
pub uninterp spec fn default_digest(s: Seq<char>) -> u64;

/// Hashes a `String` with a fresh `DefaultHasher`.  Its documentation makes
/// every hasher made by `new` the same, so the digest depends on the text
/// alone (for one build of the standard library).
#[verifier::external_body]
fn default_hash(s: &String) -> (r: u64)
    ensures
        r == default_digest(s@),
{
    let mut h = DefaultHasher::new();
    s.hash(&mut h);
    h.finish()
}

/// What `DefaultHasher::new()` gives for a byte vector, a function of the
/// bytes alone for a given build of the standard library.
pub uninterp spec fn default_bytes_digest(b: Seq<u8>) -> u64;

/// Hashes a byte vector with a fresh `DefaultHasher` (as `Vec<u8>` hashes:
/// its length, then its bytes).
#[verifier::external_body]
fn default_hash_bytes(b: &Vec<u8>) -> (r: u64)
    ensures
        r == default_bytes_digest(b@),
{
    let mut h = DefaultHasher::new();
    b.hash(&mut h);
    h.finish()
}

/// The signature of a file's content: the lowercase hexadecimal digest of
/// its bytes.
pub fn file_signature(content: &Vec<u8>) -> (r: String)
    ensures
        r@ == hex(default_bytes_digest(content@) as nat),
{
    let d = default_hash_bytes(content);
    let mut s = String::new();
    push_hex(&mut s, d);
    s
}

/// The text a shape hash digests: `name:args:return:result:control`.
pub open spec fn shape_text(name: Seq<char>, args: nat, ret: bool, res: bool, control: nat) -> Seq<char> {
    name + ":"@ + dec(args) + ":"@ + bool_text(ret) + ":"@ + bool_text(res) + ":"@ + dec(control)
}

/// The shape hash: the digest of the shape text in lowercase hexadecimal.
pub open spec fn shape_hash_of(name: Seq<char>, args: nat, ret: bool, res: bool, control: nat) -> Seq<char> {
    hex(default_digest(shape_text(name, args, ret, res, control)) as nat)
}

/// The hash of a function's shape.
pub fn hash_shape(name: &str, args: usize, has_return: bool, has_result: bool, control_score: usize) -> (r: String)
    ensures
        r@ == shape_hash_of(name@, args as nat, has_return, has_result, control_score as nat),
{
    let mut t = owned(name);
    push_str(&mut t, ":");
    push_dec(&mut t, args as u64);
    push_str(&mut t, ":");
    push_bool(&mut t, has_return);
    push_str(&mut t, ":");
    push_bool(&mut t, has_result);
    push_str(&mut t, ":");
    push_dec(&mut t, control_score as u64);
    let d = default_hash(&t);
    let mut out = String::new();
    push_hex(&mut out, d);
    assert(out@ =~= hex(d as nat));
    out
}

/// A line that opens a function (after leading whitespace).
pub open spec fn opens_fn(t: Seq<char>) -> bool {
    crate::text::has_prefix(t, "fn "@) || crate::text::has_prefix(t, "pub fn "@) || crate::text::has_prefix(
        t,
        "pub async fn "@,
    ) || crate::text::has_prefix(t, "async fn "@) || crate::text::has_prefix(t, "pub unsafe fn "@)
        || crate::text::has_prefix(t, "unsafe fn "@)
}

/// The name of the function a signature opens: what stands between its
/// first `fn ` and the next `(`, trimmed (`unknown` without `fn `).
pub open spec fn fn_name_of(sig: Seq<char>) -> Seq<char> {
    let ps = split_str(sig, "fn "@);
    if ps.len() >= 2 {
        trim(split_on(ps[1], '(')[0])
    } else {
        trim("unknown"@)
    }
}

/// The lines `i..i+40` of a file, joined by newlines.
pub open spec fn body_preview(ls: Seq<Seq<char>>, i: int) -> Seq<char> {
    let end = if i + 40 <= ls.len() {
        i + 40
    } else {
        ls.len() as int
    };
    join(ls.subrange(i, end), "\n"@)
}

/// The fingerprint of line `i` of a file, if that line opens a function
/// with a name.
pub open spec fn fingerprint_at(path: Seq<char>, ls: Seq<Seq<char>>, i: int) -> Option<FpView> {
    let sig = trim_start(ls[i]);
    let name = fn_name_of(sig);
    if !opens_fn(sig) || name.len() == 0 {
        None
    } else {
        let (a, ret, res, asy, uns, cs) = shape_of(sig, body_preview(ls, i));
        Some((path, name, a, ret, res, asy, uns, cs, shape_hash_of(name, a, ret, res, cs)))
    }
}

/// The fingerprints of the first `n` lines of a file, in line order.
pub open spec fn fingerprints_upto(path: Seq<char>, ls: Seq<Seq<char>>, n: nat) -> Seq<FpView>
    decreases n,
{
    if n == 0 {
        Seq::empty()
    } else {
        let rest = fingerprints_upto(path, ls, (n - 1) as nat);
        match fingerprint_at(path, ls, n - 1) {
            Some(f) => rest.push(f),
            None => rest,
        }
    }
}

/// The fingerprints of a file's functions.
pub open spec fn fingerprints_of(path: Seq<char>, content: Seq<char>) -> Seq<FpView> {
    fingerprints_upto(path, lines(content), lines(content).len())
}

pub(crate) fn count_matches(body: &Vec<char>, k: &str) -> (r: usize)
    requires
        k@.len() > 0,
    ensures
        r == occurrence_count(body@, k@),
{
    let kv = chars_of(k);
    let ps = crate::text::split_text(body, &kv);
    proof {
        lemma_split_str_nonempty(body@, k@);
    }
    ps.len() - 1
}

fn arg_count_of(sig: &Vec<char>) -> (r: usize)
    ensures
        r == arg_count(sig@),
{
    let ps = crate::text::split_char(sig, '(');
    if ps.len() < 2 {
        return 0;
    }
    let inner_ps = crate::text::split_char(&ps[1], ')');
    proof {
        crate::text::lemma_pieces_len(ps@[1]@, crate::text::is_char(')'));
    }
    let inner = &inner_ps[0];
    let parts = crate::text::split_char(inner, ',');
    let ghost pv = vviews(parts@);
    let ghost pred = |p: Seq<char>| trim(p).len() > 0;
    let mut n: usize = 0;
    let mut i: usize = 0;
    assert(pv.take(0).filter(pred) =~= Seq::<Seq<char>>::empty()) by {
        reveal_with_fuel(Seq::filter, 1);
    }
    while i < parts.len()
        invariant
            i <= parts@.len(),
            pv == vviews(parts@),
            pred == (|p: Seq<char>| trim(p).len() > 0),
            n == pv.take(i as int).filter(pred).len(),
            n <= i,
        decreases parts.len() - i,
    {
        proof {
            assert(pv.take(i + 1) =~= pv.take(i as int).push(pv[i as int]));
            pv.take(i as int).lemma_filter_push(pv[i as int], pred);
        }
        let t = crate::text::trim_chars(&parts[i]);
        if t.len() > 0 {
            n = n + 1;
        }
        i = i + 1;
    }
    assert(pv.take(i as int) =~= pv);
    n
}

/// The shape of a function from its signature and body preview.
fn shape(sig: &Vec<char>, body: &Vec<char>) -> (r: (usize, bool, bool, bool, bool, usize))
    requires
        control_of(body@) <= usize::MAX,
    ensures
        (r.0 as nat, r.1, r.2, r.3, r.4, r.5 as nat) == shape_of(sig@, body@),
{
    let s = string_of(sig);
    let b = string_of(body);
    let args = arg_count_of(sig);
    let has_return = str_contains(s.as_str(), "->");
    let has_result = str_contains(s.as_str(), "Result<") || str_contains(b.as_str(), "Result<");
    let has_async = str_contains(s.as_str(), "async fn");
    let has_unsafe = str_contains(s.as_str(), "unsafe fn") || str_contains(b.as_str(), "unsafe {");
    proof {
        reveal_strlit("if ");
        reveal_strlit("match ");
        reveal_strlit("for ");
        reveal_strlit("while ");
        reveal_strlit("loop ");
    }
    let c1 = count_matches(body, "if ");
    let c2 = count_matches(body, "match ");
    let c3 = count_matches(body, "for ");
    let c4 = count_matches(body, "while ");
    let c5 = count_matches(body, "loop ");
    (args, has_return, has_result, has_async, has_unsafe, c1 + c2 + c3 + c4 + c5)
}

fn opens_fn_chars(t: &Vec<char>) -> (r: bool)
    ensures
        r == opens_fn(t@),
{
    crate::text::starts_with(t, &chars_of("fn ")) || crate::text::starts_with(t, &chars_of("pub fn "))
        || crate::text::starts_with(t, &chars_of("pub async fn ")) || crate::text::starts_with(
        t,
        &chars_of("async fn "),
    ) || crate::text::starts_with(t, &chars_of("pub unsafe fn ")) || crate::text::starts_with(
        t,
        &chars_of("unsafe fn "),
    )
}

fn name_of(sig: &Vec<char>) -> (r: Vec<char>)
    ensures
        r@ == fn_name_of(sig@),
{
    proof {
        reveal_strlit("fn ");
    }
    let ps = crate::text::split_text(sig, &chars_of("fn "));
    if ps.len() >= 2 {
        let qs = crate::text::split_char(&ps[1], '(');
        proof {
            crate::text::lemma_pieces_len(ps@[1]@, crate::text::is_char('('));
        }
        crate::text::trim_chars(&qs[0])
    } else {
        crate::text::trim_chars(&chars_of("unknown"))
    }
}

fn preview(ls: &Vec<Vec<char>>, i: usize) -> (r: Vec<char>)
    requires
        i < ls@.len(),
    ensures
        r@ == body_preview(vviews(ls@), i as int),
{
    let end: usize = if ls.len() - i >= 40 {
        i + 40
    } else {
        ls.len()
    };
    let mut parts: Vec<String> = Vec::new();
    let mut k = i;
    while k < end
        invariant
            i <= k <= end <= ls@.len(),
            views(parts@) == vviews(ls@).subrange(i as int, k as int),
        decreases end - k,
    {
        let ghost b = views(parts@);
        parts.push(string_of(&ls[k]));
        assert(views(parts@) =~= b.push(vviews(ls@)[k as int]));
        k = k + 1;
        assert(views(parts@) =~= vviews(ls@).subrange(i as int, k as int));
    }
    let j = crate::text::join_strings(&parts, "\n");
    chars_of(j.as_str())
}

/// The fingerprints of the functions of a Rust file, in line order.
pub fn extract_from_file(path: &str, content: &str) -> (r: Vec<FunctionFingerprint>)
    requires
        forall|i: int|
            0 <= i < lines(content@).len() ==> control_of(
                #[trigger] body_preview(lines(content@), i),
            ) <= usize::MAX,
    ensures
        fp_views(r@) == fingerprints_of(path@, content@),
{
    let ls = str_lines(content);
    let ghost lv = lines(content@);
    let mut out: Vec<FunctionFingerprint> = Vec::new();
    let mut i: usize = 0;
    while i < ls.len()
        invariant
            i <= ls@.len(),
            vviews(ls@) == lv,
            lv == lines(content@),
            forall|i: int| 0 <= i < lv.len() ==> control_of(#[trigger] body_preview(lv, i)) <= usize::MAX,
            fp_views(out@) == fingerprints_upto(path@, lv, i as nat),
        decreases ls.len() - i,
    {
        let t = crate::text::trim_start_chars(&ls[i]);
        let name = name_of(&t);
        assert(t@ == trim_start(lv[i as int]));
        if opens_fn_chars(&t) && name.len() > 0 {
            let body = preview(&ls, i);
            assert(control_of(body_preview(lv, i as int)) <= usize::MAX);
            let (a, ret, res, asy, uns, cs) = shape(&t, &body);
            let name_s = string_of(&name);
            let h = hash_shape(name_s.as_str(), a, ret, res, cs);
            let f = FunctionFingerprint {
                path: owned(path),
                name: name_s,
                args: a,
                has_return: ret,
                has_result: res,
                has_async: asy,
                has_unsafe: uns,
                control_score: cs,
                shape_hash: h,
            };
            let ghost b = fp_views(out@);
            out.push(f);
            assert(fp_views(out@) =~= b.push(fp_view(f)));
        }
        i = i + 1;
    }
    out
}

fn copy_fp(f: &FunctionFingerprint) -> (r: FunctionFingerprint)
    ensures
        fp_view(r) == fp_view(*f),
{
    FunctionFingerprint {
        path: copy_string(&f.path),
        name: copy_string(&f.name),
        args: f.args,
        has_return: f.has_return,
        has_result: f.has_result,
        has_async: f.has_async,
        has_unsafe: f.has_unsafe,
        control_score: f.control_score,
        shape_hash: copy_string(&f.shape_hash),
    }
}

/// One stored row: the nine tab-separated fields of a fingerprint.
pub open spec fn row_text(f: FpView) -> Seq<char> {
    f.0 + "\t"@ + f.1 + "\t"@ + dec(f.2) + "\t"@ + bool_text(f.3) + "\t"@ + bool_text(f.4) + "\t"@
        + bool_text(f.5) + "\t"@ + bool_text(f.6) + "\t"@ + dec(f.7) + "\t"@ + f.8 + "\n"@
}

/// The stored table of fingerprints: one row per fingerprint.
pub open spec fn index_text_of(fs: Seq<FpView>) -> Seq<char>
    decreases fs.len(),
{
    if fs.len() == 0 {
        Seq::empty()
    } else {
        index_text_of(fs.drop_last()) + row_text(fs.last())
    }
}

fn row_head(f: &FunctionFingerprint) -> (r: String)
    ensures
        r@ == f.path@ + "\t"@ + f.name@ + "\t"@ + dec(f.args as nat) + "\t"@,
{
    let mut t = copy_string(&f.path);
    push_str(&mut t, "\t");
    push_str(&mut t, f.name.as_str());
    push_str(&mut t, "\t");
    push_dec(&mut t, f.args as u64);
    push_str(&mut t, "\t");
    t
}

fn row_flags(f: &FunctionFingerprint) -> (r: String)
    ensures
        r@ == bool_text(f.has_return) + "\t"@ + bool_text(f.has_result) + "\t"@ + bool_text(f.has_async)
            + "\t"@ + bool_text(f.has_unsafe) + "\t"@,
{
    let mut t = String::new();
    push_bool(&mut t, f.has_return);
    push_str(&mut t, "\t");
    push_bool(&mut t, f.has_result);
    push_str(&mut t, "\t");
    push_bool(&mut t, f.has_async);
    push_str(&mut t, "\t");
    push_bool(&mut t, f.has_unsafe);
    push_str(&mut t, "\t");
    assert(t@ =~= bool_text(f.has_return) + "\t"@ + bool_text(f.has_result) + "\t"@ + bool_text(
        f.has_async,
    ) + "\t"@ + bool_text(f.has_unsafe) + "\t"@);
    t
}

#[verifier::spinoff_prover]
fn push_row(t: &mut String, f: &FunctionFingerprint)
    ensures
        final(t)@ == old(t)@ + row_text(fp_view(*f)),
{
    let h = row_head(f);
    let g = row_flags(f);
    let ghost t0 = t@;
    let mut tail = h;
    push_str(&mut tail, g.as_str());
    push_dec(&mut tail, f.control_score as u64);
    push_str(&mut tail, "\t");
    push_str(&mut tail, f.shape_hash.as_str());
    push_str(&mut tail, "\n");
    push_str(t, tail.as_str());
    assert(row_text(fp_view(*f)) =~= h@ + g@ + dec(f.control_score as nat) + "\t"@ + f.shape_hash@ + "\n"@);
}

/// The stored table of a list of fingerprints.
pub fn index_text(idx: &Vec<FunctionFingerprint>) -> (r: String)
    ensures
        r@ == index_text_of(fp_views(idx@)),
{
    let mut t = String::new();
    let mut i: usize = 0;
    while i < idx.len()
        invariant
            i <= idx@.len(),
            t@ == index_text_of(fp_views(idx@).take(i as int)),
        decreases idx.len() - i,
    {
        assert(fp_views(idx@).take(i + 1).drop_last() =~= fp_views(idx@).take(i as int));
        push_row(&mut t, &idx[i]);
        i = i + 1;
        assert(t@ =~= index_text_of(fp_views(idx@).take(i as int)));
    }
    assert(fp_views(idx@).take(i as int) =~= fp_views(idx@));
    t
}

/// A stored count: its value when it parses as a `usize`, else 0.
pub open spec fn count_or_zero(s: Seq<char>) -> nat {
    match parsed_u64(s) {
        Some(v) => if v <= usize::MAX {
            v as nat
        } else {
            0
        },
        None => 0,
    }
}

/// The fingerprints of a stored table: its rows of exactly nine fields.
pub open spec fn stored_rows(ls: Seq<Seq<char>>) -> Seq<FpView>
    decreases ls.len(),
{
    if ls.len() == 0 {
        Seq::empty()
    } else {
        let rest = stored_rows(ls.drop_last());
        let c = split_on(ls.last(), '\t');
        if c.len() == 9 {
            rest.push(
                (
                    c[0],
                    c[1],
                    count_or_zero(c[2]),
                    c[3] == "true"@,
                    c[4] == "true"@,
                    c[5] == "true"@,
                    c[6] == "true"@,
                    count_or_zero(c[7]),
                    c[8],
                ),
            )
        } else {
            rest
        }
    }
}

fn count_field(s: &Vec<char>) -> (r: usize)
    ensures
        r == count_or_zero(s@),
{
    match crate::session::parse_u64(s) {
        Some(v) => if v <= usize::MAX as u64 {
            v as usize
        } else {
            0
        },
        None => 0,
    }
}

fn is_true(s: &Vec<char>) -> (r: bool)
    ensures
        r == (s@ == "true"@),
{
    let t = string_of(s);
    str_eq(t.as_str(), "true")
}

/// Reads a stored table of fingerprints.
pub fn load_index(text: &str) -> (r: Vec<FunctionFingerprint>)
    ensures
        fp_views(r@) == stored_rows(lines(text@)),
{
    let ls = str_lines(text);
    let ghost lv = lines(text@);
    let mut out: Vec<FunctionFingerprint> = Vec::new();
    let mut i: usize = 0;
    while i < ls.len()
        invariant
            i <= ls@.len(),
            vviews(ls@) == lv,
            fp_views(out@) == stored_rows(lv.take(i as int)),
        decreases ls.len() - i,
    {
        assert(lv.take(i + 1).drop_last() =~= lv.take(i as int));
        assert(lv.take(i + 1).last() == ls@[i as int]@);
        let c = crate::text::split_char(&ls[i], '\t');
        if c.len() == 9 {
            let f = FunctionFingerprint {
                path: string_of(&c[0]),
                name: string_of(&c[1]),
                args: count_field(&c[2]),
                has_return: is_true(&c[3]),
                has_result: is_true(&c[4]),
                has_async: is_true(&c[5]),
                has_unsafe: is_true(&c[6]),
                control_score: count_field(&c[7]),
                shape_hash: string_of(&c[8]),
            };
            let ghost b = fp_views(out@);
            out.push(f);
            assert(fp_views(out@) =~= b.push(fp_view(f)));
        }
        i = i + 1;
    }
    assert(lv.take(i as int) =~= lv);
    out
}

// ---------------------------------------------------------------------------
// Reading back a stored table
// ---------------------------------------------------------------------------

/// A text field that the table keeps as written: no tab, no line break, no
/// carriage return.
pub open spec fn table_field(s: Seq<char>) -> bool {
    crate::text::free_of(s, '\t') && crate::text::no_nl(s) && crate::text::no_cr(s)
}

/// A fingerprint that the table keeps as written.
pub open spec fn storable_fp(f: FpView) -> bool {
    table_field(f.0) && table_field(f.1) && table_field(f.8) && f.2 <= usize::MAX && f.7 <= usize::MAX
}

/// The nine fields of a row, as written.
pub open spec fn row_fields(f: FpView) -> Seq<Seq<char>> {
    seq![f.0, f.1, dec(f.2), bool_text(f.3), bool_text(f.4), bool_text(f.5), bool_text(f.6), dec(f.7), f.8]
}

proof fn lemma_dec_field(n: nat)
    ensures
        dec(n).len() > 0,
        crate::session::all_digits(dec(n)),
        crate::session::digits_value(dec(n)) == n,
        table_field(dec(n)),
    decreases n,
{
    if n >= 10 {
        lemma_dec_field(n / 10);
        let d = dec(n / 10);
        let c = crate::text::digit(n % 10);
        assert(dec(n) == d.push(c));
        assert(dec(n).drop_last() =~= d);
        assert(dec(n).last() == c);
        assert(c as u32 == n % 10 + 48);
        assert(crate::session::digits_value(dec(n)) == crate::session::digits_value(d) * 10 + ((c as u32)
            - 48) as nat);
        assert(n == (n / 10) * 10 + n % 10);
    } else {
        assert(dec(n) == seq![crate::text::digit(n)]);
        assert(dec(n).drop_last() =~= Seq::<char>::empty());
        assert(dec(n).last() == crate::text::digit(n));
        assert(crate::text::digit(n) as u32 == n + 48);
        assert(crate::session::digits_value(Seq::<char>::empty()) == 0);
    }
}

/// The decimal text of a 64-bit count parses back to it.
pub(crate) proof fn lemma_dec_parses(n: nat)
    requires
        n <= u64::MAX,
    ensures
        dec(n).len() > 0,
        dec(n)[0] != '+',
        parsed_u64(dec(n)) == Some(n as u64),
{
    lemma_dec_field(n);
    assert('0' <= dec(n)[0] <= '9');
}

proof fn lemma_count_dec(n: nat)
    requires
        n <= usize::MAX,
    ensures
        count_or_zero(dec(n)) == n,
{
    lemma_dec_field(n);
    assert('0' <= dec(n)[0] <= '9');
}

proof fn lemma_bool_field(b: bool)
    ensures
        table_field(bool_text(b)),
        (bool_text(b) == "true"@) == b,
{
    reveal_strlit("true");
    reveal_strlit("false");
    if !b {
        assert(bool_text(b).len() != "true"@.len());
    }
}

/// The pieces of a tab followed by a tab-free text.
proof fn lemma_pieces_tab_then(last: Seq<char>)
    requires
        crate::text::free_of(last, '\t'),
    ensures
        split_on(seq!['\t'] + last, '\t') == seq![Seq::<char>::empty(), last],
{
    let sep = crate::text::is_char('\t');
    let tab = seq!['\t'];
    crate::text::lemma_pieces_none(last, sep);
    assert(crate::text::pieces(Seq::<char>::empty(), sep) == seq![Seq::<char>::empty()]);
    assert(tab.drop_last() =~= Seq::<char>::empty());
    assert(crate::text::pieces(tab, sep) =~= seq![Seq::<char>::empty(), Seq::<char>::empty()]);
    crate::text::lemma_pieces_append(tab, last, sep);
    assert(seq![Seq::<char>::empty(), Seq::<char>::empty()].last() + last =~= last);
    assert(crate::text::pieces(tab + last, sep) =~= seq![Seq::<char>::empty(), last]);
}

/// Splitting at tabs the tab-join of tab-free parts gives the parts back.
proof fn lemma_split_tab_join(parts: Seq<Seq<char>>)
    requires
        parts.len() > 0,
        forall|k: int| 0 <= k < parts.len() ==> crate::text::free_of(#[trigger] parts[k], '\t'),
    ensures
        split_on(join(parts, seq!['\t']), '\t') == parts,
    decreases parts.len(),
{
    let sep = crate::text::is_char('\t');
    if parts.len() == 1 {
        assert(crate::text::free_of(parts[0], '\t'));
        crate::text::lemma_pieces_none(parts[0], sep);
    } else {
        let init = parts.drop_last();
        let last = parts.last();
        assert(crate::text::free_of(parts[parts.len() - 1], '\t'));
        assert forall|k: int| 0 <= k < init.len() implies crate::text::free_of(#[trigger] init[k], '\t') by {
            assert(init[k] == parts[k]);
        }
        lemma_split_tab_join(init);
        let tab = seq!['\t'];
        let x = join(init, tab);
        lemma_pieces_tab_then(last);
        crate::text::lemma_pieces_len(x, sep);
        crate::text::lemma_pieces_append(x, tab + last, sep);
        assert(join(parts, tab) =~= x + (tab + last));
        let px = crate::text::pieces(x, sep);
        assert(px == init);
        assert(px.last() + Seq::<char>::empty() =~= px.last());
        assert(seq![Seq::<char>::empty(), last].drop_first() =~= seq![last]);
        assert(px.drop_last() + seq![px.last()] =~= px);
        assert(crate::text::pieces(join(parts, tab), sep) =~= init.push(last));
        assert(init.push(last) =~= parts);
    }
}

/// A stored row is its nine fields joined by tabs, then a line break.
proof fn lemma_row(f: FpView)
    requires
        storable_fp(f),
    ensures
        row_text(f) == join(row_fields(f), seq!['\t']) + seq!['\n'],
        table_line(join(row_fields(f), seq!['\t'])),
        split_on(join(row_fields(f), seq!['\t']), '\t') == row_fields(f),
{
    lemma_row_text(f);
    lemma_row_fields_plain(f);
    let fs = row_fields(f);
    lemma_join_table_line(fs);
    assert forall|k: int| 0 <= k < fs.len() implies crate::text::free_of(#[trigger] fs[k], '\t') by {
        assert(table_field(fs[k]));
    }
    lemma_split_tab_join(fs);
}

proof fn lemma_row_text(f: FpView)
    ensures
        row_text(f) == join(row_fields(f), seq!['\t']) + seq!['\n'],
{
    reveal_strlit("\t");
    reveal_strlit("\n");
    let fs = row_fields(f);
    let tab = seq!['\t'];
    lemma_join_nine(fs[0], fs[1], fs[2], fs[3], fs[4], fs[5], fs[6], fs[7], fs[8]);
    assert(fs =~= seq![fs[0], fs[1], fs[2], fs[3], fs[4], fs[5], fs[6], fs[7], fs[8]]);
    assert(row_text(f) =~= join(fs, tab) + seq!['\n']);
}

proof fn lemma_row_fields_plain(f: FpView)
    requires
        storable_fp(f),
    ensures
        forall|k: int| 0 <= k < row_fields(f).len() ==> table_field(#[trigger] row_fields(f)[k]),
{
    lemma_dec_field(f.2);
    lemma_dec_field(f.7);
    lemma_bool_field(f.3);
    lemma_bool_field(f.4);
    lemma_bool_field(f.5);
    lemma_bool_field(f.6);
}

proof fn lemma_join_nine(
    a0: Seq<char>,
    a1: Seq<char>,
    a2: Seq<char>,
    a3: Seq<char>,
    a4: Seq<char>,
    a5: Seq<char>,
    a6: Seq<char>,
    a7: Seq<char>,
    a8: Seq<char>,
)
    ensures
        join(seq![a0, a1, a2, a3, a4, a5, a6, a7, a8], seq!['\t']) == a0 + seq!['\t'] + a1 + seq!['\t']
            + a2 + seq!['\t'] + a3 + seq!['\t'] + a4 + seq!['\t'] + a5 + seq!['\t'] + a6 + seq!['\t']
            + a7 + seq!['\t'] + a8,
{
    let t = seq!['\t'];
    let s1 = seq![a0];
    let s2 = s1.push(a1);
    let s3 = s2.push(a2);
    let s4 = s3.push(a3);
    let s5 = s4.push(a4);
    let s6 = s5.push(a5);
    let s7 = s6.push(a6);
    let s8 = s7.push(a7);
    let s9 = s8.push(a8);
    assert(join(s1, t) == a0);
    assert(s2.drop_last() =~= s1);
    assert(s3.drop_last() =~= s2);
    assert(s4.drop_last() =~= s3);
    assert(s5.drop_last() =~= s4);
    assert(s6.drop_last() =~= s5);
    assert(s7.drop_last() =~= s6);
    assert(s8.drop_last() =~= s7);
    assert(s9.drop_last() =~= s8);
    assert(join(s2, t) == join(s1, t) + t + a1);
    assert(join(s3, t) == join(s2, t) + t + a2);
    assert(join(s4, t) == join(s3, t) + t + a3);
    assert(join(s5, t) == join(s4, t) + t + a4);
    assert(join(s6, t) == join(s5, t) + t + a5);
    assert(join(s7, t) == join(s6, t) + t + a6);
    assert(join(s8, t) == join(s7, t) + t + a7);
    assert(join(s9, t) == join(s8, t) + t + a8);
    assert(s9 =~= seq![a0, a1, a2, a3, a4, a5, a6, a7, a8]);
}

/// A line of the table: no line break and no carriage return.
pub open spec fn table_line(s: Seq<char>) -> bool {
    crate::text::no_nl(s) && crate::text::no_cr(s)
}

proof fn lemma_join_table_line(parts: Seq<Seq<char>>)
    requires
        forall|k: int| 0 <= k < parts.len() ==> table_field(#[trigger] parts[k]),
    ensures
        table_line(join(parts, seq!['\t'])),
    decreases parts.len(),
{
    if parts.len() > 1 {
        let init = parts.drop_last();
        assert forall|k: int| 0 <= k < init.len() implies table_field(#[trigger] init[k]) by {
            assert(init[k] == parts[k]);
        }
        lemma_join_table_line(init);
        let j = join(init, seq!['\t']);
        assert(table_field(parts[parts.len() - 1]));
        crate::text::lemma_clean_concat(j, seq!['\t']);
        crate::text::lemma_clean_concat(j + seq!['\t'], parts.last());
    } else if parts.len() == 1 {
        assert(table_field(parts[0]));
    }
}

/// The line a fingerprint is stored on.
pub open spec fn row_line(f: FpView) -> Seq<char> {
    join(row_fields(f), seq!['\t'])
}

/// The lines of a stored table.
pub open spec fn row_lines(fs: Seq<FpView>) -> Seq<Seq<char>> {
    Seq::new(fs.len(), |i: int| row_line(fs[i]))
}

proof fn lemma_index_lines(fs: Seq<FpView>)
    requires
        forall|i: int| 0 <= i < fs.len() ==> storable_fp(#[trigger] fs[i]),
    ensures
        lines(index_text_of(fs)) == row_lines(fs),
        fs.len() > 0 ==> index_text_of(fs).len() > 0 && index_text_of(fs).last() == '\n',
    decreases fs.len(),
{
    if fs.len() == 0 {
        assert(crate::text::pieces(Seq::<char>::empty(), crate::text::is_char('\n')) == seq![
            Seq::<char>::empty(),
        ]);
        assert(lines(Seq::<char>::empty()) =~= Seq::<Seq<char>>::empty());
        assert(row_lines(fs) =~= Seq::<Seq<char>>::empty());
    } else {
        let init = fs.drop_last();
        let f = fs.last();
        assert forall|i: int| 0 <= i < init.len() implies storable_fp(#[trigger] init[i]) by {
            assert(init[i] == fs[i]);
        }
        lemma_index_lines(init);
        assert(storable_fp(fs[fs.len() - 1]));
        lemma_row(f);
        let body = row_line(f);
        let a = index_text_of(init);
        let r = row_text(f);
        crate::text::lemma_lines_single(body);
        assert(crate::text::strip_cr(body) == body) by {
            if body.len() > 0 {
                assert(body[body.len() - 1] != '\r');
            }
        }
        assert(index_text_of(fs) == a + r);
        if init.len() == 0 {
            assert(a =~= Seq::<char>::empty());
            assert(a + r =~= r);
        } else {
            crate::text::lemma_lines_append(a, r);
        }
        assert(lines(index_text_of(fs)) =~= row_lines(fs));
        assert((a + r).last() == r.last());
    }
}

proof fn lemma_rows_read_back(fs: Seq<FpView>)
    requires
        forall|i: int| 0 <= i < fs.len() ==> storable_fp(#[trigger] fs[i]),
    ensures
        stored_rows(row_lines(fs)) == fs,
    decreases fs.len(),
{
    if fs.len() > 0 {
        let init = fs.drop_last();
        let f = fs.last();
        assert forall|i: int| 0 <= i < init.len() implies storable_fp(#[trigger] init[i]) by {
            assert(init[i] == fs[i]);
        }
        lemma_rows_read_back(init);
        assert(storable_fp(fs[fs.len() - 1]));
        lemma_row(f);
        assert(row_lines(fs).drop_last() =~= row_lines(init));
        lemma_count_dec(f.2);
        lemma_count_dec(f.7);
        lemma_bool_field(f.3);
        lemma_bool_field(f.4);
        lemma_bool_field(f.5);
        lemma_bool_field(f.6);
        let c = split_on(row_lines(fs).last(), '\t');
        assert(c == row_fields(f));
        assert(init.push(f) =~= fs);
    } else {
        assert(row_lines(fs) =~= Seq::<Seq<char>>::empty());
    }
}

/// Reading back a stored table of fingerprints gives the fingerprints, in
/// order, when their texts hold no tab or line break and their counts fit
/// in a `usize`.
pub proof fn law_index_roundtrip(fs: Seq<FpView>)
    requires
        forall|i: int| 0 <= i < fs.len() ==> storable_fp(#[trigger] fs[i]),
    ensures
        stored_rows(lines(index_text_of(fs))) == fs,
{
    lemma_index_lines(fs);
    lemma_rows_read_back(fs);
}

pub open spec fn abs_diff(a: nat, b: nat) -> nat {
    if a >= b {
        (a - b) as nat
    } else {
        (b - a) as nat
    }
}

/// How far apart two shapes are: the differences of their parameter counts
/// and control scores, plus 2 for a different return, 3 for a different
/// `Result`, 2 for a different `async` and 4 for a different `unsafe`.
pub open spec fn distance_of(a: FpView, b: FpView) -> nat {
    abs_diff(a.2, b.2) + abs_diff(a.7, b.7) + (if a.3 != b.3 {
        2nat
    } else {
        0nat
    }) + (if a.4 != b.4 {
        3nat
    } else {
        0nat
    }) + (if a.5 != b.5 {
        2nat
    } else {
        0nat
    }) + (if a.6 != b.6 {
        4nat
    } else {
        0nat
    })
}

/// The distance between two fingerprints.
pub fn distance(a: &FunctionFingerprint, b: &FunctionFingerprint) -> (r: usize)
    requires
        distance_of(fp_view(*a), fp_view(*b)) <= usize::MAX,
    ensures
        r == distance_of(fp_view(*a), fp_view(*b)),
{
    let mut d: usize = if a.args >= b.args {
        a.args - b.args
    } else {
        b.args - a.args
    };
    d = d + if a.control_score >= b.control_score {
        a.control_score - b.control_score
    } else {
        b.control_score - a.control_score
    };
    if a.has_return != b.has_return {
        d = d + 2;
    }
    if a.has_result != b.has_result {
        d = d + 3;
    }
    if a.has_async != b.has_async {
        d = d + 2;
    }
    if a.has_unsafe != b.has_unsafe {
        d = d + 4;
    }
    d
}

/// The first fingerprint with the given name.
pub open spec fn first_named(idx: Seq<FpView>, name: Seq<char>) -> Option<FpView>
    decreases idx.len(),
{
    if idx.len() == 0 {
        None
    } else {
        match first_named(idx.drop_last(), name) {
            Some(f) => Some(f),
            None => if idx.last().1 == name {
                Some(idx.last())
            } else {
                None
            },
        }
    }
}

/// The fingerprints with another name, in index order.
pub open spec fn others_of(idx: Seq<FpView>, name: Seq<char>) -> Seq<FpView> {
    idx.filter(|f: FpView| f.1 != name)
}

/// The distances to `t`, negated: ranking them by non-increasing key ranks
/// the fingerprints from the closest.
pub open spec fn closeness(t: FpView, c: Seq<FpView>) -> Seq<int> {
    Seq::new(c.len(), |i: int| -(distance_of(t, c[i]) as int))
}

/// The `n` fingerprints closest in shape to the first one named `name`
/// (none when no fingerprint has that name), each with its distance, from
/// the closest, ties in index order.
pub open spec fn similar_of(idx: Seq<FpView>, name: Seq<char>, n: nat) -> Seq<(FpView, nat)> {
    match first_named(idx, name) {
        None => Seq::empty(),
        Some(t) => {
            let c = others_of(idx, name);
            at_most(
                picked(Seq::new(c.len(), |i: int| (c[i], distance_of(t, c[i]))), order_desc(closeness(t, c))),
                n,
            )
        },
    }
}

pub open spec fn scored_views(v: Seq<(FunctionFingerprint, usize)>) -> Seq<(FpView, nat)> {
    Seq::new(v.len(), |i: int| (fp_view(v[i].0), v[i].1 as nat))
}

/// The distances to the target fit in a `usize`.
pub open spec fn distances_fit(idx: Seq<FpView>, name: Seq<char>) -> bool {
    match first_named(idx, name) {
        None => true,
        Some(t) => forall|i: int|
            0 <= i < others_of(idx, name).len() ==> distance_of(t, #[trigger] others_of(idx, name)[i])
                <= usize::MAX,
    }
}

proof fn lemma_first_named_found(idx: Seq<FpView>, name: Seq<char>, k: int)
    requires
        0 <= k < idx.len(),
        idx[k].1 == name,
        forall|j: int| 0 <= j < k ==> (#[trigger] idx[j]).1 != name,
    ensures
        first_named(idx, name) == Some(idx[k]),
    decreases idx.len(),
{
    if k < idx.len() - 1 {
        lemma_first_named_found(idx.drop_last(), name, k);
    } else {
        lemma_first_named_absent(idx.drop_last(), name);
    }
}

proof fn lemma_first_named_absent(idx: Seq<FpView>, name: Seq<char>)
    requires
        forall|j: int| 0 <= j < idx.len() ==> (#[trigger] idx[j]).1 != name,
    ensures
        first_named(idx, name) is None,
    decreases idx.len(),
{
    if idx.len() > 0 {
        lemma_first_named_absent(idx.drop_last(), name);
    }
}

/// The functions of the index whose shape is closest to the first function
/// named `name`, at most `top_n`, each with its distance.
pub fn similar_functions(index: &Vec<FunctionFingerprint>, name: &str, top_n: usize) -> (r: Vec<(FunctionFingerprint, usize)>)
    requires
        distances_fit(fp_views(index@), name@),
    ensures
        scored_views(r@) == similar_of(fp_views(index@), name@, top_n as nat),
{
    let ghost iv = fp_views(index@);
    let mut k: usize = 0;
    let mut found = false;
    while k < index.len() && !found
        invariant
            k <= index@.len(),
            iv == fp_views(index@),
            found ==> k < index@.len() && iv[k as int].1 == name@,
            forall|j: int| 0 <= j < k ==> (#[trigger] iv[j]).1 != name@,
        decreases index.len() - k + (if found {
            0int
        } else {
            1int
        }),
    {
        if str_eq(index[k].name.as_str(), name) {
            found = true;
        } else {
            k = k + 1;
        }
    }
    if k == index.len() {
        proof {
            lemma_first_named_absent(iv, name@);
        }
        let r: Vec<(FunctionFingerprint, usize)> = Vec::new();
        assert(scored_views(r@) =~= similar_of(iv, name@, top_n as nat));
        return r;
    }
    proof {
        lemma_first_named_found(iv, name@, k as int);
    }
    let target = copy_fp(&index[k]);
    let ghost t = fp_view(target);
    let ghost pred = |f: FpView| f.1 != name@;
    let mut cands: Vec<FunctionFingerprint> = Vec::new();
    let mut dists: Vec<usize> = Vec::new();
    let mut keys: Vec<i128> = Vec::new();
    let mut i: usize = 0;
    assert(iv.take(0).filter(pred) =~= Seq::<FpView>::empty()) by {
        reveal_with_fuel(Seq::filter, 1);
    }
    while i < index.len()
        invariant
            i <= index@.len(),
            iv == fp_views(index@),
            pred == (|f: FpView| f.1 != name@),
            first_named(iv, name@) == Some(t),
            t == fp_view(target),
            distances_fit(iv, name@),
            fp_views(cands@) == iv.take(i as int).filter(pred),
            dists@.len() == cands@.len(),
            forall|j: int| 0 <= j < dists@.len() ==> #[trigger] dists@[j] == distance_of(t, fp_views(cands@)[j]),
            int_keys(keys@) == closeness(t, fp_views(cands@)),
        decreases index.len() - i,
    {
        proof {
            assert(iv.take(i + 1) =~= iv.take(i as int).push(iv[i as int]));
            iv.take(i as int).lemma_filter_push(iv[i as int], pred);
        }
        if !str_eq(index[i].name.as_str(), name) {
            let ghost before = fp_views(cands@);
            proof {
                // the candidate is one of the fingerprints with another name
                let o = others_of(iv, name@);
                assert(iv.filter(pred) == o);
                assert(iv =~= iv.take(i as int).push(iv[i as int]) + iv.skip(i + 1));
                Seq::filter_distributes_over_add(iv.take(i as int).push(iv[i as int]), iv.skip(i + 1), pred);
                assert(o[before.len() as int] == iv[i as int]);
            }
            let d = distance(&target, &index[i]);
            let c = copy_fp(&index[i]);
            cands.push(c);
            dists.push(d);
            let ghost kb = keys@;
            keys.push(0i128 - (d as i128));
            assert(fp_views(cands@) =~= before.push(fp_view(c)));
            assert(int_keys(keys@) =~= int_keys(kb).push(-(d as int)));
            assert(closeness(t, before.push(fp_view(c))) =~= closeness(t, before).push(
                -(distance_of(t, fp_view(c)) as int),
            ));
        }
        i = i + 1;
    }
    assert(iv.take(i as int) =~= iv);
    let ghost c = fp_views(cands@);
    let ghost pairs = Seq::new(c.len(), |j: int| (c[j], distance_of(t, c[j])));
    let order = stable_order_desc(&keys);
    proof {
        crate::ranking::lemma_order_first(int_keys(keys@), keys@.len());
    }
    let ghost o = int_indices(order@);
    let mut out: Vec<(FunctionFingerprint, usize)> = Vec::new();
    let mut m: usize = 0;
    while m < order.len() && m < top_n
        invariant
            m <= order@.len(),
            m <= top_n,
            o == int_indices(order@),
            o == order_desc(closeness(t, c)),
            c == fp_views(cands@),
            dists@.len() == cands@.len(),
            forall|j: int| 0 <= j < dists@.len() ==> #[trigger] dists@[j] == distance_of(t, c[j]),
            pairs == Seq::new(c.len(), |j: int| (c[j], distance_of(t, c[j]))),
            crate::ranking::is_index_permutation(o, cands@.len()),
            scored_views(out@) == picked(pairs, o).take(m as int),
        decreases order.len() - m,
    {
        assert(o[m as int] < cands@.len());
        let j = order[m];
        let f = copy_fp(&cands[j]);
        let d = dists[j];
        let ghost b = scored_views(out@);
        out.push((f, d));
        assert(scored_views(out@) =~= b.push((fp_view(f), d as nat)));
        assert(picked(pairs, o).take(m + 1) =~= picked(pairs, o).take(m as int).push(picked(pairs, o)[m as int]));
        m = m + 1;
    }
    proof {
        if picked(pairs, o).len() <= top_n {
            assert(picked(pairs, o).take(m as int) =~= picked(pairs, o));
        }
    }
    out
}

/// `b` with its `args` set to `n`.
pub open spec fn with_args(b: FpView, n: nat) -> FpView {
    (b.0, b.1, n, b.3, b.4, b.5, b.6, b.7, b.8)
}

/// `b` with its control score set to `n`.
pub open spec fn with_control(b: FpView, n: nat) -> FpView {
    (b.0, b.1, b.2, b.3, b.4, b.5, b.6, n, b.8)
}

/// `b` with its flags (return, result, async, unsafe) set as given.
pub open spec fn with_flags(b: FpView, ret: bool, res: bool, asy: bool, uns: bool) -> FpView {
    (b.0, b.1, b.2, ret, res, asy, uns, b.7, b.8)
}

/// How far apart two fingerprints are: nothing for identical shapes, the
/// same either way round, and each difference costs its own amount whatever
/// else differs: the gap in argument count and in control score, 2 for the
/// return type, 3 for a `Result`, 2 for `async` and 4 for `unsafe`. Names,
/// paths and shape hashes do not count.
pub proof fn law_distance_costs(a: FpView, b: FpView)
    ensures
        distance_of(a, a) == 0,
        distance_of(a, b) == distance_of(b, a),
        distance_of(a, b) == distance_of(a, with_args(b, a.2)) + (if a.2 >= b.2 {
            a.2 - b.2
        } else {
            b.2 - a.2
        }),
        distance_of(a, b) == distance_of(a, with_control(b, a.7)) + (if a.7 >= b.7 {
            a.7 - b.7
        } else {
            b.7 - a.7
        }),
        a.3 != b.3 ==> distance_of(a, b) == distance_of(a, with_flags(b, a.3, b.4, b.5, b.6)) + 2,
        a.4 != b.4 ==> distance_of(a, b) == distance_of(a, with_flags(b, b.3, a.4, b.5, b.6)) + 3,
        a.5 != b.5 ==> distance_of(a, b) == distance_of(a, with_flags(b, b.3, b.4, a.5, b.6)) + 2,
        a.6 != b.6 ==> distance_of(a, b) == distance_of(a, with_flags(b, b.3, b.4, b.5, a.6)) + 4,
        a.6 != b.6 ==> distance_of(a, b) >= 4,
        a.2 == b.2 && a.7 == b.7 && a.3 == b.3 && a.4 == b.4 && a.5 == b.5 && a.6 != b.6 ==> distance_of(a, b)
            == 4,
{
}

} // verus!
