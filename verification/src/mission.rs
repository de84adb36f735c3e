//! The active mission: its stored text and how it is read back.
use crate::text::{
    first_stripped, free_of, has_prefix, join, join_strings, lines, no_cr, no_nl, owned, push_char,
    push_str, split_str, str_lines, string_of, views, vviews,
};
use vstd::prelude::*;

verus! {

/// A mission: an objective worked on step by step.
#[derive(Debug)]
pub struct Mission {
    pub id: String,
    pub objective: String,
    pub mode: String,
    pub status: String,
    pub steps: Vec<String>,
    pub last_patch: String,
    pub last_validation: String,
}

/// A character kept on one line: line breaks, carriage returns and tabs
/// become spaces.
pub open spec fn one_line_char(c: char) -> char {
    if c == '\n' || c == '\r' || c == '\t' {
        ' '
    } else {
        c
    }
}

/// A text kept on one line.
pub open spec fn one_line(s: Seq<char>) -> Seq<char> {
    Seq::new(s.len(), |i: int| one_line_char(s[i]))
}

/// Replaces line breaks, carriage returns and tabs by spaces.
pub fn sanitize(s: &str) -> (r: String)
    ensures
        r@ == one_line(s@),
{
    let v = crate::text::chars_of(s);
    let mut out = String::new();
    let mut i: usize = 0;
    while i < v.len()
        invariant
            i <= v@.len(),
            v@ == s@,
            out@ == one_line(s@).take(i as int),
        decreases v.len() - i,
    {
        let c = v[i];
        let d = if c == '\n' || c == '\r' || c == '\t' {
            ' '
        } else {
            c
        };
        push_char(&mut out, d);
        i = i + 1;
        assert(out@ =~= one_line(s@).take(i as int));
    }
    assert(one_line(s@).take(i as int) =~= one_line(s@));
    out
}

/// The stored text of a mission.
pub open spec fn mission_text_of(
    id: Seq<char>,
    objective: Seq<char>,
    mode: Seq<char>,
    status: Seq<char>,
    steps: Seq<Seq<char>>,
    last_patch: Seq<char>,
    last_validation: Seq<char>,
) -> Seq<char> {
    "id="@ + id + "\nobjective="@ + one_line(objective) + "\nmode="@ + mode + "\nstatus="@ + status
        + "\nlast_patch="@ + last_patch + "\nlast_validation="@ + one_line(last_validation)
        + "\nsteps="@ + join(steps, " | "@) + "\n"@
}

/// The stored text of a mission.
pub fn mission_text(m: &Mission) -> (r: String)
    ensures
        r@ == mission_text_of(
            m.id@,
            m.objective@,
            m.mode@,
            m.status@,
            views(m.steps@),
            m.last_patch@,
            m.last_validation@,
        ),
{
    let mut t = owned("id=");
    push_str(&mut t, m.id.as_str());
    push_str(&mut t, "\nobjective=");
    let o = sanitize(m.objective.as_str());
    push_str(&mut t, o.as_str());
    push_str(&mut t, "\nmode=");
    push_str(&mut t, m.mode.as_str());
    push_str(&mut t, "\nstatus=");
    push_str(&mut t, m.status.as_str());
    push_str(&mut t, "\nlast_patch=");
    push_str(&mut t, m.last_patch.as_str());
    push_str(&mut t, "\nlast_validation=");
    let v = sanitize(m.last_validation.as_str());
    push_str(&mut t, v.as_str());
    push_str(&mut t, "\nsteps=");
    let s = join_strings(&m.steps, " | ");
    push_str(&mut t, s.as_str());
    push_str(&mut t, "\n");
    t
}

/// The value stored under a key: the rest of the first line that starts
/// with `key=`, or nothing.
pub open spec fn field_of(text: Seq<char>, key: Seq<char>) -> Seq<char> {
    match first_stripped(lines(text), key + "="@) {
        Some(v) => v,
        None => Seq::empty(),
    }
}

/// The steps of a stored `steps=` value: its non-empty pieces at `" | "`.
pub open spec fn steps_of(v: Seq<char>) -> Seq<Seq<char>> {
    split_str(v, " | "@).filter(|s: Seq<char>| s.len() > 0)
}

fn field(ls: &Vec<Vec<char>>, key: &str) -> (r: String)
    ensures
        r@ == match first_stripped(vviews(ls@), key@ + "="@) {
            Some(v) => v,
            None => Seq::<char>::empty(),
        },
{
    let mut k = owned(key);
    push_str(&mut k, "=");
    let kv = crate::text::chars_of(k.as_str());
    match crate::text::first_stripped_of(ls, &kv) {
        Some(v) => string_of(&v),
        None => String::new(),
    }
}

/// Reads a stored mission.
pub fn parse_mission(text: &str) -> (r: Mission)
    ensures
        r.id@ == field_of(text@, "id"@),
        r.objective@ == field_of(text@, "objective"@),
        r.mode@ == field_of(text@, "mode"@),
        r.status@ == field_of(text@, "status"@),
        views(r.steps@) == steps_of(field_of(text@, "steps"@)),
        r.last_patch@ == field_of(text@, "last_patch"@),
        r.last_validation@ == field_of(text@, "last_validation"@),
{
    let ls = str_lines(text);
    let steps_text = field(&ls, "steps");
    proof {
        reveal_strlit(" | ");
    }
    let sv = crate::text::chars_of(steps_text.as_str());
    let ps = crate::text::split_text(&sv, &crate::text::chars_of(" | "));
    let ghost pv = vviews(ps@);
    let ghost pred = |s: Seq<char>| s.len() > 0;
    let mut steps: Vec<String> = Vec::new();
    let mut i: usize = 0;
    assert(pv.take(0).filter(pred) =~= Seq::<Seq<char>>::empty()) by {
        reveal_with_fuel(Seq::filter, 1);
    }
    while i < ps.len()
        invariant
            i <= ps@.len(),
            pv == vviews(ps@),
            pred == (|s: Seq<char>| s.len() > 0),
            views(steps@) == pv.take(i as int).filter(pred),
        decreases ps.len() - i,
    {
        proof {
            assert(pv.take(i + 1) =~= pv.take(i as int).push(pv[i as int]));
            pv.take(i as int).lemma_filter_push(pv[i as int], pred);
        }
        if ps[i].len() > 0 {
            let ghost b = views(steps@);
            steps.push(string_of(&ps[i]));
            assert(views(steps@) =~= b.push(pv[i as int]));
        }
        i = i + 1;
    }
    assert(pv.take(i as int) =~= pv);
    Mission {
        id: field(&ls, "id"),
        objective: field(&ls, "objective"),
        mode: field(&ls, "mode"),
        status: field(&ls, "status"),
        steps,
        last_patch: field(&ls, "last_patch"),
        last_validation: field(&ls, "last_validation"),
    }
}


// ---------------------------------------------------------------------------
// Reading back what was stored
// ---------------------------------------------------------------------------

/// A field that a mission file keeps as written: no line break and no
/// carriage return.
pub open spec fn plain_field(s: Seq<char>) -> bool {
    no_nl(s) && no_cr(s)
}

/// A step that a mission file keeps as written: not empty, plain, and free
/// of the `'|'` that separates the steps.
pub open spec fn storable_step(s: Seq<char>) -> bool {
    s.len() > 0 && plain_field(s) && free_of(s, '|')
}

proof fn lemma_one_line_plain(s: Seq<char>)
    ensures
        plain_field(one_line(s)),
{
}

proof fn lemma_join_plain(parts: Seq<Seq<char>>, sep: Seq<char>)
    requires
        plain_field(sep),
        forall|k: int| 0 <= k < parts.len() ==> plain_field(#[trigger] parts[k]),
    ensures
        plain_field(join(parts, sep)),
    decreases parts.len(),
{
    if parts.len() > 1 {
        lemma_join_plain(parts.drop_last(), sep);
        let j = join(parts.drop_last(), sep);
        crate::text::lemma_clean_concat(j, sep);
        crate::text::lemma_clean_concat(j + sep, parts.last());
    }
}

proof fn lemma_first_stripped_at(ls: Seq<Seq<char>>, p: Seq<char>, i: int)
    requires
        0 <= i < ls.len(),
        has_prefix(ls[i], p),
        forall|j: int| 0 <= j < i ==> !has_prefix(#[trigger] ls[j], p),
    ensures
        first_stripped(ls, p) == Some(ls[i].skip(p.len() as int)),
    decreases i,
{
    if i > 0 {
        assert(!has_prefix(ls[0], p));
        assert forall|j: int| 0 <= j < i - 1 implies !has_prefix(#[trigger] ls.drop_first()[j], p) by {
            assert(ls.drop_first()[j] == ls[j + 1]);
        }
        lemma_first_stripped_at(ls.drop_first(), p, i - 1);
    }
}

/// `key` followed by the value, with the value kept as a line.
proof fn lemma_keyed_line(key: Seq<char>, v: Seq<char>)
    requires
        plain_field(key),
        plain_field(v),
    ensures
        plain_field(key + v),
        has_prefix(key + v, key),
        (key + v).skip(key.len() as int) == v,
        crate::text::strip_cr(key + v) == key + v,
{
    crate::text::lemma_clean_concat(key, v);
    assert((key + v).take(key.len() as int) =~= key);
    assert((key + v).skip(key.len() as int) =~= v);
    if (key + v).len() > 0 {
        assert((key + v).last() == (key + v)[(key + v).len() - 1]);
    }
}

/// Reading back the stored text of a mission gives each field as it was
/// stored: the objective and the last validation on one line, the other
/// texts as they were when they hold no line break, and the steps when
/// each is a non-empty line free of `'|'`.
pub proof fn law_mission_roundtrip(m: Mission)
    requires
        plain_field(m.id@),
        plain_field(m.mode@),
        plain_field(m.status@),
        plain_field(m.last_patch@),
        forall|k: int| 0 <= k < m.steps@.len() ==> storable_step(#[trigger] m.steps@[k]@),
    ensures
        ({
            let t = mission_text_of(
                m.id@,
                m.objective@,
                m.mode@,
                m.status@,
                views(m.steps@),
                m.last_patch@,
                m.last_validation@,
            );
            &&& field_of(t, "id"@) == m.id@
            &&& field_of(t, "objective"@) == one_line(m.objective@)
            &&& field_of(t, "mode"@) == m.mode@
            &&& field_of(t, "status"@) == m.status@
            &&& field_of(t, "last_patch"@) == m.last_patch@
            &&& field_of(t, "last_validation"@) == one_line(m.last_validation@)
            &&& steps_of(field_of(t, "steps"@)) == views(m.steps@)
        }),
{
    reveal_strlit(" | ");
    let sv = views(m.steps@);
    assert forall|k: int| 0 <= k < sv.len() implies plain_field(#[trigger] sv[k]) by {
        assert(storable_step(m.steps@[k]@));
    }
    lemma_join_plain(sv, " | "@);
    lemma_one_line_plain(m.objective@);
    lemma_one_line_plain(m.last_validation@);
    lemma_mission_fields(
        m.id@,
        one_line(m.objective@),
        m.mode@,
        m.status@,
        m.last_patch@,
        one_line(m.last_validation@),
        join(sv, " | "@),
    );
    assert(mission_text_of(m.id@, m.objective@, m.mode@, m.status@, sv, m.last_patch@, m.last_validation@)
        == mission_text_fields(
        m.id@,
        one_line(m.objective@),
        m.mode@,
        m.status@,
        m.last_patch@,
        one_line(m.last_validation@),
        join(sv, " | "@),
    ));
    lemma_steps_roundtrip(m.steps@);
}

/// The keys of a stored mission, in the order of its lines.
pub open spec fn mission_keys() -> Seq<Seq<char>> {
    seq![
        seq!['i', 'd', '='],
        seq!['o', 'b', 'j', 'e', 'c', 't', 'i', 'v', 'e', '='],
        seq!['m', 'o', 'd', 'e', '='],
        seq!['s', 't', 'a', 't', 'u', 's', '='],
        seq!['l', 'a', 's', 't', '_', 'p', 'a', 't', 'c', 'h', '='],
        seq!['l', 'a', 's', 't', '_', 'v', 'a', 'l', 'i', 'd', 'a', 't', 'i', 'o', 'n', '='],
        seq!['s', 't', 'e', 'p', 's', '='],
    ]
}

/// Each field of the text built from seven plain values reads back as the
/// value.
proof fn lemma_mission_fields(
    v0: Seq<char>,
    v1: Seq<char>,
    v2: Seq<char>,
    v3: Seq<char>,
    v4: Seq<char>,
    v5: Seq<char>,
    v6: Seq<char>,
)
    requires
        plain_field(v0),
        plain_field(v1),
        plain_field(v2),
        plain_field(v3),
        plain_field(v4),
        plain_field(v5),
        plain_field(v6),
    ensures
        ({
            let t = mission_text_fields(v0, v1, v2, v3, v4, v5, v6);
            &&& field_of(t, "id"@) == v0
            &&& field_of(t, "objective"@) == v1
            &&& field_of(t, "mode"@) == v2
            &&& field_of(t, "status"@) == v3
            &&& field_of(t, "last_patch"@) == v4
            &&& field_of(t, "last_validation"@) == v5
            &&& field_of(t, "steps"@) == v6
        }),
{
    let ks = mission_keys();
    let k0 = ks[0];
    let k1 = ks[1];
    let k2 = ks[2];
    let k3 = ks[3];
    let k4 = ks[4];
    let k5 = ks[5];
    let k6 = ks[6];
    lemma_mission_keys();
    lemma_keyed_line(k0, v0);
    lemma_keyed_line(k1, v1);
    lemma_keyed_line(k2, v2);
    lemma_keyed_line(k3, v3);
    lemma_keyed_line(k4, v4);
    lemma_keyed_line(k5, v5);
    lemma_keyed_line(k6, v6);
    let l0 = k0 + v0;
    let l1 = k1 + v1;
    let l2 = k2 + v2;
    let l3 = k3 + v3;
    let l4 = k4 + v4;
    let l5 = k5 + v5;
    let l6 = k6 + v6;
    lemma_seven_lines(l0, l1, l2, l3, l4, l5, l6);
    lemma_mission_text_shape(v0, v1, v2, v3, v4, v5, v6);
    let ls = seq![l0, l1, l2, l3, l4, l5, l6];
    lemma_first_stripped_at(ls, k0, 0);
    assert(!has_prefix(l0, k1)) by { assert(l0[0] != k1[0]); }
    lemma_first_stripped_at(ls, k1, 1);
    assert(!has_prefix(l0, k2)) by { assert(l0[0] != k2[0]); }
    assert(!has_prefix(l1, k2)) by { assert(l1[0] != k2[0]); }
    lemma_first_stripped_at(ls, k2, 2);
    assert(!has_prefix(l0, k3)) by { assert(l0[0] != k3[0]); }
    assert(!has_prefix(l1, k3)) by { assert(l1[0] != k3[0]); }
    assert(!has_prefix(l2, k3)) by { assert(l2[0] != k3[0]); }
    lemma_first_stripped_at(ls, k3, 3);
    assert(!has_prefix(l0, k4)) by { assert(l0[0] != k4[0]); }
    assert(!has_prefix(l1, k4)) by { assert(l1[0] != k4[0]); }
    assert(!has_prefix(l2, k4)) by { assert(l2[0] != k4[0]); }
    assert(!has_prefix(l3, k4)) by { assert(l3[0] != k4[0]); }
    lemma_first_stripped_at(ls, k4, 4);
    assert(!has_prefix(l0, k5)) by { assert(l0[0] != k5[0]); }
    assert(!has_prefix(l1, k5)) by { assert(l1[0] != k5[0]); }
    assert(!has_prefix(l2, k5)) by { assert(l2[0] != k5[0]); }
    assert(!has_prefix(l3, k5)) by { assert(l3[0] != k5[0]); }
    assert(!has_prefix(l4, k5)) by { assert(l4[5] != k5[5]); }
    lemma_first_stripped_at(ls, k5, 5);
    assert(!has_prefix(l0, k6)) by { assert(l0[0] != k6[0]); }
    assert(!has_prefix(l1, k6)) by { assert(l1[0] != k6[0]); }
    assert(!has_prefix(l2, k6)) by { assert(l2[0] != k6[0]); }
    assert(!has_prefix(l3, k6)) by { assert(l3[2] != k6[2]); }
    assert(!has_prefix(l4, k6)) by { assert(l4[0] != k6[0]); }
    assert(!has_prefix(l5, k6)) by { assert(l5[0] != k6[0]); }
    lemma_first_stripped_at(ls, k6, 6);
}

/// The keys spelled as the field names followed by `=`.
proof fn lemma_mission_keys()
    ensures
        "id"@ + "="@ == mission_keys()[0],
        "objective"@ + "="@ == mission_keys()[1],
        "mode"@ + "="@ == mission_keys()[2],
        "status"@ + "="@ == mission_keys()[3],
        "last_patch"@ + "="@ == mission_keys()[4],
        "last_validation"@ + "="@ == mission_keys()[5],
        "steps"@ + "="@ == mission_keys()[6],
        forall|i: int| 0 <= i < 7 ==> plain_field(#[trigger] mission_keys()[i]),
{
    reveal_strlit("id");
    reveal_strlit("objective");
    reveal_strlit("mode");
    reveal_strlit("status");
    reveal_strlit("last_patch");
    reveal_strlit("last_validation");
    reveal_strlit("steps");
    reveal_strlit("=");
    assert("id"@ + "="@ =~= mission_keys()[0]);
    assert("objective"@ + "="@ =~= mission_keys()[1]);
    assert("mode"@ + "="@ =~= mission_keys()[2]);
    assert("status"@ + "="@ =~= mission_keys()[3]);
    assert("last_patch"@ + "="@ =~= mission_keys()[4]);
    assert("last_validation"@ + "="@ =~= mission_keys()[5]);
    assert("steps"@ + "="@ =~= mission_keys()[6]);
}

/// The stored text built from the values as they stand on their lines.
pub open spec fn mission_text_fields(
    v0: Seq<char>,
    v1: Seq<char>,
    v2: Seq<char>,
    v3: Seq<char>,
    v4: Seq<char>,
    v5: Seq<char>,
    v6: Seq<char>,
) -> Seq<char> {
    "id="@ + v0 + "\nobjective="@ + v1 + "\nmode="@ + v2 + "\nstatus="@ + v3 + "\nlast_patch="@ + v4
        + "\nlast_validation="@ + v5 + "\nsteps="@ + v6 + "\n"@
}

/// The stored text is the seven keyed lines, each ended by a line break.
proof fn lemma_mission_text_shape(
    v0: Seq<char>,
    v1: Seq<char>,
    v2: Seq<char>,
    v3: Seq<char>,
    v4: Seq<char>,
    v5: Seq<char>,
    v6: Seq<char>,
)
    ensures
        ({
            let ks = mission_keys();
            let nl = seq!['\n'];
            mission_text_fields(v0, v1, v2, v3, v4, v5, v6) == (ks[0] + v0 + nl) + ((ks[1] + v1 + nl) + (
            (ks[2] + v2 + nl) + ((ks[3] + v3 + nl) + ((ks[4] + v4 + nl) + ((ks[5] + v5 + nl) + (ks[6]
                + v6 + nl))))))
        }),
{
    reveal_strlit("id=");
    reveal_strlit("\nobjective=");
    reveal_strlit("\nmode=");
    reveal_strlit("\nstatus=");
    reveal_strlit("\nlast_patch=");
    reveal_strlit("\nlast_validation=");
    reveal_strlit("\nsteps=");
    reveal_strlit("\n");
    let ks = mission_keys();
    let nl = seq!['\n'];
    assert(mission_text_fields(v0, v1, v2, v3, v4, v5, v6) =~= (ks[0] + v0 + nl) + ((ks[1] + v1 + nl)
        + ((ks[2] + v2 + nl) + ((ks[3] + v3 + nl) + ((ks[4] + v4 + nl) + ((ks[5] + v5 + nl) + (ks[6]
        + v6 + nl)))))));
}

/// The lines of seven plain lines, each ended by a line break.
proof fn lemma_seven_lines(
    l0: Seq<char>,
    l1: Seq<char>,
    l2: Seq<char>,
    l3: Seq<char>,
    l4: Seq<char>,
    l5: Seq<char>,
    l6: Seq<char>,
)
    requires
        plain_field(l0),
        plain_field(l1),
        plain_field(l2),
        plain_field(l3),
        plain_field(l4),
        plain_field(l5),
        plain_field(l6),
        crate::text::strip_cr(l0) == l0,
        crate::text::strip_cr(l1) == l1,
        crate::text::strip_cr(l2) == l2,
        crate::text::strip_cr(l3) == l3,
        crate::text::strip_cr(l4) == l4,
        crate::text::strip_cr(l5) == l5,
        crate::text::strip_cr(l6) == l6,
    ensures
        ({
            let nl = seq!['\n'];
            lines((l0 + nl) + ((l1 + nl) + ((l2 + nl) + ((l3 + nl) + ((l4 + nl) + ((l5 + nl) + (l6
                + nl))))))) == seq![l0, l1, l2, l3, l4, l5, l6]
        }),
{
    let nl = seq!['\n'];
    crate::text::lemma_lines_single(l0);
    crate::text::lemma_lines_single(l1);
    crate::text::lemma_lines_single(l2);
    crate::text::lemma_lines_single(l3);
    crate::text::lemma_lines_single(l4);
    crate::text::lemma_lines_single(l5);
    crate::text::lemma_lines_single(l6);
    let t5 = (l5 + nl) + (l6 + nl);
    let t4 = (l4 + nl) + t5;
    let t3 = (l3 + nl) + t4;
    let t2 = (l2 + nl) + t3;
    let t1 = (l1 + nl) + t2;
    crate::text::lemma_lines_append(l5 + nl, l6 + nl);
    crate::text::lemma_lines_append(l4 + nl, t5);
    crate::text::lemma_lines_append(l3 + nl, t4);
    crate::text::lemma_lines_append(l2 + nl, t3);
    crate::text::lemma_lines_append(l1 + nl, t2);
    crate::text::lemma_lines_append(l0 + nl, t1);
    assert(lines((l0 + nl) + t1) =~= seq![l0, l1, l2, l3, l4, l5, l6]);
}

/// The stored steps come back from their joined form.
proof fn lemma_steps_roundtrip(steps: Seq<String>)
    requires
        forall|k: int| 0 <= k < steps.len() ==> storable_step(#[trigger] steps[k]@),
    ensures
        steps_of(join(views(steps), " | "@)) == views(steps),
{
    reveal_strlit(" | ");
    let sv = views(steps);
    let v6 = join(sv, " | "@);
    let pred = |s: Seq<char>| s.len() > 0;
    if sv.len() == 0 {
        reveal(split_str);
        assert(v6 =~= Seq::<char>::empty());
        assert(split_str(v6, " | "@) == seq![v6]);
        reveal_with_fuel(Seq::filter, 2);
        assert(seq![v6].filter(pred) =~= Seq::<Seq<char>>::empty());
    } else {
        assert forall|k: int| 0 <= k < sv.len() implies free_of(#[trigger] sv[k], '|') by {
            assert(storable_step(steps[k]@));
        }
        crate::text::lemma_split_join_bar(sv);
        assert forall|k: int| 0 <= k < sv.len() implies pred(#[trigger] sv[k]) by {
            assert(storable_step(steps[k]@));
        }
        lemma_filter_all(sv, pred);
    }
}

proof fn lemma_filter_all(s: Seq<Seq<char>>, pred: spec_fn(Seq<char>) -> bool)
    requires
        forall|k: int| 0 <= k < s.len() ==> pred(#[trigger] s[k]),
    ensures
        s.filter(pred) == s,
    decreases s.len(),
{
    reveal_with_fuel(Seq::filter, 1);
    if s.len() > 0 {
        lemma_filter_all(s.drop_last(), pred);
        assert(s.drop_last().push(s.last()) =~= s);
        s.drop_last().lemma_filter_push(s.last(), pred);
    } else {
        assert(s.filter(pred) =~= s);
    }
}

} // verus!
