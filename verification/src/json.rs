//! A small JSON reader: values, arrays, objects with sorted keys, strings
//! with the common escapes, and numbers kept as their text.
//!
//! `parse_value` and its companions state the grammar over the input bytes;
//! `parse` reads a whole text and is proved to give what they give.
use crate::text::{chars_lt, chars_of, lex_lt, owned, push_char, str_eq};
use vstd::prelude::*;

verus! {

/// A JSON value.  Numbers keep their text; an object keeps its members
/// sorted by key, each key once.
#[derive(Debug)]
pub enum JsonValue {
    Null,
    Bool(bool),
    Num(String),
    Str(String),
    Arr(Vec<JsonValue>),
    Obj(Vec<(String, JsonValue)>),
}

/// A JSON value as mathematical data.
pub enum JsonView {
    Null,
    Bool(bool),
    Num(Seq<char>),
    Str(Seq<char>),
    Arr(Seq<JsonView>),
    Obj(Seq<(Seq<char>, JsonView)>),
}

/// The view of a value.
pub open spec fn jv(v: JsonValue) -> JsonView
    decreases v,
{
    match v {
        JsonValue::Null => JsonView::Null,
        JsonValue::Bool(b) => JsonView::Bool(b),
        JsonValue::Num(s) => JsonView::Num(s@),
        JsonValue::Str(s) => JsonView::Str(s@),
        JsonValue::Arr(a) => JsonView::Arr(jv_list(a@)),
        JsonValue::Obj(m) => JsonView::Obj(jv_members(m@)),
    }
}

/// The views of a list of values.
pub open spec fn jv_list(a: Seq<JsonValue>) -> Seq<JsonView>
    decreases a,
{
    if a.len() == 0 {
        Seq::empty()
    } else {
        jv_list(a.drop_last()).push(jv(a.last()))
    }
}

/// The views of a list of members.
pub open spec fn jv_members(m: Seq<(String, JsonValue)>) -> Seq<(Seq<char>, JsonView)>
    decreases m,
{
    if m.len() == 0 {
        Seq::empty()
    } else {
        jv_members(m.drop_last()).push((m.last().0@, jv(m.last().1)))
    }
}


/// The outcome of reading a value at a position: the value and the position
/// after it, or the error.
pub type Parsed = Result<(JsonView, int), Seq<char>>;

/// JSON whitespace.
pub open spec fn ws_byte(c: u8) -> bool {
    c == 32 || c == 10 || c == 13 || c == 9
}

/// The first position at or after `i` that is not whitespace.
pub open spec fn skip_ws(b: Seq<u8>, i: int) -> int
    decreases b.len() - i,
{
    if 0 <= i < b.len() && ws_byte(b[i]) {
        skip_ws(b, i + 1)
    } else {
        i
    }
}

pub proof fn lemma_skip_ws(b: Seq<u8>, i: int)
    requires
        0 <= i <= b.len(),
    ensures
        i <= skip_ws(b, i) <= b.len(),
        forall|k: int| i <= k < skip_ws(b, i) ==> ws_byte(#[trigger] b[k]),
        skip_ws(b, i) < b.len() ==> !ws_byte(b[skip_ws(b, i)]),
    decreases b.len() - i,
{
    if i < b.len() && ws_byte(b[i]) {
        lemma_skip_ws(b, i + 1);
    }
}

/// A byte read as a character (its code point is the byte).
pub open spec fn byte_char(c: u8) -> char {
    (c as u32) as char
}

/// The character an escape letter stands for.
pub open spec fn escaped(e: u8) -> Option<char> {
    if e == 34 {
        Some('"')
    } else if e == 92 {
        Some('\\')
    } else if e == 110 {
        Some('\n')
    } else if e == 114 {
        Some('\r')
    } else if e == 116 {
        Some('\t')
    } else {
        None
    }
}

/// The rest of a string from position `i` (after the opening quote), the
/// characters read so far being `acc`.
pub open spec fn string_from(b: Seq<u8>, i: int, acc: Seq<char>) -> Result<(Seq<char>, int), Seq<char>>
    decreases b.len() - i,
{
    if !(0 <= i < b.len()) {
        Err("unterminated string"@)
    } else if b[i] == 34 {
        Ok((acc, i + 1))
    } else if b[i] == 92 {
        if i + 1 >= b.len() {
            Err("bad escape"@)
        } else {
            match escaped(b[i + 1]) {
                Some(c) => string_from(b, i + 2, acc.push(c)),
                None => Err("unsupported escape"@),
            }
        }
    } else {
        string_from(b, i + 1, acc.push(byte_char(b[i])))
    }
}

/// A string at position `i`.
pub open spec fn parse_string(b: Seq<u8>, i: int) -> Result<(Seq<char>, int), Seq<char>> {
    if 0 <= i < b.len() && b[i] == 34 {
        string_from(b, i + 1, Seq::empty())
    } else {
        Err("unexpected char"@)
    }
}

pub proof fn lemma_string_from(b: Seq<u8>, i: int, acc: Seq<char>)
    requires
        0 <= i,
    ensures
        string_from(b, i, acc) matches Ok((_, k)) ==> i < k <= b.len(),
    decreases b.len() - i,
{
    if 0 <= i < b.len() && b[i] != 34 {
        if b[i] == 92 {
            if i + 1 < b.len() {
                match escaped(b[i + 1]) {
                    Some(c) => lemma_string_from(b, i + 2, acc.push(c)),
                    None => {},
                }
            }
        } else {
            lemma_string_from(b, i + 1, acc.push(byte_char(b[i])));
        }
    }
}

pub proof fn lemma_parse_string(b: Seq<u8>, i: int)
    requires
        0 <= i,
    ensures
        parse_string(b, i) matches Ok((_, k)) ==> i + 2 <= k <= b.len(),
{
    if 0 <= i < b.len() && b[i] == 34 {
        lemma_string_from(b, i + 1, Seq::empty());
    }
}

/// A decimal digit.
pub open spec fn digit_byte(c: u8) -> bool {
    48 <= c <= 57
}

/// The end of the run of digits from `i`.
pub open spec fn digits_end(b: Seq<u8>, i: int) -> int
    decreases b.len() - i,
{
    if 0 <= i < b.len() && digit_byte(b[i]) {
        digits_end(b, i + 1)
    } else {
        i
    }
}

pub proof fn lemma_digits_end(b: Seq<u8>, i: int)
    requires
        0 <= i <= b.len(),
    ensures
        i <= digits_end(b, i) <= b.len(),
        forall|k: int| i <= k < digits_end(b, i) ==> digit_byte(#[trigger] b[k]),
        digits_end(b, i) < b.len() ==> !digit_byte(b[digits_end(b, i)]),
    decreases b.len() - i,
{
    if i < b.len() && digit_byte(b[i]) {
        lemma_digits_end(b, i + 1);
    }
}

/// The end of a number from `i`: an optional `-`, digits, and an optional
/// `.` followed by digits.
pub open spec fn number_end(b: Seq<u8>, i: int) -> int {
    let j = if 0 <= i < b.len() && b[i] == 45 {
        i + 1
    } else {
        i
    };
    let k = digits_end(b, j);
    if 0 <= k < b.len() && b[k] == 46 {
        digits_end(b, k + 1)
    } else {
        k
    }
}

/// The text of the bytes from `i` to `j`, each byte as a character.
pub open spec fn bytes_text(b: Seq<u8>, i: int, j: int) -> Seq<char> {
    Seq::new((j - i) as nat, |k: int| byte_char(b[i + k]))
}

/// A number at position `i`: its text must hold a digit to read as a number.
pub open spec fn parse_number(b: Seq<u8>, i: int) -> Parsed {
    let e = number_end(b, i);
    if exists|k: int| i <= k < e && digit_byte(#[trigger] b[k]) {
        Ok((JsonView::Num(bytes_text(b, i, e)), e))
    } else {
        Err("bad num"@)
    }
}

/// Whether the bytes of `t` stand at position `i`.
pub open spec fn token_at(b: Seq<u8>, i: int, t: Seq<u8>) -> bool {
    0 <= i && i + t.len() <= b.len() && b.subrange(i, i + t.len()) == t
}

pub open spec fn true_bytes() -> Seq<u8> {
    seq![116u8, 114u8, 117u8, 101u8]
}

pub open spec fn false_bytes() -> Seq<u8> {
    seq![102u8, 97u8, 108u8, 115u8, 101u8]
}

pub open spec fn null_bytes() -> Seq<u8> {
    seq![110u8, 117u8, 108u8, 108u8]
}

/// A boolean at position `i`.
pub open spec fn parse_bool(b: Seq<u8>, i: int) -> Parsed {
    if token_at(b, i, true_bytes()) {
        Ok((JsonView::Bool(true), i + 4))
    } else if token_at(b, i, false_bytes()) {
        Ok((JsonView::Bool(false), i + 5))
    } else {
        Err("bad bool"@)
    }
}

/// The members of an object after inserting a member: a member with the
/// same key has its value replaced, otherwise the member goes to its place
/// in key order.
pub open spec fn obj_insert(m: Seq<(Seq<char>, JsonView)>, k: Seq<char>, v: JsonView) -> Seq<(Seq<char>, JsonView)>
    decreases m.len(),
{
    if m.len() == 0 {
        seq![(k, v)]
    } else if m.last().0 == k {
        m.drop_last().push((k, v))
    } else if lex_lt(m.last().0, k) {
        m.push((k, v))
    } else {
        obj_insert(m.drop_last(), k, v).push(m.last())
    }
}

/// A value at position `i`, after optional whitespace.
pub open spec fn parse_value(b: Seq<u8>, i: int) -> Parsed
    decreases b.len() - i, 2int,
{
    if !(0 <= i <= b.len()) {
        Err("unexpected token"@)
    } else {
        let j = skip_ws(b, i);
        proof {
            lemma_skip_ws(b, i);
        }
        if j >= b.len() {
            Err("unexpected token"@)
        } else {
            let c = b[j];
            if c == 123 {
                parse_object(b, j)
            } else if c == 91 {
                parse_array(b, j)
            } else if c == 34 {
                match parse_string(b, j) {
                    Ok((s, k)) => Ok((JsonView::Str(s), k)),
                    Err(e) => Err(e),
                }
            } else if c == 116 || c == 102 {
                parse_bool(b, j)
            } else if c == 110 {
                if token_at(b, j, null_bytes()) {
                    Ok((JsonView::Null, j + 4))
                } else {
                    Err("unexpected token"@)
                }
            } else if c == 45 || digit_byte(c) {
                parse_number(b, j)
            } else {
                Err("unexpected token"@)
            }
        }
    }
}

/// An object at position `i`, which holds its `{`.
pub open spec fn parse_object(b: Seq<u8>, i: int) -> Parsed
    decreases b.len() - i, 1int,
{
    if 0 <= i < b.len() && b[i] == 123 {
        object_members(b, i + 1, Seq::empty())
    } else {
        Err("unexpected char"@)
    }
}

/// The members of an object from position `i`, those read so far being `m`.
pub open spec fn object_members(b: Seq<u8>, i: int, m: Seq<(Seq<char>, JsonView)>) -> Parsed
    decreases b.len() - i, 0int,
{
    if !(0 <= i <= b.len()) {
        Err("bad object"@)
    } else {
        let i1 = skip_ws(b, i);
        proof {
            lemma_skip_ws(b, i);
        }
        if i1 < b.len() && b[i1] == 125 {
            Ok((JsonView::Obj(m), i1 + 1))
        } else {
            match parse_string(b, i1) {
                Err(e) => Err(e),
                Ok((k, i2)) => {
                    proof {
                        lemma_parse_string(b, i1);
                        lemma_skip_ws(b, i2);
                    }
                    let i3 = skip_ws(b, i2);
                    if !(i3 < b.len() && b[i3] == 58) {
                        Err("unexpected char"@)
                    } else {
                        match parse_value(b, i3 + 1) {
                            Err(e) => Err(e),
                            Ok((v, i4)) => {
                                let m2 = obj_insert(m, k, v);
                                if !(i < i4 <= b.len()) {
                                    Err("bad object"@)
                                } else {
                                    proof {
                                        lemma_skip_ws(b, i4);
                                    }
                                    let i5 = skip_ws(b, i4);
                                    if i5 < b.len() && b[i5] == 44 {
                                        object_members(b, i5 + 1, m2)
                                    } else if i5 < b.len() && b[i5] == 125 {
                                        Ok((JsonView::Obj(m2), i5 + 1))
                                    } else {
                                        Err("bad object"@)
                                    }
                                }
                            },
                        }
                    }
                },
            }
        }
    }
}

/// An array at position `i`, which holds its `[`.
pub open spec fn parse_array(b: Seq<u8>, i: int) -> Parsed
    decreases b.len() - i, 1int,
{
    if 0 <= i < b.len() && b[i] == 91 {
        array_items(b, i + 1, Seq::empty())
    } else {
        Err("unexpected char"@)
    }
}

/// The items of an array from position `i`, those read so far being `a`.
pub open spec fn array_items(b: Seq<u8>, i: int, a: Seq<JsonView>) -> Parsed
    decreases b.len() - i, 3int,
{
    if !(0 <= i <= b.len()) {
        Err("bad array"@)
    } else {
        let i1 = skip_ws(b, i);
        proof {
            lemma_skip_ws(b, i);
        }
        if i1 < b.len() && b[i1] == 93 {
            Ok((JsonView::Arr(a), i1 + 1))
        } else {
            match parse_value(b, i1) {
                Err(e) => Err(e),
                Ok((v, i2)) => {
                    if !(i < i2 <= b.len()) {
                        Err("bad array"@)
                    } else {
                        proof {
                            lemma_skip_ws(b, i2);
                        }
                        let i3 = skip_ws(b, i2);
                        if i3 < b.len() && b[i3] == 44 {
                            array_items(b, i3 + 1, a.push(v))
                        } else if i3 < b.len() && b[i3] == 93 {
                            Ok((JsonView::Arr(a.push(v)), i3 + 1))
                        } else {
                            Err("bad array"@)
                        }
                    }
                },
            }
        }
    }
}

/// A whole text read as one value, with nothing but whitespace after it.
pub open spec fn parse_text(b: Seq<u8>) -> Result<JsonView, Seq<char>> {
    match parse_value(b, 0) {
        Err(e) => Err(e),
        Ok((v, k)) => if skip_ws(b, k) == b.len() {
            Ok(v)
        } else {
            Err("trailing json"@)
        },
    }
}

pub proof fn lemma_value_advances(b: Seq<u8>, i: int)
    ensures
        parse_value(b, i) matches Ok((_, k)) ==> i < k <= b.len(),
    decreases b.len() - i, 2int,
{
    if 0 <= i <= b.len() {
        lemma_skip_ws(b, i);
        let j = skip_ws(b, i);
        if j < b.len() {
            let c = b[j];
            if c == 123 {
                lemma_object_advances(b, j);
            } else if c == 91 {
                lemma_array_advances(b, j);
            } else if c == 34 {
                lemma_parse_string(b, j);
            } else if c == 45 || digit_byte(c) {
                let jj = if b[j] == 45 {
                    j + 1
                } else {
                    j
                };
                lemma_digits_end(b, jj);
                let k = digits_end(b, jj);
                if k < b.len() && b[k] == 46 {
                    lemma_digits_end(b, k + 1);
                }
                if parse_number(b, j) is Ok {
                    let w = choose|w: int| j <= w < number_end(b, j) && digit_byte(#[trigger] b[w]);
                }
            }
        }
    }
}

pub proof fn lemma_object_advances(b: Seq<u8>, i: int)
    ensures
        parse_object(b, i) matches Ok((_, k)) ==> i < k <= b.len(),
    decreases b.len() - i, 1int,
{
    if 0 <= i < b.len() && b[i] == 123 {
        lemma_members_advances(b, i + 1, Seq::empty());
    }
}

pub proof fn lemma_members_advances(b: Seq<u8>, i: int, m: Seq<(Seq<char>, JsonView)>)
    ensures
        object_members(b, i, m) matches Ok((_, k)) ==> i < k <= b.len(),
    decreases b.len() - i, 0int,
{
    if 0 <= i <= b.len() {
        lemma_skip_ws(b, i);
        let i1 = skip_ws(b, i);
        if !(i1 < b.len() && b[i1] == 125) {
            lemma_parse_string(b, i1);
            match parse_string(b, i1) {
                Ok((k, i2)) => {
                    lemma_skip_ws(b, i2);
                    let i3 = skip_ws(b, i2);
                    if i3 < b.len() && b[i3] == 58 {
                        match parse_value(b, i3 + 1) {
                            Ok((v, i4)) => {
                                if i < i4 <= b.len() {
                                    lemma_skip_ws(b, i4);
                                    let i5 = skip_ws(b, i4);
                                    if i5 < b.len() && b[i5] == 44 {
                                        lemma_members_advances(b, i5 + 1, obj_insert(m, k, v));
                                    }
                                }
                            },
                            Err(_) => {},
                        }
                    }
                },
                Err(_) => {},
            }
        }
    }
}

pub proof fn lemma_array_advances(b: Seq<u8>, i: int)
    ensures
        parse_array(b, i) matches Ok((_, k)) ==> i < k <= b.len(),
    decreases b.len() - i, 1int,
{
    if 0 <= i < b.len() && b[i] == 91 {
        lemma_items_advances(b, i + 1, Seq::empty());
    }
}

pub proof fn lemma_items_advances(b: Seq<u8>, i: int, a: Seq<JsonView>)
    ensures
        array_items(b, i, a) matches Ok((_, k)) ==> i < k <= b.len(),
    decreases b.len() - i, 3int,
{
    if 0 <= i <= b.len() {
        lemma_skip_ws(b, i);
        let i1 = skip_ws(b, i);
        if !(i1 < b.len() && b[i1] == 93) {
            match parse_value(b, i1) {
                Ok((v, i2)) => {
                    if i < i2 <= b.len() {
                        lemma_skip_ws(b, i2);
                        let i3 = skip_ws(b, i2);
                        if i3 < b.len() && b[i3] == 44 {
                            lemma_items_advances(b, i3 + 1, a.push(v));
                        }
                    }
                },
                Err(_) => {},
            }
        }
    }
}

pub proof fn lemma_jv_list(a: Seq<JsonValue>)
    ensures
        jv_list(a).len() == a.len(),
        forall|i: int| 0 <= i < a.len() ==> #[trigger] jv_list(a)[i] == jv(a[i]),
    decreases a.len(),
{
    if a.len() > 0 {
        lemma_jv_list(a.drop_last());
    }
}

pub proof fn lemma_jv_members(m: Seq<(String, JsonValue)>)
    ensures
        jv_members(m).len() == m.len(),
        forall|i: int| 0 <= i < m.len() ==> #[trigger] jv_members(m)[i] == (m[i].0@, jv(m[i].1)),
    decreases m.len(),
{
    if m.len() > 0 {
        lemma_jv_members(m.drop_last());
    }
}

proof fn lemma_obj_insert_at(m: Seq<(Seq<char>, JsonView)>, k: Seq<char>, v: JsonView, j: int)
    requires
        0 <= j <= m.len(),
        forall|t: int| j <= t < m.len() ==> (#[trigger] m[t]).0 != k && !lex_lt(m[t].0, k),
        j > 0 ==> (m[j - 1].0 == k || lex_lt(m[j - 1].0, k)),
    ensures
        obj_insert(m, k, v) == if j > 0 && m[j - 1].0 == k {
            m.update(j - 1, (k, v))
        } else {
            m.insert(j, (k, v))
        },
    decreases m.len(),
{
    if m.len() == 0 {
        assert(seq![(k, v)] =~= m.insert(j, (k, v)));
    } else if j == m.len() {
        if m.last().0 == k {
            assert(m.drop_last().push((k, v)) =~= m.update(j - 1, (k, v)));
        } else {
            assert(m.push((k, v)) =~= m.insert(j, (k, v)));
        }
    } else {
        let d = m.drop_last();
        lemma_obj_insert_at(d, k, v, j);
        if j > 0 && m[j - 1].0 == k {
            assert(d.update(j - 1, (k, v)).push(m.last()) =~= m.update(j - 1, (k, v)));
        } else {
            assert(d.insert(j, (k, v)).push(m.last()) =~= m.insert(j, (k, v)));
        }
    }
}

fn string_lt(a: &String, b: &String) -> (r: bool)
    ensures
        r == lex_lt(a@, b@),
{
    chars_lt(&chars_of(a.as_str()), &chars_of(b.as_str()))
}

/// Inserts a member into an object's members, as `obj_insert` states.
fn members_insert(m: &mut Vec<(String, JsonValue)>, k: String, v: JsonValue)
    ensures
        jv_members(final(m)@) == obj_insert(jv_members(old(m)@), k@, jv(v)),
{
    proof {
        lemma_jv_members(m@);
    }
    let ghost mv = jv_members(m@);
    let mut j = m.len();
    while j > 0 && !str_eq(m[j - 1].0.as_str(), k.as_str()) && !string_lt(&m[j - 1].0, &k)
        invariant
            j <= m@.len(),
            mv == jv_members(m@),
            mv.len() == m@.len(),
            forall|i: int| 0 <= i < m@.len() ==> #[trigger] mv[i] == (m@[i].0@, jv(m@[i].1)),
            forall|t: int| j <= t < mv.len() ==> (#[trigger] mv[t]).0 != k@ && !lex_lt(mv[t].0, k@),
        decreases j,
    {
        j = j - 1;
    }
    let ghost kv = k@;
    let ghost vv = jv(v);
    proof {
        lemma_obj_insert_at(mv, kv, vv, j as int);
    }
    if j > 0 && str_eq(m[j - 1].0.as_str(), k.as_str()) {
        m.set(j - 1, (k, v));
        proof {
            lemma_jv_members(m@);
            assert(jv_members(m@) =~= mv.update(j - 1, (kv, vv)));
        }
    } else {
        m.insert(j, (k, v));
        proof {
            lemma_jv_members(m@);
            assert(jv_members(m@) =~= mv.insert(j as int, (kv, vv)));
        }
    }
}

fn ws_end(b: &[u8], i: usize) -> (r: usize)
    requires
        i <= b@.len(),
    ensures
        r == skip_ws(b@, i as int),
{
    let mut j = i;
    while j < b.len() && (b[j] == 32 || b[j] == 10 || b[j] == 13 || b[j] == 9)
        invariant
            i <= j <= b@.len(),
            skip_ws(b@, i as int) == skip_ws(b@, j as int),
        decreases b.len() - j,
    {
        j = j + 1;
    }
    j
}

fn read_string(b: &[u8], i: usize) -> (r: Result<(String, usize), String>)
    requires
        i <= b@.len(),
    ensures
        match r {
            Ok((s, k)) => parse_string(b@, i as int) == Ok::<(Seq<char>, int), Seq<char>>((s@, k as int)),
            Err(e) => parse_string(b@, i as int) == Err::<(Seq<char>, int), Seq<char>>(e@),
        },
{
    if !(i < b.len() && b[i] == 34) {
        return Err(owned("unexpected char"));
    }
    let mut acc = String::new();
    let mut j = i + 1;
    loop
        invariant
            i < j <= b@.len(),
            parse_string(b@, i as int) == string_from(b@, j as int, acc@),
        decreases b.len() - j,
    {
        if j >= b.len() {
            return Err(owned("unterminated string"));
        }
        let c = b[j];
        if c == 34 {
            return Ok((acc, j + 1));
        }
        if c == 92 {
            if j + 1 >= b.len() {
                return Err(owned("bad escape"));
            }
            let e = b[j + 1];
            let ch = if e == 34 {
                '"'
            } else if e == 92 {
                '\\'
            } else if e == 110 {
                '\n'
            } else if e == 114 {
                '\r'
            } else if e == 116 {
                '\t'
            } else {
                return Err(owned("unsupported escape"));
            };
            push_char(&mut acc, ch);
            j = j + 2;
        } else {
            let ch = c as char;
            assert(ch == byte_char(c));
            push_char(&mut acc, ch);
            j = j + 1;
        }
    }
}

fn digits_to(b: &[u8], i: usize) -> (r: usize)
    requires
        i <= b@.len(),
    ensures
        r == digits_end(b@, i as int),
{
    let mut j = i;
    while j < b.len() && 48 <= b[j] && b[j] <= 57
        invariant
            i <= j <= b@.len(),
            digits_end(b@, i as int) == digits_end(b@, j as int),
        decreases b.len() - j,
    {
        j = j + 1;
    }
    j
}

fn read_number(b: &[u8], i: usize) -> (r: Result<(JsonValue, usize), String>)
    requires
        i < b@.len(),
    ensures
        match r {
            Ok((v, k)) => parse_number(b@, i as int) == Ok::<(JsonView, int), Seq<char>>((jv(v), k as int)),
            Err(e) => parse_number(b@, i as int) == Err::<(JsonView, int), Seq<char>>(e@),
        },
{
    let j = if b[i] == 45 {
        i + 1
    } else {
        i
    };
    let k = digits_to(b, j);
    proof {
        lemma_digits_end(b@, j as int);
    }
    let e = if k < b.len() && b[k] == 46 {
        proof {
            lemma_digits_end(b@, k + 1);
        }
        digits_to(b, k + 1)
    } else {
        k
    };
    assert(e == number_end(b@, i as int));
    let mut found = false;
    let mut t = i;
    while t < e
        invariant
            i <= t <= e <= b@.len(),
            found == exists|w: int| i <= w < t && digit_byte(#[trigger] b@[w]),
        decreases e - t,
    {
        if 48 <= b[t] && b[t] <= 57 {
            found = true;
        }
        proof {
            if !found {
                assert forall|w: int| i <= w < t + 1 implies !digit_byte(#[trigger] b@[w]) by {
                    if w < t {
                    }
                }
            } else {
                if !(exists|w: int| i <= w < t && digit_byte(#[trigger] b@[w])) {
                    assert(digit_byte(b@[t as int]));
                }
            }
        }
        t = t + 1;
    }
    if !found {
        return Err(owned("bad num"));
    }
    let mut text = String::new();
    let mut q = i;
    while q < e
        invariant
            i <= q <= e <= b@.len(),
            text@ == bytes_text(b@, i as int, q as int),
        decreases e - q,
    {
        let ch = b[q] as char;
        push_char(&mut text, ch);
        q = q + 1;
        assert(text@ =~= bytes_text(b@, i as int, q as int));
    }
    Ok((JsonValue::Num(text), e))
}

fn token_here(b: &[u8], i: usize, t: &[u8]) -> (r: bool)
    ensures
        r == token_at(b@, i as int, t@),
{
    if t.len() > b.len() || i > b.len() - t.len() {
        return false;
    }
    let mut k: usize = 0;
    while k < t.len()
        invariant
            k <= t@.len(),
            i + t@.len() <= b@.len(),
            b@.len() <= usize::MAX,
            forall|w: int| 0 <= w < k ==> b@[i + w] == #[trigger] t@[w],
        decreases t.len() - k,
    {
        if b[i + k] != t[k] {
            assert(b@.subrange(i as int, i + t@.len())[k as int] != t@[k as int]);
            return false;
        }
        k = k + 1;
    }
    assert(b@.subrange(i as int, i + t@.len()) =~= t@);
    true
}

fn read_bool(b: &[u8], i: usize) -> (r: Result<(JsonValue, usize), String>)
    ensures
        match r {
            Ok((v, k)) => parse_bool(b@, i as int) == Ok::<(JsonView, int), Seq<char>>((jv(v), k as int)),
            Err(e) => parse_bool(b@, i as int) == Err::<(JsonView, int), Seq<char>>(e@),
        },
{
    let n = b.len();
    let tb: [u8; 4] = [116u8, 114u8, 117u8, 101u8];
    let fb: [u8; 5] = [102u8, 97u8, 108u8, 115u8, 101u8];
    assert(tb@ =~= true_bytes());
    assert(fb@ =~= false_bytes());
    if token_here(b, i, tb.as_slice()) {
        Ok((JsonValue::Bool(true), i + 4))
    } else if token_here(b, i, fb.as_slice()) {
        Ok((JsonValue::Bool(false), i + 5))
    } else {
        Err(owned("bad bool"))
    }
}

/// The outcome of an exec read matches the grammar's.
pub open spec fn read_matches(r: Result<(JsonValue, usize), String>, p: Parsed) -> bool {
    match r {
        Ok((v, k)) => p == Ok::<(JsonView, int), Seq<char>>((jv(v), k as int)),
        Err(e) => p == Err::<(JsonView, int), Seq<char>>(e@),
    }
}

fn read_value(b: &[u8], i: usize) -> (r: Result<(JsonValue, usize), String>)
    requires
        i <= b@.len(),
    ensures
        read_matches(r, parse_value(b@, i as int)),
    decreases b@.len() - i, 2int,
{
    let j = ws_end(b, i);
    proof {
        lemma_skip_ws(b@, i as int);
    }
    if j >= b.len() {
        return Err(owned("unexpected token"));
    }
    let c = b[j];
    if c == 123 {
        read_object(b, j)
    } else if c == 91 {
        read_array(b, j)
    } else if c == 34 {
        match read_string(b, j) {
            Ok((s, k)) => Ok((JsonValue::Str(s), k)),
            Err(e) => Err(e),
        }
    } else if c == 116 || c == 102 {
        read_bool(b, j)
    } else if c == 110 {
        let nb: [u8; 4] = [110u8, 117u8, 108u8, 108u8];
        assert(nb@ =~= null_bytes());
        if token_here(b, j, nb.as_slice()) {
            let n = b.len();
            Ok((JsonValue::Null, j + 4))
        } else {
            Err(owned("unexpected token"))
        }
    } else if c == 45 || (48 <= c && c <= 57) {
        read_number(b, j)
    } else {
        Err(owned("unexpected token"))
    }
}

fn read_object(b: &[u8], i: usize) -> (r: Result<(JsonValue, usize), String>)
    requires
        i <= b@.len(),
    ensures
        read_matches(r, parse_object(b@, i as int)),
    decreases b@.len() - i, 1int,
{
    if !(i < b.len() && b[i] == 123) {
        return Err(owned("unexpected char"));
    }
    let m: Vec<(String, JsonValue)> = Vec::new();
    assert(jv_members(m@) =~= Seq::<(Seq<char>, JsonView)>::empty());
    read_members(b, i + 1, m)
}

fn read_members(b: &[u8], i: usize, m: Vec<(String, JsonValue)>) -> (r: Result<(JsonValue, usize), String>)
    requires
        i <= b@.len(),
    ensures
        read_matches(r, object_members(b@, i as int, jv_members(m@))),
    decreases b@.len() - i, 0int,
{
    let mut m = m;
    let i1 = ws_end(b, i);
    proof {
        lemma_skip_ws(b@, i as int);
    }
    if i1 < b.len() && b[i1] == 125 {
        return Ok((JsonValue::Obj(m), i1 + 1));
    }
    let (k, i2) = match read_string(b, i1) {
        Ok(x) => x,
        Err(e) => {
            return Err(e);
        },
    };
    proof {
        lemma_parse_string(b@, i1 as int);
        lemma_skip_ws(b@, i2 as int);
    }
    let i3 = ws_end(b, i2);
    if !(i3 < b.len() && b[i3] == 58) {
        return Err(owned("unexpected char"));
    }
    let (v, i4) = match read_value(b, i3 + 1) {
        Ok(x) => x,
        Err(e) => {
            return Err(e);
        },
    };
    proof {
        lemma_value_advances(b@, i3 + 1);
        lemma_skip_ws(b@, i4 as int);
    }
    let ghost m0 = jv_members(m@);
    members_insert(&mut m, k, v);
    let i5 = ws_end(b, i4);
    if i5 < b.len() && b[i5] == 44 {
        read_members(b, i5 + 1, m)
    } else if i5 < b.len() && b[i5] == 125 {
        Ok((JsonValue::Obj(m), i5 + 1))
    } else {
        Err(owned("bad object"))
    }
}

fn read_array(b: &[u8], i: usize) -> (r: Result<(JsonValue, usize), String>)
    requires
        i <= b@.len(),
    ensures
        read_matches(r, parse_array(b@, i as int)),
    decreases b@.len() - i, 1int,
{
    if !(i < b.len() && b[i] == 91) {
        return Err(owned("unexpected char"));
    }
    let a: Vec<JsonValue> = Vec::new();
    assert(jv_list(a@) =~= Seq::<JsonView>::empty());
    read_items(b, i + 1, a)
}

fn read_items(b: &[u8], i: usize, a: Vec<JsonValue>) -> (r: Result<(JsonValue, usize), String>)
    requires
        i <= b@.len(),
    ensures
        read_matches(r, array_items(b@, i as int, jv_list(a@))),
    decreases b@.len() - i, 3int,
{
    let mut a = a;
    let i1 = ws_end(b, i);
    proof {
        lemma_skip_ws(b@, i as int);
    }
    if i1 < b.len() && b[i1] == 93 {
        return Ok((JsonValue::Arr(a), i1 + 1));
    }
    let (v, i2) = match read_value(b, i1) {
        Ok(x) => x,
        Err(e) => {
            return Err(e);
        },
    };
    proof {
        lemma_value_advances(b@, i1 as int);
        lemma_skip_ws(b@, i2 as int);
    }
    let ghost a0 = a@;
    let ghost vv = jv(v);
    a.push(v);
    proof {
        lemma_jv_list(a0);
        lemma_jv_list(a@);
        assert(jv_list(a@) =~= jv_list(a0).push(vv));
    }
    let i3 = ws_end(b, i2);
    if i3 < b.len() && b[i3] == 44 {
        read_items(b, i3 + 1, a)
    } else if i3 < b.len() && b[i3] == 93 {
        Ok((JsonValue::Arr(a), i3 + 1))
    } else {
        Err(owned("bad array"))
    }
}

/// Reads a JSON text: one value, with nothing but whitespace after it.
pub fn parse(input: &str) -> (r: Result<JsonValue, String>)
    ensures
        match r {
            Ok(v) => parse_text(vstd::utf8::encode_utf8(input@)) == Ok::<JsonView, Seq<char>>(jv(v)),
            Err(e) => parse_text(vstd::utf8::encode_utf8(input@)) == Err::<JsonView, Seq<char>>(e@),
        },
{
    let b = input.as_bytes();
    let (v, k) = match read_value(b, 0) {
        Ok(x) => x,
        Err(e) => {
            return Err(e);
        },
    };
    proof {
        lemma_value_advances(b@, 0);
    }
    let e = ws_end(b, k);
    if e != b.len() {
        return Err(owned("trailing json"));
    }
    Ok(v)
}

/// The value of the first member with key `k`.
pub open spec fn member(ms: Seq<(Seq<char>, JsonView)>, k: Seq<char>) -> Option<JsonView>
    decreases ms.len(),
{
    if ms.len() == 0 {
        None
    } else if ms[0].0 == k {
        Some(ms[0].1)
    } else {
        member(ms.drop_first(), k)
    }
}

/// The members of an object value.
pub fn obj(v: &JsonValue) -> (r: Option<&Vec<(String, JsonValue)>>)
    ensures
        match r {
            Some(m) => jv(*v) == JsonView::Obj(jv_members(m@)),
            None => !(jv(*v) is Obj),
        },
{
    match v {
        JsonValue::Obj(m) => Some(m),
        _ => None,
    }
}

/// The items of an array value.
pub fn arr(v: &JsonValue) -> (r: Option<&Vec<JsonValue>>)
    ensures
        match r {
            Some(a) => jv(*v) == JsonView::Arr(jv_list(a@)),
            None => !(jv(*v) is Arr),
        },
{
    match v {
        JsonValue::Arr(a) => Some(a),
        _ => None,
    }
}

/// The text of a string value.
pub fn strv(v: &JsonValue) -> (r: Option<&str>)
    ensures
        match r {
            Some(s) => jv(*v) == JsonView::Str(s@),
            None => !(jv(*v) is Str),
        },
{
    match v {
        JsonValue::Str(s) => Some(s.as_str()),
        _ => None,
    }
}

/// The value of the member with key `key`.
pub fn get<'a>(m: &'a Vec<(String, JsonValue)>, key: &str) -> (r: Option<&'a JsonValue>)
    ensures
        match r {
            Some(v) => member(jv_members(m@), key@) == Some(jv(*v)),
            None => member(jv_members(m@), key@) is None,
        },
{
    proof {
        lemma_jv_members(m@);
    }
    let ghost ms = jv_members(m@);
    assert(ms.skip(0) =~= ms);
    let mut i: usize = 0;
    while i < m.len()
        invariant
            i <= m@.len(),
            ms == jv_members(m@),
            ms.len() == m@.len(),
            forall|t: int| 0 <= t < m@.len() ==> #[trigger] ms[t] == (m@[t].0@, jv(m@[t].1)),
            member(ms, key@) == member(ms.skip(i as int), key@),
        decreases m.len() - i,
    {
        assert(ms.skip(i as int)[0] == ms[i as int]);
        if str_eq(m[i].0.as_str(), key) {
            return Some(&m[i].1);
        }
        assert(ms.skip(i as int).drop_first() =~= ms.skip(i + 1));
        i = i + 1;
    }
    None
}
} // verus!
