//! Text primitives shared by the whole library: conversion between `&str`
//! and character vectors, substring search, splitting, trimming, ordering,
//! and decimal rendering, each with a specification over `Seq<char>`.
use vstd::prelude::*;

verus! {

// ---------------------------------------------------------------------------
// Conversions
// ---------------------------------------------------------------------------

/// Appends one character to a `String` (std `String::push`).
#[verifier::external_body]
pub(crate) fn push_char(s: &mut String, c: char)
    ensures
        final(s)@ == old(s)@.push(c),
{
    s.push(c);
}

/// The characters of `s`, in order.
pub fn chars_of(s: &str) -> (v: Vec<char>)
    ensures
        v@ == s@,
{
    let mut v: Vec<char> = Vec::new();
    for c in it: s.chars()
        invariant
            v@ == it.seq().take(it.index() as int),
            it.seq() == s@,
    {
        v.push(c);
    }
    v
}

/// A `String` holding exactly the characters of `v`.
pub fn string_of(v: &[char]) -> (s: String)
    ensures
        s@ == v@,
{
    let mut s = String::new();
    let mut i: usize = 0;
    while i < v.len()
        invariant
            i <= v@.len(),
            s@ == v@.take(i as int),
        decreases v.len() - i,
    {
        push_char(&mut s, v[i]);
        i = i + 1;
        assert(s@ == v@.take(i as int));
    }
    assert(v@.take(v@.len() as int) == v@);
    s
}

/// An owned copy of `s`.
pub fn copy_string(s: &String) -> (r: String)
    ensures
        r@ == s@,
{
    s.clone()
}

/// An owned `String` from a `&str`.
/// The length of a text in UTF-8 bytes.
pub fn byte_len(s: &str) -> (n: usize)
    ensures
        n == vstd::utf8::encode_utf8(s@).len(),
{
    let b = s.as_bytes();
    b.len()
}

pub fn owned(s: &str) -> (r: String)
    ensures
        r@ == s@,
{
    s.to_owned()
}

/// Appends `t` to `s`.
pub fn push_str(s: &mut String, t: &str)
    ensures
        final(s)@ == old(s)@ + t@,
{
    s.append(t);
}

/// Appends the characters of `t` to `s`.
pub fn push_chars(s: &mut String, t: &[char])
    ensures
        final(s)@ == old(s)@ + t@,
{
    let ghost s0 = s@;
    let mut i: usize = 0;
    while i < t.len()
        invariant
            i <= t@.len(),
            s@ == s0 + t@.take(i as int),
        decreases t.len() - i,
    {
        push_char(s, t[i]);
        i = i + 1;
        assert(s@ == s0 + t@.take(i as int));
    }
    assert(t@.take(t@.len() as int) == t@);
}

/// The concatenation of two strings.
pub fn concat(a: &str, b: &str) -> (r: String)
    ensures
        r@ == a@ + b@,
{
    let mut r = owned(a);
    push_str(&mut r, b);
    r
}

/// Spec-level view of a sequence of owned strings.
pub open spec fn views(v: Seq<String>) -> Seq<Seq<char>> {
    Seq::new(v.len(), |i: int| v[i]@)
}

/// Copy of a vector of strings, element by element.
pub fn copy_strings(v: &Vec<String>) -> (r: Vec<String>)
    ensures
        views(r@) == views(v@),
{
    let mut r: Vec<String> = Vec::new();
    let mut i: usize = 0;
    while i < v.len()
        invariant
            i <= v@.len(),
            r@.len() == i,
            forall|j: int| 0 <= j < i ==> #[trigger] r@[j]@ == v@[j]@,
        decreases v.len() - i,
    {
        r.push(copy_string(&v[i]));
        i = i + 1;
    }
    assert(views(r@) =~= views(v@));
    r
}

/// Strings built from string literals.
pub fn strings_of(v: &[&str]) -> (r: Vec<String>)
    ensures
        r@.len() == v@.len(),
        forall|j: int| 0 <= j < v@.len() ==> #[trigger] r@[j]@ == v@[j]@,
{
    let mut r: Vec<String> = Vec::new();
    let mut i: usize = 0;
    while i < v.len()
        invariant
            i <= v@.len(),
            r@.len() == i,
            forall|j: int| 0 <= j < i ==> #[trigger] r@[j]@ == v@[j]@,
        decreases v.len() - i,
    {
        r.push(owned(v[i]));
        i = i + 1;
    }
    r
}

// ---------------------------------------------------------------------------
// Equality, prefixes, substrings
// ---------------------------------------------------------------------------

/// Whether two character sequences are equal.
pub fn chars_eq(a: &[char], b: &[char]) -> (r: bool)
    ensures
        r == (a@ == b@),
{
    if a.len() != b.len() {
        return false;
    }
    let mut i: usize = 0;
    while i < a.len()
        invariant
            a@.len() == b@.len(),
            i <= a@.len(),
            forall|j: int| 0 <= j < i ==> a@[j] == b@[j],
        decreases a.len() - i,
    {
        if a[i] != b[i] {
            return false;
        }
        i = i + 1;
    }
    assert(a@ =~= b@);
    true
}

/// Whether two strings are equal.
pub fn str_eq(a: &str, b: &str) -> (r: bool)
    ensures
        r == (a@ == b@),
{
    let va = chars_of(a);
    let vb = chars_of(b);
    chars_eq(&va, &vb)
}

/// `p` is a prefix of `s`.
pub open spec fn has_prefix(s: Seq<char>, p: Seq<char>) -> bool {
    p.len() <= s.len() && s.take(p.len() as int) == p
}

/// `p` is a suffix of `s`.
pub open spec fn has_suffix(s: Seq<char>, p: Seq<char>) -> bool {
    p.len() <= s.len() && s.skip(s.len() - p.len()) == p
}

/// `n` occurs in `h` at position `i`.
pub open spec fn occurs_at(h: Seq<char>, n: Seq<char>, i: int) -> bool {
    0 <= i && i + n.len() <= h.len() && h.subrange(i, i + n.len()) == n
}

/// `n` occurs somewhere in `h`.
pub open spec fn contains_sub(h: Seq<char>, n: Seq<char>) -> bool {
    exists|i: int| occurs_at(h, n, i)
}

/// Whether `p` is a prefix of `s` at offset `at`.
pub fn matches_at(s: &[char], at: usize, p: &[char]) -> (r: bool)
    ensures
        r == occurs_at(s@, p@, at as int),
{
    if at > s.len() || p.len() > s.len() - at {
        return false;
    }
    let mut i: usize = 0;
    while i < p.len()
        invariant
            at + p@.len() <= s@.len(),
            s@.len() == s.len(),
            i <= p@.len(),
            forall|j: int| 0 <= j < i ==> s@[at + j] == p@[j],
        decreases p.len() - i,
    {
        if s[at + i] != p[i] {
            assert(s@.subrange(at as int, at + p@.len())[i as int] != p@[i as int]);
            return false;
        }
        i = i + 1;
    }
    assert(s@.subrange(at as int, at + p@.len()) =~= p@);
    true
}

/// Whether `p` is a prefix of `s`.
pub fn starts_with(s: &[char], p: &[char]) -> (r: bool)
    ensures
        r == has_prefix(s@, p@),
{
    let r = matches_at(s, 0, p);
    proof {
        if r {
            assert(s@.take(p@.len() as int) =~= s@.subrange(0, p@.len() as int));
        } else if p@.len() <= s@.len() {
            assert(s@.take(p@.len() as int) =~= s@.subrange(0, p@.len() as int));
        }
    }
    r
}

/// Whether `p` is a suffix of `s`.
pub fn ends_with(s: &[char], p: &[char]) -> (r: bool)
    ensures
        r == has_suffix(s@, p@),
{
    if p.len() > s.len() {
        return false;
    }
    let r = matches_at(s, s.len() - p.len(), p);
    assert(s@.skip(s@.len() - p@.len()) =~= s@.subrange(s@.len() - p@.len(), s@.len() as int));
    r
}

/// Whether `&str` `s` starts with `p`.
pub fn str_starts_with(s: &str, p: &str) -> (r: bool)
    ensures
        r == has_prefix(s@, p@),
{
    let vs = chars_of(s);
    let vp = chars_of(p);
    starts_with(&vs, &vp)
}

/// The first position at or after `from` where `n` occurs in `h`.
pub fn find_from(h: &[char], n: &[char], from: usize) -> (r: Option<usize>)
    ensures
        r matches Some(i) ==> from <= i && occurs_at(h@, n@, i as int) && forall|j: int|
            from <= j < i ==> !occurs_at(h@, n@, j),
        r is None ==> forall|j: int| from <= j ==> !occurs_at(h@, n@, j),
{
    let mut i = from;
    if from > h.len() {
        return None;
    }
    while i < h.len()
        invariant
            from <= i <= h@.len(),
            forall|j: int| from <= j < i ==> !occurs_at(h@, n@, j),
        decreases h.len() - i,
    {
        if matches_at(h, i, n) {
            return Some(i);
        }
        i = i + 1;
    }
    if matches_at(h, i, n) {
        return Some(i);
    }
    None
}

/// Whether `n` occurs in `h`.
pub fn contains(h: &[char], n: &[char]) -> (r: bool)
    ensures
        r == contains_sub(h@, n@),
{
    match find_from(h, n, 0) {
        Some(_) => true,
        None => false,
    }
}

/// Whether the string `h` contains the literal `n`.
pub fn str_contains(h: &str, n: &str) -> (r: bool)
    ensures
        r == contains_sub(h@, n@),
{
    let vh = chars_of(h);
    let vn = chars_of(n);
    contains(&vh, &vn)
}

/// Whether the character `c` occurs in `s`.
pub fn has_char(s: &[char], c: char) -> (r: bool)
    ensures
        r == s@.contains(c),
{
    let mut i: usize = 0;
    while i < s.len()
        invariant
            i <= s@.len(),
            forall|j: int| 0 <= j < i ==> s@[j] != c,
        decreases s.len() - i,
    {
        if s[i] == c {
            return true;
        }
        i = i + 1;
    }
    false
}

// ---------------------------------------------------------------------------
// Character classes
// ---------------------------------------------------------------------------

/// Unicode `White_Space` property, as used by `char::is_whitespace` and `str::trim`.
pub open spec fn is_ws(c: char) -> bool {
    let u = c as u32;
    (0x9 <= u && u <= 0xd) || u == 0x20 || u == 0x85 || u == 0xa0 || u == 0x1680 || (0x2000 <= u
        && u <= 0x200a) || u == 0x2028 || u == 0x2029 || u == 0x202f || u == 0x205f || u == 0x3000
}

/// Whether `c` is a Unicode whitespace character.
pub fn char_is_ws(c: char) -> (r: bool)
    ensures
        r == is_ws(c),
{
    let u = c as u32;
    (0x9 <= u && u <= 0xd) || u == 0x20 || u == 0x85 || u == 0xa0 || u == 0x1680 || (0x2000 <= u
        && u <= 0x200a) || u == 0x2028 || u == 0x2029 || u == 0x202f || u == 0x205f || u == 0x3000
}

/// Unicode general category `Cc` (`char::is_control`).
pub open spec fn is_control(c: char) -> bool {
    let u = c as u32;
    u <= 0x1f || (0x7f <= u && u <= 0x9f)
}

/// Whether `c` is a control character.
pub fn char_is_control(c: char) -> (r: bool)
    ensures
        r == is_control(c),
{
    let u = c as u32;
    u <= 0x1f || (0x7f <= u && u <= 0x9f)
}

/// ASCII lowercase of one character.
pub open spec fn ascii_lower(c: char) -> char {
    if 'A' <= c && c <= 'Z' {
        ((c as u32) + 32) as char
    } else {
        c
    }
}

/// ASCII lowercase of a sequence (`str::to_ascii_lowercase`).
pub open spec fn ascii_lower_seq(s: Seq<char>) -> Seq<char> {
    Seq::new(s.len(), |i: int| ascii_lower(s[i]))
}

/// ASCII lowercase of a string.
pub fn to_ascii_lower(s: &[char]) -> (r: Vec<char>)
    ensures
        r@ == ascii_lower_seq(s@),
{
    let mut r: Vec<char> = Vec::new();
    let mut i: usize = 0;
    while i < s.len()
        invariant
            i <= s@.len(),
            r@ == ascii_lower_seq(s@).take(i as int),
        decreases s.len() - i,
    {
        let c = s[i];
        let l = if 'A' <= c && c <= 'Z' {
            let u = (c as u32) + 32;
            assert(0x61 <= u <= 0x7a);
            char_from_ascii(u)
        } else {
            c
        };
        r.push(l);
        i = i + 1;
        assert(r@ =~= ascii_lower_seq(s@).take(i as int));
    }
    assert(ascii_lower_seq(s@).take(s@.len() as int) =~= ascii_lower_seq(s@));
    r
}

/// The character with ASCII code `u`.
pub fn char_from_ascii(u: u32) -> (c: char)
    requires
        u < 128,
    ensures
        c as u32 == u,
{
    let b: u8 = u as u8;
    b as char
}

/// Whether a character is ASCII alphanumeric.
pub open spec fn is_ascii_alnum(c: char) -> bool {
    ('0' <= c && c <= '9') || ('a' <= c && c <= 'z') || ('A' <= c && c <= 'Z')
}

// ---------------------------------------------------------------------------
// Trimming
// ---------------------------------------------------------------------------

/// Index of the first non-whitespace character (or `s.len()`).
pub open spec fn trim_start_index(s: Seq<char>) -> int
    decreases s.len(),
{
    if s.len() == 0 {
        0
    } else if is_ws(s[0]) {
        1 + trim_start_index(s.drop_first())
    } else {
        0
    }
}

/// Index one past the last non-whitespace character (or 0).
pub open spec fn trim_end_index(s: Seq<char>) -> int
    decreases s.len(),
{
    if s.len() == 0 {
        0
    } else if is_ws(s.last()) {
        trim_end_index(s.drop_last())
    } else {
        s.len() as int
    }
}

/// `str::trim_start`.
pub open spec fn trim_start(s: Seq<char>) -> Seq<char> {
    s.skip(trim_start_index(s))
}

/// `str::trim_end`.
pub open spec fn trim_end(s: Seq<char>) -> Seq<char> {
    s.take(trim_end_index(s))
}

/// `str::trim`.
pub open spec fn trim(s: Seq<char>) -> Seq<char> {
    trim_end(trim_start(s))
}

pub proof fn lemma_trim_start_index(s: Seq<char>)
    ensures
        0 <= trim_start_index(s) <= s.len(),
        forall|j: int| 0 <= j < trim_start_index(s) ==> is_ws(#[trigger] s[j]),
        trim_start_index(s) < s.len() ==> !is_ws(s[trim_start_index(s)]),
    decreases s.len(),
{
    if s.len() > 0 && is_ws(s[0]) {
        lemma_trim_start_index(s.drop_first());
        assert forall|j: int| 0 <= j < trim_start_index(s) implies is_ws(#[trigger] s[j]) by {
            if j > 0 {
                assert(s[j] == s.drop_first()[j - 1]);
            }
        }
    }
}

pub proof fn lemma_trim_end_index(s: Seq<char>)
    ensures
        0 <= trim_end_index(s) <= s.len(),
        forall|j: int| trim_end_index(s) <= j < s.len() ==> is_ws(#[trigger] s[j]),
        trim_end_index(s) > 0 ==> !is_ws(s[trim_end_index(s) - 1]),
    decreases s.len(),
{
    if s.len() > 0 && is_ws(s.last()) {
        lemma_trim_end_index(s.drop_last());
        assert forall|j: int| trim_end_index(s) <= j < s.len() implies is_ws(#[trigger] s[j]) by {
            if j < s.len() - 1 {
                assert(s[j] == s.drop_last()[j]);
            }
        }
    }
}

/// Characterization of the start index by its two properties.
pub proof fn lemma_trim_start_unique(s: Seq<char>, k: int)
    requires
        0 <= k <= s.len(),
        forall|j: int| 0 <= j < k ==> is_ws(#[trigger] s[j]),
        k < s.len() ==> !is_ws(s[k]),
    ensures
        trim_start_index(s) == k,
{
    lemma_trim_start_index(s);
    let t = trim_start_index(s);
    if t < k {
        assert(is_ws(s[t]));
    } else if k < t {
        assert(is_ws(s[k]));
    }
}

/// Characterization of the end index by its two properties.
pub proof fn lemma_trim_end_unique(s: Seq<char>, k: int)
    requires
        0 <= k <= s.len(),
        forall|j: int| k <= j < s.len() ==> is_ws(#[trigger] s[j]),
        k > 0 ==> !is_ws(s[k - 1]),
    ensures
        trim_end_index(s) == k,
{
    lemma_trim_end_index(s);
    let t = trim_end_index(s);
    if t < k {
        assert(is_ws(s[k - 1]));
    } else if k < t {
        assert(is_ws(s[t - 1]));
    }
}

/// `str::trim_start` of a character slice.
pub fn trim_start_chars(s: &[char]) -> (r: Vec<char>)
    ensures
        r@ == trim_start(s@),
{
    let mut a: usize = 0;
    while a < s.len() && char_is_ws(s[a])
        invariant
            a <= s@.len(),
            forall|j: int| 0 <= j < a ==> is_ws(#[trigger] s@[j]),
        decreases s.len() - a,
    {
        a = a + 1;
    }
    proof {
        lemma_trim_start_unique(s@, a as int);
    }
    let r = copy_range(s, a, s.len());
    assert(r@ =~= trim_start(s@));
    r
}

/// `str::trim` of a character slice.
pub fn trim_chars(s: &[char]) -> (r: Vec<char>)
    ensures
        r@ == trim(s@),
{
    let mut a: usize = 0;
    while a < s.len() && char_is_ws(s[a])
        invariant
            a <= s@.len(),
            forall|j: int| 0 <= j < a ==> is_ws(#[trigger] s@[j]),
        decreases s.len() - a,
    {
        a = a + 1;
    }
    proof {
        lemma_trim_start_unique(s@, a as int);
    }
    let ghost t = s@.skip(a as int);
    let mut b: usize = s.len();
    while b > a && char_is_ws(s[b - 1])
        invariant
            a <= b <= s@.len(),
            forall|j: int| b <= j < s@.len() ==> is_ws(#[trigger] s@[j]),
        decreases b,
    {
        b = b - 1;
    }
    proof {
        assert forall|j: int| b - a <= j < t.len() implies is_ws(#[trigger] t[j]) by {
            assert(t[j] == s@[j + a]);
        }
        if b > a {
            assert(t[b - a - 1] == s@[b - 1]);
        }
        lemma_trim_end_unique(t, b - a);
    }
    let mut r: Vec<char> = Vec::new();
    let mut i = a;
    while i < b
        invariant
            a <= i <= b <= s@.len(),
            r@ == s@.subrange(a as int, i as int),
        decreases b - i,
    {
        r.push(s[i]);
        i = i + 1;
        assert(r@ =~= s@.subrange(a as int, i as int));
    }
    assert(r@ =~= trim(s@));
    r
}

/// `str::trim` of a string.
pub fn str_trim(s: &str) -> (r: Vec<char>)
    ensures
        r@ == trim(s@),
{
    let v = chars_of(s);
    trim_chars(&v)
}

/// Whether `trim(s)` is empty, that is `s` is blank.
pub fn is_blank(s: &str) -> (r: bool)
    ensures
        r == (trim(s@).len() == 0),
{
    let t = str_trim(s);
    t.len() == 0
}

// ---------------------------------------------------------------------------
// Splitting
// ---------------------------------------------------------------------------

/// The pieces of `s` between separators (`str::split` with a predicate):
/// always one more piece than there are separators.
pub open spec fn pieces(s: Seq<char>, sep: spec_fn(char) -> bool) -> Seq<Seq<char>>
    decreases s.len(),
{
    if s.len() == 0 {
        seq![Seq::<char>::empty()]
    } else {
        let p = pieces(s.drop_last(), sep);
        if sep(s.last()) {
            p.push(Seq::<char>::empty())
        } else {
            p.update(p.len() - 1, p.last().push(s.last()))
        }
    }
}

pub proof fn lemma_pieces_len(s: Seq<char>, sep: spec_fn(char) -> bool)
    ensures
        pieces(s, sep).len() >= 1,
    decreases s.len(),
{
    if s.len() > 0 {
        lemma_pieces_len(s.drop_last(), sep);
    }
}

/// One step of `pieces` on a prefix extended by one character.
pub proof fn lemma_pieces_step(s: Seq<char>, i: int, sep: spec_fn(char) -> bool)
    requires
        0 <= i < s.len(),
    ensures
        pieces(s.take(i + 1), sep) == ({
            let p = pieces(s.take(i), sep);
            if sep(s[i]) {
                p.push(Seq::<char>::empty())
            } else {
                p.update(p.len() - 1, p.last().push(s[i]))
            }
        }),
{
    assert(s.take(i + 1).drop_last() =~= s.take(i));
}

/// Separator predicate "is the character `c`".
pub open spec fn is_char(c: char) -> spec_fn(char) -> bool {
    |x: char| x == c
}

/// `str::split(c)` on a character.
pub open spec fn split_on(s: Seq<char>, c: char) -> Seq<Seq<char>> {
    pieces(s, is_char(c))
}

/// Views of a vector of character vectors.
pub open spec fn vviews(v: Seq<Vec<char>>) -> Seq<Seq<char>> {
    Seq::new(v.len(), |i: int| v[i]@)
}

/// `s.split(c)`.
pub fn split_char(s: &[char], c: char) -> (r: Vec<Vec<char>>)
    ensures
        vviews(r@) == split_on(s@, c),
{
    let mut out: Vec<Vec<char>> = Vec::new();
    let mut cur: Vec<char> = Vec::new();
    let mut i: usize = 0;
    proof {
        assert(s@.take(0) =~= Seq::<char>::empty());
        assert(vviews(out@).push(cur@) =~= split_on(s@.take(0), c));
    }
    while i < s.len()
        invariant
            i <= s@.len(),
            vviews(out@).push(cur@) == split_on(s@.take(i as int), c),
        decreases s.len() - i,
    {
        proof {
            lemma_pieces_step(s@, i as int, is_char(c));
        }
        let ghost before = vviews(out@);
        if s[i] == c {
            let done = cur;
            out.push(done);
            cur = Vec::new();
            assert(vviews(out@) =~= before.push(done@));
        } else {
            cur.push(s[i]);
            assert(vviews(out@) =~= before);
        }
        i = i + 1;
        assert(vviews(out@).push(cur@) =~= split_on(s@.take(i as int), c));
    }
    assert(s@.take(s@.len() as int) =~= s@);
    let ghost before = vviews(out@);
    out.push(cur);
    assert(vviews(out@) =~= before.push(cur@));
    out
}

/// Removes one trailing `'\r'`, if any.
pub open spec fn strip_cr(l: Seq<char>) -> Seq<char> {
    if l.len() > 0 && l.last() == '\r' {
        l.drop_last()
    } else {
        l
    }
}

/// `str::lines`: split at `'\n'`, strip a `'\r'` before each `'\n'`, and
/// drop the empty piece after a final line ending.
pub open spec fn lines(s: Seq<char>) -> Seq<Seq<char>> {
    let p = split_on(s, '\n');
    let body = Seq::new((p.len() - 1) as nat, |i: int| strip_cr(p[i]));
    if p.last().len() > 0 {
        body.push(p.last())
    } else {
        body
    }
}

/// `str::lines` of a character slice.
pub fn lines_of(s: &[char]) -> (r: Vec<Vec<char>>)
    ensures
        vviews(r@) == lines(s@),
{
    let parts = split_char(s, '\n');
    proof {
        lemma_pieces_len(s@, is_char('\n'));
    }
    let n = parts.len();
    let mut r: Vec<Vec<char>> = Vec::new();
    let mut i: usize = 0;
    let ghost p = split_on(s@, '\n');
    assert(vviews(r@) =~= Seq::new(0 as nat, |j: int| strip_cr(p[j])));
    while i + 1 < n
        invariant
            n == parts@.len(),
            n >= 1,
            vviews(parts@) == p,
            i + 1 <= n,
            vviews(r@) == Seq::new(i as nat, |j: int| strip_cr(p[j])),
        decreases n - i,
    {
        let l = &parts[i];
        let ghost lv = p[i as int];
        assert(l@ == lv);
        let mut c: Vec<char> = Vec::new();
        let k = if l.len() > 0 && l[l.len() - 1] == '\r' {
            l.len() - 1
        } else {
            l.len()
        };
        let mut j: usize = 0;
        while j < k
            invariant
                k <= l@.len(),
                j <= k,
                c@ == l@.take(j as int),
            decreases k - j,
        {
            c.push(l[j]);
            j = j + 1;
            assert(c@ =~= l@.take(j as int));
        }
        proof {
            if l@.len() > 0 && l@.last() == '\r' {
                assert(k == l@.len() - 1);
                assert(c@ =~= l@.drop_last());
            } else {
                assert(c@ =~= l@);
            }
        }
        assert(c@ =~= strip_cr(lv));
        let ghost before = vviews(r@);
        let ghost cv = c@;
        r.push(c);
        assert(vviews(r@) =~= before.push(cv));
        i = i + 1;
        assert(vviews(r@) =~= Seq::new(i as nat, |j: int| strip_cr(p[j])));
    }
    let last = &parts[n - 1];
    assert(last@ == p.last());
    if last.len() > 0 {
        let ghost before = vviews(r@);
        let mut c: Vec<char> = Vec::new();
        let mut j: usize = 0;
        while j < last.len()
            invariant
                j <= last@.len(),
                c@ == last@.take(j as int),
            decreases last.len() - j,
        {
            c.push(last[j]);
            j = j + 1;
            assert(c@ =~= last@.take(j as int));
        }
        assert(c@ =~= last@);
        r.push(c);
        assert(vviews(r@) =~= before.push(p.last()));
    }
    r
}

/// `str::lines` of a string.
pub fn str_lines(s: &str) -> (r: Vec<Vec<char>>)
    ensures
        vviews(r@) == lines(s@),
{
    let v = chars_of(s);
    lines_of(&v)
}

// ---------------------------------------------------------------------------
// Ordering
// ---------------------------------------------------------------------------

/// Lexicographic order on character sequences (the order of `String`).
pub open spec fn lex_lt(a: Seq<char>, b: Seq<char>) -> bool
    decreases a.len(),
{
    if a.len() == 0 {
        b.len() > 0
    } else if b.len() == 0 {
        false
    } else if a[0] != b[0] {
        a[0] < b[0]
    } else {
        lex_lt(a.drop_first(), b.drop_first())
    }
}

pub proof fn lemma_lex_irreflexive(a: Seq<char>)
    ensures
        !lex_lt(a, a),
    decreases a.len(),
{
    if a.len() > 0 {
        lemma_lex_irreflexive(a.drop_first());
    }
}

pub proof fn lemma_lex_total(a: Seq<char>, b: Seq<char>)
    ensures
        a != b ==> (lex_lt(a, b) || lex_lt(b, a)),
        !(lex_lt(a, b) && lex_lt(b, a)),
    decreases a.len(),
{
    if a.len() > 0 && b.len() > 0 {
        lemma_lex_total(a.drop_first(), b.drop_first());
        if a[0] == b[0] && a != b {
            assert(a.drop_first() != b.drop_first()) by {
                if a.drop_first() == b.drop_first() {
                    assert forall|i: int| 0 <= i < a.len() implies a[i] == b[i] by {
                        if i > 0 {
                            assert(a[i] == a.drop_first()[i - 1]);
                            assert(b[i] == b.drop_first()[i - 1]);
                        }
                    }
                    assert(a =~= b);
                }
            }
        }
    } else if a.len() == 0 && b.len() == 0 {
        assert(a =~= b);
    }
}

pub proof fn lemma_lex_transitive(a: Seq<char>, b: Seq<char>, c: Seq<char>)
    requires
        lex_lt(a, b),
        lex_lt(b, c),
    ensures
        lex_lt(a, c),
    decreases a.len(),
{
    if a.len() > 0 && b.len() > 0 && c.len() > 0 {
        if a[0] == b[0] && b[0] == c[0] {
            lemma_lex_transitive(a.drop_first(), b.drop_first(), c.drop_first());
        }
    }
}

/// Whether `a` sorts strictly before `b`.
pub fn chars_lt(a: &[char], b: &[char]) -> (r: bool)
    ensures
        r == lex_lt(a@, b@),
{
    let mut i: usize = 0;
    assert(a@.skip(0) =~= a@);
    assert(b@.skip(0) =~= b@);
    while i < a.len() && i < b.len()
        invariant
            i <= a@.len(),
            i <= b@.len(),
            a@.take(i as int) == b@.take(i as int),
            lex_lt(a@, b@) == lex_lt(a@.skip(i as int), b@.skip(i as int)),
        decreases a.len() - i,
    {
        if a[i] != b[i] {
            assert(a@.skip(i as int)[0] == a@[i as int]);
            assert(b@.skip(i as int)[0] == b@[i as int]);
            return a[i] < b[i];
        }
        assert(a@.skip(i as int).drop_first() =~= a@.skip(i + 1));
        assert(b@.skip(i as int).drop_first() =~= b@.skip(i + 1));
        i = i + 1;
        assert(a@.take(i as int) =~= b@.take(i as int)) by {
            assert(a@.take(i as int) =~= a@.take(i - 1).push(a@[i - 1]));
            assert(b@.take(i as int) =~= b@.take(i - 1).push(b@[i - 1]));
        }
    }
    i < b.len()
}

/// Strictly increasing under `lex_lt` (hence without duplicates).
pub open spec fn strictly_sorted(s: Seq<Seq<char>>) -> bool {
    forall|i: int, j: int| 0 <= i < j < s.len() ==> lex_lt(#[trigger] s[i], #[trigger] s[j])
}

/// Whether the string `a` sorts strictly before the characters `b`.
pub fn string_lt_chars(a: &String, b: &Vec<char>) -> (r: bool)
    ensures
        r == lex_lt(a@, b@),
{
    let av = chars_of(a.as_str());
    chars_lt(&av, b)
}

/// Inserts `x` into a strictly sorted vector of strings unless it is present;
/// the result is the sorted vector of the union (a `BTreeSet` insertion).
pub fn sorted_insert(v: &mut Vec<String>, x: String)
    requires
        strictly_sorted(views(old(v)@)),
    ensures
        strictly_sorted(views(final(v)@)),
        views(final(v)@).to_set() == views(old(v)@).to_set().insert(x@),
{
    let ghost old_v = views(v@);
    let xv = chars_of(x.as_str());
    let mut k: usize = 0;
    while k < v.len() && string_lt_chars(&v[k], &xv)
        invariant
            k <= v@.len(),
            views(v@) == old_v,
            xv@ == x@,
            forall|j: int| 0 <= j < k ==> lex_lt(#[trigger] old_v[j], x@),
        decreases v.len() - k,
    {
        assert(old_v[k as int] == v@[k as int]@);
        k = k + 1;
    }
    if k < v.len() {
        let cv = chars_of(v[k].as_str());
        if chars_eq(&cv, &xv) {
            assert(old_v[k as int] == x@);
            assert(old_v.to_set().insert(x@) =~= old_v.to_set());
            return;
        }
        proof {
            assert(old_v[k as int] == v@[k as int]@);
            lemma_lex_total(old_v[k as int], x@);
        }
    }
    v.insert(k, x);
    proof {
        let nv = views(v@);
        assert(nv =~= old_v.insert(k as int, x@));
        assert forall|i: int, j: int| 0 <= i < j < nv.len() implies lex_lt(
            #[trigger] nv[i],
            #[trigger] nv[j],
        ) by {
            if j < k {
                assert(nv[i] == old_v[i] && nv[j] == old_v[j]);
            } else if j == k {
                assert(nv[i] == old_v[i]);
            } else if i == k {
                assert(nv[j] == old_v[j - 1]);
                if j - 1 > k {
                    lemma_lex_transitive(x@, old_v[k as int], old_v[j - 1]);
                }
            } else if i < k {
                assert(nv[j] == old_v[j - 1]);
                assert(nv[i] == old_v[i]);
            } else {
                assert(nv[j] == old_v[j - 1]);
                assert(nv[i] == old_v[i - 1]);
            }
        }
        assert(nv.to_set() =~= old_v.to_set().insert(x@)) by {
            assert forall|e: Seq<char>| nv.to_set().contains(e) implies old_v.to_set().insert(
                x@,
            ).contains(e) by {
                let i = choose|i: int| 0 <= i < nv.len() && nv[i] == e;
                if i < k {
                    assert(old_v[i] == e);
                } else if i > k {
                    assert(old_v[i - 1] == e);
                }
            }
            assert forall|e: Seq<char>| old_v.to_set().insert(x@).contains(e) implies nv.to_set().contains(
                e,
            ) by {
                if e == x@ {
                    assert(nv[k as int] == e);
                } else {
                    let i = choose|i: int| 0 <= i < old_v.len() && old_v[i] == e;
                    if i < k {
                        assert(nv[i] == e);
                    } else {
                        assert(nv[i + 1] == e);
                    }
                }
            }
        }
    }
}

/// A strictly sorted sequence is determined by its set of elements.
pub proof fn lemma_sorted_unique(a: Seq<Seq<char>>, b: Seq<Seq<char>>)
    requires
        strictly_sorted(a),
        strictly_sorted(b),
        a.to_set() == b.to_set(),
    ensures
        a == b,
    decreases a.len() + b.len(),
{
    if a.len() == 0 {
        if b.len() > 0 {
            assert(b.to_set().contains(b[0]));
        }
        assert(b =~= a);
    } else if b.len() == 0 {
        assert(a.to_set().contains(a[0]));
    } else {
        // the first elements are both the minimum of the common set
        assert(a.to_set().contains(a[0]));
        assert(b.to_set().contains(b[0]));
        let ia = choose|i: int| 0 <= i < a.len() && a[i] == b[0];
        let ib = choose|i: int| 0 <= i < b.len() && b[i] == a[0];
        if ia > 0 {
            assert(lex_lt(a[0], a[ia]));
            if ib > 0 {
                assert(lex_lt(b[0], b[ib]));
                lemma_lex_total(a[0], b[0]);
            }
        } else if ib > 0 {
            assert(lex_lt(b[0], b[ib]));
            lemma_lex_total(a[0], b[0]);
        }
        assert(a[0] == b[0]) by {
            if ia > 0 && ib > 0 {
                lemma_lex_total(a[0], b[0]);
            }
        }
        let ta = a.drop_first();
        let tb = b.drop_first();
        assert(ta.to_set() =~= tb.to_set()) by {
            assert forall|e: Seq<char>| ta.to_set().contains(e) implies tb.to_set().contains(e) by {
                let i = choose|i: int| 0 <= i < ta.len() && ta[i] == e;
                assert(a[i + 1] == e);
                assert(lex_lt(a[0], e));
                lemma_lex_irreflexive(e);
                assert(b.to_set().contains(e));
                let j = choose|j: int| 0 <= j < b.len() && b[j] == e;
                assert(j != 0);
                assert(tb[j - 1] == e);
            }
            assert forall|e: Seq<char>| tb.to_set().contains(e) implies ta.to_set().contains(e) by {
                let i = choose|i: int| 0 <= i < tb.len() && tb[i] == e;
                assert(b[i + 1] == e);
                assert(lex_lt(b[0], e));
                lemma_lex_irreflexive(e);
                assert(a.to_set().contains(e));
                let j = choose|j: int| 0 <= j < a.len() && a[j] == e;
                assert(j != 0);
                assert(ta[j - 1] == e);
            }
        }
        lemma_sorted_unique(ta, tb);
        assert(a =~= b) by {
            assert forall|i: int| 0 <= i < a.len() implies a[i] == b[i] by {
                if i > 0 {
                    assert(ta[i - 1] == tb[i - 1]);
                }
            }
        }
    }
}

// ---------------------------------------------------------------------------
// Numbers
// ---------------------------------------------------------------------------

/// The ASCII digit for `d < 10`.
pub open spec fn digit(d: nat) -> char {
    ((d + 48) as u32) as char
}

/// Decimal rendering of a natural number (`format!("{}", n)`).
pub open spec fn dec(n: nat) -> Seq<char>
    decreases n,
{
    if n < 10 {
        seq![digit(n)]
    } else {
        dec(n / 10).push(digit(n % 10))
    }
}

/// Appends the decimal rendering of `n` to `s`.
pub fn push_dec(s: &mut String, n: u64)
    ensures
        final(s)@ == old(s)@ + dec(n as nat),
    decreases n,
{
    if n >= 10 {
        push_dec(s, n / 10);
    }
    let d = (n % 10) as u32 + 48;
    push_char(s, char_from_ascii(d));
    assert(s@ =~= old(s)@ + dec(n as nat));
}

/// Appends the decimal rendering of a 128-bit `n` to `s`.
pub fn push_dec_u128(s: &mut String, n: u128)
    ensures
        final(s)@ == old(s)@ + dec(n as nat),
    decreases n,
{
    if n >= 10 {
        push_dec_u128(s, n / 10);
    }
    let d = (n % 10) as u32 + 48;
    push_char(s, char_from_ascii(d));
    assert(s@ =~= old(s)@ + dec(n as nat));
}

/// Decimal rendering of an integer, with a leading `-` when negative.
pub open spec fn int_text(i: int) -> Seq<char> {
    if i < 0 {
        "-"@ + dec((-i) as nat)
    } else {
        dec(i as nat)
    }
}

/// Appends the decimal rendering of a signed `n` to `s`.
pub fn push_int(s: &mut String, n: i64)
    ensures
        final(s)@ == old(s)@ + int_text(n as int),
{
    if n < 0 {
        push_str(s, "-");
        let m: u64 = if n == i64::MIN {
            9223372036854775808u64
        } else {
            (-n) as u64
        };
        push_dec(s, m);
    } else {
        push_dec(s, n as u64);
    }
}

/// What `String::from_utf8_lossy` makes of some bytes: a function of the
/// bytes alone.
pub uninterp spec fn lossy_text(b: Seq<u8>) -> Seq<char>;

/// `String::from_utf8_lossy(b).to_string()`.
#[verifier::external_body]
pub(crate) fn utf8_lossy(b: &[u8]) -> (r: String)
    ensures
        r@ == lossy_text(b@),
{
    String::from_utf8_lossy(b).to_string()
}

/// Decimal rendering of `n` as a new string.
pub fn dec_string(n: u64) -> (s: String)
    ensures
        s@ == dec(n as nat),
{
    let mut s = String::new();
    push_dec(&mut s, n);
    assert(s@ =~= dec(n as nat));
    s
}

/// `format!("{}", b)` for a boolean.
pub open spec fn bool_text(b: bool) -> Seq<char> {
    if b {
        "true"@
    } else {
        "false"@
    }
}

/// Appends `true` or `false`.
pub fn push_bool(s: &mut String, b: bool)
    ensures
        final(s)@ == old(s)@ + bool_text(b),
{
    if b {
        push_str(s, "true");
    } else {
        push_str(s, "false");
    }
}

/// Lowercase hexadecimal digit for `d < 16`.
pub open spec fn hex_digit(d: nat) -> char {
    if d < 10 {
        digit(d)
    } else {
        ((d + 87) as u32) as char
    }
}

/// Lowercase hexadecimal rendering (`format!("{:x}", n)`).
pub open spec fn hex(n: nat) -> Seq<char>
    decreases n,
{
    if n < 16 {
        seq![hex_digit(n)]
    } else {
        hex(n / 16).push(hex_digit(n % 16))
    }
}

/// Appends the lowercase hexadecimal rendering of `n`.
pub fn push_hex(s: &mut String, n: u64)
    ensures
        final(s)@ == old(s)@ + hex(n as nat),
    decreases n,
{
    if n >= 16 {
        push_hex(s, n / 16);
    }
    let d = (n % 16) as u32;
    let c = if d < 10 {
        char_from_ascii(d + 48)
    } else {
        char_from_ascii(d + 87)
    };
    push_char(s, c);
    assert(s@ =~= old(s)@ + hex(n as nat));
}

/// Joins strings with a separator (`Vec::join`).
pub open spec fn join(parts: Seq<Seq<char>>, sep: Seq<char>) -> Seq<char>
    decreases parts.len(),
{
    if parts.len() == 0 {
        Seq::empty()
    } else if parts.len() == 1 {
        parts[0]
    } else {
        join(parts.drop_last(), sep) + sep + parts.last()
    }
}

/// `parts.join(sep)`.
pub fn join_strings(parts: &Vec<String>, sep: &str) -> (r: String)
    ensures
        r@ == join(views(parts@), sep@),
{
    let mut r = String::new();
    let mut i: usize = 0;
    while i < parts.len()
        invariant
            i <= parts@.len(),
            r@ == join(views(parts@).take(i as int), sep@),
        decreases parts.len() - i,
    {
        if i > 0 {
            push_str(&mut r, sep);
        }
        push_str(&mut r, parts[i].as_str());
        i = i + 1;
        assert(views(parts@).take(i as int).drop_last() =~= views(parts@).take(i - 1));
    }
    assert(views(parts@).take(parts@.len() as int) =~= views(parts@));
    r
}

// ---------------------------------------------------------------------------
// Unicode case and classes from std
// ---------------------------------------------------------------------------

/// What `str::to_lowercase` returns for a string (full Unicode lowercase mapping).
pub uninterp spec fn lowercase(s: Seq<char>) -> Seq<char>;

/// The text holds ASCII characters only.
pub open spec fn all_ascii(s: Seq<char>) -> bool {
    forall|i: int| 0 <= i < s.len() ==> (s[i] as u32) < 128
}

/// `str::to_lowercase`: the Unicode lowercase of `s`, a function of `s` alone.
/// On ASCII text it maps `A`..`Z` to `a`..`z` and keeps every other
/// character, as the Unicode lowercase mapping that its documentation cites
/// does for ASCII (the same result as `str::to_ascii_lowercase`).
#[verifier::external_body]
pub(crate) fn to_lowercase(s: &str) -> (r: String)
    ensures
        r@ == lowercase(s@),
        all_ascii(s@) ==> r@ == ascii_lower_seq(s@),
{
    s.to_lowercase()
}

/// What `char::is_alphanumeric` answers (Unicode `Alphabetic` or `Numeric`).
pub uninterp spec fn alphanumeric(c: char) -> bool;

/// `char::is_alphanumeric`; on ASCII it holds exactly of letters and digits,
/// as its documentation states.
#[verifier::external_body]
pub(crate) fn char_is_alphanumeric(c: char) -> (r: bool)
    ensures
        r == alphanumeric(c),
        (c as u32) < 128 ==> (r == is_ascii_alnum(c)),
{
    c.is_alphanumeric()
}

/// Separator of word tokens: neither alphanumeric nor `'_'`.
pub open spec fn token_sep() -> spec_fn(char) -> bool {
    |c: char| !alphanumeric(c) && c != '_'
}

/// Non-empty pieces.
pub open spec fn nonempty(p: Seq<Seq<char>>) -> Seq<Seq<char>> {
    p.filter(|x: Seq<char>| x.len() > 0)
}

/// Word tokens of a string: lowercase it, split at characters that are
/// neither alphanumeric nor `'_'`, keep the non-empty pieces.
pub open spec fn tokens(s: Seq<char>) -> Seq<Seq<char>> {
    nonempty(pieces(lowercase(s), token_sep()))
}

/// Non-empty pieces of `s` split at token separators.
pub fn split_tokens(s: &[char]) -> (r: Vec<Vec<char>>)
    ensures
        vviews(r@) == nonempty(pieces(s@, token_sep())),
{
    let mut out: Vec<Vec<char>> = Vec::new();
    let mut cur: Vec<char> = Vec::new();
    let mut i: usize = 0;
    proof {
        assert(s@.take(0) =~= Seq::<char>::empty());
        reveal_with_fuel(Seq::filter, 2);
        assert(pieces(s@.take(0), token_sep()).drop_last() =~= Seq::<Seq<char>>::empty());
        assert(nonempty(Seq::<Seq<char>>::empty()) =~= Seq::<Seq<char>>::empty());
    }
    while i < s.len()
        invariant
            i <= s@.len(),
            pieces(s@.take(i as int), token_sep()).len() >= 1,
            vviews(out@) == nonempty(pieces(s@.take(i as int), token_sep()).drop_last()),
            cur@ == pieces(s@.take(i as int), token_sep()).last(),
        decreases s.len() - i,
    {
        proof {
            lemma_pieces_step(s@, i as int, token_sep());
        }
        let ghost p = pieces(s@.take(i as int), token_sep());
        let c = s[i];
        let sep = !char_is_alphanumeric(c) && c != '_';
        if sep {
            let ghost before = vviews(out@);
            proof {
                assert(p.push(Seq::<char>::empty()).drop_last() =~= p);
                assert(p =~= p.drop_last().push(p.last()));
                p.drop_last().lemma_filter_push(p.last(), |x: Seq<char>| x.len() > 0);
            }
            if cur.len() > 0 {
                let done = cur;
                out.push(done);
                assert(vviews(out@) =~= before.push(done@));
            }
            cur = Vec::new();
        } else {
            cur.push(c);
            proof {
                let q = p.update(p.len() - 1, p.last().push(c));
                assert(q.drop_last() =~= p.drop_last());
            }
        }
        i = i + 1;
    }
    assert(s@.take(s@.len() as int) =~= s@);
    let ghost p = pieces(s@, token_sep());
    proof {
        assert(p =~= p.drop_last().push(p.last()));
        p.drop_last().lemma_filter_push(p.last(), |x: Seq<char>| x.len() > 0);
    }
    if cur.len() > 0 {
        let ghost before = vviews(out@);
        let last = cur;
        out.push(last);
        assert(vviews(out@) =~= before.push(last@));
    }
    out
}

/// Word tokens of a string (see `tokens`).
pub fn tokenize(input: &str) -> (r: Vec<Vec<char>>)
    ensures
        vviews(r@) == tokens(input@),
{
    let low = to_lowercase(input);
    let v = chars_of(low.as_str());
    split_tokens(&v)
}

/// Whether `v` holds a vector equal to `x`.
pub fn contains_chars(v: &Vec<Vec<char>>, x: &[char]) -> (r: bool)
    ensures
        r == vviews(v@).contains(x@),
{
    let mut i: usize = 0;
    while i < v.len()
        invariant
            i <= v@.len(),
            forall|j: int| 0 <= j < i ==> v@[j]@ != x@,
        decreases v.len() - i,
    {
        if chars_eq(&v[i], x) {
            assert(vviews(v@)[i as int] == x@);
            return true;
        }
        i = i + 1;
    }
    assert(!vviews(v@).contains(x@)) by {
        if vviews(v@).contains(x@) {
            let j = choose|j: int| 0 <= j < vviews(v@).len() && vviews(v@)[j] == x@;
            assert(v@[j]@ == x@);
        }
    }
    false
}

/// The `k` low hexadecimal digits of `n`, most significant first, zero padded.
pub open spec fn hex_digits(n: nat, k: nat) -> Seq<char>
    decreases k,
{
    if k == 0 {
        Seq::empty()
    } else {
        hex_digits(n / 16, (k - 1) as nat).push(hex_digit(n % 16))
    }
}

/// Appends the `k` low hexadecimal digits of `n` (`{:0k$x}` of a value below `16^k`).
pub fn push_hex_fixed(s: &mut String, n: u64, k: u32)
    ensures
        final(s)@ == old(s)@ + hex_digits(n as nat, k as nat),
    decreases k,
{
    if k > 0 {
        push_hex_fixed(s, n / 16, k - 1);
        let d = (n % 16) as u32;
        let c = if d < 10 {
            char_from_ascii(d + 48)
        } else {
            char_from_ascii(d + 87)
        };
        push_char(s, c);
        assert(s@ =~= old(s)@ + hex_digits(n as nat, k as nat));
    }
}

/// The rest of `s` after the prefix `p`, when `s` starts with `p` (`str::strip_prefix`).
pub open spec fn strip_prefix(s: Seq<char>, p: Seq<char>) -> Option<Seq<char>> {
    if has_prefix(s, p) {
        Some(s.skip(p.len() as int))
    } else {
        None
    }
}

/// The first of `ls` that starts with `p`, without `p`
/// (`ls.find_map(|l| l.strip_prefix(p))`).
pub open spec fn first_stripped(ls: Seq<Seq<char>>, p: Seq<char>) -> Option<Seq<char>>
    decreases ls.len(),
{
    if ls.len() == 0 {
        None
    } else if has_prefix(ls[0], p) {
        Some(ls[0].skip(p.len() as int))
    } else {
        first_stripped(ls.drop_first(), p)
    }
}

/// `s.strip_prefix(p)` on character vectors.
pub fn strip_prefix_chars(s: &[char], p: &[char]) -> (r: Option<Vec<char>>)
    ensures
        match r {
            Some(v) => strip_prefix(s@, p@) == Some(v@),
            None => strip_prefix(s@, p@) is None,
        },
{
    if !starts_with(s, p) {
        return None;
    }
    let mut v: Vec<char> = Vec::new();
    let mut i: usize = p.len();
    while i < s.len()
        invariant
            p@.len() <= i <= s@.len(),
            v@ == s@.subrange(p@.len() as int, i as int),
        decreases s.len() - i,
    {
        v.push(s[i]);
        i = i + 1;
        assert(v@ =~= s@.subrange(p@.len() as int, i as int));
    }
    assert(v@ =~= s@.skip(p@.len() as int));
    Some(v)
}

/// The first line of `ls` starting with `p`, without `p`.
pub fn first_stripped_of(ls: &Vec<Vec<char>>, p: &[char]) -> (r: Option<Vec<char>>)
    ensures
        match r {
            Some(v) => first_stripped(vviews(ls@), p@) == Some(v@),
            None => first_stripped(vviews(ls@), p@) is None,
        },
{
    let ghost all = vviews(ls@);
    let mut i: usize = 0;
    assert(all.skip(0) =~= all);
    while i < ls.len()
        invariant
            i <= ls@.len(),
            all == vviews(ls@),
            first_stripped(all, p@) == first_stripped(all.skip(i as int), p@),
        decreases ls.len() - i,
    {
        assert(all.skip(i as int)[0] == ls@[i as int]@);
        match strip_prefix_chars(&ls[i], p) {
            Some(v) => {
                return Some(v);
            },
            None => {},
        }
        assert(all.skip(i as int).drop_first() =~= all.skip(i + 1));
        i = i + 1;
    }
    assert(all.skip(i as int).len() == 0);
    None
}

/// The views of a list of string slices.
pub open spec fn strs(v: Seq<&str>) -> Seq<Seq<char>> {
    Seq::new(v.len(), |i: int| v[i]@)
}

/// `parts.join(sep)` for string slices.
pub fn join_strs(parts: &Vec<&str>, sep: &str) -> (r: String)
    ensures
        r@ == join(strs(parts@), sep@),
{
    let mut r = String::new();
    let mut i: usize = 0;
    while i < parts.len()
        invariant
            i <= parts@.len(),
            r@ == join(strs(parts@).take(i as int), sep@),
        decreases parts.len() - i,
    {
        if i > 0 {
            push_str(&mut r, sep);
        }
        push_str(&mut r, parts[i]);
        i = i + 1;
        assert(strs(parts@).take(i as int).drop_last() =~= strs(parts@).take(i - 1));
    }
    assert(strs(parts@).take(parts@.len() as int) =~= strs(parts@));
    r
}

// ---------------------------------------------------------------------------
// Splitting and joining laws
// ---------------------------------------------------------------------------

/// The pieces of a concatenation: the last piece of `a` and the first of
/// `b` merge.
pub proof fn lemma_pieces_append(a: Seq<char>, b: Seq<char>, sep: spec_fn(char) -> bool)
    ensures
        pieces(a + b, sep) == pieces(a, sep).drop_last() + seq![pieces(a, sep).last() + pieces(b, sep)[0]]
            + pieces(b, sep).drop_first(),
    decreases b.len(),
{
    lemma_pieces_len(a, sep);
    lemma_pieces_len(b, sep);
    if b.len() == 0 {
        assert(a + b =~= a);
        assert(pieces(b, sep) =~= seq![Seq::<char>::empty()]);
        assert(pieces(a, sep).last() + pieces(b, sep)[0] =~= pieces(a, sep).last());
        assert(pieces(a, sep).drop_last() + seq![pieces(a, sep).last()] =~= pieces(a, sep));
        assert(pieces(b, sep).drop_first() =~= Seq::<Seq<char>>::empty());
        assert(pieces(a, sep).drop_last() + seq![pieces(a, sep).last()] + Seq::<Seq<char>>::empty()
            =~= pieces(a, sep));
    } else {
        let b1 = b.drop_last();
        let c = b.last();
        lemma_pieces_append(a, b1, sep);
        lemma_pieces_len(b1, sep);
        assert((a + b).drop_last() =~= a + b1);
        assert((a + b).last() == c);
        let pa = pieces(a, sep);
        let pb1 = pieces(b1, sep);
        let x = pa.drop_last();
        let l = pa.last();
        if sep(c) {
            assert(pieces(b, sep) == pb1.push(Seq::<char>::empty()));
            assert(pieces(b, sep)[0] == pb1[0]);
            assert(pieces(b, sep).drop_first() =~= pb1.drop_first().push(Seq::<char>::empty()));
            assert(pieces(a + b, sep) =~= x + seq![l + pieces(b, sep)[0]] + pieces(b, sep).drop_first());
        } else {
            let pb = pieces(b, sep);
            assert(pb == pb1.update(pb1.len() - 1, pb1.last().push(c)));
            if pb1.len() == 1 {
                assert(pb[0] == pb1[0].push(c));
                assert(pb.drop_first() =~= Seq::<Seq<char>>::empty());
                assert(pb1.drop_first() =~= Seq::<Seq<char>>::empty());
                assert((l + pb1[0]).push(c) =~= l + pb1[0].push(c));
                assert(pieces(a + b, sep) =~= x + seq![l + pb[0]] + pb.drop_first());
            } else {
                assert(pb[0] == pb1[0]);
                assert(pb.drop_first() =~= pb1.drop_first().update(
                    pb1.len() - 2,
                    pb1.last().push(c),
                ));
                assert(pieces(a + b, sep) =~= x + seq![l + pb[0]] + pb.drop_first());
            }
        }
    }
}

/// Without separators, a text is one piece.
pub proof fn lemma_pieces_none(s: Seq<char>, sep: spec_fn(char) -> bool)
    requires
        forall|i: int| 0 <= i < s.len() ==> !sep(#[trigger] s[i]),
    ensures
        pieces(s, sep) == seq![s],
    decreases s.len(),
{
    if s.len() > 0 {
        assert forall|i: int| 0 <= i < s.drop_last().len() implies !sep(#[trigger] s.drop_last()[i]) by {
            assert(s.drop_last()[i] == s[i]);
        }
        lemma_pieces_none(s.drop_last(), sep);
        assert(!sep(s[s.len() - 1]));
        assert(s.drop_last().push(s.last()) =~= s);
    } else {
        assert(s =~= Seq::<char>::empty());
    }
}

/// Joining the pieces with the separator gives the text back.
pub proof fn lemma_join_pieces(s: Seq<char>, c: char)
    ensures
        join(split_on(s, c), seq![c]) == s,
    decreases s.len(),
{
    lemma_pieces_len(s, is_char(c));
    if s.len() == 0 {
        assert(split_on(s, c) =~= seq![Seq::<char>::empty()]);
        assert(s =~= Seq::<char>::empty());
    } else {
        let s1 = s.drop_last();
        let x = s.last();
        lemma_join_pieces(s1, c);
        lemma_pieces_len(s1, is_char(c));
        let p1 = split_on(s1, c);
        if x == c {
            assert(split_on(s, c) == p1.push(Seq::<char>::empty()));
            assert(split_on(s, c).drop_last() =~= p1);
            assert(join(split_on(s, c), seq![c]) =~= join(p1, seq![c]) + seq![c] + Seq::<char>::empty());
            assert(s =~= s1 + seq![c]);
        } else {
            let p = split_on(s, c);
            assert(p == p1.update(p1.len() - 1, p1.last().push(x)));
            if p1.len() == 1 {
                assert(join(p, seq![c]) == p[0]);
                assert(join(p1, seq![c]) == p1[0]);
                assert(s =~= s1.push(x));
            } else {
                assert(p.drop_last() =~= p1.drop_last());
                assert(join(p, seq![c]) =~= join(p1.drop_last(), seq![c]) + seq![c] + p1.last().push(x));
                assert(join(p1, seq![c]) =~= join(p1.drop_last(), seq![c]) + seq![c] + p1.last());
                assert(s =~= s1.push(x));
            }
        }
    }
}

/// The text holds no `'\r'`.
pub open spec fn no_cr(s: Seq<char>) -> bool {
    forall|i: int| 0 <= i < s.len() ==> s[i] != '\r'
}

/// The text holds no `'\n'`.
pub open spec fn no_nl(s: Seq<char>) -> bool {
    forall|i: int| 0 <= i < s.len() ==> s[i] != '\n'
}

/// The lines of a text that ends with a line break, followed by more text,
/// are the lines of the first part and then those of the rest.
pub proof fn lemma_lines_append(a: Seq<char>, b: Seq<char>)
    requires
        a.len() > 0,
        a.last() == '\n',
    ensures
        lines(a + b) == lines(a) + lines(b),
{
    let sep = is_char('\n');
    lemma_pieces_append(a, b, sep);
    lemma_pieces_len(a, sep);
    lemma_pieces_len(b, sep);
    let pa = split_on(a, '\n');
    let pb = split_on(b, '\n');
    assert(a.drop_last().push('\n') =~= a);
    assert(pa == split_on(a.drop_last(), '\n').push(Seq::<char>::empty()));
    assert(pa.last() =~= Seq::<char>::empty());
    assert(pa.last() + pb[0] =~= pb[0]);
    let p = split_on(a + b, '\n');
    assert(p =~= pa.drop_last() + pb);
    assert(lines(a) =~= Seq::new((pa.len() - 1) as nat, |i: int| strip_cr(pa[i])));
    assert(lines(a + b) =~= lines(a) + lines(b));
}

/// One line without a line break, followed by a line break, is one line.
pub proof fn lemma_lines_single(x: Seq<char>)
    requires
        no_nl(x),
    ensures
        lines(x + seq!['\n']) == seq![strip_cr(x)],
{
    lemma_pieces_none(x, is_char('\n'));
    assert((x + seq!['\n']).drop_last() =~= x);
    assert((x + seq!['\n']).last() == '\n');
    assert(split_on(x + seq!['\n'], '\n') == seq![x].push(Seq::<char>::empty()));
    assert(lines(x + seq!['\n']) =~= seq![strip_cr(x)]);
}

/// Joining the lines of a text without `'\r'` that ends with a line break,
/// and adding the final break, gives the text back.
pub proof fn lemma_join_lines(s: Seq<char>)
    requires
        s.len() > 0,
        s.last() == '\n',
        no_cr(s),
    ensures
        join(lines(s), seq!['\n']) + seq!['\n'] == s,
{
    let s1 = s.drop_last();
    assert(s1.push('\n') =~= s);
    lemma_pieces_len(s1, is_char('\n'));
    let p1 = split_on(s1, '\n');
    assert(split_on(s, '\n') == p1.push(Seq::<char>::empty()));
    lemma_join_pieces(s1, '\n');
    assert forall|i: int| 0 <= i < p1.len() implies strip_cr(#[trigger] p1[i]) == p1[i] by {
        lemma_piece_no_cr(s1, '\n', i);
    }
    assert(lines(s) =~= p1);
    assert(s =~= s1 + seq!['\n']);
}

/// Pieces of a text without `'\r'` hold no `'\r'`.
proof fn lemma_piece_no_cr(s: Seq<char>, c: char, i: int)
    requires
        no_cr(s),
        0 <= i < split_on(s, c).len(),
    ensures
        no_cr(split_on(s, c)[i]),
    decreases s.len(),
{
    lemma_pieces_len(s, is_char(c));
    if s.len() > 0 {
        let s1 = s.drop_last();
        assert forall|k: int| 0 <= k < s1.len() implies s1[k] != '\r' by {
            assert(s1[k] == s[k]);
        }
        lemma_pieces_len(s1, is_char(c));
        let p1 = split_on(s1, c);
        if s.last() == c {
            if i < p1.len() {
                lemma_piece_no_cr(s1, c, i);
            }
        } else {
            if i < p1.len() - 1 {
                lemma_piece_no_cr(s1, c, i);
            } else {
                lemma_piece_no_cr(s1, c, p1.len() - 1);
                assert(s[s.len() - 1] != '\r');
            }
        }
    } else {
        assert(split_on(s, c) =~= seq![Seq::<char>::empty()]);
    }
}

/// Concatenation keeps texts free of `'\r'` and `'\n'`.
pub proof fn lemma_clean_concat(a: Seq<char>, b: Seq<char>)
    ensures
        no_cr(a) && no_cr(b) ==> no_cr(a + b),
        no_nl(a) && no_nl(b) ==> no_nl(a + b),
{
    if no_cr(a) && no_cr(b) {
        assert forall|i: int| 0 <= i < (a + b).len() implies (a + b)[i] != '\r' by {
            if i < a.len() {
                assert((a + b)[i] == a[i]);
            } else {
                assert((a + b)[i] == b[i - a.len()]);
            }
        }
    }
    if no_nl(a) && no_nl(b) {
        assert forall|i: int| 0 <= i < (a + b).len() implies (a + b)[i] != '\n' by {
            if i < a.len() {
                assert((a + b)[i] == a[i]);
            } else {
                assert((a + b)[i] == b[i - a.len()]);
            }
        }
    }
}

/// Decimal digits hold no line break or carriage return.
pub proof fn lemma_dec_clean(n: nat)
    ensures
        no_cr(dec(n)),
        no_nl(dec(n)),
        dec(n).len() > 0,
    decreases n,
{
    if n >= 10 {
        lemma_dec_clean(n / 10);
        lemma_clean_concat(dec(n / 10), seq![digit(n % 10)]);
        assert(dec(n) =~= dec(n / 10) + seq![digit(n % 10)]);
    }
}

/// Hexadecimal digits hold no line break or carriage return.
pub proof fn lemma_hex_clean(n: nat, k: nat)
    ensures
        no_cr(hex_digits(n, k)),
        no_nl(hex_digits(n, k)),
        hex_digits(n, k).len() == k,
    decreases k,
{
    if k > 0 {
        lemma_hex_clean(n / 16, (k - 1) as nat);
        let d = n % 16;
        assert(hex_digit(d) != '\r' && hex_digit(d) != '\n');
        lemma_clean_concat(hex_digits(n / 16, (k - 1) as nat), seq![hex_digit(d)]);
        assert(hex_digits(n, k) =~= hex_digits(n / 16, (k - 1) as nat) + seq![hex_digit(d)]);
    }
}

// ---------------------------------------------------------------------------
// Splitting at a text
// ---------------------------------------------------------------------------

/// The first position where `n` occurs in `h`, if any.
pub open spec fn first_occurrence(h: Seq<char>, n: Seq<char>) -> Option<int> {
    if exists|i: int| occurs_at(h, n, i) {
        Some(
            choose|i: int| occurs_at(h, n, i) && forall|j: int| 0 <= j < i ==> !occurs_at(h, n, j),
        )
    } else {
        None
    }
}

/// `s.split(p)` for a non-empty pattern: the pieces between the
/// occurrences of `p`, found from the left without overlap.
#[verifier::opaque]
pub open spec fn split_str(s: Seq<char>, p: Seq<char>) -> Seq<Seq<char>>
    decreases s.len(),
{
    if p.len() == 0 {
        seq![s]
    } else {
        match first_occurrence(s, p) {
            Some(i) => if 0 <= i && i + p.len() <= s.len() {
                seq![s.take(i)] + split_str(s.skip(i + p.len()), p)
            } else {
                seq![s]
            },
            None => seq![s],
        }
    }
}

proof fn lemma_occurs_shift(s: Seq<char>, p: Seq<char>, pos: int, k: int)
    requires
        0 <= pos <= s.len(),
    ensures
        occurs_at(s.skip(pos), p, k) == (k >= 0 && occurs_at(s, p, pos + k)),
{
    if k >= 0 && k + p.len() <= s.skip(pos).len() {
        assert(s.skip(pos).subrange(k, k + p.len()) =~= s.subrange(pos + k, pos + k + p.len()));
    }
}

/// The first occurrence of `p` at or after `pos`, seen from `s.skip(pos)`.
proof fn lemma_first_occurrence_from(s: Seq<char>, p: Seq<char>, pos: int, r: Option<int>)
    requires
        0 <= pos <= s.len(),
        r matches Some(i) ==> pos <= i && occurs_at(s, p, i) && forall|j: int|
            pos <= j < i ==> !occurs_at(s, p, j),
        r is None ==> forall|j: int| pos <= j ==> !occurs_at(s, p, j),
    ensures
        first_occurrence(s.skip(pos), p) == match r {
            Some(i) => Some(i - pos),
            None => None::<int>,
        },
{
    let t = s.skip(pos);
    match r {
        Some(i) => {
            lemma_occurs_shift(s, p, pos, i - pos);
            assert(occurs_at(t, p, i - pos));
            let c = choose|c: int| occurs_at(t, p, c) && forall|j: int| 0 <= j < c ==> !occurs_at(t, p, j);
            assert forall|j: int| 0 <= j < i - pos implies !occurs_at(t, p, j) by {
                lemma_occurs_shift(s, p, pos, j);
            }
            assert(occurs_at(t, p, c));
            lemma_occurs_shift(s, p, pos, c);
            if c < i - pos {
                assert(!occurs_at(t, p, c));
            } else if c > i - pos {
                assert(!occurs_at(t, p, i - pos));
            }
        },
        None => {
            assert forall|k: int| !occurs_at(t, p, k) by {
                lemma_occurs_shift(s, p, pos, k);
            }
        },
    }
}

/// The characters of `s` from `from` to `to`.
pub fn copy_range(s: &[char], from: usize, to: usize) -> (r: Vec<char>)
    requires
        from <= to <= s@.len(),
    ensures
        r@ == s@.subrange(from as int, to as int),
{
    let mut piece: Vec<char> = Vec::new();
    let mut k: usize = from;
    while k < to
        invariant
            from <= k <= to <= s@.len(),
            piece@ == s@.subrange(from as int, k as int),
        decreases to - k,
    {
        piece.push(s[k]);
        k = k + 1;
        assert(piece@ =~= s@.subrange(from as int, k as int));
    }
    piece
}

proof fn lemma_split_step(s: Seq<char>, p: Seq<char>, pos: int, i: int)
    requires
        p.len() > 0,
        0 <= pos <= i,
        i + p.len() <= s.len(),
        first_occurrence(s.skip(pos), p) == Some(i - pos),
    ensures
        split_str(s.skip(pos), p) == seq![s.subrange(pos, i)] + split_str(s.skip(i + p.len()), p),
{
    reveal(split_str);
    let t = s.skip(pos);
    assert(t.take(i - pos) =~= s.subrange(pos, i));
    assert(t.skip(i - pos + p.len()) =~= s.skip(i + p.len()));
}

proof fn lemma_split_last(s: Seq<char>, p: Seq<char>, pos: int)
    requires
        p.len() > 0,
        0 <= pos <= s.len(),
        first_occurrence(s.skip(pos), p) is None,
    ensures
        split_str(s.skip(pos), p) == seq![s.subrange(pos, s.len() as int)],
{
    reveal(split_str);
    assert(s.skip(pos) =~= s.subrange(pos, s.len() as int));
}

/// The text holds no `c`.
pub open spec fn free_of(s: Seq<char>, c: char) -> bool {
    forall|i: int| 0 <= i < s.len() ==> s[i] != c
}

/// A join of two or more parts is the first part, the separator and the
/// join of the others.
#[verifier::spinoff_prover]
#[verifier::rlimit(40)]
pub proof fn lemma_join_front(parts: Seq<Seq<char>>, sep: Seq<char>)
    requires
        parts.len() >= 2,
    ensures
        join(parts, sep) == parts[0] + sep + join(parts.drop_first(), sep),
    decreases parts.len(),
{
    if parts.len() == 2 {
        assert(parts.drop_last() =~= seq![parts[0]]);
        assert(parts.drop_first() =~= seq![parts[1]]);
        assert(join(parts.drop_last(), sep) == parts[0]);
        assert(join(parts.drop_first(), sep) == parts[1]);
    } else {
        lemma_join_front(parts.drop_last(), sep);
        assert(parts.drop_last().drop_first() =~= parts.drop_first().drop_last());
        assert(parts.drop_first().last() == parts.last());
        assert(parts.drop_last()[0] == parts[0]);
        let j = join(parts.drop_first().drop_last(), sep);
        assert(join(parts.drop_first(), sep) == j + sep + parts.last());
        assert(parts[0] + sep + j + sep + parts.last() =~= parts[0] + sep + (j + sep + parts.last()));
    }
}

/// Splitting at `" | "` the join of parts that hold no `'|'` gives the
/// parts back.
#[verifier::spinoff_prover]
#[verifier::rlimit(40)]
pub proof fn lemma_split_join_bar(parts: Seq<Seq<char>>)
    requires
        parts.len() > 0,
        forall|k: int| 0 <= k < parts.len() ==> free_of(#[trigger] parts[k], '|'),
    ensures
        split_str(join(parts, " | "@), " | "@) == parts,
    decreases parts.len(),
{
    reveal_strlit(" | ");
    let p = " | "@;
    let a = parts[0];
    assert(free_of(a, '|'));
    if parts.len() == 1 {
        assert forall|i: int| !occurs_at(a, p, i) by {
            if occurs_at(a, p, i) {
                assert(a.subrange(i, i + 3)[1] == p[1]);
            }
        }
        lemma_first_occurrence_from(a, p, 0, None);
        lemma_split_last(a, p, 0);
        assert(a.skip(0) =~= a);
        assert(a.subrange(0, a.len() as int) =~= a);
        assert(parts =~= seq![a]);
    } else {
        lemma_join_front(parts, p);
        let rest = join(parts.drop_first(), p);
        let s = a + p + rest;
        let n = a.len() as int;
        assert(s.subrange(n, n + 3) =~= p);
        assert forall|j: int| 0 <= j < n implies !occurs_at(s, p, j) by {
            if occurs_at(s, p, j) {
                assert(s.subrange(j, j + 3)[1] == p[1]);
                assert(s[j + 1] == '|');
                if j + 1 < n {
                    assert(s[j + 1] == a[j + 1]);
                } else {
                    assert(s[j + 1] == p[0]);
                }
            }
        }
        lemma_first_occurrence_from(s, p, 0, Some(n));
        assert(s.skip(0) =~= s);
        lemma_split_step(s, p, 0, n);
        assert(s.subrange(0, n) =~= a);
        assert(s.skip(n + 3) =~= rest);
        assert forall|k: int| 0 <= k < parts.drop_first().len() implies free_of(
            #[trigger] parts.drop_first()[k],
            '|',
        ) by {
            assert(parts.drop_first()[k] == parts[k + 1]);
        }
        lemma_split_join_bar(parts.drop_first());
        assert(seq![a] + parts.drop_first() =~= parts);
    }
}

/// `s.split(p)` for a non-empty pattern.
pub fn split_text(s: &[char], p: &[char]) -> (r: Vec<Vec<char>>)
    requires
        p@.len() > 0,
    ensures
        vviews(r@) == split_str(s@, p@),
{
    let mut out: Vec<Vec<char>> = Vec::new();
    let mut pos: usize = 0;
    let sl = s.len();
    assert(s@.skip(0) =~= s@);
    assert(vviews(out@) + split_str(s@.skip(0), p@) =~= split_str(s@, p@));
    loop
        invariant
            sl == s@.len(),
            p@.len() > 0,
            pos <= s@.len(),
            vviews(out@) + split_str(s@.skip(pos as int), p@) == split_str(s@, p@),
        decreases s@.len() - pos,
    {
        let f = find_from(s, p, pos);
        proof {
            lemma_first_occurrence_from(s@, p@, pos as int, match f {
                Some(i) => Some(i as int),
                None => None::<int>,
            });
        }
        match f {
            Some(i) => {
                assert(occurs_at(s@, p@, i as int));
                let piece = copy_range(s, pos, i);
                proof {
                    lemma_split_step(s@, p@, pos as int, i as int);
                }
                let ghost before = vviews(out@);
                out.push(piece);
                assert(vviews(out@) =~= before.push(s@.subrange(pos as int, i as int)));
                assert(vviews(out@) + split_str(s@.skip(i + p@.len()), p@) =~= before + split_str(
                    s@.skip(pos as int),
                    p@,
                ));
                pos = i + p.len();
            },
            None => {
                let piece = copy_range(s, pos, s.len());
                proof {
                    lemma_split_last(s@, p@, pos as int);
                }
                let ghost before = vviews(out@);
                out.push(piece);
                assert(vviews(out@) =~= before + split_str(s@.skip(pos as int), p@));
                return out;
            },
        }
    }
}

/// Separator of words: Unicode whitespace.
pub open spec fn ws_sep() -> spec_fn(char) -> bool {
    |c: char| is_ws(c)
}

/// The words of a text (`str::split_whitespace`).
pub open spec fn words(s: Seq<char>) -> Seq<Seq<char>> {
    nonempty(pieces(s, ws_sep()))
}

/// Non-empty pieces of `s` split at whitespace (`str::split_whitespace`).
pub fn split_ws(s: &[char]) -> (r: Vec<Vec<char>>)
    ensures
        vviews(r@) == nonempty(pieces(s@, ws_sep())),
{
    let mut out: Vec<Vec<char>> = Vec::new();
    let mut cur: Vec<char> = Vec::new();
    let mut i: usize = 0;
    proof {
        assert(s@.take(0) =~= Seq::<char>::empty());
        reveal_with_fuel(Seq::filter, 2);
        assert(pieces(s@.take(0), ws_sep()).drop_last() =~= Seq::<Seq<char>>::empty());
        assert(nonempty(Seq::<Seq<char>>::empty()) =~= Seq::<Seq<char>>::empty());
    }
    while i < s.len()
        invariant
            i <= s@.len(),
            pieces(s@.take(i as int), ws_sep()).len() >= 1,
            vviews(out@) == nonempty(pieces(s@.take(i as int), ws_sep()).drop_last()),
            cur@ == pieces(s@.take(i as int), ws_sep()).last(),
        decreases s.len() - i,
    {
        proof {
            lemma_pieces_step(s@, i as int, ws_sep());
        }
        let ghost p = pieces(s@.take(i as int), ws_sep());
        let c = s[i];
        let sep = char_is_ws(c);
        if sep {
            let ghost before = vviews(out@);
            proof {
                assert(p.push(Seq::<char>::empty()).drop_last() =~= p);
                assert(p =~= p.drop_last().push(p.last()));
                p.drop_last().lemma_filter_push(p.last(), |x: Seq<char>| x.len() > 0);
            }
            if cur.len() > 0 {
                let done = cur;
                out.push(done);
                assert(vviews(out@) =~= before.push(done@));
            }
            cur = Vec::new();
        } else {
            cur.push(c);
            proof {
                let q = p.update(p.len() - 1, p.last().push(c));
                assert(q.drop_last() =~= p.drop_last());
            }
        }
        i = i + 1;
    }
    assert(s@.take(s@.len() as int) =~= s@);
    let ghost p = pieces(s@, ws_sep());
    proof {
        assert(p =~= p.drop_last().push(p.last()));
        p.drop_last().lemma_filter_push(p.last(), |x: Seq<char>| x.len() > 0);
    }
    if cur.len() > 0 {
        let ghost before = vviews(out@);
        let last = cur;
        out.push(last);
        assert(vviews(out@) =~= before.push(last@));
    }
    out
}


} // verus!
