//! Long-term session memory: calendar days and ISO-like weeks of a time
//! stamp, the agent log and the open-loop table, session summaries and the
//! compact views built from the memory files.  The files are read and
//! written outside; here are the texts.
use crate::text::{
    chars_of, dec, first_stripped, first_stripped_of, has_prefix, is_char, is_control, join, join_strings,
    lines, owned, pieces, push_char, push_chars, push_dec, push_str, split_char, split_on, str_lines,
    string_of, strip_prefix, trim, trim_chars, views, vviews,
};
use vstd::prelude::*;

verus! {

/// Longest text kept from a log message or a note.
pub const MAX_TEXT: usize = 600;

// ---------------------------------------------------------------------------
// Calendar
// ---------------------------------------------------------------------------

/// Division rounding toward zero (Rust's `/` on signed integers).
pub open spec fn trunc_div(a: int, b: int) -> int {
    if a >= 0 {
        a / b
    } else {
        -((-a) / b)
    }
}

/// The proleptic Gregorian date (year, month, day) of day `z0` counted from
/// 1970-01-01 (the day-of-era decomposition; divisions of values that may
/// be negative round toward zero, as Rust's do).
pub open spec fn civil_of(z0: int) -> (int, int, int) {
    let z = z0 + 719468;
    let era = z / 146097;
    let doe = z - era * 146097;
    let yoe = (doe - doe / 1460 + doe / 36524 - doe / 146096) / 365;
    let y = yoe + era * 400;
    let doy = doe - (365 * yoe + yoe / 4 - yoe / 100);
    let mp = trunc_div(5 * doy + 2, 153);
    let d = doy - trunc_div(153 * mp + 2, 5) + 1;
    let m = mp + if mp < 10 {
        3int
    } else {
        -9int
    };
    (y + if m <= 2 {
        1int
    } else {
        0int
    }, m, d)
}

/// The day number (from 1970-01-01) of a proleptic Gregorian date.
pub open spec fn days_of(year: int, month: int, day: int) -> int {
    let y = year - if month <= 2 {
        1int
    } else {
        0int
    };
    let era = y / 400;
    let yoe = y - era * 400;
    let doy = (153 * (month + if month > 2 {
        -3int
    } else {
        9int
    }) + 2) / 5 + day - 1;
    let doe = yoe * 365 + yoe / 4 - yoe / 100 + doy;
    era * 146097 + doe - 719468
}

/// `a / b` rounded down, computed the way the calendar code does.
fn floor_div(a: i64, b: i64) -> (q: i64)
    requires
        1 < b < 1000000,
        a >= i64::MIN + b,
    ensures
        q == a as int / b as int,
{
    let t = if a >= 0 {
        a
    } else {
        a - (b - 1)
    };
    let q = t / b;
    proof {
        lemma_trunc_floor(a as int, b as int, t as int, q as int);
    }
    q
}

proof fn lemma_trunc_floor(a: int, b: int, t: int, q: int)
    requires
        b > 1,
        t == if a >= 0 { a } else { a - (b - 1) },
        q == trunc_div(t, b),
    ensures
        q == a / b,
{
    if a >= 0 {
    } else {
        let m = -t;
        assert(m > 0);
        let k = m / b;
        assert(q == -k);
        assert(m == k * b + m % b) by (nonlinear_arith)
            requires
                b > 0,
                k == m / b,
        ;
        assert(a / b == -k) by (nonlinear_arith)
            requires
                b > 1,
                m == -t,
                t == a - (b - 1),
                m == k * b + m % b,
                0 <= m % b < b,
                k == m / b,
        ;
    }
}

/// Rust's `/` by a positive constant, in spec terms.
pub(crate) fn tdiv(a: i64, b: i64) -> (q: i64)
    requires
        0 < b,
    ensures
        q == trunc_div(a as int, b as int),
{
    a / b
}

/// The date of a day number.
pub fn civil_from_days(days: i64) -> (r: (i64, u32, u32))
    requires
        days <= i64::MAX - 719468,
    ensures
        ({
            let (y, m, d) = civil_of(days as int);
            r.0 == y && r.1 == m as u32 && r.2 == d as u32
        }),
{
    let z = days + 719468;
    let era = floor_div(z, 146097);
    let doe = z - era * 146097;
    assert(0 <= doe < 146097) by (nonlinear_arith)
        requires
            era == z / 146097,
            doe == z - era * 146097,
    ;
    let yoe = (doe - doe / 1460 + doe / 36524 - doe / 146096) / 365;
    assert(0 <= yoe <= 401) by (nonlinear_arith)
        requires
            0 <= doe < 146097,
            yoe == (doe - doe / 1460 + doe / 36524 - doe / 146096) / 365,
    ;
    assert(-70000000000000 <= era <= 70000000000000) by (nonlinear_arith)
        requires
            era == z / 146097,
            i64::MIN <= z <= i64::MAX,
    ;
    let y = yoe + era * 400;
    let doy = doe - (365 * yoe + yoe / 4 - yoe / 100);
    let mp = tdiv(5 * doy + 2, 153);
    let d = doy - tdiv(153 * mp + 2, 5) + 1;
    let m = mp + if mp < 10 {
        3
    } else {
        -9
    };
    (y + if m <= 2 {
        1
    } else {
        0
    }, m as u32, d as u32)
}

/// The day number of a date.
pub fn days_from_civil(year: i64, month: u32, day: u32) -> (r: i64)
    requires
        -25_000_000_000_000_000 <= year <= 25_000_000_000_000_000,
    ensures
        r == days_of(year as int, month as int, day as int),
{
    let y = year - if month <= 2 {
        1
    } else {
        0
    };
    let era = floor_div(y, 400);
    let yoe = y - era * 400;
    assert(0 <= yoe < 400) by (nonlinear_arith)
        requires
            era == y / 400,
            yoe == y - era * 400,
    ;
    assert(-62_500_000_000_001 <= era <= 62_500_000_000_000) by (nonlinear_arith)
        requires
            era == y / 400,
            -25_000_000_000_000_001 <= y <= 25_000_000_000_000_000,
    ;
    let m = month as i64;
    let doy = (153 * (m + if m > 2 {
        -3
    } else {
        9
    }) + 2) / 5 + day as i64 - 1;
    let doe = yoe * 365 + yoe / 4 - yoe / 100 + doy;
    era * 146097 + doe - 719468
}

/// Zeros.
pub open spec fn zeros(k: int) -> Seq<char> {
    Seq::new(if k > 0 { k as nat } else { 0 }, |i: int| '0')
}

/// `format!("{:0w$}", n)`: the decimal digits of `n`, after its sign,
/// padded with zeros to `w` characters in all.
pub open spec fn zero_padded(n: int, w: nat) -> Seq<char> {
    if n < 0 {
        "-"@ + zeros(w - 1 - dec((-n) as nat).len()) + dec((-n) as nat)
    } else {
        zeros(w - dec(n as nat).len()) + dec(n as nat)
    }
}

fn push_zeros(s: &mut String, k: i64)
    ensures
        final(s)@ == old(s)@ + zeros(k as int),
{
    let mut i: i64 = 0;
    while i < k
        invariant
            0 <= i,
            k > 0 ==> i <= k,
            k <= 0 ==> i == 0,
            s@ == old(s)@ + zeros(i as int),
        decreases k - i,
    {
        push_char(s, '0');
        i = i + 1;
        assert(s@ =~= old(s)@ + zeros(i as int));
    }
    if k <= 0 {
        assert(zeros(i as int) =~= zeros(k as int));
    } else {
        assert(i == k);
    }
}

/// Number of decimal digits of `n`.
fn dec_len(n: u64) -> (r: i64)
    ensures
        r == dec(n as nat).len(),
        r <= 20,
{
    let t = crate::text::dec_string(n);
    let v = chars_of(t.as_str());
    proof {
        lemma_dec_len_bound(n as nat);
    }
    v.len() as i64
}

proof fn lemma_dec_len_bound(n: nat)
    requires
        n <= u64::MAX,
    ensures
        dec(n).len() <= 20,
{
    assert(crate::patch::pow10(20) == 100000000000000000000nat) by {
        reveal_with_fuel(crate::patch::pow10, 21);
    }
    lemma_dec_len_pow(n, 20);
}

proof fn lemma_dec_len_pow(n: nat, k: nat)
    requires
        k >= 1,
        n < crate::patch::pow10(k),
    ensures
        dec(n).len() <= k,
    decreases k,
{
    if n >= 10 {
        assert(k >= 2) by {
            if k == 1 {
                reveal_with_fuel(crate::patch::pow10, 2);
            }
        }
        assert(n / 10 < crate::patch::pow10((k - 1) as nat)) by (nonlinear_arith)
            requires
                n < crate::patch::pow10(k),
                crate::patch::pow10(k) == 10 * crate::patch::pow10((k - 1) as nat),
        ;
        lemma_dec_len_pow(n / 10, (k - 1) as nat);
    }
}

/// Appends `n` zero-padded to `w` characters.
fn push_padded(s: &mut String, n: i64, w: i64)
    requires
        0 <= w <= 20,
    ensures
        final(s)@ == old(s)@ + zero_padded(n as int, w as nat),
{
    if n < 0 {
        let a: u64 = (-(n as i128)) as u64;
        push_str(s, "-");
        let l = dec_len(a);
        push_zeros(s, w - 1 - l);
        push_dec(s, a);
        assert(s@ =~= old(s)@ + zero_padded(n as int, w as nat));
    } else {
        let a: u64 = n as u64;
        let l = dec_len(a);
        push_zeros(s, w - l);
        push_dec(s, a);
        assert(s@ =~= old(s)@ + zero_padded(n as int, w as nat));
    }
}

/// The day (`YYYY-MM-DD`) and week (`YYYY-Www`) of a time stamp in seconds;
/// weeks start on Monday, week 1 being the one holding January 1st.
pub open spec fn day_week_of(ts: nat) -> (Seq<char>, Seq<char>) {
    let days = (ts / 86400) as int;
    let (y, m, d) = civil_of(days);
    let jan1 = days_of(y, 1, 1);
    let wd = (jan1 + 3) % 7;
    let week = 1 + trunc_div(days - (jan1 - wd), 7);
    (
        zero_padded(y, 4) + "-"@ + zero_padded((m as u32) as int, 2) + "-"@ + zero_padded((d as u32) as int, 2),
        zero_padded(y, 4) + "-W"@ + zero_padded(week, 2),
    )
}

proof fn lemma_civil_year_bound(z0: int)
    requires
        0 <= z0 <= 1_000_000_000_000_000,
    ensures
        -1 <= civil_of(z0).0 <= 3_000_000_000_000,
{
    let z = z0 + 719468;
    let era = z / 146097;
    let doe = z - era * 146097;
    assert(0 <= era <= 7_000_000_000) by (nonlinear_arith)
        requires
            era == z / 146097,
            0 <= z <= 1_000_000_000_719_468,
    ;
    assert(0 <= doe < 146097) by (nonlinear_arith)
        requires
            era == z / 146097,
            doe == z - era * 146097,
    ;
    let yoe = (doe - doe / 1460 + doe / 36524 - doe / 146096) / 365;
    assert(0 <= yoe <= 401) by (nonlinear_arith)
        requires
            0 <= doe < 146097,
            yoe == (doe - doe / 1460 + doe / 36524 - doe / 146096) / 365,
    ;
}

/// `a.rem_euclid(7)`.
fn rem7(a: i64) -> (r: i64)
    ensures
        r == a % 7,
{
    let m = a % 7;
    if m < 0 {
        m + 7
    } else {
        m
    }
}

/// The day and week of a time stamp.
pub fn day_week_from_epoch(ts: u64) -> (r: (String, String))
    ensures
        (r.0@, r.1@) == day_week_of(ts as nat),
{
    let days = (ts / 86400) as i64;
    proof {
        lemma_civil_year_bound(days as int);
    }
    let (y, m, d) = civil_from_days(days);
    let ghost c = civil_of(days as int);
    assert(y == c.0);
    let jan1 = days_from_civil(y, 1, 1);
    assert(-10_000_000_000_000_000 <= jan1 <= 10_000_000_000_000_000) by (nonlinear_arith)
        requires
            jan1 == days_of(y as int, 1, 1),
            -1 <= y <= 3_000_000_000_000,
    ;
    let wd = rem7(jan1 + 3);
    let week1_start = jan1 - wd;
    let week = 1 + tdiv(days - week1_start, 7);
    let ghost weekv = 1 + trunc_div(days - (jan1 - (jan1 + 3) % 7), 7);
    assert(week == weekv);
    let mut day = String::new();
    push_padded(&mut day, y, 4);
    push_str(&mut day, "-");
    push_padded(&mut day, m as i64, 2);
    push_str(&mut day, "-");
    push_padded(&mut day, d as i64, 2);
    let mut wk = String::new();
    push_padded(&mut wk, y, 4);
    push_str(&mut wk, "-W");
    push_padded(&mut wk, week, 2);
    (day, wk)
}

// ---------------------------------------------------------------------------
// Notes and numbers
// ---------------------------------------------------------------------------

/// A character kept in a note: not a control character, or a space.
pub open spec fn kept_char(c: char) -> bool {
    !is_control(c) || c == ' '
}

/// A note: control characters dropped, line breaks and tabs turned into
/// spaces, at most `MAX_TEXT` characters.
pub open spec fn note_of(v: Seq<char>) -> Seq<char> {
    let f = v.filter(|c: char| kept_char(c));
    let g = Seq::new(
        f.len(),
        |i: int| if f[i] == '\n' || f[i] == '\r' || f[i] == '\t' { ' ' } else { f[i] },
    );
    if g.len() <= MAX_TEXT {
        g
    } else {
        g.take(MAX_TEXT as int)
    }
}

/// A note made from a text.
pub fn sanitize(v: &str) -> (r: String)
    ensures
        r@ == note_of(v@),
{
    let c = chars_of(v);
    let ghost pred = |ch: char| kept_char(ch);
    let mut f: Vec<char> = Vec::new();
    let mut i: usize = 0;
    assert(c@.take(0).filter(pred) =~= Seq::<char>::empty()) by {
        reveal_with_fuel(Seq::filter, 1);
    }
    while i < c.len()
        invariant
            i <= c@.len(),
            c@ == v@,
            pred == (|ch: char| kept_char(ch)),
            f@ == c@.take(i as int).filter(pred),
        decreases c.len() - i,
    {
        proof {
            assert(c@.take(i + 1) =~= c@.take(i as int).push(c@[i as int]));
            c@.take(i as int).lemma_filter_push(c@[i as int], pred);
        }
        let ch = c[i];
        if !crate::text::char_is_control(ch) || ch == ' ' {
            f.push(ch);
        }
        i = i + 1;
    }
    assert(c@.take(i as int) =~= c@);
    let ghost ff = f@;
    let ghost g = Seq::new(
        ff.len(),
        |k: int| if ff[k] == '\n' || ff[k] == '\r' || ff[k] == '\t' { ' ' } else { ff[k] },
    );
    let mut out: Vec<char> = Vec::new();
    let mut j: usize = 0;
    while j < f.len() && j < MAX_TEXT
        invariant
            j <= f@.len(),
            j <= MAX_TEXT,
            ff == f@,
            g == Seq::new(
                ff.len(),
                |k: int| if ff[k] == '\n' || ff[k] == '\r' || ff[k] == '\t' { ' ' } else { ff[k] },
            ),
            out@ == g.take(j as int),
        decreases f.len() - j,
    {
        let ch = f[j];
        if ch == '\n' || ch == '\r' || ch == '\t' {
            out.push(' ');
        } else {
            out.push(ch);
        }
        j = j + 1;
        assert(out@ =~= g.take(j as int));
    }
    proof {
        if g.len() <= MAX_TEXT {
            assert(g.take(j as int) =~= g);
        }
    }
    string_of(&out)
}

/// The value of a run of decimal digits.
pub open spec fn digits_value(s: Seq<char>) -> nat
    decreases s.len(),
{
    if s.len() == 0 {
        0
    } else {
        digits_value(s.drop_last()) * 10 + ((s.last() as u32) - 48) as nat
    }
}

pub open spec fn all_digits(s: Seq<char>) -> bool {
    forall|i: int| 0 <= i < s.len() ==> '0' <= #[trigger] s[i] <= '9'
}

/// What `str::parse::<u64>` gives: an optional `+`, then at least one
/// decimal digit, the value fitting in 64 bits.
pub open spec fn parsed_u64(s: Seq<char>) -> Option<u64> {
    let body = if s.len() > 0 && s[0] == '+' {
        s.drop_first()
    } else {
        s
    };
    if body.len() > 0 && all_digits(body) && digits_value(body) <= u64::MAX {
        Some(digits_value(body) as u64)
    } else {
        None
    }
}

proof fn lemma_digits_grow(s: Seq<char>, i: int)
    requires
        0 <= i <= s.len(),
        all_digits(s),
    ensures
        digits_value(s.take(i)) <= digits_value(s),
    decreases s.len() - i,
{
    if i < s.len() {
        lemma_digits_grow(s, i + 1);
        assert(s.take(i + 1).drop_last() =~= s.take(i));
        assert('0' <= s[i] <= '9');
    } else {
        assert(s.take(i) =~= s);
    }
}

/// The value of a run of digits, or `None` past 64 bits.
fn digits_u64(b: &Vec<char>) -> (r: Option<u64>)
    requires
        all_digits(b@),
    ensures
        match r {
            Some(v) => v == digits_value(b@),
            None => digits_value(b@) > u64::MAX,
        },
{
    let mut v: u64 = 0;
    let mut j: usize = 0;
    while j < b.len()
        invariant
            j <= b@.len(),
            all_digits(b@),
            v == digits_value(b@.take(j as int)),
        decreases b.len() - j,
    {
        assert(b@.take(j + 1).drop_last() =~= b@.take(j as int));
        assert(b@.take(j + 1).last() == b@[j as int]);
        let ch = b[j];
        assert('0' <= ch <= '9');
        let d = (ch as u32 - 48) as u64;
        let step = match v.checked_mul(10) {
            None => None,
            Some(t) => t.checked_add(d),
        };
        match step {
            None => {
                proof {
                    lemma_digits_grow(b@, j + 1);
                }
                return None;
            },
            Some(w) => {
                v = w;
            },
        }
        j = j + 1;
    }
    assert(b@.take(j as int) =~= b@);
    Some(v)
}

/// Parses a decimal `u64` as `str::parse` does.
pub fn parse_u64(s: &[char]) -> (r: Option<u64>)
    ensures
        r == parsed_u64(s@),
{
    let start: usize = if s.len() > 0 && s[0] == '+' {
        1
    } else {
        0
    };
    let body = crate::text::copy_range(s, start, s.len());
    assert(body@ =~= if s@.len() > 0 && s@[0] == '+' {
        s@.drop_first()
    } else {
        s@
    });
    if body.len() == 0 {
        return None;
    }
    let mut i: usize = 0;
    while i < body.len()
        invariant
            i <= body@.len(),
            body@ == if s@.len() > 0 && s@[0] == '+' {
                s@.drop_first()
            } else {
                s@
            },
            forall|k: int| 0 <= k < i ==> '0' <= #[trigger] body@[k] <= '9',
        decreases body.len() - i,
    {
        if !('0' <= body[i] && body[i] <= '9') {
            assert(!all_digits(body@));
            return None;
        }
        i = i + 1;
    }
    digits_u64(&body)
}

// ---------------------------------------------------------------------------
// Agent log and open loops
// ---------------------------------------------------------------------------

/// One agent log line `ts<TAB>event<TAB>message` (the message may hold tabs).
pub open spec fn log_entry(line: Seq<char>) -> Option<(u64, Seq<char>, Seq<char>)> {
    let p = split_on(line, '\t');
    if p.len() < 3 {
        None
    } else {
        match parsed_u64(p[0]) {
            Some(ts) => Some((ts, p[1], join(p.skip(2), seq!['\t']))),
            None => None,
        }
    }
}

/// Reads one agent log line.
pub fn parse_agent_log(line: &str) -> (r: Option<(u64, String, String)>)
    ensures
        match r {
            Some((ts, e, m)) => log_entry(line@) == Some((ts, e@, m@)),
            None => log_entry(line@) is None,
        },
{
    let c = chars_of(line);
    let parts = split_char(&c, '\t');
    if parts.len() < 3 {
        return None;
    }
    let ts = match parse_u64(&parts[0]) {
        Some(t) => t,
        None => {
            return None;
        },
    };
    let mut m: Vec<char> = Vec::new();
    let mut i: usize = 2;
    let ghost rest = vviews(parts@).skip(2);
    while i < parts.len()
        invariant
            2 <= i <= parts@.len(),
            rest == vviews(parts@).skip(2),
            m@ == join(rest.take(i - 2), seq!['\t']),
        decreases parts.len() - i,
    {
        if i > 2 {
            m.push('\t');
        }
        let ghost before = m@;
        let mut k: usize = 0;
        while k < parts[i].len()
            invariant
                2 <= i < parts@.len(),
                k <= parts@[i as int]@.len(),
                m@ == before + parts@[i as int]@.take(k as int),
            decreases parts@[i as int]@.len() - k,
        {
            m.push(parts[i][k]);
            k = k + 1;
            assert(m@ =~= before + parts@[i as int]@.take(k as int));
        }
        assert(parts@[i as int]@.take(k as int) =~= parts@[i as int]@);
        i = i + 1;
        assert(rest.take(i - 2).drop_last() =~= rest.take(i - 3));
        assert(rest.take(i - 2).last() == parts@[i - 1]@);
    }
    assert(rest.take(i - 2) =~= rest);
    Some((ts, string_of(&parts[1]), string_of(&m)))
}

/// An open-loop row: identifier, category, status and detail.
#[derive(Debug)]
pub struct OpenLoop {
    pub id: String,
    pub category: String,
    pub status: String,
    pub detail: String,
}

/// A row of the open-loop table, by views.
pub type LoopView = (Seq<char>, Seq<char>, Seq<char>, Seq<char>);

pub open spec fn loop_view(l: OpenLoop) -> LoopView {
    (l.id@, l.category@, l.status@, l.detail@)
}

pub open spec fn loop_views(ls: Seq<OpenLoop>) -> Seq<LoopView> {
    Seq::new(ls.len(), |i: int| loop_view(ls[i]))
}

/// The rows of the open-loop table: lines of exactly four tab-separated columns.
pub open spec fn loop_rows(ls: Seq<Seq<char>>) -> Seq<LoopView>
    decreases ls.len(),
{
    if ls.len() == 0 {
        Seq::empty()
    } else {
        let rest = loop_rows(ls.drop_last());
        let c = split_on(ls.last(), '\t');
        if c.len() == 4 {
            rest.push((c[0], c[1], c[2], c[3]))
        } else {
            rest
        }
    }
}

/// Reads the open-loop table.
pub fn load_open_loops(text: &str) -> (r: Vec<OpenLoop>)
    ensures
        loop_views(r@) == loop_rows(lines(text@)),
{
    let ls = str_lines(text);
    let mut out: Vec<OpenLoop> = Vec::new();
    let mut i: usize = 0;
    while i < ls.len()
        invariant
            i <= ls@.len(),
            vviews(ls@) == lines(text@),
            loop_views(out@) == loop_rows(vviews(ls@).take(i as int)),
        decreases ls.len() - i,
    {
        assert(vviews(ls@).take(i + 1).drop_last() =~= vviews(ls@).take(i as int));
        assert(vviews(ls@).take(i + 1).last() == ls@[i as int]@);
        let cols = split_char(&ls[i], '\t');
        if cols.len() == 4 {
            let row = OpenLoop {
                id: string_of(&cols[0]),
                category: string_of(&cols[1]),
                status: string_of(&cols[2]),
                detail: string_of(&cols[3]),
            };
            let ghost before = loop_views(out@);
            out.push(row);
            assert(loop_views(out@) =~= before.push(
                (cols@[0]@, cols@[1]@, cols@[2]@, cols@[3]@),
            ));
        }
        i = i + 1;
    }
    assert(vviews(ls@).take(i as int) =~= vviews(ls@));
    out
}

/// The time stamp of the last recorded session (0 when none is readable).
pub open spec fn session_cutoff(text: Seq<char>) -> u64 {
    let ls = lines(text);
    if ls.len() == 0 {
        0
    } else {
        match parsed_u64(split_on(ls.last(), '\t')[0]) {
            Some(v) => v,
            None => 0,
        }
    }
}

/// Reads the cutoff from the sessions log.
pub fn load_session_cutoff(text: &str) -> (r: u64)
    ensures
        r == session_cutoff(text@),
{
    let ls = str_lines(text);
    if ls.len() == 0 {
        return 0;
    }
    let cols = split_char(&ls[ls.len() - 1], '\t');
    proof {
        crate::text::lemma_pieces_len(ls@[ls@.len() - 1]@, is_char('\t'));
    }
    match parse_u64(&cols[0]) {
        Some(v) => v,
        None => 0,
    }
}

/// The line recording a new open loop.
pub open spec fn open_loop_line(ts: nat, category: Seq<char>, text: Seq<char>) -> Seq<char> {
    "ol-"@ + dec(ts) + "\t"@ + note_of(category) + "\topen\t"@ + note_of(text) + "\n"@
}

/// A new open loop made at `ts`: its identifier and its table line.
pub fn new_open_loop(ts: u64, category: &str, text: &str) -> (r: (String, String))
    ensures
        r.0@ == "ol-"@ + dec(ts as nat),
        r.1@ == open_loop_line(ts as nat, category@, text@),
{
    let mut id = owned("ol-");
    push_dec(&mut id, ts);
    let mut line = crate::text::copy_string(&id);
    push_str(&mut line, "\t");
    let c = sanitize(category);
    push_str(&mut line, c.as_str());
    push_str(&mut line, "\topen\t");
    let t = sanitize(text);
    push_str(&mut line, t.as_str());
    push_str(&mut line, "\n");
    (id, line)
}

/// The line recording a lesson.
pub fn lesson_line(ts: u64, category: &str, text: &str) -> (r: String)
    ensures
        r@ == dec(ts as nat) + "\t"@ + note_of(category@) + "\t"@ + note_of(text@) + "\n"@,
{
    let mut line = String::new();
    push_dec(&mut line, ts);
    push_str(&mut line, "\t");
    let c = sanitize(category);
    push_str(&mut line, c.as_str());
    push_str(&mut line, "\t");
    let t = sanitize(text);
    push_str(&mut line, t.as_str());
    push_str(&mut line, "\n");
    line
}

/// The open-loop table after closing `id`: every row rewritten, the matching
/// ones with status `closed`.
pub open spec fn resolved_table(rows: Seq<LoopView>, id: Seq<char>) -> Seq<char>
    decreases rows.len(),
{
    if rows.len() == 0 {
        Seq::empty()
    } else {
        let r = rows.last();
        let status = if r.0 == id {
            "closed"@
        } else {
            r.2
        };
        resolved_table(rows.drop_last(), id) + r.0 + "\t"@ + r.1 + "\t"@ + status + "\t"@ + r.3 + "\n"@
    }
}

/// Closes the open loop `id`, or says it does not exist.
pub fn resolve_open_loop(rows: &Vec<OpenLoop>, id: &str) -> (r: Result<String, String>)
    ensures
        match r {
            Ok(t) => (exists|i: int| 0 <= i < rows@.len() && #[trigger] rows@[i].id@ == id@) && t@
                == resolved_table(loop_views(rows@), id@),
            Err(m) => (forall|i: int| 0 <= i < rows@.len() ==> #[trigger] rows@[i].id@ != id@) && m@
                == "open loop not found: "@ + id@,
        },
{
    let mut out = String::new();
    let mut found = false;
    let mut i: usize = 0;
    while i < rows.len()
        invariant
            i <= rows@.len(),
            out@ == resolved_table(loop_views(rows@).take(i as int), id@),
            found == exists|k: int| 0 <= k < i && #[trigger] rows@[k].id@ == id@,
        decreases rows.len() - i,
    {
        let row = &rows[i];
        assert(loop_views(rows@).take(i + 1).drop_last() =~= loop_views(rows@).take(i as int));
        assert(loop_views(rows@).take(i + 1).last() == loop_view(rows@[i as int]));
        push_str(&mut out, row.id.as_str());
        push_str(&mut out, "\t");
        push_str(&mut out, row.category.as_str());
        push_str(&mut out, "\t");
        if crate::text::str_eq(row.id.as_str(), id) {
            found = true;
            push_str(&mut out, "closed");
        } else {
            push_str(&mut out, row.status.as_str());
        }
        push_str(&mut out, "\t");
        push_str(&mut out, row.detail.as_str());
        push_str(&mut out, "\n");
        i = i + 1;
    }
    assert(loop_views(rows@).take(i as int) =~= loop_views(rows@));
    if !found {
        let mut m = owned("open loop not found: ");
        push_str(&mut m, id);
        return Err(m);
    }
    Ok(out)
}

// ---------------------------------------------------------------------------
// Session summaries
// ---------------------------------------------------------------------------

/// What a session left behind.
#[derive(Debug)]
pub struct SessionSummary {
    pub ts: u64,
    pub day: String,
    pub week: String,
    pub objectives: Vec<String>,
    pub files_touched: Vec<String>,
    pub patches_created: Vec<String>,
    pub patches_applied: Vec<String>,
    pub validations: usize,
    pub errors: Vec<String>,
    pub decisions: Vec<String>,
    pub critical_modules: Vec<String>,
    pub open_tasks: Vec<String>,
    pub recommendations: Vec<String>,
}

/// What the agent log says of a session, before removing duplicates.
pub struct FactsView {
    pub objectives: Seq<Seq<char>>,
    pub created: Seq<Seq<char>>,
    pub applied: Seq<Seq<char>>,
    pub validations: nat,
    pub errors: Seq<Seq<char>>,
    pub decisions: Seq<Seq<char>>,
}

/// The facts of the log lines newer than `cutoff`, in order.
pub open spec fn facts_of(ls: Seq<Seq<char>>, cutoff: u64) -> FactsView
    decreases ls.len(),
{
    if ls.len() == 0 {
        FactsView {
            objectives: Seq::empty(),
            created: Seq::empty(),
            applied: Seq::empty(),
            validations: 0,
            errors: Seq::empty(),
            decisions: Seq::empty(),
        }
    } else {
        let f = facts_of(ls.drop_last(), cutoff);
        match log_entry(ls.last()) {
            Some((ts, e, m)) => if ts <= cutoff {
                f
            } else if e == "plan"@ {
                FactsView { objectives: f.objectives.push(note_of(m)), ..f }
            } else if e == "patch"@ {
                match first_stripped(crate::text::words(m), "id="@) {
                    Some(pid) => FactsView { created: f.created.push(pid), ..f },
                    None => f,
                }
            } else if e == "apply"@ {
                match first_stripped(crate::text::words(m), "patch="@) {
                    Some(pid) => FactsView { applied: f.applied.push(pid), ..f },
                    None => f,
                }
            } else if e == "validate"@ {
                FactsView { validations: f.validations + 1, ..f }
            } else if e == "rollback"@ {
                FactsView { errors: f.errors.push("rollback: "@ + note_of(m)), ..f }
            } else if e == "approve"@ {
                FactsView { decisions: f.decisions.push("approval: "@ + note_of(m)), ..f }
            } else {
                f
            },
            None => f,
        }
    }
}

/// What the agent log says of a session: distinct objectives and patch
/// identifiers, sorted; the validations counted; errors and decisions in order.
#[derive(Debug)]
pub struct LogFacts {
    pub objectives: Vec<String>,
    pub patches_created: Vec<String>,
    pub patches_applied: Vec<String>,
    pub validations: usize,
    pub errors: Vec<String>,
    pub decisions: Vec<String>,
}

pub open spec fn facts_match(r: LogFacts, f: FactsView) -> bool {
    &&& crate::review::sorted_unique_of(views(r.objectives@), f.objectives)
    &&& crate::review::sorted_unique_of(views(r.patches_created@), f.created)
    &&& crate::review::sorted_unique_of(views(r.patches_applied@), f.applied)
    &&& r.validations == f.validations
    &&& views(r.errors@) == f.errors
    &&& views(r.decisions@) == f.decisions
}

proof fn lemma_facts_bounded(ls: Seq<Seq<char>>, cutoff: u64)
    ensures
        facts_of(ls, cutoff).validations <= ls.len(),
    decreases ls.len(),
{
    if ls.len() > 0 {
        lemma_facts_bounded(ls.drop_last(), cutoff);
    }
}

/// The first word of `m` starting with `prefix`, without it.
fn first_word_with(m: &str, prefix: &str) -> (r: Option<Vec<char>>)
    ensures
        match r {
            Some(v) => first_stripped(crate::text::words(m@), prefix@) == Some(v@),
            None => first_stripped(crate::text::words(m@), prefix@) is None,
        },
{
    let c = chars_of(m);
    let ws = crate::text::split_ws(&c);
    first_stripped_of(&ws, &chars_of(prefix))
}

/// Reads the session facts from the agent log, keeping lines newer than `cutoff`.
pub fn session_log_facts(log: &str, cutoff: u64) -> (r: LogFacts)
    ensures
        facts_match(r, facts_of(lines(log@), cutoff)),
{
    let ls = str_lines(log);
    let mut objectives: Vec<String> = Vec::new();
    let mut created: Vec<String> = Vec::new();
    let mut applied: Vec<String> = Vec::new();
    let mut validations: usize = 0;
    let mut errors: Vec<String> = Vec::new();
    let mut decisions: Vec<String> = Vec::new();
    let mut i: usize = 0;
    assert(vviews(ls@).take(0) =~= Seq::<Seq<char>>::empty());
    assert(Seq::<Seq<char>>::empty().to_set() =~= views(objectives@).to_set());
    while i < ls.len()
        invariant
            i <= ls@.len(),
            vviews(ls@) == lines(log@),
            crate::review::sorted_unique_of(
                views(objectives@),
                facts_of(vviews(ls@).take(i as int), cutoff).objectives,
            ),
            crate::review::sorted_unique_of(
                views(created@),
                facts_of(vviews(ls@).take(i as int), cutoff).created,
            ),
            crate::review::sorted_unique_of(
                views(applied@),
                facts_of(vviews(ls@).take(i as int), cutoff).applied,
            ),
            validations == facts_of(vviews(ls@).take(i as int), cutoff).validations,
            views(errors@) == facts_of(vviews(ls@).take(i as int), cutoff).errors,
            views(decisions@) == facts_of(vviews(ls@).take(i as int), cutoff).decisions,
        decreases ls.len() - i,
    {
        let ghost pre = vviews(ls@).take(i as int);
        proof {
            lemma_facts_bounded(pre, cutoff);
            assert(vviews(ls@).take(i + 1).drop_last() =~= pre);
            assert(vviews(ls@).take(i + 1).last() == ls@[i as int]@);
        }
        let ghost f = facts_of(pre, cutoff);
        let line = string_of(&ls[i]);
        match parse_agent_log(line.as_str()) {
            Some((ts, e, m)) => {
                if ts > cutoff {
                    if crate::text::str_eq(e.as_str(), "plan") {
                        let n = sanitize(m.as_str());
                        proof {
                            f.objectives.lemma_push_to_set_commute(n@);
                        }
                        crate::text::sorted_insert(&mut objectives, n);
                    } else if crate::text::str_eq(e.as_str(), "patch") {
                        match first_word_with(m.as_str(), "id=") {
                            Some(pid) => {
                                crate::text::sorted_insert(&mut created, string_of(&pid));
                                proof {
                                    f.created.lemma_push_to_set_commute(pid@);
                                }
                            },
                            None => {},
                        }
                    } else if crate::text::str_eq(e.as_str(), "apply") {
                        match first_word_with(m.as_str(), "patch=") {
                            Some(pid) => {
                                crate::text::sorted_insert(&mut applied, string_of(&pid));
                                proof {
                                    f.applied.lemma_push_to_set_commute(pid@);
                                }
                            },
                            None => {},
                        }
                    } else if crate::text::str_eq(e.as_str(), "validate") {
                        validations = validations + 1;
                    } else if crate::text::str_eq(e.as_str(), "rollback") {
                        let mut t = owned("rollback: ");
                        let n = sanitize(m.as_str());
                        push_str(&mut t, n.as_str());
                        let ghost before = views(errors@);
                        errors.push(t);
                        assert(views(errors@) =~= before.push("rollback: "@ + note_of(m@)));
                    } else if crate::text::str_eq(e.as_str(), "approve") {
                        let mut t = owned("approval: ");
                        let n = sanitize(m.as_str());
                        push_str(&mut t, n.as_str());
                        let ghost before = views(decisions@);
                        decisions.push(t);
                        assert(views(decisions@) =~= before.push("approval: "@ + note_of(m@)));
                    }
                }
            },
            None => {},
        }
        i = i + 1;
    }
    assert(vviews(ls@).take(i as int) =~= vviews(ls@));
    LogFacts {
        objectives,
        patches_created: created,
        patches_applied: applied,
        validations,
        errors,
        decisions,
    }
}

/// The review and metadata texts stored for one created patch.
#[derive(Debug)]
pub struct PatchTexts {
    pub review: String,
    pub meta: String,
}

/// The non-empty trimmed pieces of `v` split at `" | "`.
pub open spec fn bar_items(v: Seq<char>) -> Seq<Seq<char>> {
    let ps = crate::text::split_str(v, " | "@);
    Seq::new(ps.len(), |i: int| trim(ps[i])).filter(|t: Seq<char>| t.len() > 0)
}

/// The items listed after `marker` on every line that starts with it.
pub open spec fn marked_items(ls: Seq<Seq<char>>, marker: Seq<char>) -> Seq<Seq<char>>
    decreases ls.len(),
{
    if ls.len() == 0 {
        Seq::empty()
    } else {
        marked_items(ls.drop_last(), marker) + match strip_prefix(ls.last(), marker) {
            Some(v) => bar_items(v),
            None => Seq::empty(),
        }
    }
}

/// The critical modules a review lists, from every `critical=` line.
pub open spec fn review_items(ls: Seq<Seq<char>>) -> Seq<Seq<char>> {
    marked_items(ls, "critical="@)
}

/// Separators of the `files=` list of a patch: brackets, commas and quotes.
pub open spec fn list_sep() -> spec_fn(char) -> bool {
    |c: char| c == '[' || c == ']' || c == ',' || c == '"'
}

/// A token of the `files=` list that names a path.
pub open spec fn is_path_token(t: Seq<char>) -> bool {
    t.len() > 0 && (t.contains('/') || crate::text::has_suffix(t, ".rs"@))
}

/// The paths a patch's metadata lists.
pub open spec fn meta_items(meta: Seq<char>) -> Seq<Seq<char>> {
    match first_stripped(lines(meta), "files="@) {
        Some(f) => {
            let ps = pieces(f, list_sep());
            Seq::new(ps.len(), |i: int| trim(ps[i])).filter(|t: Seq<char>| is_path_token(t))
        },
        None => Seq::empty(),
    }
}

pub open spec fn texts_critical(ts: Seq<PatchTexts>) -> Seq<Seq<char>>
    decreases ts.len(),
{
    if ts.len() == 0 {
        Seq::empty()
    } else {
        texts_critical(ts.drop_last()) + review_items(lines(ts.last().review@))
    }
}

pub open spec fn texts_files(ts: Seq<PatchTexts>) -> Seq<Seq<char>>
    decreases ts.len(),
{
    if ts.len() == 0 {
        Seq::empty()
    } else {
        texts_files(ts.drop_last()) + review_items(lines(ts.last().review@)) + meta_items(ts.last().meta@)
    }
}

/// The open tasks of the loop table: `id:category:detail` for open rows.
pub open spec fn open_tasks_of(rows: Seq<LoopView>) -> Seq<Seq<char>>
    decreases rows.len(),
{
    if rows.len() == 0 {
        Seq::empty()
    } else {
        let r = rows.last();
        let rest = open_tasks_of(rows.drop_last());
        if r.2 == "open"@ {
            rest.push(r.0 + ":"@ + r.1 + ":"@ + r.3)
        } else {
            rest
        }
    }
}

/// The recommendations for a session.
pub open spec fn recommendations_for(has_errors: bool, has_open: bool, validations: nat) -> Seq<Seq<char>> {
    let r = (if has_errors {
        seq!["Rejouer validate après correction des erreurs de rollback/validation"@]
    } else {
        Seq::empty()
    }) + (if has_open {
        seq!["Traiter les open loops prioritaires avant un nouveau patch large"@]
    } else {
        Seq::empty()
    }) + (if validations == 0 {
        seq!["Lancer validate pour figer un état fiable de la session"@]
    } else {
        Seq::empty()
    });
    if r.len() == 0 {
        seq!["Session stable: reprendre avec resume-session puis patch ciblé"@]
    } else {
        r
    }
}

/// The error noted for the last validation's compiler output, if it has any.
pub open spec fn cargo_error_note(e: Option<Seq<char>>) -> Seq<Seq<char>> {
    match e {
        Some(t) => if trim(t).len() > 0 {
            seq!["validate-errors: "@ + dec(lines(t).len()) + " lignes"@]
        } else {
            Seq::empty()
        },
        None => Seq::empty(),
    }
}

/// At most the first `k` items.
pub open spec fn first_k(s: Seq<Seq<char>>, k: nat) -> Seq<Seq<char>> {
    if s.len() <= k {
        s
    } else {
        s.take(k as int)
    }
}

/// The non-empty trimmed pieces of `v` split at `" | "`.
fn bar_pieces(v: &Vec<char>) -> (r: Vec<String>)
    ensures
        views(r@) == bar_items(v@),
{
    proof {
        reveal_strlit(" | ");
    }
    let sep = chars_of(" | ");
    let ps = crate::text::split_text(v, &sep);
    let ghost tv = Seq::new(vviews(ps@).len(), |i: int| trim(vviews(ps@)[i]));
    let ghost pred = |t: Seq<char>| t.len() > 0;
    let mut out: Vec<String> = Vec::new();
    let mut i: usize = 0;
    assert(tv.take(0).filter(pred) =~= Seq::<Seq<char>>::empty()) by {
        reveal_with_fuel(Seq::filter, 1);
    }
    while i < ps.len()
        invariant
            i <= ps@.len(),
            tv == Seq::new(vviews(ps@).len(), |i: int| trim(vviews(ps@)[i])),
            pred == (|t: Seq<char>| t.len() > 0),
            views(out@) == tv.take(i as int).filter(pred),
        decreases ps.len() - i,
    {
        proof {
            assert(tv.take(i + 1) =~= tv.take(i as int).push(tv[i as int]));
            tv.take(i as int).lemma_filter_push(tv[i as int], pred);
        }
        let t = trim_chars(&ps[i]);
        if t.len() > 0 {
            let ghost before = views(out@);
            out.push(string_of(&t));
            assert(views(out@) =~= before.push(t@));
        }
        i = i + 1;
    }
    assert(tv.take(i as int) =~= tv);
    out
}

/// `s.split([..])` at list separators.
fn split_list(s: &[char]) -> (r: Vec<Vec<char>>)
    ensures
        vviews(r@) == pieces(s@, list_sep()),
{
    let mut out: Vec<Vec<char>> = Vec::new();
    let mut cur: Vec<char> = Vec::new();
    let mut i: usize = 0;
    proof {
        assert(s@.take(0) =~= Seq::<char>::empty());
        assert(vviews(out@).push(cur@) =~= pieces(s@.take(0), list_sep()));
    }
    while i < s.len()
        invariant
            i <= s@.len(),
            vviews(out@).push(cur@) == pieces(s@.take(i as int), list_sep()),
        decreases s.len() - i,
    {
        proof {
            crate::text::lemma_pieces_step(s@, i as int, list_sep());
        }
        let ghost before = vviews(out@);
        let c = s[i];
        if c == '[' || c == ']' || c == ',' || c == '"' {
            let done = cur;
            out.push(done);
            cur = Vec::new();
            assert(vviews(out@) =~= before.push(done@));
        } else {
            cur.push(c);
            assert(vviews(out@) =~= before);
        }
        i = i + 1;
        assert(vviews(out@).push(cur@) =~= pieces(s@.take(i as int), list_sep()));
    }
    assert(s@.take(s@.len() as int) =~= s@);
    let ghost before = vviews(out@);
    out.push(cur);
    assert(vviews(out@) =~= before.push(cur@));
    out
}

/// The items listed after `marker` on the lines of `text` that start with it.
fn marked_list(text: &str, marker: &str) -> (r: Vec<String>)
    ensures
        views(r@) == marked_items(lines(text@), marker@),
{
    let ls = str_lines(text);
    let mk = chars_of(marker);
    let mut out: Vec<String> = Vec::new();
    let mut i: usize = 0;
    while i < ls.len()
        invariant
            i <= ls@.len(),
            vviews(ls@) == lines(text@),
            mk@ == marker@,
            views(out@) == marked_items(vviews(ls@).take(i as int), marker@),
        decreases ls.len() - i,
    {
        assert(vviews(ls@).take(i + 1).drop_last() =~= vviews(ls@).take(i as int));
        assert(vviews(ls@).take(i + 1).last() == ls@[i as int]@);
        match crate::text::strip_prefix_chars(&ls[i], &mk) {
            Some(v) => {
                let items = bar_pieces(&v);
                let mut k: usize = 0;
                let ghost before = views(out@);
                while k < items.len()
                    invariant
                        k <= items@.len(),
                        views(out@) == before + views(items@).take(k as int),
                    decreases items.len() - k,
                {
                    let ghost b2 = views(out@);
                    let x = crate::text::copy_string(&items[k]);
                    out.push(x);
                    assert(views(out@) =~= b2.push(views(items@)[k as int]));
                    k = k + 1;
                    assert(views(out@) =~= before + views(items@).take(k as int));
                }
                assert(views(items@).take(k as int) =~= views(items@));
            },
            None => {
                assert(marked_items(vviews(ls@).take(i + 1), marker@) =~= marked_items(
                    vviews(ls@).take(i as int),
                    marker@,
                ));
            },
        }
        i = i + 1;
    }
    assert(vviews(ls@).take(i as int) =~= vviews(ls@));
    out
}

/// The critical modules listed by a stored review.
fn review_critical(review: &str) -> (r: Vec<String>)
    ensures
        views(r@) == review_items(lines(review@)),
{
    proof {
        reveal_strlit("critical=");
    }
    marked_list(review, "critical=")
}

/// The paths listed by a patch's metadata.
fn meta_paths(meta: &str) -> (r: Vec<String>)
    ensures
        views(r@) == meta_items(meta@),
{
    let ls = str_lines(meta);
    match first_stripped_of(&ls, &chars_of("files=")) {
        None => {
            let r: Vec<String> = Vec::new();
            assert(views(r@) =~= meta_items(meta@));
            r
        },
        Some(f) => {
            let ps = split_list(&f);
            let ghost tv = Seq::new(vviews(ps@).len(), |i: int| trim(vviews(ps@)[i]));
            let ghost pred = |t: Seq<char>| is_path_token(t);
            let mut out: Vec<String> = Vec::new();
            let mut i: usize = 0;
            assert(tv.take(0).filter(pred) =~= Seq::<Seq<char>>::empty()) by {
                reveal_with_fuel(Seq::filter, 1);
            }
            let rs = chars_of(".rs");
            while i < ps.len()
                invariant
                    i <= ps@.len(),
                    rs@ == ".rs"@,
                    tv == Seq::new(vviews(ps@).len(), |i: int| trim(vviews(ps@)[i])),
                    pred == (|t: Seq<char>| is_path_token(t)),
                    views(out@) == tv.take(i as int).filter(pred),
                decreases ps.len() - i,
            {
                proof {
                    assert(tv.take(i + 1) =~= tv.take(i as int).push(tv[i as int]));
                    tv.take(i as int).lemma_filter_push(tv[i as int], pred);
                }
                let t = trim_chars(&ps[i]);
                if t.len() > 0 && (crate::text::has_char(&t, '/') || crate::text::ends_with(&t, &rs)) {
                    let ghost before = views(out@);
                    out.push(string_of(&t));
                    assert(views(out@) =~= before.push(t@));
                }
                i = i + 1;
            }
            assert(tv.take(i as int) =~= tv);
            out
        },
    }
}

/// Appends strings to a vector.
fn append_strings(out: &mut Vec<String>, items: &Vec<String>)
    ensures
        views(final(out)@) == views(old(out)@) + views(items@),
{
    let mut k: usize = 0;
    while k < items.len()
        invariant
            k <= items@.len(),
            views(out@) == views(old(out)@) + views(items@).take(k as int),
        decreases items.len() - k,
    {
        let ghost b = views(out@);
        out.push(crate::text::copy_string(&items[k]));
        assert(views(out@) =~= b.push(views(items@)[k as int]));
        k = k + 1;
        assert(views(out@) =~= views(old(out)@) + views(items@).take(k as int));
    }
    assert(views(items@).take(k as int) =~= views(items@));
}

/// The open tasks of the loop table.
pub fn open_tasks(rows: &Vec<OpenLoop>) -> (r: Vec<String>)
    ensures
        views(r@) == open_tasks_of(loop_views(rows@)),
{
    let mut out: Vec<String> = Vec::new();
    let mut i: usize = 0;
    while i < rows.len()
        invariant
            i <= rows@.len(),
            views(out@) == open_tasks_of(loop_views(rows@).take(i as int)),
        decreases rows.len() - i,
    {
        assert(loop_views(rows@).take(i + 1).drop_last() =~= loop_views(rows@).take(i as int));
        assert(loop_views(rows@).take(i + 1).last() == loop_view(rows@[i as int]));
        let r = &rows[i];
        if crate::text::str_eq(r.status.as_str(), "open") {
            let mut t = crate::text::copy_string(&r.id);
            push_str(&mut t, ":");
            push_str(&mut t, r.category.as_str());
            push_str(&mut t, ":");
            push_str(&mut t, r.detail.as_str());
            let ghost b = views(out@);
            out.push(t);
            assert(views(out@) =~= b.push(r.id@ + ":"@ + r.category@ + ":"@ + r.detail@));
        }
        i = i + 1;
    }
    assert(loop_views(rows@).take(i as int) =~= loop_views(rows@));
    out
}

/// What a session summary holds, given the log facts, the stored patch
/// texts (when the patch directory exists), the loop table and the last
/// compiler errors (when their file exists).
pub open spec fn summary_matches(
    r: SessionSummary,
    ts: u64,
    facts: LogFacts,
    patches: Option<Vec<PatchTexts>>,
    loops: Seq<OpenLoop>,
    cargo_errors: Option<String>,
) -> bool {
    let tasks = open_tasks_of(loop_views(loops));
    &&& r.ts == ts
    &&& (r.day@, r.week@) == day_week_of(ts as nat)
    &&& r.objectives@ == facts.objectives@
    &&& r.patches_created@ == facts.patches_created@
    &&& r.patches_applied@ == facts.patches_applied@
    &&& r.validations == facts.validations
    &&& r.decisions@ == facts.decisions@
    &&& views(r.errors@) == views(facts.errors@) + cargo_error_note(
        match cargo_errors {
            Some(e) => Some(e@),
            None => None,
        },
    )
    &&& views(r.open_tasks@) == tasks
    &&& views(r.recommendations@) == recommendations_for(
        facts.errors@.len() > 0,
        tasks.len() > 0,
        facts.validations as nat,
    )
    &&& match patches {
        Some(ps) => {
            &&& views(r.critical_modules@) == crate::review::sorted_set(texts_critical(ps@))
            &&& views(r.files_touched@) == first_k(crate::review::sorted_set(texts_files(ps@)), 25)
        },
        None => r.critical_modules@.len() == 0 && r.files_touched@.len() == 0,
    }
}

/// Summarizes a session.
pub fn summarize_session(
    ts: u64,
    facts: LogFacts,
    patches: Option<Vec<PatchTexts>>,
    loops: &Vec<OpenLoop>,
    cargo_errors: Option<String>,
) -> (r: SessionSummary)
    ensures
        summary_matches(r, ts, facts, patches, loops@, cargo_errors),
{
    let (day, week) = day_week_from_epoch(ts);
    let ghost f0 = facts;
    let mut critical: Vec<String> = Vec::new();
    let mut files: Vec<String> = Vec::new();
    let mut crit_list: Vec<String> = Vec::new();
    let mut file_list: Vec<String> = Vec::new();
    match &patches {
        Some(ps) => {
            let mut i: usize = 0;
            while i < ps.len()
                invariant
                    i <= ps@.len(),
                    views(crit_list@) == texts_critical(ps@.take(i as int)),
                    views(file_list@) == texts_files(ps@.take(i as int)),
                decreases ps.len() - i,
            {
                assert(ps@.take(i + 1).drop_last() =~= ps@.take(i as int));
                assert(ps@.take(i + 1).last() == ps@[i as int]);
                let rc = review_critical(ps[i].review.as_str());
                let mp = meta_paths(ps[i].meta.as_str());
                append_strings(&mut crit_list, &rc);
                append_strings(&mut file_list, &rc);
                append_strings(&mut file_list, &mp);
                i = i + 1;
            }
            assert(ps@.take(i as int) =~= ps@);
            critical = crate::review::sort_dedup(crit_list);
            let all = crate::review::sort_dedup(file_list);
            proof {
                crate::review::lemma_sorted_set(views(critical@), texts_critical(ps@));
                crate::review::lemma_sorted_set(views(all@), texts_files(ps@));
            }
            let mut k: usize = 0;
            while k < all.len() && k < 25
                invariant
                    k <= all@.len(),
                    k <= 25,
                    views(files@) == views(all@).take(k as int),
                decreases all.len() - k,
            {
                let ghost b = views(files@);
                files.push(crate::text::copy_string(&all[k]));
                assert(views(files@) =~= b.push(views(all@)[k as int]));
                k = k + 1;
                assert(views(files@) =~= views(all@).take(k as int));
            }
            proof {
                if views(all@).len() <= 25 {
                    assert(views(all@).take(k as int) =~= views(all@));
                }
            }
        },
        None => {},
    }
    let tasks = open_tasks(loops);
    let mut recommendations: Vec<String> = Vec::new();
    if facts.errors.len() > 0 {
        recommendations.push(owned("Rejouer validate après correction des erreurs de rollback/validation"));
    }
    if tasks.len() > 0 {
        recommendations.push(owned("Traiter les open loops prioritaires avant un nouveau patch large"));
    }
    if facts.validations == 0 {
        recommendations.push(owned("Lancer validate pour figer un état fiable de la session"));
    }
    assert(views(recommendations@) =~= (if facts.errors@.len() > 0 {
        seq!["Rejouer validate après correction des erreurs de rollback/validation"@]
    } else {
        Seq::empty()
    }) + (if tasks@.len() > 0 {
        seq!["Traiter les open loops prioritaires avant un nouveau patch large"@]
    } else {
        Seq::empty()
    }) + (if facts.validations == 0 {
        seq!["Lancer validate pour figer un état fiable de la session"@]
    } else {
        Seq::empty()
    }));
    if recommendations.len() == 0 {
        recommendations.push(owned("Session stable: reprendre avec resume-session puis patch ciblé"));
        assert(views(recommendations@) =~= seq!["Session stable: reprendre avec resume-session puis patch ciblé"@]);
    }
    let mut errors = facts.errors;
    match &cargo_errors {
        Some(e) => {
            if !crate::text::is_blank(e.as_str()) {
                let mut t = owned("validate-errors: ");
                let n = str_lines(e.as_str()).len();
                push_dec(&mut t, n as u64);
                push_str(&mut t, " lignes");
                let ghost b = views(errors@);
                errors.push(t);
                assert(views(errors@) =~= b + cargo_error_note(Some(e@)));
            } else {
                assert(views(errors@) =~= views(errors@) + cargo_error_note(Some(e@)));
            }
        },
        None => {
            assert(views(errors@) =~= views(errors@) + cargo_error_note(None));
        },
    }
    SessionSummary {
        ts,
        day,
        week,
        objectives: facts.objectives,
        files_touched: files,
        patches_created: facts.patches_created,
        patches_applied: facts.patches_applied,
        validations: facts.validations,
        errors,
        decisions: facts.decisions,
        critical_modules: critical,
        open_tasks: tasks,
        recommendations,
    }
}

/// The text form of a summary, one `key=value` line per field.
pub open spec fn summary_text(s: SessionSummary) -> Seq<char> {
    "ts="@ + dec(s.ts as nat) + "\nday="@ + s.day@ + "\nweek="@ + s.week@ + "\nobjectives="@ + join(
        views(s.objectives@),
        " | "@,
    ) + "\nfiles_touched="@ + join(views(s.files_touched@), " | "@) + "\npatches_created="@ + join(
        views(s.patches_created@),
        " | "@,
    ) + "\npatches_applied="@ + join(views(s.patches_applied@), " | "@) + "\nvalidations="@ + dec(
        s.validations as nat,
    ) + "\nerrors="@ + join(views(s.errors@), " | "@) + "\ndecisions="@ + join(views(s.decisions@), " | "@)
        + "\ncritical_modules="@ + join(views(s.critical_modules@), " | "@) + "\nopen_tasks="@ + join(
        views(s.open_tasks@),
        " | "@,
    ) + "\nrecommendations="@ + join(views(s.recommendations@), " | "@) + "\n"@
}

/// Writes a summary as text.
pub fn summary_to_text(s: &SessionSummary) -> (r: String)
    ensures
        r@ == summary_text(*s),
{
    let mut t = owned("ts=");
    push_dec(&mut t, s.ts);
    push_str(&mut t, "\nday=");
    push_str(&mut t, s.day.as_str());
    push_str(&mut t, "\nweek=");
    push_str(&mut t, s.week.as_str());
    push_str(&mut t, "\nobjectives=");
    let j = join_strings(&s.objectives, " | ");
    push_str(&mut t, j.as_str());
    push_str(&mut t, "\nfiles_touched=");
    let j = join_strings(&s.files_touched, " | ");
    push_str(&mut t, j.as_str());
    push_str(&mut t, "\npatches_created=");
    let j = join_strings(&s.patches_created, " | ");
    push_str(&mut t, j.as_str());
    push_str(&mut t, "\npatches_applied=");
    let j = join_strings(&s.patches_applied, " | ");
    push_str(&mut t, j.as_str());
    push_str(&mut t, "\nvalidations=");
    push_dec(&mut t, s.validations as u64);
    push_str(&mut t, "\nerrors=");
    let j = join_strings(&s.errors, " | ");
    push_str(&mut t, j.as_str());
    push_str(&mut t, "\ndecisions=");
    let j = join_strings(&s.decisions, " | ");
    push_str(&mut t, j.as_str());
    push_str(&mut t, "\ncritical_modules=");
    let j = join_strings(&s.critical_modules, " | ");
    push_str(&mut t, j.as_str());
    push_str(&mut t, "\nopen_tasks=");
    let j = join_strings(&s.open_tasks, " | ");
    push_str(&mut t, j.as_str());
    push_str(&mut t, "\nrecommendations=");
    let j = join_strings(&s.recommendations, " | ");
    push_str(&mut t, j.as_str());
    push_str(&mut t, "\n");
    t
}

// ---------------------------------------------------------------------------
// Compact views
// ---------------------------------------------------------------------------

/// At most the last `k` items.
pub open spec fn last_k(s: Seq<Seq<char>>, k: nat) -> Seq<Seq<char>> {
    if s.len() <= k {
        s
    } else {
        s.skip(s.len() - k)
    }
}

fn last_lines(text: &str, k: usize) -> (r: Vec<String>)
    ensures
        views(r@) == last_k(lines(text@), k as nat),
{
    let ls = str_lines(text);
    let start = if ls.len() <= k {
        0
    } else {
        ls.len() - k
    };
    let mut out: Vec<String> = Vec::new();
    let mut i = start;
    while i < ls.len()
        invariant
            start <= i <= ls@.len(),
            vviews(ls@) == lines(text@),
            views(out@) == vviews(ls@).subrange(start as int, i as int),
        decreases ls.len() - i,
    {
        let ghost b = views(out@);
        out.push(string_of(&ls[i]));
        assert(views(out@) =~= b.push(vviews(ls@)[i as int]));
        i = i + 1;
        assert(views(out@) =~= vviews(ls@).subrange(start as int, i as int));
    }
    assert(vviews(ls@).subrange(start as int, i as int) =~= last_k(vviews(ls@), k as nat));
    out
}

fn first_lines(text: &str, k: usize) -> (r: Vec<String>)
    ensures
        views(r@) == first_k(lines(text@), k as nat),
{
    let ls = str_lines(text);
    let mut out: Vec<String> = Vec::new();
    let mut i: usize = 0;
    while i < ls.len() && i < k
        invariant
            i <= ls@.len(),
            i <= k,
            vviews(ls@) == lines(text@),
            views(out@) == vviews(ls@).take(i as int),
        decreases ls.len() - i,
    {
        let ghost b = views(out@);
        out.push(string_of(&ls[i]));
        assert(views(out@) =~= b.push(vviews(ls@)[i as int]));
        i = i + 1;
        assert(views(out@) =~= vviews(ls@).take(i as int));
    }
    proof {
        if vviews(ls@).len() <= k {
            assert(vviews(ls@).take(i as int) =~= vviews(ls@));
        }
    }
    out
}

/// Categories of the open rows, in order.
pub open spec fn open_categories(rows: Seq<LoopView>) -> Seq<Seq<char>>
    decreases rows.len(),
{
    if rows.len() == 0 {
        Seq::empty()
    } else {
        let rest = open_categories(rows.drop_last());
        if rows.last().2 == "open"@ {
            rest.push(rows.last().1)
        } else {
            rest
        }
    }
}

/// How many times `x` occurs in `s`.
pub open spec fn occurrences(s: Seq<Seq<char>>, x: Seq<char>) -> nat
    decreases s.len(),
{
    if s.len() == 0 {
        0
    } else {
        occurrences(s.drop_last(), x) + if s.last() == x {
            1nat
        } else {
            0nat
        }
    }
}

proof fn lemma_occurrences_bounded(s: Seq<Seq<char>>, x: Seq<char>)
    ensures
        occurrences(s, x) <= s.len(),
    decreases s.len(),
{
    if s.len() > 0 {
        lemma_occurrences_bounded(s.drop_last(), x);
    }
}

fn count_of(s: &Vec<String>, x: &String) -> (r: usize)
    ensures
        r == occurrences(views(s@), x@),
{
    let mut n: usize = 0;
    let mut i: usize = 0;
    while i < s.len()
        invariant
            i <= s@.len(),
            n == occurrences(views(s@).take(i as int), x@),
        decreases s.len() - i,
    {
        proof {
            lemma_occurrences_bounded(views(s@).take(i as int), x@);
            assert(views(s@).take(i + 1).drop_last() =~= views(s@).take(i as int));
        }
        if crate::text::str_eq(s[i].as_str(), x.as_str()) {
            n = n + 1;
        }
        i = i + 1;
    }
    assert(views(s@).take(i as int) =~= views(s@));
    n
}

/// The compact project memory text.
pub open spec fn project_compact_text(rows: Seq<LoopView>, lessons: Seq<char>, patch_history: Seq<char>) -> Seq<char> {
    let cats = crate::review::sorted_set(open_categories(rows));
    let by_cat = Seq::new(
        cats.len(),
        |i: int| cats[i] + ":"@ + dec(occurrences(open_categories(rows), cats[i])),
    );
    "project_memory_compact=1\n"@ + "open_loops_total="@ + dec(open_categories(rows).len()) + "\n"@
        + "open_loops_by_category="@ + join(by_cat, " | "@) + "\n"@ + "recent_patches="@ + join(
        last_k(lines(patch_history), 5),
        " | "@,
    ) + "\n"@ + "recent_lessons="@ + join(last_k(lines(lessons), 8), " | "@) + "\n"@
}

/// Builds the compact project memory from the loop table, the lessons and
/// the patch history.
pub fn build_project_compact(loops: &Vec<OpenLoop>, lessons: &str, patch_history: &str) -> (r: String)
    ensures
        r@ == project_compact_text(loop_views(loops@), lessons@, patch_history@),
{
    let ghost rows = loop_views(loops@);
    let mut cats: Vec<String> = Vec::new();
    let mut i: usize = 0;
    while i < loops.len()
        invariant
            i <= loops@.len(),
            rows == loop_views(loops@),
            views(cats@) == open_categories(rows.take(i as int)),
        decreases loops.len() - i,
    {
        assert(rows.take(i + 1).drop_last() =~= rows.take(i as int));
        assert(rows.take(i + 1).last() == loop_view(loops@[i as int]));
        if crate::text::str_eq(loops[i].status.as_str(), "open") {
            let ghost b = views(cats@);
            cats.push(crate::text::copy_string(&loops[i].category));
            assert(views(cats@) =~= b.push(loops@[i as int].category@));
        }
        i = i + 1;
    }
    assert(rows.take(i as int) =~= rows);
    let total = cats.len();
    let ghost all = views(cats@);
    let distinct = crate::review::sort_dedup(crate::text::copy_strings(&cats));
    proof {
        crate::review::lemma_sorted_set(views(distinct@), all);
    }
    let ghost ds = views(distinct@);
    let mut parts: Vec<String> = Vec::new();
    let mut k: usize = 0;
    while k < distinct.len()
        invariant
            k <= distinct@.len(),
            all == views(cats@),
            ds == views(distinct@),
            views(parts@).len() == k,
            forall|j: int|
                0 <= j < k ==> #[trigger] views(parts@)[j] == ds[j] + ":"@ + dec(
                    occurrences(all, ds[j]),
                ),
        decreases distinct.len() - k,
    {
        let n = count_of(&cats, &distinct[k]);
        let mut t = crate::text::copy_string(&distinct[k]);
        push_str(&mut t, ":");
        push_dec(&mut t, n as u64);
        assert(t@ == ds[k as int] + ":"@ + dec(occurrences(all, ds[k as int])));
        let ghost b = views(parts@);
        parts.push(t);
        assert(views(parts@) =~= b.push(t@));
        k = k + 1;
    }
    assert(views(parts@) =~= Seq::new(
        ds.len(),
        |j: int| ds[j] + ":"@ + dec(occurrences(all, ds[j])),
    ));
    let mut out = owned("project_memory_compact=1\n");
    push_str(&mut out, "open_loops_total=");
    push_dec(&mut out, total as u64);
    push_str(&mut out, "\n");
    push_str(&mut out, "open_loops_by_category=");
    let j = join_strings(&parts, " | ");
    push_str(&mut out, j.as_str());
    push_str(&mut out, "\n");
    push_str(&mut out, "recent_patches=");
    let rp = last_lines(patch_history, 5);
    let j = join_strings(&rp, " | ");
    push_str(&mut out, j.as_str());
    push_str(&mut out, "\n");
    push_str(&mut out, "recent_lessons=");
    let rl = last_lines(lessons, 8);
    let j = join_strings(&rl, " | ");
    push_str(&mut out, j.as_str());
    push_str(&mut out, "\n");
    out
}


/// The open rows of the loop table, each as `id [category] detail`.
pub open spec fn open_briefs(rows: Seq<LoopView>) -> Seq<Seq<char>>
    decreases rows.len(),
{
    if rows.len() == 0 {
        Seq::empty()
    } else {
        let r = rows.last();
        let rest = open_briefs(rows.drop_last());
        if r.2 == "open"@ {
            rest.push(r.0 + " ["@ + r.1 + "] "@ + r.3)
        } else {
            rest
        }
    }
}

fn open_brief_list(rows: &Vec<OpenLoop>) -> (r: Vec<String>)
    ensures
        views(r@) == open_briefs(loop_views(rows@)),
{
    let mut out: Vec<String> = Vec::new();
    let mut i: usize = 0;
    while i < rows.len()
        invariant
            i <= rows@.len(),
            views(out@) == open_briefs(loop_views(rows@).take(i as int)),
        decreases rows.len() - i,
    {
        assert(loop_views(rows@).take(i + 1).drop_last() =~= loop_views(rows@).take(i as int));
        assert(loop_views(rows@).take(i + 1).last() == loop_view(rows@[i as int]));
        let r = &rows[i];
        if crate::text::str_eq(r.status.as_str(), "open") {
            let mut t = crate::text::copy_string(&r.id);
            push_str(&mut t, " [");
            push_str(&mut t, r.category.as_str());
            push_str(&mut t, "] ");
            push_str(&mut t, r.detail.as_str());
            let ghost b = views(out@);
            out.push(t);
            assert(views(out@) =~= b.push(r.id@ + " ["@ + r.category@ + "] "@ + r.detail@));
        }
        i = i + 1;
    }
    assert(loop_views(rows@).take(i as int) =~= loop_views(rows@));
    out
}

/// At most the first `k` strings of `v`.
fn take_first(v: &Vec<String>, k: usize) -> (r: Vec<String>)
    ensures
        views(r@) == first_k(views(v@), k as nat),
{
    let mut out: Vec<String> = Vec::new();
    let mut i: usize = 0;
    while i < v.len() && i < k
        invariant
            i <= v@.len(),
            i <= k,
            views(out@) == views(v@).take(i as int),
        decreases v.len() - i,
    {
        let ghost b = views(out@);
        out.push(crate::text::copy_string(&v[i]));
        assert(views(out@) =~= b.push(views(v@)[i as int]));
        i = i + 1;
        assert(views(out@) =~= views(v@).take(i as int));
    }
    proof {
        if views(v@).len() <= k {
            assert(views(v@).take(i as int) =~= views(v@));
        }
    }
    out
}

/// The last line of the sessions log, or `none`.
pub open spec fn last_session_of(sessions: Seq<char>) -> Seq<char> {
    if lines(sessions).len() > 0 {
        lines(sessions).last()
    } else {
        "none"@
    }
}

/// The modules touched in the last daily summary: the distinct items of its
/// `files_touched=` lines, in order, at most twelve.
pub open spec fn recent_touched(last_daily: Seq<char>) -> Seq<Seq<char>> {
    first_k(crate::review::sorted_set(marked_items(lines(last_daily), "files_touched="@)), 12)
}

/// The recent-memory view, from the sessions log, the loop table, the
/// lessons, the patch history, the last compiler errors and the text of the
/// last daily summary (empty where a file is missing).
pub open spec fn recent_text(
    sessions: Seq<char>,
    rows: Seq<LoopView>,
    lessons: Seq<char>,
    patch_history: Seq<char>,
    validate_errors: Seq<char>,
    last_daily: Seq<char>,
) -> Seq<char> {
    "last_session="@ + last_session_of(sessions) + "\n"@
    + "open_loops="@ + join(first_k(open_briefs(rows), 8), " | "@) + "\n"@
    + "lessons="@ + join(last_k(lines(lessons), 6), " | "@) + "\n"@
    + "patches="@ + join(last_k(lines(patch_history), 5), " | "@) + "\n"@
    + "last_validate_errors="@ + join(first_k(lines(validate_errors), 5), " | "@) + "\n"@
    + "recent_modules="@ + join(recent_touched(last_daily), " | "@) + "\n"@
}

/// Renders the recent-memory view.
pub fn render_recent(
    sessions: &str,
    loops: &Vec<OpenLoop>,
    lessons: &str,
    patch_history: &str,
    validate_errors: &str,
    last_daily: &str,
) -> (r: String)
    ensures
        r@ == recent_text(
            sessions@,
            loop_views(loops@),
            lessons@,
            patch_history@,
            validate_errors@,
            last_daily@,
        ),
{
    let mut out = owned("last_session=");
    let sl = str_lines(sessions);
    if sl.len() > 0 {
        let last = string_of(&sl[sl.len() - 1]);
        push_str(&mut out, last.as_str());
    } else {
        push_str(&mut out, "none");
    }
    push_str(&mut out, "\n");
    push_str(&mut out, "open_loops=");
    let briefs = open_brief_list(loops);
    let open = take_first(&briefs, 8);
    let j = join_strings(&open, " | ");
    push_str(&mut out, j.as_str());
    push_str(&mut out, "\n");
    push_str(&mut out, "lessons=");
    let rl = last_lines(lessons, 6);
    let j = join_strings(&rl, " | ");
    push_str(&mut out, j.as_str());
    push_str(&mut out, "\n");
    push_str(&mut out, "patches=");
    let rp = last_lines(patch_history, 5);
    let j = join_strings(&rp, " | ");
    push_str(&mut out, j.as_str());
    push_str(&mut out, "\n");
    push_str(&mut out, "last_validate_errors=");
    let el = first_lines(validate_errors, 5);
    let j = join_strings(&el, " | ");
    push_str(&mut out, j.as_str());
    push_str(&mut out, "\n");
    push_str(&mut out, "recent_modules=");
    proof {
        reveal_strlit("files_touched=");
    }
    let touched = crate::review::sort_dedup(marked_list(last_daily, "files_touched="));
    proof {
        crate::review::lemma_sorted_set(
            views(touched@),
            marked_items(lines(last_daily@), "files_touched="@),
        );
    }
    let tm = take_first(&touched, 12);
    let j = join_strings(&tm, " | ");
    push_str(&mut out, j.as_str());
    push_str(&mut out, "\n");
    out
}

/// The modules named on the `recent_modules=` line of a recent-memory view:
/// its non-blank pieces at `" | "`, at most `n`.
pub open spec fn recent_modules_of(text: Seq<char>, n: nat) -> Seq<Seq<char>> {
    match first_stripped(lines(text), "recent_modules="@) {
        Some(v) => first_k(
            crate::text::split_str(v, " | "@).filter(|x: Seq<char>| trim(x).len() > 0),
            n,
        ),
        None => Seq::empty(),
    }
}

/// The recently touched modules listed by a recent-memory view.
pub fn recent_modules(text: &str, n: usize) -> (r: Vec<String>)
    ensures
        views(r@) == recent_modules_of(text@, n as nat),
{
    let ls = str_lines(text);
    match first_stripped_of(&ls, &chars_of("recent_modules=")) {
        None => {
            let r: Vec<String> = Vec::new();
            assert(views(r@) =~= Seq::<Seq<char>>::empty());
            r
        },
        Some(v) => {
            proof {
                reveal_strlit(" | ");
            }
            let sep = chars_of(" | ");
            let ps = crate::text::split_text(&v, &sep);
            let ghost pred = |x: Seq<char>| trim(x).len() > 0;
            let ghost all = vviews(ps@);
            let mut kept: Vec<String> = Vec::new();
            let mut i: usize = 0;
            assert(all.take(0).filter(pred) =~= Seq::<Seq<char>>::empty()) by {
                reveal_with_fuel(Seq::filter, 1);
            }
            while i < ps.len()
                invariant
                    i <= ps@.len(),
                    all == vviews(ps@),
                    pred == (|x: Seq<char>| trim(x).len() > 0),
                    views(kept@) == all.take(i as int).filter(pred),
                decreases ps.len() - i,
            {
                proof {
                    assert(all.take(i + 1) =~= all.take(i as int).push(all[i as int]));
                    all.take(i as int).lemma_filter_push(all[i as int], pred);
                }
                let t = trim_chars(&ps[i]);
                if t.len() > 0 {
                    let ghost before = views(kept@);
                    kept.push(string_of(&ps[i]));
                    assert(views(kept@) =~= before.push(all[i as int]));
                }
                i = i + 1;
            }
            assert(all.take(i as int) =~= all);
            take_first(&kept, n)
        },
    }
}

/// The sessions log after appending one entry: the lines kept once the log
/// has grown past 300 lines are its last 200.
pub open spec fn sessions_log_after(cur: Seq<char>, ts: nat, day: Seq<char>, week: Seq<char>) -> Seq<char> {
    let grown = cur + dec(ts) + "\t"@ + day + "\t"@ + week + "\n"@;
    if lines(grown).len() > 300 {
        join(last_k(lines(grown), 200), "\n"@) + "\n"@
    } else {
        grown
    }
}

/// Appends a session entry to the sessions log and bounds its length.
pub fn append_session_entry(cur: &str, ts: u64, day: &str, week: &str) -> (r: String)
    ensures
        r@ == sessions_log_after(cur@, ts as nat, day@, week@),
{
    let mut grown = owned(cur);
    push_dec(&mut grown, ts);
    push_str(&mut grown, "\t");
    push_str(&mut grown, day);
    push_str(&mut grown, "\t");
    push_str(&mut grown, week);
    push_str(&mut grown, "\n");
    let ls = str_lines(grown.as_str());
    if ls.len() > 300 {
        let kept = last_lines(grown.as_str(), 200);
        let mut r = join_strings(&kept, "\n");
        push_str(&mut r, "\n");
        r
    } else {
        grown
    }
}


/// The task memory once compressed: past 200 lines, a header that counts
/// the dropped lines, then the last 120 lines; `None` when it is short
/// enough to stay as it is.
pub open spec fn compressed_task_memory_of(raw: Seq<char>) -> Option<Seq<char>> {
    let ls = lines(raw);
    if ls.len() <= 200 {
        None
    } else {
        Some(
            "{\"compressed\":true,\"dropped\":"@ + dec((ls.len() - 120) as nat) + "}\n"@ + join(
                last_k(ls, 120),
                "\n"@,
            ) + "\n"@,
        )
    }
}

/// Compresses the task memory log when it has grown past 200 lines.
pub fn compress_task_memory(raw: &str) -> (r: Option<String>)
    ensures
        match r {
            Some(t) => compressed_task_memory_of(raw@) == Some(t@),
            None => compressed_task_memory_of(raw@) is None,
        },
{
    let n = str_lines(raw).len();
    if n <= 200 {
        return None;
    }
    let kept = last_lines(raw, 120);
    let mut out = owned("{\"compressed\":true,\"dropped\":");
    push_dec(&mut out, (n - 120) as u64);
    push_str(&mut out, "}\n");
    let body = join_strings(&kept, "\n");
    push_str(&mut out, body.as_str());
    push_str(&mut out, "\n");
    Some(out)
}


/// Within one 400-year era, the year of a day and the day within that year
/// stay in range.
#[verifier::spinoff_prover]
#[verifier::rlimit(50)]
proof fn lemma_year_of_era(doe: int)
    requires
        0 <= doe < 146097,
    ensures
        ({
            let yoe = (doe - doe / 1460 + doe / 36524 - doe / 146096) / 365;
            let doy = doe - (365 * yoe + yoe / 4 - yoe / 100);
            0 <= yoe < 400 && 0 <= doy <= 365
        }),
{
}

/// The day number of the date of a day is that day.
pub proof fn law_civil_days_roundtrip(z0: int)
    ensures
        days_of(civil_of(z0).0, civil_of(z0).1, civil_of(z0).2) == z0,
{
    let z = z0 + 719468;
    let era = z / 146097;
    let doe = z - era * 146097;
    assert(0 <= doe < 146097);
    lemma_year_of_era(doe);
    let yoe = (doe - doe / 1460 + doe / 36524 - doe / 146096) / 365;
    let y = yoe + era * 400;
    let doy = doe - (365 * yoe + yoe / 4 - yoe / 100);
    let mp = trunc_div(5 * doy + 2, 153);
    assert(0 <= mp <= 11);
    let (year, m, d) = civil_of(z0);
    assert(m + if m > 2 { -3int } else { 9int } == mp);
    assert(year - if m <= 2 { 1int } else { 0int } == y);
    assert(y / 400 == era);
    assert(y - era * 400 == yoe);
}

/// A leap year of the proleptic Gregorian calendar.
pub open spec fn is_leap(y: int) -> bool {
    (y % 4 == 0 && y % 100 != 0) || y % 400 == 0
}

/// The number of days of a month.
pub open spec fn month_len(y: int, m: int) -> int {
    if m == 2 {
        if is_leap(y) {
            29
        } else {
            28
        }
    } else if m == 4 || m == 6 || m == 9 || m == 11 {
        30
    } else {
        31
    }
}

/// A valid date.
pub open spec fn valid_date(y: int, m: int, d: int) -> bool {
    1 <= m <= 12 && 1 <= d <= month_len(y, m)
}

/// Inside an era, the year found from a day is the year the day was
/// counted from.
#[verifier::spinoff_prover]
#[verifier::rlimit(50)]
proof fn lemma_year_back(yoe: int, doy: int)
    requires
        0 <= yoe < 400,
        0 <= doy < 365 + if is_leap(yoe + 1) { 1int } else { 0int },
    ensures
        ({
            let doe = 365 * yoe + yoe / 4 - yoe / 100 + doy;
            &&& 0 <= doe < 146097
            &&& (doe - doe / 1460 + doe / 36524 - doe / 146096) / 365 == yoe
        }),
{
}

/// The month found from a day of the year is the month the day was counted
/// from (months counted from March).
#[verifier::spinoff_prover]
#[verifier::rlimit(50)]
proof fn lemma_month_back(mp: int, d: int, leap: bool)
    requires
        0 <= mp <= 11,
        1 <= d <= if mp == 11 { if leap { 29int } else { 28int } } else if mp == 1 || mp == 3 || mp == 6
            || mp == 8 { 30int } else { 31int },
    ensures
        ({
            let doy = (153 * mp + 2) / 5 + d - 1;
            &&& 0 <= doy < 365 + if leap { 1int } else { 0int }
            &&& (5 * doy + 2) / 153 == mp
        }),
{
}

/// A year splits into its era and its year within the era, which is leap
/// exactly when the year is.
proof fn lemma_era_split(yy: int)
    ensures
        0 <= yy - (yy / 400) * 400 < 400,
        is_leap(yy - (yy / 400) * 400 + 1) == is_leap(yy + 1),
{
    let era = yy / 400;
    let yoe = yy - era * 400;
    assert((yy + 1) % 4 == (yoe + 1) % 4 && (yy + 1) % 100 == (yoe + 1) % 100 && (yy + 1) % 400 == (yoe
        + 1) % 400) by (nonlinear_arith)
        requires
            yy == yoe + 400 * era,
    {
        vstd::arithmetic::div_mod::lemma_mod_multiples_vanish(era, yoe + 1, 400);
        vstd::arithmetic::div_mod::lemma_mod_multiples_vanish(100 * era, yoe + 1, 4);
        vstd::arithmetic::div_mod::lemma_mod_multiples_vanish(4 * era, yoe + 1, 100);
    }
}

/// The date of the day number of a valid date is that date.
pub proof fn law_days_civil_roundtrip(y: int, m: int, d: int)
    requires
        valid_date(y, m, d),
    ensures
        civil_of(days_of(y, m, d)) == (y, m, d),
{
    let yy = y - if m <= 2 { 1int } else { 0int };
    lemma_era_split(yy);
    let era = yy / 400;
    let yoe = yy - era * 400;
    let mp = m + if m > 2 { -3int } else { 9int };
    assert(month_len(y, m) == if mp == 11 { if is_leap(yoe + 1) { 29int } else { 28int } } else if mp == 1
        || mp == 3 || mp == 6 || mp == 8 { 30int } else { 31int });
    lemma_month_back(mp, d, is_leap(yoe + 1));
    let doy = (153 * mp + 2) / 5 + d - 1;
    lemma_year_back(yoe, doy);
    let doe = 365 * yoe + yoe / 4 - yoe / 100 + doy;
    lemma_days_era(y, m, d, era, doe);
}

proof fn lemma_days_era(y: int, m: int, d: int, era: int, doe: int)
    requires
        1 <= m <= 12,
        0 <= doe < 146097,
        era == (y - if m <= 2 { 1int } else { 0int }) / 400,
        doe == ({
            let yoe = (y - if m <= 2 { 1int } else { 0int }) - era * 400;
            let mp = m + if m > 2 { -3int } else { 9int };
            365 * yoe + yoe / 4 - yoe / 100 + (153 * mp + 2) / 5 + d - 1
        }),
        (doe - doe / 1460 + doe / 36524 - doe / 146096) / 365 == (y - if m <= 2 { 1int } else { 0int })
            - era * 400,
        ({
            let mp = m + if m > 2 { -3int } else { 9int };
            (5 * ((153 * mp + 2) / 5 + d - 1) + 2) / 153 == mp
        }),
    ensures
        civil_of(days_of(y, m, d)) == (y, m, d),
{
    let z = era * 146097 + doe;
    assert(days_of(y, m, d) + 719468 == z);
    assert(z / 146097 == era) by (nonlinear_arith)
        requires
            z == era * 146097 + doe,
            0 <= doe < 146097,
    ;
}

} // verus!
