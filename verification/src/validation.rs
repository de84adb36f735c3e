//! Validation of a workspace by cargo: which commands run, in which order,
//! what their outcomes decide and what the regression check reports.
//!
//! The commands themselves run outside the library: `ValidationRun` names
//! the next command, takes its outcome and decides what comes next.
use crate::pipeline::{debug_list, debug_strings};
use crate::session::{all_digits, digits_value};
use crate::text::{
    contains_sub, dec, int_text, join, join_strs, lossy_text, lowercase, owned, push_dec_u128,
    push_int, push_str, str_contains, str_trim, strip_prefix, strs, to_lowercase, trim, utf8_lossy,
    views,
};
use crate::types::ValidationResult;
use vstd::prelude::*;

verus! {

/// The version tag of the validation results.
pub const EVAL_VERSION: &'static str = "validate.v2";

/// How much slower than the baseline a run may be, in percent.
pub const MAX_DURATION_REGRESSION_PCT: u128 = 25;

/// The arguments of the cargo command for a stage (check, clippy, test)
/// and a variant (offline first, then online).
pub open spec fn cargo_args(stage: nat, variant: nat) -> Seq<Seq<char>> {
    if stage == 0 {
        if variant == 0 {
            seq!["check"@, "--all-targets"@, "--offline"@]
        } else {
            seq!["check"@, "--all-targets"@]
        }
    } else if stage == 1 {
        if variant == 0 {
            seq!["clippy"@, "--offline"@, "--"@, "-D"@, "warnings"@]
        } else {
            seq!["clippy"@, "--"@, "-D"@, "warnings"@]
        }
    } else {
        if variant == 0 {
            seq!["test"@, "--offline"@, "--quiet"@]
        } else {
            seq!["test"@, "--quiet"@]
        }
    }
}

/// Whether the error output of a command looks like a transient failure.
pub open spec fn transient_text(stderr: Seq<u8>) -> bool {
    let s = lowercase(lossy_text(stderr));
    contains_sub(s, "timed out"@) || contains_sub(s, "timeout"@) || contains_sub(s, "temporary"@)
        || contains_sub(s, "blocking waiting for file lock"@)
}

/// Whether the error output of a command looks like a transient failure
/// (a timeout, a temporary error or a wait for a file lock).
pub fn looks_transient(stderr: &[u8]) -> (r: bool)
    ensures
        r == transient_text(stderr@),
{
    let s = to_lowercase(utf8_lossy(stderr).as_str());
    str_contains(s.as_str(), "timed out") || str_contains(s.as_str(), "timeout") || str_contains(
        s.as_str(),
        "temporary",
    ) || str_contains(s.as_str(), "blocking waiting for file lock")
}

/// A validation in progress: the stage (0 check, 1 clippy, 2 test, 3 done),
/// the variant of its command (0 offline, 1 online), whether the current
/// command is a retry, the stages that passed and the log.
#[derive(Debug)]
pub struct ValidationRun {
    pub stage: u8,
    pub variant: u8,
    pub retried: bool,
    pub check_ok: bool,
    pub clippy_ok: bool,
    pub test_ok: bool,
    pub logs: Vec<String>,
}

/// The state of a validation: stage, variant, retry flag and the three
/// stage outcomes.
pub type RunView = (nat, nat, bool, bool, bool, bool);

pub open spec fn run_view(r: ValidationRun) -> RunView {
    (r.stage as nat, r.variant as nat, r.retried, r.check_ok, r.clippy_ok, r.test_ok)
}

/// The state after a command of the current stage: a success passes the
/// stage; a first transient failure retries the command; another failure
/// of the offline variant moves to the online one; a failure of the online
/// variant fails the stage.
pub open spec fn after_command(v: RunView, success: bool, transient: bool) -> RunView {
    let (st, va, re, c, cl, t) = v;
    if success {
        (st + 1, 0, false, c || st == 0, cl || st == 1, t || st == 2)
    } else if !re && transient {
        (st, va, true, c, cl, t)
    } else if va == 0 {
        (st, 1, false, c, cl, t)
    } else {
        (st + 1, 0, false, c, cl, t)
    }
}

/// Commands that can still run: it decreases with every command.
pub open spec fn remaining(v: RunView) -> int {
    (3 - v.0) * 4 + (1 - v.1) * 2 + (if v.2 {
        0int
    } else {
        1int
    })
}

/// What the log gets for a command that ran: the command and its exit code
/// (-1 without one), its output and error output when not empty, and a
/// note when it is retried.
pub open spec fn command_log(
    args: Seq<Seq<char>>,
    code: Option<i32>,
    stdout: Seq<u8>,
    stderr: Seq<u8>,
    retry: bool,
) -> Seq<Seq<char>> {
    seq![
        "$ cargo "@ + join(args, " "@) + " => "@ + int_text(
            match code {
                Some(c) => c as int,
                None => -1,
            },
        ),
    ] + (if stdout.len() > 0 {
        seq![lossy_text(stdout)]
    } else {
        Seq::empty()
    }) + (if stderr.len() > 0 {
        seq![lossy_text(stderr)]
    } else {
        Seq::empty()
    }) + (if retry {
        seq!["retrying transient failure: cargo "@ + join(args, " "@)]
    } else {
        Seq::empty()
    })
}

/// The log lines of a command that ran.
fn command_log_lines(args: &Vec<&'static str>, code: Option<i32>, stdout: &[u8], stderr: &[u8], retry: bool) -> (r: Vec<String>)
    ensures
        views(r@) == command_log(strs(args@), code, stdout@, stderr@, retry),
{
    let joined = join_strs(args, " ");
    let mut head = owned("$ cargo ");
    push_str(&mut head, joined.as_str());
    push_str(&mut head, " => ");
    let c: i64 = match code {
        Some(c) => c as i64,
        None => -1,
    };
    push_int(&mut head, c);
    let ghost h = head@;
    let mut out: Vec<String> = Vec::new();
    out.push(head);
    let ghost mut expect: Seq<Seq<char>> = seq![h];
    assert(views(out@) =~= expect);
    if stdout.len() > 0 {
        let t = utf8_lossy(stdout);
        out.push(t);
        proof {
            expect = expect + seq![lossy_text(stdout@)];
        }
    }
    assert(views(out@) =~= expect);
    if stderr.len() > 0 {
        let t = utf8_lossy(stderr);
        out.push(t);
        proof {
            expect = expect + seq![lossy_text(stderr@)];
        }
    }
    assert(views(out@) =~= expect);
    if retry {
        let mut note = owned("retrying transient failure: cargo ");
        push_str(&mut note, joined.as_str());
        let ghost nv = note@;
        out.push(note);
        proof {
            expect = expect + seq![nv];
        }
    }
    assert(views(out@) =~= expect);
    assert(expect =~= command_log(strs(args@), code, stdout@, stderr@, retry));
    out
}

impl ValidationRun {
    pub open spec fn wf(&self) -> bool {
        &&& self.stage <= 3
        &&& self.variant <= 1
        &&& self.stage == 3 ==> self.variant == 0 && !self.retried
    }

    /// A validation that has run nothing yet.
    pub fn new() -> (r: ValidationRun)
        ensures
            r.wf(),
            run_view(r) == (0nat, 0nat, false, false, false, false),
            r.logs@.len() == 0,
    {
        ValidationRun {
            stage: 0,
            variant: 0,
            retried: false,
            check_ok: false,
            clippy_ok: false,
            test_ok: false,
            logs: Vec::new(),
        }
    }

    /// Whether every stage has been decided.
    pub fn is_done(&self) -> (r: bool)
        ensures
            r == (self.stage == 3),
    {
        self.stage == 3
    }

    /// The arguments of the next cargo command, if any remains.
    pub fn next_command(&self) -> (r: Option<Vec<&'static str>>)
        requires
            self.wf(),
        ensures
            match r {
                Some(a) => self.stage < 3 && strs(a@) == cargo_args(
                    self.stage as nat,
                    self.variant as nat,
                ),
                None => self.stage == 3,
            },
    {
        if self.stage == 3 {
            return None;
        }
        let a: Vec<&'static str> = if self.stage == 0 {
            if self.variant == 0 {
                vec!["check", "--all-targets", "--offline"]
            } else {
                vec!["check", "--all-targets"]
            }
        } else if self.stage == 1 {
            if self.variant == 0 {
                vec!["clippy", "--offline", "--", "-D", "warnings"]
            } else {
                vec!["clippy", "--", "-D", "warnings"]
            }
        } else {
            if self.variant == 0 {
                vec!["test", "--offline", "--quiet"]
            } else {
                vec!["test", "--quiet"]
            }
        };
        assert(strs(a@) =~= cargo_args(self.stage as nat, self.variant as nat));
        Some(a)
    }

    fn advance(&mut self, success: bool, transient: bool)
        requires
            old(self).wf(),
            old(self).stage < 3,
        ensures
            final(self).wf(),
            run_view(*final(self)) == after_command(run_view(*old(self)), success, transient),
            final(self).logs == old(self).logs,
    {
        if success {
            if self.stage == 0 {
                self.check_ok = true;
            } else if self.stage == 1 {
                self.clippy_ok = true;
            } else {
                self.test_ok = true;
            }
            self.stage = self.stage + 1;
            self.variant = 0;
            self.retried = false;
        } else if !self.retried && transient {
            self.retried = true;
        } else if self.variant == 0 {
            self.variant = 1;
            self.retried = false;
        } else {
            self.stage = self.stage + 1;
            self.variant = 0;
            self.retried = false;
        }
    }

    /// Takes the outcome of the command that `next_command` named: its exit
    /// code (none when a signal ended it), its output and its error output.
    pub fn record_output(&mut self, code: Option<i32>, stdout: &[u8], stderr: &[u8])
        requires
            old(self).wf(),
            old(self).stage < 3,
        ensures
            final(self).wf(),
            run_view(*final(self)) == after_command(
                run_view(*old(self)),
                code == Some(0i32),
                transient_text(stderr@),
            ),
            views(final(self).logs@) == views(old(self).logs@) + command_log(
                cargo_args(old(self).stage as nat, old(self).variant as nat),
                code,
                stdout@,
                stderr@,
                code != Some(0i32) && !old(self).retried && transient_text(stderr@),
            ),
            remaining(run_view(*final(self))) < remaining(run_view(*old(self))),
    {
        let args = match self.next_command() {
            Some(a) => a,
            None => {
                assert(false);
                Vec::new()
            },
        };
        let success = match code {
            Some(c) => c == 0,
            None => false,
        };
        let transient = looks_transient(stderr);
        let retry = !success && !self.retried && transient;
        let lines = command_log_lines(&args, code, stdout, stderr, retry);
        let ghost l0 = views(self.logs@);
        let ghost v0 = run_view(*self);
        let mut k: usize = 0;
        while k < lines.len()
            invariant
                k <= lines@.len(),
                run_view(*self) == v0,
                self.wf(),
                self.stage < 3,
                views(self.logs@) == l0 + views(lines@).take(k as int),
            decreases lines.len() - k,
        {
            let ghost b = views(self.logs@);
            let x = crate::text::copy_string(&lines[k]);
            self.logs.push(x);
            assert(views(self.logs@) =~= b.push(views(lines@)[k as int]));
            assert(views(lines@).take(k + 1) =~= views(lines@).take(k as int).push(views(lines@)[k as int]));
            k = k + 1;
        }
        assert(views(lines@).take(k as int) =~= views(lines@));
        self.advance(success, transient);
    }

    /// Takes the failure to start the command that `next_command` named.
    pub fn record_spawn_error(&mut self, message: &str)
        requires
            old(self).wf(),
            old(self).stage < 3,
        ensures
            final(self).wf(),
            run_view(*final(self)) == after_command(run_view(*old(self)), false, false),
            views(final(self).logs@) == views(old(self).logs@).push(
                "cargo "@ + debug_list(cargo_args(old(self).stage as nat, old(self).variant as nat))
                    + " failed: "@ + message@,
            ),
            remaining(run_view(*final(self))) < remaining(run_view(*old(self))),
    {
        let args = match self.next_command() {
            Some(a) => a,
            None => {
                assert(false);
                Vec::new()
            },
        };
        let mut owned_args: Vec<String> = Vec::new();
        let mut i: usize = 0;
        while i < args.len()
            invariant
                i <= args@.len(),
                views(owned_args@) == strs(args@).take(i as int),
            decreases args.len() - i,
        {
            let ghost b = views(owned_args@);
            let o = owned(args[i]);
            owned_args.push(o);
            assert(views(owned_args@) =~= b.push(args@[i as int]@));
            assert(strs(args@).take(i + 1) =~= strs(args@).take(i as int).push(args@[i as int]@));
            i = i + 1;
        }
        assert(strs(args@).take(i as int) =~= strs(args@));
        let d = debug_strings(&owned_args);
        let mut line = owned("cargo ");
        push_str(&mut line, d.as_str());
        push_str(&mut line, " failed: ");
        push_str(&mut line, message);
        let ghost b = views(self.logs@);
        let ghost lv = line@;
        self.logs.push(line);
        assert(views(self.logs@) =~= b.push(lv));
        self.advance(false, false);
    }
}

/// Every command a validation runs brings it closer to its end: at most
/// fifteen commands run, whatever they report.
pub proof fn law_validation_terminates(v: RunView, success: bool, transient: bool)
    requires
        v.0 < 3,
        v.1 <= 1,
    ensures
        0 <= remaining(after_command(v, success, transient)) < remaining(v) <= 15,
{
}

/// The alerts of a validation: a red pipeline, and a run slower than the
/// baseline by more than the allowed percentage.
pub open spec fn regression_alerts_of(all_ok: bool, duration_ms: nat, baseline: Option<u128>) -> Seq<
    Seq<char>,
> {
    (if !all_ok {
        seq!["build-pipeline-not-green"@]
    } else {
        Seq::empty()
    }) + match baseline {
        Some(b) => {
            let allowed = b + (b * 25) / 100;
            if duration_ms > allowed {
                seq![
                    "runtime-regression:"@ + dec(duration_ms) + "ms>"@ + dec(allowed as nat)
                        + "ms(base="@ + dec(b as nat) + "ms,+"@ + dec(25) + "%)"@,
                ]
            } else {
                Seq::empty()
            }
        },
        None => Seq::empty(),
    }
}

/// The regression alerts of a validation against its baseline duration.
pub fn detect_regressions(
    check_ok: bool,
    clippy_ok: bool,
    test_ok: bool,
    duration_ms: u128,
    baseline: Option<u128>,
) -> (r: Vec<String>)
    requires
        baseline matches Some(b) ==> b * 25 <= u128::MAX,
    ensures
        views(r@) == regression_alerts_of(check_ok && clippy_ok && test_ok, duration_ms as nat, baseline),
{
    let mut alerts: Vec<String> = Vec::new();
    if !(check_ok && clippy_ok && test_ok) {
        alerts.push(owned("build-pipeline-not-green"));
    }
    let ghost a0 = views(alerts@);
    match baseline {
        Some(base) => {
            let allowed = base + (base * MAX_DURATION_REGRESSION_PCT / 100);
            if duration_ms > allowed {
                let mut t = owned("runtime-regression:");
                push_dec_u128(&mut t, duration_ms);
                push_str(&mut t, "ms>");
                push_dec_u128(&mut t, allowed);
                push_str(&mut t, "ms(base=");
                push_dec_u128(&mut t, base);
                push_str(&mut t, "ms,+");
                push_dec_u128(&mut t, MAX_DURATION_REGRESSION_PCT);
                push_str(&mut t, "%)");
                let ghost tv = t@;
                alerts.push(t);
                assert(views(alerts@) =~= a0.push(tv));
            }
        },
        None => {},
    }
    assert(views(alerts@) =~= regression_alerts_of(
        check_ok && clippy_ok && test_ok,
        duration_ms as nat,
        baseline,
    ));
    alerts
}

/// The result of a finished validation, with its duration and the alerts
/// against the baseline duration.
pub fn validate(run: ValidationRun, total_duration_ms: u128, baseline: Option<u128>) -> (r: ValidationResult)
    requires
        run.stage == 3,
        baseline matches Some(b) ==> b * 25 <= u128::MAX,
    ensures
        r.eval_version@ == EVAL_VERSION@,
        r.check_ok == run.check_ok,
        r.clippy_ok == run.clippy_ok,
        r.test_ok == run.test_ok,
        r.total_duration_ms == total_duration_ms,
        views(r.regression_alerts@) == regression_alerts_of(
            run.check_ok && run.clippy_ok && run.test_ok,
            total_duration_ms as nat,
            baseline,
        ),
        r.logs == run.logs,
{
    let alerts = detect_regressions(run.check_ok, run.clippy_ok, run.test_ok, total_duration_ms, baseline);
    ValidationResult {
        eval_version: owned(EVAL_VERSION),
        check_ok: run.check_ok,
        clippy_ok: run.clippy_ok,
        test_ok: run.test_ok,
        total_duration_ms,
        regression_alerts: alerts,
        logs: run.logs,
    }
}

/// A green validation without alerts becomes the new baseline.
pub fn should_store_baseline(r: &ValidationResult) -> (b: bool)
    ensures
        b == (r.check_ok && r.clippy_ok && r.test_ok && r.regression_alerts@.len() == 0),
{
    r.check_ok && r.clippy_ok && r.test_ok && r.regression_alerts.len() == 0
}

/// The stored form of a baseline duration.
pub fn baseline_text(duration_ms: u128) -> (r: String)
    ensures
        r@ == "duration_ms="@ + dec(duration_ms as nat) + "\n"@,
{
    let mut t = owned("duration_ms=");
    push_dec_u128(&mut t, duration_ms);
    push_str(&mut t, "\n");
    t
}

/// What `str::parse::<u128>` gives: an optional `+`, then at least one
/// decimal digit, the value fitting in 128 bits.
pub open spec fn parsed_u128(s: Seq<char>) -> Option<u128> {
    let body = if s.len() > 0 && s[0] == '+' {
        s.drop_first()
    } else {
        s
    };
    if body.len() > 0 && all_digits(body) && digits_value(body) <= u128::MAX {
        Some(digits_value(body) as u128)
    } else {
        None
    }
}

proof fn lemma_digits_grow(s: Seq<char>, i: int)
    requires
        0 <= i <= s.len(),
        all_digits(s),
    ensures
        digits_value(s.take(i)) <= digits_value(s),
    decreases s.len() - i,
{
    if i < s.len() {
        lemma_digits_grow(s, i + 1);
        assert(s.take(i + 1).drop_last() =~= s.take(i));
        assert('0' <= s[i] <= '9');
    } else {
        assert(s.take(i) =~= s);
    }
}

/// Parses a decimal `u128` as `str::parse` does.
pub fn parse_u128(s: &[char]) -> (r: Option<u128>)
    ensures
        r == parsed_u128(s@),
{
    let start: usize = if s.len() > 0 && s[0] == '+' {
        1
    } else {
        0
    };
    let body = crate::text::copy_range(s, start, s.len());
    assert(body@ =~= if s@.len() > 0 && s@[0] == '+' {
        s@.drop_first()
    } else {
        s@
    });
    if body.len() == 0 {
        return None;
    }
    let mut i: usize = 0;
    while i < body.len()
        invariant
            i <= body@.len(),
            body@ == if s@.len() > 0 && s@[0] == '+' {
                s@.drop_first()
            } else {
                s@
            },
            forall|k: int| 0 <= k < i ==> '0' <= #[trigger] body@[k] <= '9',
        decreases body.len() - i,
    {
        if !('0' <= body[i] && body[i] <= '9') {
            assert(!all_digits(body@));
            return None;
        }
        i = i + 1;
    }
    let mut v: u128 = 0;
    let mut j: usize = 0;
    while j < body.len()
        invariant
            j <= body@.len(),
            body@ == if s@.len() > 0 && s@[0] == '+' {
                s@.drop_first()
            } else {
                s@
            },
            all_digits(body@),
            v == digits_value(body@.take(j as int)),
        decreases body.len() - j,
    {
        assert(body@.take(j + 1).drop_last() =~= body@.take(j as int));
        assert(body@.take(j + 1).last() == body@[j as int]);
        let ch = body[j];
        assert('0' <= ch <= '9');
        let d = (ch as u32 - 48) as u128;
        let step = match v.checked_mul(10) {
            None => None,
            Some(t) => t.checked_add(d),
        };
        match step {
            None => {
                proof {
                    lemma_digits_grow(body@, j + 1);
                }
                return None;
            },
            Some(w) => {
                v = w;
            },
        }
        j = j + 1;
    }
    assert(body@.take(j as int) =~= body@);
    Some(v)
}

/// The baseline duration a stored baseline holds.
pub open spec fn baseline_of(text: Seq<char>) -> Option<u128> {
    match strip_prefix(trim(text), "duration_ms="@) {
        Some(v) => parsed_u128(v),
        None => None,
    }
}

/// Reads a stored baseline duration.
pub fn read_baseline(text: &str) -> (r: Option<u128>)
    ensures
        r == baseline_of(text@),
{
    let t = str_trim(text);
    match crate::text::strip_prefix_chars(&t, &crate::text::chars_of("duration_ms=")) {
        Some(v) => parse_u128(&v),
        None => None,
    }
}

} // verus!
