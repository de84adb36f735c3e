//! The command line: its flags, its commands and the bounds on its
//! arguments.
use crate::patch::utf8_len;
use crate::text::{copy_string, dec, owned, push_dec, push_str, str_eq, views};
use vstd::prelude::*;

verus! {

/// The command-line arguments of the assistant.
#[derive(Debug)]
pub struct Cli {
    pub root: Option<String>,
    pub command: Option<Commands>,
}

/// The subcommands of the assistant.
#[derive(Debug)]
pub enum Commands {
    Analyze,
    Diagnose,
    Plan,
    OptimizeOnce,
    History { tail: usize },
    Repl,
}

/// The longest query accepted, in bytes.
pub const MAX_QUERY_LEN: usize = 240;

/// The longest objective accepted, in bytes.
pub const MAX_OBJECTIVE_LEN: usize = 500;

/// The files a patch must not touch without a manual review.
pub open spec fn protected_paths() -> Seq<Seq<char>> {
    seq!["src/main.rs"@, "src/model.rs"@, "src/rollback.rs"@, "AGENTS.md"@]
}

/// The files a patch must not touch without a manual review.
pub fn protected_path_list() -> (r: Vec<&'static str>)
    ensures
        crate::text::strs(r@) == protected_paths(),
{
    let r = vec!["src/main.rs", "src/model.rs", "src/rollback.rs", "AGENTS.md"];
    assert(crate::text::strs(r@) =~= protected_paths());
    r
}

/// A setting that switches a flag on: `1`, `true` or `on`.
pub open spec fn flag_on(v: Option<Seq<char>>) -> bool {
    match v {
        Some(s) => s == "1"@ || s == "true"@ || s == "on"@,
        None => false,
    }
}

/// Whether a setting switches a flag on.
pub fn env_flag(v: Option<&str>) -> (r: bool)
    ensures
        r == flag_on(
            match v {
                Some(s) => Some(s@),
                None => None,
            },
        ),
{
    match v {
        Some(s) => str_eq(s, "1") || str_eq(s, "true") || str_eq(s, "on"),
        None => false,
    }
}

/// The arguments other than the `--low-power` and `--verbose` flags.
pub open spec fn plain_args(args: Seq<Seq<char>>) -> Seq<Seq<char>> {
    args.filter(|a: Seq<char>| a != "--low-power"@ && a != "--verbose"@)
}

/// The parsed command line: low power, verbose, the command (`tui` when
/// none is given) and its arguments.
pub open spec fn parsed_args(args: Seq<Seq<char>>, low_power: bool, verbose: bool) -> (bool, bool, Seq<char>, Seq<Seq<char>>) {
    let rest = plain_args(args);
    (
        low_power || args.contains("--low-power"@),
        verbose || args.contains("--verbose"@),
        if rest.len() > 0 {
            rest[0]
        } else {
            "tui"@
        },
        if rest.len() > 0 {
            rest.drop_first()
        } else {
            Seq::empty()
        },
    )
}

/// Parses the command line (without the program name), given whether the
/// environment asks for low power and verbosity.
pub fn parse_args(args: &Vec<String>, low_power: bool, verbose: bool) -> (r: (bool, bool, String, Vec<String>))
    ensures
        (r.0, r.1, r.2@, views(r.3@)) == parsed_args(views(args@), low_power, verbose),
{
    let ghost av = views(args@);
    let ghost pred = |a: Seq<char>| a != "--low-power"@ && a != "--verbose"@;
    let mut lp = low_power;
    let mut vb = verbose;
    let mut kept: Vec<String> = Vec::new();
    let mut i: usize = 0;
    assert(av.take(0).filter(pred) =~= Seq::<Seq<char>>::empty()) by {
        reveal_with_fuel(Seq::filter, 1);
    }
    while i < args.len()
        invariant
            i <= args@.len(),
            av == views(args@),
            pred == (|a: Seq<char>| a != "--low-power"@ && a != "--verbose"@),
            views(kept@) == av.take(i as int).filter(pred),
            lp == (low_power || av.take(i as int).contains("--low-power"@)),
            vb == (verbose || av.take(i as int).contains("--verbose"@)),
        decreases args.len() - i,
    {
        proof {
            assert(av.take(i + 1) =~= av.take(i as int).push(av[i as int]));
            av.take(i as int).lemma_filter_push(av[i as int], pred);
        }
        let a = &args[i];
        let ghost t = av.take(i as int);
        let ghost t1 = av.take(i + 1);
        if str_eq(a.as_str(), "--low-power") {
            lp = true;
            assert(t1[i as int] == "--low-power"@);
            proof {
                if vb != (verbose || t1.contains("--verbose"@)) {
                    let k = choose|k: int| 0 <= k < t1.len() && t1[k] == "--verbose"@;
                    assert(k < i ==> t[k] == t1[k]);
                    reveal_strlit("--verbose");
                    reveal_strlit("--low-power");
                    assert("--verbose"@ != "--low-power"@) by {
                        assert("--verbose"@[2] != "--low-power"@[2]);
                    }
                }
            }
        } else if str_eq(a.as_str(), "--verbose") {
            vb = true;
            assert(t1[i as int] == "--verbose"@);
            proof {
                if lp != (low_power || t1.contains("--low-power"@)) {
                    let k = choose|k: int| 0 <= k < t1.len() && t1[k] == "--low-power"@;
                    assert(k < i ==> t[k] == t1[k]);
                }
            }
        } else {
            let ghost b = views(kept@);
            kept.push(copy_string(a));
            assert(views(kept@) =~= b.push(av[i as int]));
            proof {
                if lp != (low_power || t1.contains("--low-power"@)) {
                    let k = choose|k: int| 0 <= k < t1.len() && t1[k] == "--low-power"@;
                    assert(k < i ==> t[k] == t1[k]);
                }
                if vb != (verbose || t1.contains("--verbose"@)) {
                    let k = choose|k: int| 0 <= k < t1.len() && t1[k] == "--verbose"@;
                    assert(k < i ==> t[k] == t1[k]);
                }
            }
        }
        proof {
            if lp && !low_power && !t.contains("--low-power"@) {
            }
            if t.contains("--low-power"@) {
                let k = choose|k: int| 0 <= k < t.len() && t[k] == "--low-power"@;
                assert(t1[k] == t[k]);
            }
            if t.contains("--verbose"@) {
                let k = choose|k: int| 0 <= k < t.len() && t[k] == "--verbose"@;
                assert(t1[k] == t[k]);
            }
        }
        i = i + 1;
    }
    assert(av.take(i as int) =~= av);
    let cmd = if kept.len() > 0 {
        copy_string(&kept[0])
    } else {
        owned("tui")
    };
    let mut rest: Vec<String> = Vec::new();
    if kept.len() > 0 {
        let mut j: usize = 1;
        assert(views(rest@) =~= views(kept@).subrange(1, 1));
        while j < kept.len()
            invariant
                1 <= j <= kept@.len(),
                views(rest@) == views(kept@).subrange(1, j as int),
            decreases kept.len() - j,
        {
            let ghost b = views(rest@);
            rest.push(copy_string(&kept[j]));
            assert(views(rest@) =~= b.push(views(kept@)[j as int]));
            j = j + 1;
            assert(views(rest@) =~= views(kept@).subrange(1, j as int));
        }
        assert(views(kept@).subrange(1, j as int) =~= views(kept@).drop_first());
    } else {
        assert(views(rest@) =~= Seq::<Seq<char>>::empty());
    }
    (lp, vb, cmd, rest)
}

/// An argument longer than `max` bytes is refused.
pub open spec fn bounded_arg_result(v: Seq<char>, max: nat) -> Result<Seq<char>, Seq<char>> {
    if utf8_len(v) > max {
        Err("argument too large (max "@ + dec(max) + ")"@)
    } else {
        Ok(v)
    }
}

/// Refuses an argument longer than `max` bytes.
pub fn bounded_arg(v: String, max: usize) -> (r: Result<String, String>)
    ensures
        match r {
            Ok(s) => bounded_arg_result(v@, max as nat) == Ok::<Seq<char>, Seq<char>>(s@),
            Err(e) => bounded_arg_result(v@, max as nat) == Err::<Seq<char>, Seq<char>>(e@),
        },
{
    if crate::text::byte_len(v.as_str()) > max {
        let mut e = owned("argument too large (max ");
        push_dec(&mut e, max as u64);
        push_str(&mut e, ")");
        return Err(e);
    }
    Ok(v)
}

/// How many retrieval hits to take: at most 3 in low-power mode.
pub fn retrieval_limit(low_power: bool, normal: usize) -> (r: usize)
    ensures
        r == if low_power && normal > 3 {
            3
        } else {
            normal
        },
{
    if low_power && normal > 3 {
        3
    } else {
        normal
    }
}

/// A lock name: ASCII letters, digits, `-` and `_`.
pub open spec fn lock_name_ok(name: Seq<char>) -> bool {
    forall|i: int|
        0 <= i < name.len() ==> crate::text::is_ascii_alnum(#[trigger] name[i]) || name[i] == '-'
            || name[i] == '_'
}

/// Checks a lock name.
pub fn check_lock_name(name: &str) -> (r: Result<(), String>)
    ensures
        r is Ok <==> lock_name_ok(name@),
        r matches Err(e) ==> e@ == "invalid lock name"@,
{
    let v = crate::text::chars_of(name);
    let mut i: usize = 0;
    while i < v.len()
        invariant
            i <= v@.len(),
            v@ == name@,
            forall|k: int|
                0 <= k < i ==> crate::text::is_ascii_alnum(#[trigger] v@[k]) || v@[k] == '-' || v@[k]
                    == '_',
        decreases v.len() - i,
    {
        let c = v[i];
        if !((('0' <= c && c <= '9') || ('a' <= c && c <= 'z') || ('A' <= c && c <= 'Z')) || c == '-' || c == '_') {
            return Err(owned("invalid lock name"));
        }
        i = i + 1;
    }
    Ok(())
}

/// The text a lock file holds: the owner process and the time.
pub fn lock_file_text(pid: u32, ts: u64) -> (r: String)
    ensures
        r@ == "pid="@ + dec(pid as nat) + "\nts="@ + dec(ts as nat) + "\n"@,
{
    let mut t = owned("pid=");
    push_dec(&mut t, pid as u64);
    push_str(&mut t, "\nts=");
    push_dec(&mut t, ts);
    push_str(&mut t, "\n");
    t
}

} // verus!
