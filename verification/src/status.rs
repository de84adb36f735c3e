//! The overall status of a workspace and the texts that summarize it.
use crate::text::{
    has_suffix, lex_lt, lines, lossy_text, owned, push_dec, push_str, str_lines, string_of, trim,
    utf8_lossy, views,
};
use vstd::prelude::*;

verus! {

/// The status of the workspace, the model and the last operations.
#[derive(Debug)]
pub struct GlobalStatus {
    pub git: String,
    pub ollama: String,
    pub model: String,
    pub memory: String,
    pub validation: String,
    pub last_patch: String,
    pub last_rollback: String,
    pub low_power: bool,
    pub warning: String,
}

/// The summary of the last validation errors (`None` when none were kept).
pub open spec fn validation_summary_of(errors: Option<Seq<char>>) -> Seq<char> {
    match errors {
        None => "last-validate: unknown"@,
        Some(t) => if trim(t).len() == 0 {
            "last-validate: clean"@
        } else {
            "last-validate: issues ("@ + crate::text::dec(lines(t).len()) + ")"@
        },
    }
}

/// Summarizes the last validation errors.
pub fn validation_summary(errors: Option<&str>) -> (r: String)
    ensures
        r@ == validation_summary_of(
            match errors {
                Some(t) => Some(t@),
                None => None,
            },
        ),
{
    match errors {
        None => owned("last-validate: unknown"),
        Some(t) => {
            if crate::text::is_blank(t) {
                owned("last-validate: clean")
            } else {
                let n = str_lines(t).len();
                let mut s = owned("last-validate: issues (");
                push_dec(&mut s, n as u64);
                push_str(&mut s, ")");
                s
            }
        },
    }
}

/// The summary of `git status --short`: clean, dirty with the number of
/// changed entries, invalid with its error output, or the error that kept
/// it from running.
pub open spec fn git_summary_of(ran: Option<(bool, Seq<u8>, Seq<u8>)>, error: Seq<char>) -> Seq<char> {
    match ran {
        Some((ok, out, err)) => if ok {
            let t = trim(lossy_text(out));
            if t.len() == 0 {
                "clean"@
            } else {
                "dirty ("@ + crate::text::dec(lines(t).len()) + ")"@
            }
        } else {
            "invalid ("@ + trim(lossy_text(err)) + ")"@
        },
        None => "error ("@ + error + ")"@,
    }
}

/// Summarizes the outcome of `git status --short`: whether it ran, whether
/// it succeeded and its output, or the error that kept it from running.
pub fn git_summary(ran: bool, success: bool, stdout: &[u8], stderr: &[u8], error: &str) -> (r: String)
    ensures
        r@ == git_summary_of(
            if ran {
                Some((success, stdout@, stderr@))
            } else {
                None
            },
            error@,
        ),
{
    if !ran {
        let mut s = owned("error (");
        push_str(&mut s, error);
        push_str(&mut s, ")");
        return s;
    }
    if success {
        let out = utf8_lossy(stdout);
        let t = crate::text::str_trim(out.as_str());
        if t.len() == 0 {
            owned("clean")
        } else {
            let ts = string_of(&t);
            let n = str_lines(ts.as_str()).len();
            let mut s = owned("dirty (");
            push_dec(&mut s, n as u64);
            push_str(&mut s, ")");
            s
        }
    } else {
        let err = utf8_lossy(stderr);
        let t = crate::text::str_trim(err.as_str());
        let mut s = owned("invalid (");
        let ts = string_of(&t);
        push_str(&mut s, ts.as_str());
        push_str(&mut s, ")");
        s
    }
}

/// `s.trim_end_matches(p)`: `s` without every trailing repetition of `p`.
pub open spec fn strip_all_suffix(s: Seq<char>, p: Seq<char>) -> Seq<char>
    decreases s.len(),
{
    if p.len() > 0 && has_suffix(s, p) {
        strip_all_suffix(s.take(s.len() - p.len()), p)
    } else {
        s
    }
}

/// The patch identifiers among file names: the names of `.diff` files
/// without that extension.
pub open spec fn patch_ids(names: Seq<Seq<char>>) -> Seq<Seq<char>>
    decreases names.len(),
{
    if names.len() == 0 {
        Seq::empty()
    } else {
        let rest = patch_ids(names.drop_last());
        if has_suffix(names.last(), ".diff"@) {
            rest.push(strip_all_suffix(names.last(), ".diff"@))
        } else {
            rest
        }
    }
}

/// The greatest text in sort order, if any.
pub open spec fn greatest(s: Seq<Seq<char>>) -> Option<Seq<char>>
    decreases s.len(),
{
    if s.len() == 0 {
        None
    } else {
        match greatest(s.drop_last()) {
            None => Some(s.last()),
            Some(g) => if lex_lt(g, s.last()) {
                Some(s.last())
            } else {
                Some(g)
            },
        }
    }
}

fn strip_diff_suffix(name: &Vec<char>) -> (r: Vec<char>)
    ensures
        r@ == strip_all_suffix(name@, ".diff"@),
{
    let suffix = crate::text::chars_of(".diff");
    let mut end = name.len();
    let ghost s0 = name@;
    assert(s0.take(end as int) =~= s0);
    while end >= 5 && crate::text::ends_with(&crate::text::copy_range(name, 0, end), &suffix)
        invariant
            end <= name@.len(),
            suffix@ == ".diff"@,
            strip_all_suffix(name@, ".diff"@) == strip_all_suffix(name@.take(end as int), ".diff"@),
        decreases end,
    {
        proof {
            reveal_strlit(".diff");
        }
        let ghost cut = name@.take(end as int);
        assert(cut.take(cut.len() - 5) =~= name@.take(end - 5));
        end = end - 5;
    }
    proof {
        reveal_strlit(".diff");
        if !(end >= 5) {
            assert(!has_suffix(name@.take(end as int), ".diff"@));
        }
    }
    crate::text::copy_range(name, 0, end)
}

/// The latest patch identifier among the names of the patch directory: the
/// greatest, in sort order, of the names of `.diff` files without that
/// extension.
pub fn latest_patch_id(names: &Vec<String>) -> (r: Option<String>)
    ensures
        match r {
            Some(id) => greatest(patch_ids(views(names@))) == Some(id@),
            None => greatest(patch_ids(views(names@))) is None,
        },
{
    let mut best: Option<Vec<char>> = None;
    let mut i: usize = 0;
    while i < names.len()
        invariant
            i <= names@.len(),
            match best {
                Some(b) => greatest(patch_ids(views(names@).take(i as int))) == Some(b@),
                None => greatest(patch_ids(views(names@).take(i as int))) is None,
            },
        decreases names.len() - i,
    {
        assert(views(names@).take(i + 1).drop_last() =~= views(names@).take(i as int));
        let n = crate::text::chars_of(names[i].as_str());
        assert(views(names@).take(i + 1).last() == n@);
        if crate::text::ends_with(&n, &crate::text::chars_of(".diff")) {
            let id = strip_diff_suffix(&n);
            let ghost prev = patch_ids(views(names@).take(i as int));
            assert(patch_ids(views(names@).take(i + 1)) == prev.push(id@));
            assert(prev.push(id@).drop_last() =~= prev);
            best = match best {
                None => Some(id),
                Some(b) => if crate::text::chars_lt(&b, &id) {
                    Some(id)
                } else {
                    Some(b)
                },
            };
        }
        i = i + 1;
    }
    assert(views(names@).take(i as int) =~= views(names@));
    match best {
        Some(b) => Some(string_of(&b)),
        None => None,
    }
}

} // verus!
