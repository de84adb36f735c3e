//! The small state files kept under `.pata/state`: what each one holds, which
//! names may be read, and what a read gives back.
use crate::mission::{one_line, sanitize};
use crate::status::GlobalStatus;
use crate::text::{bool_text, chars_of, is_ascii_alnum, owned, push_bool, push_char, push_str};
use crate::types::{OllamaDiagnostic, ValidationResult};
use vstd::prelude::*;

verus! {

/// The largest state file that is read, in bytes.
pub const MAX_STATE_FILE_BYTES: u64 = 200000;

/// The most characters of a state file that a read gives back.
pub const MAX_STATE_CHARS: usize = 4000;

/// What the file system says of a state file.
#[derive(Debug, Clone, Copy)]
pub struct StateFileMeta {
    pub is_symlink: bool,
    pub is_file: bool,
    pub len: u64,
}

/// A character allowed in a state file name.
pub open spec fn state_name_char(c: char) -> bool {
    is_ascii_alnum(c) || c == '_' || c == '.'
}

/// A state file name: ASCII letters, digits, `_` and `.` only.
pub open spec fn state_name_ok(name: Seq<char>) -> bool {
    forall|i: int| 0 <= i < name.len() ==> state_name_char(#[trigger] name[i])
}

/// A state file that may be read: a plain file, no link, not too large.
pub open spec fn readable_meta(m: StateFileMeta) -> bool {
    !m.is_symlink && m.is_file && m.len <= MAX_STATE_FILE_BYTES
}

/// What a read of a state file gives back.
pub open spec fn state_reply(
    name: Seq<char>,
    meta: Option<StateFileMeta>,
    content: Option<Seq<char>>,
) -> Seq<char> {
    if !state_name_ok(name) {
        "invalid-state-name"@
    } else {
        match meta {
            Some(m) if readable_meta(m) => match content {
                Some(c) => c.take(if c.len() <= MAX_STATE_CHARS { c.len() as int } else { MAX_STATE_CHARS as int }),
                None => "unavailable"@,
            },
            _ => "unavailable"@,
        }
    }
}

/// Checks a state file name.
pub fn state_name_allowed(name: &str) -> (r: bool)
    ensures
        r == state_name_ok(name@),
{
    let v = chars_of(name);
    let mut i: usize = 0;
    while i < v.len()
        invariant
            i <= v@.len(),
            v@ == name@,
            forall|k: int| 0 <= k < i ==> state_name_char(#[trigger] v@[k]),
        decreases v.len() - i,
    {
        let c = v[i];
        let ok = ('0' <= c && c <= '9') || ('a' <= c && c <= 'z') || ('A' <= c && c <= 'Z') || c
            == '_' || c == '.';
        if !ok {
            return false;
        }
        i = i + 1;
    }
    true
}

/// Whether a state file with this metadata may be read.
pub fn meta_readable(m: StateFileMeta) -> (r: bool)
    ensures
        r == readable_meta(m),
{
    !m.is_symlink && m.is_file && m.len <= MAX_STATE_FILE_BYTES
}

/// The reply to a read of the state file `name`: `meta` is what the file
/// system said of it (`None` when it could not say), `content` what reading
/// it gave (`None` when reading failed). A bad name or an unreadable file
/// reads as a fixed word; otherwise the first characters of the content.
pub fn read_state_file(name: &str, meta: Option<StateFileMeta>, content: Option<String>) -> (r: String)
    ensures
        r@ == state_reply(name@, meta, match content {
            Some(c) => Some(c@),
            None => None,
        }),
{
    if !state_name_allowed(name) {
        return owned("invalid-state-name");
    }
    let readable = match meta {
        Some(m) => meta_readable(m),
        None => false,
    };
    if !readable {
        return owned("unavailable");
    }
    match content {
        None => owned("unavailable"),
        Some(c) => {
            let v = chars_of(c.as_str());
            let mut out = String::new();
            let mut i: usize = 0;
            while i < v.len() && i < MAX_STATE_CHARS
                invariant
                    i <= v@.len(),
                    i <= MAX_STATE_CHARS,
                    v@ == c@,
                    out@ == c@.take(i as int),
                decreases v.len() - i,
            {
                push_char(&mut out, v[i]);
                assert(c@.take(i as int).push(v@[i as int]) =~= c@.take(i + 1));
                i = i + 1;
            }
            out
        },
    }
}

/// The text of the last validation state file.
pub open spec fn validate_state_text(r: ValidationResult) -> Seq<char> {
    "ok="@ + bool_text(r.check_ok && r.clippy_ok && r.test_ok) + "\ncheck="@ + bool_text(r.check_ok)
        + "\nclippy="@ + bool_text(r.clippy_ok) + "\ntest="@ + bool_text(r.test_ok) + "\n"@
}

/// Writes the text of the last validation state file.
pub fn last_validate_text(report: &ValidationResult) -> (r: String)
    ensures
        r@ == validate_state_text(*report),
{
    let mut t = owned("ok=");
    push_bool(&mut t, report.ok());
    push_str(&mut t, "\ncheck=");
    push_bool(&mut t, report.check_ok);
    push_str(&mut t, "\nclippy=");
    push_bool(&mut t, report.clippy_ok);
    push_str(&mut t, "\ntest=");
    push_bool(&mut t, report.test_ok);
    push_str(&mut t, "\n");
    t
}

/// The text of the last Ollama diagnostic state file.
pub open spec fn diag_state_text(d: OllamaDiagnostic) -> Seq<char> {
    "state="@ + one_line(d.state@) + "\nmessage="@ + one_line(d.message@) + "\nhint="@ + one_line(
        d.hint@,
    ) + "\n"@
}

/// Writes the text of the last Ollama diagnostic state file.
pub fn last_ollama_diag_text(diag: &OllamaDiagnostic) -> (r: String)
    ensures
        r@ == diag_state_text(*diag),
{
    let mut t = owned("state=");
    let s = sanitize(diag.state.as_str());
    push_str(&mut t, s.as_str());
    push_str(&mut t, "\nmessage=");
    let s = sanitize(diag.message.as_str());
    push_str(&mut t, s.as_str());
    push_str(&mut t, "\nhint=");
    let s = sanitize(diag.hint.as_str());
    push_str(&mut t, s.as_str());
    push_str(&mut t, "\n");
    t
}

/// The text of the last status state file.
pub open spec fn status_state_text(s: GlobalStatus) -> Seq<char> {
    "git="@ + one_line(s.git@) + "\nollama="@ + one_line(s.ollama@) + "\nmodel="@ + one_line(s.model@)
        + "\nmemory="@ + one_line(s.memory@) + "\nvalidation="@ + one_line(s.validation@)
        + "\nlast_patch="@ + one_line(s.last_patch@) + "\nlast_rollback="@ + one_line(
        s.last_rollback@,
    ) + "\nlow_power="@ + bool_text(s.low_power) + "\nwarning="@ + one_line(s.warning@) + "\n"@
}

/// Appends `key` and the one-line form of `value`.
fn push_field(t: &mut String, key: &str, value: &String)
    ensures
        final(t)@ == old(t)@ + key@ + one_line(value@),
{
    push_str(t, key);
    let s = sanitize(value.as_str());
    push_str(t, s.as_str());
}

/// Writes the text of the last status state file.
pub fn last_status_text(s: &GlobalStatus) -> (r: String)
    ensures
        r@ == status_state_text(*s),
{
    let mut t = String::new();
    push_field(&mut t, "git=", &s.git);
    push_field(&mut t, "\nollama=", &s.ollama);
    push_field(&mut t, "\nmodel=", &s.model);
    push_field(&mut t, "\nmemory=", &s.memory);
    push_field(&mut t, "\nvalidation=", &s.validation);
    push_field(&mut t, "\nlast_patch=", &s.last_patch);
    push_field(&mut t, "\nlast_rollback=", &s.last_rollback);
    push_str(&mut t, "\nlow_power=");
    push_bool(&mut t, s.low_power);
    push_field(&mut t, "\nwarning=", &s.warning);
    push_str(&mut t, "\n");
    t
}

/// Writes the text of the last warning state file: the message on one line.
pub fn last_warning_text(msg: &str) -> (r: String)
    ensures
        r@ == one_line(msg@) + "\n"@,
{
    let mut t = sanitize(msg);
    push_str(&mut t, "\n");
    t
}

} // verus!
