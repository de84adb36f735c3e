//! The text interface: its panels, how they are rendered and how keys move
//! between views.
use crate::session::{first_k, last_k};
use crate::status::GlobalStatus;
use crate::text::{bool_text, dec, lines, owned, push_bool, push_dec, push_str, str_trim, trim, views};
use vstd::prelude::*;

verus! {

/// The panels of the text interface and the active view.
#[derive(Debug)]
pub struct UiState {
    pub active_view: &'static str,
    pub files: Vec<String>,
    pub chat: Vec<String>,
    pub terminal: Vec<String>,
    pub logs: Vec<String>,
    pub patch_review: String,
    pub memory: Vec<String>,
    pub status: Vec<String>,
}

impl UiState {
    /// The interface at start: the chat view, a welcome and the shortcuts.
    pub fn new() -> (r: UiState)
        ensures
            r.active_view@ == "chat"@,
            r.files@.len() == 0,
            views(r.chat@) == seq!["Bienvenue dans Pata MVP"@],
            views(r.terminal@) == seq!["Shortcuts: f c t l p h m s q"@],
            r.logs@.len() == 0,
            r.patch_review@ == "Aucun patch"@,
            views(r.memory@) == seq!["No memory snapshot"@],
            views(r.status@) == seq!["Status unavailable"@],
    {
        let mut chat: Vec<String> = Vec::new();
        chat.push(owned("Bienvenue dans Pata MVP"));
        let mut terminal: Vec<String> = Vec::new();
        terminal.push(owned("Shortcuts: f c t l p h m s q"));
        let mut memory: Vec<String> = Vec::new();
        memory.push(owned("No memory snapshot"));
        let mut status: Vec<String> = Vec::new();
        status.push(owned("Status unavailable"));
        let r = UiState {
            active_view: "chat",
            files: Vec::new(),
            chat,
            terminal,
            logs: Vec::new(),
            patch_review: owned("Aucun patch"),
            memory,
            status,
        };
        assert(views(r.chat@) =~= seq!["Bienvenue dans Pata MVP"@]);
        assert(views(r.terminal@) =~= seq!["Shortcuts: f c t l p h m s q"@]);
        assert(views(r.memory@) =~= seq!["No memory snapshot"@]);
        assert(views(r.status@) =~= seq!["Status unavailable"@]);
        r
    }
}

/// Each item on a line of its own, after `prefix`.
pub open spec fn listed(items: Seq<Seq<char>>, prefix: Seq<char>) -> Seq<char>
    decreases items.len(),
{
    if items.len() == 0 {
        Seq::empty()
    } else {
        listed(items.drop_last(), prefix) + prefix + items.last() + "\n"@
    }
}

/// The rule under the title and above the keys.
pub open spec fn rule() -> Seq<char> {
    "--------------------------------------------\n"@
}

/// The rendered interface.
pub open spec fn rendered(s: UiState) -> Seq<char> {
    "\n================ PATA TUI =================\n"@ + "Active view: "@ + s.active_view@ + "\n"@
        + rule() + "Files\n"@ + listed(first_k(views(s.files@), 6), "  - "@) + "Chat\n"@ + listed(
        last_k(views(s.chat@), 4),
        "  "@,
    ) + "Terminal\n"@ + listed(last_k(views(s.terminal@), 4), "  "@) + "Logs\n"@ + listed(
        last_k(views(s.logs@), 4),
        "  "@,
    ) + "Patch review\n"@ + "  "@ + s.patch_review@ + "\n"@ + "Memory\n"@ + listed(
        last_k(views(s.memory@), 4),
        "  "@,
    ) + "Status\n"@ + listed(last_k(views(s.status@), 8), "  "@) + rule()
        + "Keys: [f]iles [c]hat [t]erminal [l]ogs [p]atch [h]istory [m]emory [s]tatus [q]uit\n"@
}

fn push_listed(out: &mut String, v: &Vec<String>, from: usize, to: usize, prefix: &str)
    requires
        from <= to <= v@.len(),
    ensures
        final(out)@ == old(out)@ + listed(views(v@).subrange(from as int, to as int), prefix@),
{
    let ghost o0 = out@;
    let mut i = from;
    while i < to
        invariant
            from <= i <= to <= v@.len(),
            out@ == o0 + listed(views(v@).subrange(from as int, i as int), prefix@),
        decreases to - i,
    {
        assert(views(v@).subrange(from as int, i + 1).drop_last() =~= views(v@).subrange(
            from as int,
            i as int,
        ));
        push_str(out, prefix);
        push_str(out, v[i].as_str());
        push_str(out, "\n");
        i = i + 1;
        assert(out@ =~= o0 + listed(views(v@).subrange(from as int, i as int), prefix@));
    }
}

fn push_first(out: &mut String, v: &Vec<String>, k: usize, prefix: &str)
    ensures
        final(out)@ == old(out)@ + listed(first_k(views(v@), k as nat), prefix@),
{
    let to = if v.len() <= k {
        v.len()
    } else {
        k
    };
    push_listed(out, v, 0, to, prefix);
    assert(views(v@).subrange(0, to as int) =~= first_k(views(v@), k as nat));
}

fn push_last(out: &mut String, v: &Vec<String>, k: usize, prefix: &str)
    ensures
        final(out)@ == old(out)@ + listed(last_k(views(v@), k as nat), prefix@),
{
    let from = if v.len() <= k {
        0
    } else {
        v.len() - k
    };
    push_listed(out, v, from, v.len(), prefix);
    assert(views(v@).subrange(from as int, v@.len() as int) =~= last_k(views(v@), k as nat));
}

/// Renders the interface as text.
pub fn render_string(state: &UiState) -> (r: String)
    ensures
        r@ == rendered(*state),
{
    let mut out = owned("\n================ PATA TUI =================\n");
    push_str(&mut out, "Active view: ");
    push_str(&mut out, state.active_view);
    push_str(&mut out, "\n");
    push_str(&mut out, "--------------------------------------------\n");
    push_str(&mut out, "Files\n");
    push_first(&mut out, &state.files, 6, "  - ");
    push_str(&mut out, "Chat\n");
    push_last(&mut out, &state.chat, 4, "  ");
    push_str(&mut out, "Terminal\n");
    push_last(&mut out, &state.terminal, 4, "  ");
    push_str(&mut out, "Logs\n");
    push_last(&mut out, &state.logs, 4, "  ");
    push_str(&mut out, "Patch review\n");
    push_str(&mut out, "  ");
    push_str(&mut out, state.patch_review.as_str());
    push_str(&mut out, "\n");
    push_str(&mut out, "Memory\n");
    push_last(&mut out, &state.memory, 4, "  ");
    push_str(&mut out, "Status\n");
    push_last(&mut out, &state.status, 8, "  ");
    push_str(&mut out, "--------------------------------------------\n");
    push_str(
        &mut out,
        "Keys: [f]iles [c]hat [t]erminal [l]ogs [p]atch [h]istory [m]emory [s]tatus [q]uit\n",
    );
    out
}

/// What the interface does after a key.
#[derive(Debug, Clone, Copy, PartialEq, Eq, Structural)]
pub enum KeyOutcome {
    /// Leave the interface.
    Quit,
    /// Draw again.
    Redraw,
    /// Read the agent log and pass it to `show_history`.
    LoadHistory,
}

/// The view a key selects, if it selects one.
pub open spec fn view_for_key(c: char) -> Option<Seq<char>> {
    if c == 'f' {
        Some("files"@)
    } else if c == 'c' {
        Some("chat"@)
    } else if c == 't' {
        Some("terminal"@)
    } else if c == 'l' {
        Some("logs"@)
    } else if c == 'p' {
        Some("patch"@)
    } else if c == 'm' {
        Some("memory"@)
    } else if c == 's' {
        Some("status"@)
    } else {
        None
    }
}

/// The panels other than the terminal are the same.
pub open spec fn panels_kept(a: UiState, b: UiState) -> bool {
    &&& a.files == b.files
    &&& a.chat == b.chat
    &&& a.logs == b.logs
    &&& a.patch_review == b.patch_review
    &&& a.memory == b.memory
    &&& a.status == b.status
}

/// What a key does: `q` and the end of the input leave, `h` asks for the
/// history, a view key selects its view, any other key is reported on the
/// terminal panel.
pub open spec fn key_handled(before: UiState, after: UiState, key: Option<char>, r: KeyOutcome) -> bool {
    match key {
        None => r == KeyOutcome::Quit && after == before,
        Some(c) => if c == 'q' {
            r == KeyOutcome::Quit && after == before
        } else if c == 'h' {
            r == KeyOutcome::LoadHistory && after == before
        } else {
            &&& r == KeyOutcome::Redraw
            &&& panels_kept(before, after)
            &&& match view_for_key(c) {
                Some(v) => after.active_view@ == v && after.terminal == before.terminal,
                None => after.active_view == before.active_view && views(after.terminal@) == views(
                    before.terminal@,
                ).push("unknown key "@ + seq![c]),
            }
        },
    }
}

/// Handles a key (none at the end of the input).
pub fn on_key(state: &mut UiState, key: Option<char>) -> (r: KeyOutcome)
    ensures
        key_handled(*old(state), *final(state), key, r),
{
    match key {
        None => KeyOutcome::Quit,
        Some(c) => {
            if c == 'q' {
                KeyOutcome::Quit
            } else if c == 'h' {
                KeyOutcome::LoadHistory
            } else if c == 'f' {
                state.active_view = "files";
                KeyOutcome::Redraw
            } else if c == 'c' {
                state.active_view = "chat";
                KeyOutcome::Redraw
            } else if c == 't' {
                state.active_view = "terminal";
                KeyOutcome::Redraw
            } else if c == 'l' {
                state.active_view = "logs";
                KeyOutcome::Redraw
            } else if c == 'p' {
                state.active_view = "patch";
                KeyOutcome::Redraw
            } else if c == 'm' {
                state.active_view = "memory";
                KeyOutcome::Redraw
            } else if c == 's' {
                state.active_view = "status";
                KeyOutcome::Redraw
            } else {
                let mut t = owned("unknown key ");
                crate::text::push_char(&mut t, c);
                assert(t@ =~= "unknown key "@ + seq![c]);
                let ghost b = views(state.terminal@);
                state.terminal.push(t);
                assert(views(state.terminal@) =~= b.push("unknown key "@ + seq![c]));
                KeyOutcome::Redraw
            }
        },
    }
}

/// The line the history view shows: the last line of the agent log (the
/// log unreadable reads as `no history`), or `empty`.
pub open spec fn history_line(log: Option<Seq<char>>) -> Seq<char> {
    let t = match log {
        Some(t) => t,
        None => "no history"@,
    };
    if lines(t).len() > 0 {
        lines(t).last()
    } else {
        "empty"@
    }
}

/// Shows the history: its line goes to the chat panel and the history view
/// becomes active.
pub fn show_history(state: &mut UiState, log: Option<&str>)
    ensures
        final(state).active_view@ == "history"@,
        views(final(state).chat@) == views(old(state).chat@).push(
            history_line(
                match log {
                    Some(t) => Some(t@),
                    None => None,
                },
            ),
        ),
        final(state).files == old(state).files,
        final(state).terminal == old(state).terminal,
        final(state).logs == old(state).logs,
        final(state).patch_review == old(state).patch_review,
        final(state).memory == old(state).memory,
        final(state).status == old(state).status,
{
    let ls = match log {
        Some(t) => crate::text::str_lines(t),
        None => crate::text::str_lines("no history"),
    };
    let line = if ls.len() > 0 {
        crate::text::string_of(&ls[ls.len() - 1])
    } else {
        owned("empty")
    };
    let ghost b = views(state.chat@);
    let ghost lv = line@;
    state.chat.push(line);
    assert(views(state.chat@) =~= b.push(lv));
    state.active_view = "history";
}

// ---------------------------------------------------------------------------
// Panel contents
// ---------------------------------------------------------------------------

/// A text with each line break shown as `" | "`.
pub open spec fn barred(s: Seq<char>) -> Seq<char>
    decreases s.len(),
{
    if s.len() == 0 {
        Seq::empty()
    } else {
        barred(s.drop_last()) + if s.last() == '\n' {
            " | "@
        } else {
            seq![s.last()]
        }
    }
}

/// Replaces each line break of a text by `" | "`.
pub fn bar_lines(s: &str) -> (r: String)
    ensures
        r@ == barred(s@),
{
    let v = crate::text::chars_of(s);
    let mut out = String::new();
    let mut i: usize = 0;
    while i < v.len()
        invariant
            i <= v@.len(),
            v@ == s@,
            out@ == barred(s@.take(i as int)),
        decreases v.len() - i,
    {
        assert(s@.take(i + 1).drop_last() =~= s@.take(i as int));
        if v[i] == '\n' {
            push_str(&mut out, " | ");
        } else {
            crate::text::push_char(&mut out, v[i]);
            assert(out@ =~= barred(s@.take(i as int)) + seq![v@[i as int]]);
        }
        i = i + 1;
    }
    assert(s@.take(i as int) =~= s@);
    out
}

/// The files panel: the first indexed paths, 5 in low-power mode, else 8.
pub fn files_panel(paths: &Vec<String>, low_power: bool) -> (r: Vec<String>)
    ensures
        views(r@) == first_k(views(paths@), if low_power { 5 } else { 8 }),
{
    let k: usize = if low_power { 5 } else { 8 };
    let mut out: Vec<String> = Vec::new();
    let mut i: usize = 0;
    while i < paths.len() && i < k
        invariant
            i <= paths@.len(),
            i <= k,
            k == if low_power { 5usize } else { 8usize },
            views(out@) == views(paths@).take(i as int),
        decreases paths.len() - i,
    {
        let ghost b = views(out@);
        out.push(crate::text::copy_string(&paths[i]));
        assert(views(out@) =~= b.push(paths@[i as int]@));
        assert(views(paths@).take(i + 1) =~= views(paths@).take(i as int).push(paths@[i as int]@));
        i = i + 1;
    }
    assert(views(out@) =~= first_k(views(paths@), k as nat));
    out
}

/// The memory panel: the index size, the memory file, the power mode, and
/// the last validation and Ollama diagnostic on one line each.
pub open spec fn memory_panel_of(
    indexed: nat,
    memory_file: Seq<char>,
    low_power: bool,
    last_validate: Seq<char>,
    last_diag: Seq<char>,
) -> Seq<Seq<char>> {
    seq![
        "indexed_files="@ + dec(indexed),
        "memory_file="@ + memory_file,
        "low_power="@ + bool_text(low_power),
        "last_validate="@ + barred(last_validate),
        "last_ollama_diag="@ + barred(last_diag),
    ]
}

fn keyed(key: &str, value: &str) -> (r: String)
    ensures
        r@ == key@ + value@,
{
    let mut t = owned(key);
    push_str(&mut t, value);
    t
}

/// Builds the memory panel.
pub fn memory_panel(
    indexed: usize,
    memory_file: &str,
    low_power: bool,
    last_validate: &str,
    last_diag: &str,
) -> (r: Vec<String>)
    ensures
        views(r@) == memory_panel_of(indexed as nat, memory_file@, low_power, last_validate@, last_diag@),
{
    let mut a = owned("indexed_files=");
    push_dec(&mut a, indexed as u64);
    let b = keyed("memory_file=", memory_file);
    let mut c = owned("low_power=");
    push_bool(&mut c, low_power);
    let v = bar_lines(last_validate);
    let d = keyed("last_validate=", v.as_str());
    let g = bar_lines(last_diag);
    let e = keyed("last_ollama_diag=", g.as_str());
    let r = vec![a, b, c, d, e];
    assert(views(r@) =~= memory_panel_of(indexed as nat, memory_file@, low_power, last_validate@, last_diag@));
    r
}

/// The status panel: the global status and the last warning, trimmed.
pub open spec fn status_panel_of(s: GlobalStatus, last_warning: Seq<char>) -> Seq<Seq<char>> {
    seq![
        "git="@ + s.git@,
        "ollama="@ + s.ollama@,
        "active_model="@ + s.model@,
        "last_patch="@ + s.last_patch@,
        "last_rollback="@ + s.last_rollback@,
        "validation="@ + s.validation@,
        "memory="@ + s.memory@,
        "warning="@ + s.warning@,
        "last_warning="@ + trim(last_warning),
    ]
}

/// Builds the status panel.
pub fn status_panel(s: &GlobalStatus, last_warning: &str) -> (r: Vec<String>)
    ensures
        views(r@) == status_panel_of(*s, last_warning@),
{
    let w = crate::text::string_of(&str_trim(last_warning));
    let r = vec![
        keyed("git=", s.git.as_str()),
        keyed("ollama=", s.ollama.as_str()),
        keyed("active_model=", s.model.as_str()),
        keyed("last_patch=", s.last_patch.as_str()),
        keyed("last_rollback=", s.last_rollback.as_str()),
        keyed("validation=", s.validation.as_str()),
        keyed("memory=", s.memory.as_str()),
        keyed("warning=", s.warning.as_str()),
        keyed("last_warning=", w.as_str()),
    ];
    assert(views(r@) =~= status_panel_of(*s, last_warning@));
    r
}

/// The patch review panel: the patch id, then its review.
pub fn patch_panel(id: &str, review: &str) -> (r: String)
    ensures
        r@ == "patch="@ + id@ + "\n"@ + review@,
{
    let mut t = keyed("patch=", id);
    push_str(&mut t, "\n");
    push_str(&mut t, review);
    t
}

} // verus!
