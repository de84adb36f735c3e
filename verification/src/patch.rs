//! Patch records: identifiers, the metadata and review files stored beside
//! a patch with their checksums, and approvals.  Reading and writing the
//! files happens outside; here are the texts and the checks on them.
use crate::checksum::{checksum_str, checksum_text};
use crate::pipeline::{debug_list, debug_strings};
use crate::text::{
    bool_text, chars_of, dec, first_stripped, first_stripped_of, is_ascii_alnum, join, join_strings, lines,
    owned, push_bool, push_chars, push_dec, push_str, str_lines, trim, views, vviews,
};
use crate::types::{PatchProposal, PatchReview};
use vstd::prelude::*;

verus! {

/// Largest diff accepted, in bytes.
pub const MAX_PATCH_BYTES: usize = 2000000;

/// Largest metadata or review file read, in bytes.
pub const MAX_META_BYTES: usize = 200000;

/// Byte length of a text.
pub open spec fn utf8_len(s: Seq<char>) -> nat {
    vstd::utf8::encode_utf8(s).len()
}

// ---------------------------------------------------------------------------
// Identifiers and lines
// ---------------------------------------------------------------------------

/// A character allowed in a patch identifier.
pub open spec fn id_char(c: char) -> bool {
    is_ascii_alnum(c) || c == '-' || c == '_' || c == '.'
}

/// Why a patch identifier is refused, if it is: empty or longer than 80
/// bytes, or holding a character other than ASCII letters, digits, `-`, `_`, `.`.
pub open spec fn patch_id_problem(id: Seq<char>) -> Option<Seq<char>> {
    if id.len() == 0 || utf8_len(id) > 80 {
        Some("invalid patch id length"@)
    } else if forall|i: int| 0 <= i < id.len() ==> id_char(#[trigger] id[i]) {
        None
    } else {
        Some("invalid patch id characters"@)
    }
}

/// Checks a patch identifier.
pub fn validate_patch_id(id: &str) -> (r: Result<(), String>)
    ensures
        match r {
            Ok(()) => patch_id_problem(id@) is None,
            Err(m) => patch_id_problem(id@) == Some(m@),
        },
{
    if id.is_empty() || crate::text::byte_len(id) > 80 {
        return Err(owned("invalid patch id length"));
    }
    assert(!(id@.len() == 0 || utf8_len(id@) > 80));
    let v = chars_of(id);
    let mut i: usize = 0;
    while i < v.len()
        invariant
            i <= v@.len(),
            !(id@.len() == 0 || utf8_len(id@) > 80),
            v@ == id@,
            forall|j: int| 0 <= j < i ==> id_char(#[trigger] v@[j]),
        decreases v.len() - i,
    {
        let c = v[i];
        let ok = ('0' <= c && c <= '9') || ('a' <= c && c <= 'z') || ('A' <= c && c <= 'Z') || c == '-'
            || c == '_' || c == '.';
        if !ok {
            assert(!id_char(id@[i as int]));
            return Err(owned("invalid patch id characters"));
        }
        i = i + 1;
    }
    Ok(())
}

/// The text with line breaks and tabs turned into spaces.
pub open spec fn sanitized(s: Seq<char>) -> Seq<char> {
    Seq::new(s.len(), |i: int| if s[i] == '\n' || s[i] == '\r' || s[i] == '\t' { ' ' } else { s[i] })
}

/// Replaces `\n`, `\r` and `\t` with spaces, so the text fits on one line.
pub fn sanitize_line(s: &str) -> (r: String)
    ensures
        r@ == sanitized(s@),
{
    let v = chars_of(s);
    let mut out: Vec<char> = Vec::new();
    let mut i: usize = 0;
    while i < v.len()
        invariant
            i <= v@.len(),
            v@ == s@,
            out@ == sanitized(s@).take(i as int),
        decreases v.len() - i,
    {
        let c = v[i];
        if c == '\n' || c == '\r' || c == '\t' {
            out.push(' ');
        } else {
            out.push(c);
        }
        i = i + 1;
        assert(out@ =~= sanitized(s@).take(i as int));
    }
    assert(sanitized(s@).take(i as int) =~= sanitized(s@));
    crate::text::string_of(&out)
}

// ---------------------------------------------------------------------------
// Patch metadata
// ---------------------------------------------------------------------------

/// The metadata file of a patch, given the debug text of its files.
pub open spec fn meta_text(id: Seq<char>, objective: Seq<char>, files: Seq<char>, checksum: Seq<char>) -> Seq<
    char,
> {
    "id="@ + id + "\nobjective="@ + sanitized(objective) + "\nfiles="@ + files + "\nchecksum="@ + checksum
        + "\n"@
}

/// Why a new patch is refused, if it is.
pub open spec fn new_patch_problem(diff: Seq<char>) -> Option<Seq<char>> {
    if utf8_len(diff) > MAX_PATCH_BYTES {
        Some("patch too large: "@ + dec(utf8_len(diff)) + " bytes"@)
    } else {
        None
    }
}

/// A new patch made at time `ts` (seconds): its proposal, with identifier
/// `patch-<ts>`, and its metadata text; refused when the diff is too large.
pub fn prepare_patch(objective: &str, diff: String, files: Vec<String>, ts: u64) -> (r: Result<
    (PatchProposal, String),
    String,
>)
    ensures
        match r {
            Ok((p, meta)) => {
                &&& new_patch_problem(diff@) is None
                &&& p.id@ == "patch-"@ + dec(ts as nat)
                &&& p.objective@ == objective@
                &&& p.diff@ == diff@
                &&& p.files@ == files@
                &&& meta@ == meta_text(p.id@, objective@, debug_list(views(files@)), checksum_text(diff@))
                &&& patch_id_problem(p.id@) is None
                &&& loaded_patch(p.id@, p.diff@, meta@) == Ok::<(Seq<char>, Seq<char>), Seq<char>>(
                    (sanitized(objective@), diff@),
                )
            },
            Err(m) => new_patch_problem(diff@) == Some(m@),
        },
{
    let n = crate::text::byte_len(diff.as_str());
    if n > MAX_PATCH_BYTES {
        let mut m = owned("patch too large: ");
        push_dec(&mut m, n as u64);
        push_str(&mut m, " bytes");
        return Err(m);
    }
    let mut id = owned("patch-");
    push_dec(&mut id, ts);
    proof {
        lemma_stamp_id_valid(ts as nat);
    }
    let checksum = checksum_str(diff.as_str());
    let mut meta = owned("id=");
    push_str(&mut meta, id.as_str());
    push_str(&mut meta, "\nobjective=");
    let o = sanitize_line(objective);
    push_str(&mut meta, o.as_str());
    push_str(&mut meta, "\nfiles=");
    let f = debug_strings(&files);
    push_str(&mut meta, f.as_str());
    push_str(&mut meta, "\nchecksum=");
    push_str(&mut meta, checksum.as_str());
    push_str(&mut meta, "\n");
    proof {
        law_patch_roundtrip(id@, objective@, f@, diff@);
    }
    Ok((PatchProposal { id, objective: owned(objective), diff, files }, meta))
}

/// What loading a patch from its diff and metadata texts gives.
pub open spec fn loaded_patch(id: Seq<char>, diff: Seq<char>, meta: Seq<char>) -> Result<
    (Seq<char>, Seq<char>),
    Seq<char>,
> {
    let ls = lines(meta);
    if first_stripped(ls, "id="@) != Some(id) {
        Err("meta id mismatch"@)
    } else {
        let objective = match first_stripped(ls, "objective="@) {
            Some(o) => o,
            None => "unknown objective"@,
        };
        match first_stripped(ls, "checksum="@) {
            None => Err("meta checksum missing"@),
            Some(c) => if c != checksum_text(diff) {
                Err("meta checksum mismatch"@)
            } else {
                Ok((objective, diff))
            },
        }
    }
}

/// Rebuilds a patch from its stored diff and metadata texts: the metadata
/// must name the patch and carry the diff's checksum.
pub fn patch_from_texts(id: &str, diff: String, meta: &str) -> (r: Result<PatchProposal, String>)
    ensures
        match r {
            Ok(p) => loaded_patch(id@, diff@, meta@) == Ok::<(Seq<char>, Seq<char>), Seq<char>>((p.objective@, p.diff@))
                && p.id@ == id@ && p.files@.len() == 0,
            Err(m) => loaded_patch(id@, diff@, meta@) == Err::<(Seq<char>, Seq<char>), Seq<char>>(m@),
        },
{
    let ls = str_lines(meta);
    let idv = chars_of(id);
    match first_stripped_of(&ls, &chars_of("id=")) {
        Some(v) => {
            if !crate::text::chars_eq(&v, &idv) {
                return Err(owned("meta id mismatch"));
            }
        },
        None => {
            return Err(owned("meta id mismatch"));
        },
    }
    let objective = match first_stripped_of(&ls, &chars_of("objective=")) {
        Some(o) => crate::text::string_of(&o),
        None => owned("unknown objective"),
    };
    let saved = match first_stripped_of(&ls, &chars_of("checksum=")) {
        Some(c) => c,
        None => {
            return Err(owned("meta checksum missing"));
        },
    };
    let actual = checksum_str(diff.as_str());
    let rv = chars_of(actual.as_str());
    if !crate::text::chars_eq(&saved, &rv) {
        return Err(owned("meta checksum mismatch"));
    }
    Ok(PatchProposal { id: owned(id), objective, diff, files: Vec::new() })
}

// ---------------------------------------------------------------------------
// Reviews
// ---------------------------------------------------------------------------

/// The body of a stored review.
pub open spec fn review_payload_text(r: PatchReview) -> Seq<char> {
    "summary="@ + sanitized(r.summary@) + "\nhunks="@ + dec(r.hunk_count as nat) + "\nrisk_score="@ + dec(
        r.risk.score as nat,
    ) + "\nallowed="@ + bool_text(r.risk.allowed) + "\nreasons="@ + sanitized(
        join(views(r.risk.reasons@), " | "@),
    ) + "\ncritical="@ + sanitized(join(views(r.risk.critical_files@), " | "@)) + "\nrecommendation="@
        + sanitized(r.risk.recommendation@) + "\n"@
}

/// A stored review file: the body, then a line with the body's checksum.
pub open spec fn review_file_text(payload: Seq<char>) -> Seq<char> {
    payload + "checksum="@ + checksum_text(payload) + "\n"@
}

/// The text of the review file stored for a patch review.
pub fn review_file(review: &PatchReview) -> (r: String)
    ensures
        r@ == review_file_text(review_payload_text(*review)),
{
    let mut p = owned("summary=");
    let t = sanitize_line(review.summary.as_str());
    push_str(&mut p, t.as_str());
    push_str(&mut p, "\nhunks=");
    push_dec(&mut p, review.hunk_count as u64);
    push_str(&mut p, "\nrisk_score=");
    push_dec(&mut p, review.risk.score as u64);
    push_str(&mut p, "\nallowed=");
    push_bool(&mut p, review.risk.allowed);
    push_str(&mut p, "\nreasons=");
    let j = join_strings(&review.risk.reasons, " | ");
    let t = sanitize_line(j.as_str());
    push_str(&mut p, t.as_str());
    push_str(&mut p, "\ncritical=");
    let j = join_strings(&review.risk.critical_files, " | ");
    let t = sanitize_line(j.as_str());
    push_str(&mut p, t.as_str());
    push_str(&mut p, "\nrecommendation=");
    let t = sanitize_line(review.risk.recommendation.as_str());
    push_str(&mut p, t.as_str());
    push_str(&mut p, "\n");
    let c = checksum_str(p.as_str());
    let mut f = crate::text::copy_string(&p);
    push_str(&mut f, "checksum=");
    push_str(&mut f, c.as_str());
    push_str(&mut f, "\n");
    f
}

/// What reading a stored review gives: its body, when the last line holds
/// the body's checksum.
pub open spec fn checked_review(text: Seq<char>) -> Result<Seq<char>, Seq<char>> {
    let ls = lines(text);
    if ls.len() == 0 {
        Err("review is empty"@)
    } else {
        match crate::text::strip_prefix(ls.last(), "checksum="@) {
            None => Err("review checksum missing"@),
            Some(saved) => {
                let payload = join(ls.drop_last(), "\n"@) + "\n"@;
                if checksum_text(payload) != saved {
                    Err("review checksum mismatch"@)
                } else {
                    Ok(payload)
                }
            },
        }
    }
}

/// Checks a stored review against its checksum and gives its body.
pub fn review_from_text(text: &str) -> (r: Result<String, String>)
    ensures
        match r {
            Ok(p) => checked_review(text@) == Ok::<Seq<char>, Seq<char>>(p@),
            Err(m) => checked_review(text@) == Err::<Seq<char>, Seq<char>>(m@),
        },
{
    let ls = str_lines(text);
    let n = ls.len();
    if n == 0 {
        return Err(owned("review is empty"));
    }
    let saved = match crate::text::strip_prefix_chars(&ls[n - 1], &chars_of("checksum=")) {
        Some(c) => c,
        None => {
            return Err(owned("review checksum missing"));
        },
    };
    let mut payload = String::new();
    let mut i: usize = 0;
    let ghost body = vviews(ls@).drop_last();
    while i + 1 < n
        invariant
            n == ls@.len(),
            n >= 1,
            i + 1 <= n,
            body == vviews(ls@).drop_last(),
            payload@ == join(body.take(i as int), "\n"@),
        decreases n - i,
    {
        if i > 0 {
            push_str(&mut payload, "\n");
        }
        push_chars(&mut payload, &ls[i]);
        i = i + 1;
        assert(body.take(i as int).drop_last() =~= body.take(i - 1));
        assert(body.take(i as int).last() == ls@[i - 1]@);
    }
    assert(body.take(i as int) =~= body);
    push_str(&mut payload, "\n");
    let actual = checksum_str(payload.as_str());
    let av = chars_of(actual.as_str());
    if !crate::text::chars_eq(&saved, &av) {
        return Err(owned("review checksum mismatch"));
    }
    Ok(payload)
}

// ---------------------------------------------------------------------------
// Approvals
// ---------------------------------------------------------------------------

/// Where the approval of a patch is recorded.
pub fn approval_file(id: &str) -> (r: String)
    ensures
        r@ == ".pata/approvals/"@ + id@ + ".ok"@,
{
    let mut r = owned(".pata/approvals/");
    push_str(&mut r, id);
    push_str(&mut r, ".ok");
    r
}

/// The approval record of a patch at time `ts`.
pub open spec fn approval_text(decision: Seq<char>, ts: nat) -> Seq<char> {
    "approved=true\ndecision="@ + sanitized(decision) + "\nts="@ + dec(ts) + "\n"@
}

/// Why an approval is refused, if it is.
pub open spec fn approval_problem(id: Seq<char>, decision: Seq<char>) -> Option<Seq<char>> {
    match patch_id_problem(id) {
        Some(m) => Some(m),
        None => if utf8_len(decision) > 300 {
            Some("approval decision too long"@)
        } else {
            None
        },
    }
}

/// The approval record for a patch, or why it is refused.
pub fn approval_record(id: &str, decision: &str, ts: u64) -> (r: Result<String, String>)
    ensures
        match r {
            Ok(t) => approval_problem(id@, decision@) is None && t@ == approval_text(decision@, ts as nat),
            Err(m) => approval_problem(id@, decision@) == Some(m@),
        },
{
    match validate_patch_id(id) {
        Err(m) => {
            return Err(m);
        },
        Ok(()) => {},
    }
    if crate::text::byte_len(decision) > 300 {
        return Err(owned("approval decision too long"));
    }
    let mut t = owned("approved=true\ndecision=");
    let d = sanitize_line(decision);
    push_str(&mut t, d.as_str());
    push_str(&mut t, "\nts=");
    push_dec(&mut t, ts);
    push_str(&mut t, "\n");
    Ok(t)
}

/// An approval record is valid when one of its lines, trimmed, reads
/// `approved=true`.
pub open spec fn approval_valid(text: Seq<char>) -> bool {
    exists|i: int| 0 <= i < lines(text).len() && trim(#[trigger] lines(text)[i]) == "approved=true"@
}

/// Whether an approval record approves the patch.
pub fn approval_is_valid(text: &str) -> (r: bool)
    ensures
        r == approval_valid(text@),
{
    let ls = str_lines(text);
    let want = chars_of("approved=true");
    let mut i: usize = 0;
    while i < ls.len()
        invariant
            i <= ls@.len(),
            vviews(ls@) == lines(text@),
            want@ == "approved=true"@,
            forall|j: int| 0 <= j < i ==> trim(#[trigger] lines(text@)[j]) != "approved=true"@,
        decreases ls.len() - i,
    {
        let t = crate::text::trim_chars(&ls[i]);
        assert(lines(text@)[i as int] == ls@[i as int]@);
        if crate::text::chars_eq(&t, &want) {
            return true;
        }
        i = i + 1;
    }
    false
}

// ---------------------------------------------------------------------------
// Laws
// ---------------------------------------------------------------------------

proof fn lemma_sanitized_clean(s: Seq<char>)
    ensures
        crate::text::no_cr(sanitized(s)),
        crate::text::no_nl(sanitized(s)),
{
}

/// A review body is a run of lines, each ending with a line break, with no
/// carriage return.
proof fn lemma_payload_clean(r: PatchReview)
    ensures
        crate::text::no_cr(review_payload_text(r)),
        review_payload_text(r).len() > 0,
        review_payload_text(r).last() == '\n',
{
    reveal_strlit("summary=");
    reveal_strlit("\nhunks=");
    reveal_strlit("\nrisk_score=");
    reveal_strlit("\nallowed=");
    reveal_strlit("\nreasons=");
    reveal_strlit("\ncritical=");
    reveal_strlit("\nrecommendation=");
    reveal_strlit("\n");
    reveal_strlit("true");
    reveal_strlit("false");
    lemma_sanitized_clean(r.summary@);
    lemma_sanitized_clean(join(views(r.risk.reasons@), " | "@));
    lemma_sanitized_clean(join(views(r.risk.critical_files@), " | "@));
    lemma_sanitized_clean(r.risk.recommendation@);
    crate::text::lemma_dec_clean(r.hunk_count as nat);
    crate::text::lemma_dec_clean(r.risk.score as nat);
    let p = review_payload_text(r);
    let a1 = "summary="@ + sanitized(r.summary@);
    crate::text::lemma_clean_concat("summary="@, sanitized(r.summary@));
    let a2 = a1 + "\nhunks="@;
    crate::text::lemma_clean_concat(a1, "\nhunks="@);
    let a3 = a2 + dec(r.hunk_count as nat);
    crate::text::lemma_clean_concat(a2, dec(r.hunk_count as nat));
    let a4 = a3 + "\nrisk_score="@;
    crate::text::lemma_clean_concat(a3, "\nrisk_score="@);
    let a5 = a4 + dec(r.risk.score as nat);
    crate::text::lemma_clean_concat(a4, dec(r.risk.score as nat));
    let a6 = a5 + "\nallowed="@;
    crate::text::lemma_clean_concat(a5, "\nallowed="@);
    let a7 = a6 + bool_text(r.risk.allowed);
    crate::text::lemma_clean_concat(a6, bool_text(r.risk.allowed));
    let a8 = a7 + "\nreasons="@;
    crate::text::lemma_clean_concat(a7, "\nreasons="@);
    let a9 = a8 + sanitized(join(views(r.risk.reasons@), " | "@));
    crate::text::lemma_clean_concat(a8, sanitized(join(views(r.risk.reasons@), " | "@)));
    let a10 = a9 + "\ncritical="@;
    crate::text::lemma_clean_concat(a9, "\ncritical="@);
    let a11 = a10 + sanitized(join(views(r.risk.critical_files@), " | "@));
    crate::text::lemma_clean_concat(a10, sanitized(join(views(r.risk.critical_files@), " | "@)));
    let a12 = a11 + "\nrecommendation="@;
    crate::text::lemma_clean_concat(a11, "\nrecommendation="@);
    let a13 = a12 + sanitized(r.risk.recommendation@);
    crate::text::lemma_clean_concat(a12, sanitized(r.risk.recommendation@));
    let a14 = a13 + "\n"@;
    crate::text::lemma_clean_concat(a13, "\n"@);
    assert(p == a14);
}

/// Reading back a stored review gives the stored body: the checksum line
/// written after the body is accepted by the reader.
pub proof fn law_review_roundtrip(r: PatchReview)
    ensures
        checked_review(review_file_text(review_payload_text(r))) == Ok::<Seq<char>, Seq<char>>(
            review_payload_text(r),
        ),
{
    let p = review_payload_text(r);
    let c = checksum_text(p);
    reveal_strlit("checksum=");
    reveal_strlit("\n");
    lemma_payload_clean(r);
    crate::checksum::lemma_checksum_clean(p);
    let x = "checksum="@ + c;
    crate::text::lemma_clean_concat("checksum="@, c);
    assert(review_file_text(p) =~= p + (x + seq!['\n']));
    crate::text::lemma_lines_append(p, x + seq!['\n']);
    crate::text::lemma_lines_single(x);
    assert(x.last() != '\r');
    assert(crate::text::strip_cr(x) == x);
    let ls = lines(review_file_text(p));
    assert(ls == lines(p) + seq![x]);
    assert(ls.drop_last() =~= lines(p));
    assert(ls.last() == x);
    assert(crate::text::has_prefix(x, "checksum="@)) by {
        assert(x.take(9) =~= "checksum="@);
    }
    assert(x.skip(9) =~= c);
    crate::text::lemma_join_lines(p);
    assert("\n"@ == seq!['\n']);
    assert(join(ls.drop_last(), "\n"@) + "\n"@ == p);
}

/// Powers of ten.
pub open spec fn pow10(k: nat) -> nat
    decreases k,
{
    if k == 0 {
        1
    } else {
        10 * pow10((k - 1) as nat)
    }
}

proof fn lemma_dec_shape(n: nat, k: nat)
    requires
        n < pow10(k),
    ensures
        dec(n).len() <= k || (k == 0),
        dec(n).len() <= k + 1,
        forall|i: int| 0 <= i < dec(n).len() ==> '0' <= #[trigger] dec(n)[i] <= '9',
    decreases n,
{
    if n >= 10 {
        if k > 0 {
            lemma_dec_shape(n / 10, (k - 1) as nat);
        } else {
            lemma_dec_shape(n / 10, 0);
        }
        assert(dec(n) =~= dec(n / 10).push(crate::text::digit(n % 10)));
    }
}

proof fn lemma_pow10_20()
    ensures
        pow10(20) == 100000000000000000000nat,
{
    reveal_with_fuel(pow10, 21);
}

/// The identifier `patch-<ts>` of a new patch is valid.
proof fn lemma_stamp_id_valid(ts: nat)
    requires
        ts <= u64::MAX,
    ensures
        patch_id_problem("patch-"@ + dec(ts)) is None,
{
    reveal_strlit("patch-");
    lemma_pow10_20();
    lemma_dec_shape(ts, 20);
    let id = "patch-"@ + dec(ts);
    assert forall|i: int| 0 <= i < id.len() implies id_char(#[trigger] id[i]) by {
        if i >= 6 {
            assert(id[i] == dec(ts)[i - 6]);
        }
    }
    assert(vstd::utf8::is_ascii_chars(id)) by {
        assert forall|i: int| 0 <= i < id.len() implies '\0' <= #[trigger] id[i] <= '\u{7f}' by {
            if i >= 6 {
                assert(id[i] == dec(ts)[i - 6]);
            }
        }
    }
    vstd::utf8::is_ascii_chars_encode_utf8(id);
}

/// Loading a patch written with a valid identifier gives back its
/// objective, on one line, and its diff: the metadata names the patch and
/// carries the diff's checksum.
pub proof fn law_patch_roundtrip(id: Seq<char>, objective: Seq<char>, files: Seq<char>, diff: Seq<char>)
    requires
        patch_id_problem(id) is None,
        crate::text::no_nl(files),
        crate::text::no_cr(files),
    ensures
        loaded_patch(id, diff, meta_text(id, objective, files, checksum_text(diff))) == Ok::<
            (Seq<char>, Seq<char>),
            Seq<char>,
        >((sanitized(objective), diff)),
{
    reveal_strlit("id=");
    reveal_strlit("\nobjective=");
    reveal_strlit("objective=");
    reveal_strlit("\nfiles=");
    reveal_strlit("files=");
    reveal_strlit("\nchecksum=");
    reveal_strlit("checksum=");
    reveal_strlit("\n");
    let c = checksum_text(diff);
    crate::checksum::lemma_checksum_clean(diff);
    lemma_sanitized_clean(objective);
    let so = sanitized(objective);
    assert(crate::text::no_nl(id) && crate::text::no_cr(id)) by {
        assert forall|i: int| 0 <= i < id.len() implies id[i] != '\n' && id[i] != '\r' by {
            assert(id_char(id[i]));
        }
    }
    let l0 = "id="@ + id;
    let l1 = "objective="@ + so;
    let l2 = "files="@ + files;
    let l3 = "checksum="@ + c;
    crate::text::lemma_clean_concat("id="@, id);
    crate::text::lemma_clean_concat("objective="@, so);
    crate::text::lemma_clean_concat("files="@, files);
    crate::text::lemma_clean_concat("checksum="@, c);
    let nl = seq!['\n'];
    let m = meta_text(id, objective, files, c);
    assert("\nobjective="@ =~= nl + "objective="@);
    assert("\nfiles="@ =~= nl + "files="@);
    assert("\nchecksum="@ =~= nl + "checksum="@);
    assert("\n"@ =~= nl);
    assert(m =~= (l0 + nl) + ((l1 + nl) + ((l2 + nl) + (l3 + nl))));
    crate::text::lemma_lines_single(l0);
    crate::text::lemma_lines_single(l1);
    crate::text::lemma_lines_single(l2);
    crate::text::lemma_lines_single(l3);
    assert(l0.len() > 0 && l1.len() > 0 && l2.len() > 0 && l3.len() > 0);
    assert(crate::text::strip_cr(l0) == l0);
    assert(crate::text::strip_cr(l1) == l1);
    assert(crate::text::strip_cr(l2) == l2);
    assert(crate::text::strip_cr(l3) == l3);
    crate::text::lemma_lines_append(l2 + nl, l3 + nl);
    crate::text::lemma_lines_append(l1 + nl, (l2 + nl) + (l3 + nl));
    crate::text::lemma_lines_append(l0 + nl, (l1 + nl) + ((l2 + nl) + (l3 + nl)));
    let ls = lines(m);
    assert(ls =~= seq![l0, l1, l2, l3]);
    assert(crate::text::has_prefix(l0, "id="@)) by {
        assert(l0.take(3) =~= "id="@);
    }
    assert(l0.skip(3) =~= id);
    assert(!crate::text::has_prefix(l0, "objective="@)) by {
        assert(l0[0] != "objective="@[0]);
    }
    assert(crate::text::has_prefix(l1, "objective="@)) by {
        assert(l1.take(10) =~= "objective="@);
    }
    assert(l1.skip(10) =~= so);
    assert(!crate::text::has_prefix(l0, "checksum="@)) by {
        assert(l0[0] != "checksum="@[0]);
    }
    assert(!crate::text::has_prefix(l1, "checksum="@)) by {
        assert(l1[0] != "checksum="@[0]);
    }
    assert(!crate::text::has_prefix(l2, "checksum="@)) by {
        assert(l2[0] != "checksum="@[0]);
    }
    assert(crate::text::has_prefix(l3, "checksum="@)) by {
        assert(l3.take(9) =~= "checksum="@);
    }
    assert(l3.skip(9) =~= c);
    assert(ls.drop_first() =~= seq![l1, l2, l3]);
    assert(ls.drop_first().drop_first() =~= seq![l2, l3]);
    assert(ls.drop_first().drop_first().drop_first() =~= seq![l3]);
    assert(first_stripped(ls, "id="@) == Some(id));
    assert(first_stripped(ls.drop_first(), "objective="@) == Some(so));
    assert(first_stripped(ls, "objective="@) == Some(so));
    assert(first_stripped(ls.drop_first().drop_first().drop_first(), "checksum="@) == Some(c));
    assert(first_stripped(ls.drop_first().drop_first(), "checksum="@) == Some(c));
    assert(first_stripped(ls.drop_first(), "checksum="@) == Some(c));
    assert(first_stripped(ls, "checksum="@) == Some(c));
}

} // verus!
